use mzr::security::generate_key;
use mzr::session::{MZR_KEY, MZR_PARAMETER};

#[test]
fn derives_reference_key_for_known_seed() {
    let key = generate_key(MZR_KEY, MZR_PARAMETER, &[0x12, 0x34, 0x56]);
    assert_eq!(key, [0x86, 0xCA, 0x06]);
}

#[test]
fn derives_reference_key_for_zero_seed() {
    let key = generate_key(MZR_KEY, MZR_PARAMETER, &[0x00, 0x00, 0x00]);
    assert_eq!(key, [0x41, 0xCE, 0x7B]);
}

#[test]
fn derives_reference_key_for_all_ones_seed() {
    let key = generate_key(MZR_KEY, MZR_PARAMETER, &[0xFF, 0xFF, 0xFF]);
    assert_eq!(key, [0x2A, 0x33, 0xA2]);
}

#[test]
fn key_derivation_is_a_pure_function() {
    let seed = [0x0Du8, 0xEE, 0x42];
    let a = generate_key(MZR_KEY, MZR_PARAMETER, &seed);
    let b = generate_key(MZR_KEY, MZR_PARAMETER, &seed);
    assert_eq!(a, b);
    let c = generate_key(MZR_KEY, MZR_PARAMETER, &[0x0D, 0xEE, 0x43]);
    assert_ne!(a, c);
}

#[test]
fn terminates_and_packs_parameter_for_empty_inputs() {
    // With an empty seed the secret's bytes alone are mixed.
    assert_eq!(generate_key(MZR_KEY, MZR_PARAMETER, &[]), [0xD9, 0xF2, 0xF9]);
    // With an empty seed and an empty secret nothing is mixed at all: the
    // output is the parameter itself, repacked.
    assert_eq!(generate_key("", MZR_PARAMETER, &[]), [0x1A, 0x4C, 0x95]);
}
