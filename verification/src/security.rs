//! Security-access key derivation.
//!
//! The ECU guards privileged diagnostic sessions behind a seed/key
//! challenge: it hands out a seed, and the client must answer with the
//! 3-byte key that this algorithm derives from the seed, a shared secret
//! string and a fixed 24-bit parameter. The algorithm reproduces a
//! specific vendor challenge-response scheme bit for bit; any deviation
//! produces a key the ECU rejects, so the executable code is proved equal
//! to the recursive definition below.

use vstd::prelude::*;
use vstd::string::StringSliceAdditionalSpecFns;

verus! {

/// One bit-rotation step: the low bit of the byte being consumed is
/// XORed with the accumulator's low bit; if the result is 1, a fixed high
/// bit is planted and a fixed mixing mask prepared; byte and accumulator
/// then shift right, and the mask is applied through a fixed
/// AND/XOR/AND/OR sequence that re-masks the accumulator to 24 bits.
pub open spec fn key_step(c: u8, parameter: u32) -> (u8, u32) {
    let s = (c & 1) ^ ((parameter & 1) as u8);
    let p1 = if s != 0 {
        parameter | 0x0100_0000
    } else {
        parameter
    };
    let m: u32 = if s != 0 {
        0x0010_9028
    } else {
        0
    };
    let c1 = c >> 1;
    let p2 = p1 >> 1;
    let p3 = p2 & 0xFFEF_6FD7;
    let p4 = p2 ^ m;
    let p5 = p4 & 0x0010_9028;
    let p6 = p5 | p3;
    let p7 = p6 & 0x00FF_FFFF;
    (c1, p7)
}

/// `n` rotation steps applied in order.
pub open spec fn key_steps(c: u8, parameter: u32, n: nat) -> (u8, u32)
    decreases n,
{
    if n == 0 {
        (c, parameter)
    } else {
        let prev = key_steps(c, parameter, (n - 1) as nat);
        key_step(prev.0, prev.1)
    }
}

/// The accumulator after consuming one input byte: 8 rotation steps.
pub open spec fn key_mix_byte(c: u8, parameter: u32) -> u32 {
    key_steps(c, parameter, 8).1
}

/// The accumulator after consuming a byte sequence, front to back.
pub open spec fn key_mix_bytes(bytes: Seq<u8>, parameter: u32) -> u32
    decreases bytes.len(),
{
    if bytes.len() == 0 {
        parameter
    } else {
        key_mix_byte(bytes.last(), key_mix_bytes(bytes.drop_last(), parameter))
    }
}

/// The 3 output bytes repacked from the accumulator's low 24 bits.
pub open spec fn key_pack(p: u32) -> Seq<u8> {
    seq![
        ((p >> 4) & 0xFF) as u8,
        ((((p >> 20) & 0xFF) + ((p >> 8) & 0xF0)) as u32) as u8,
        ((((p << 4) & 0xFF) + ((p >> 16) & 0x0F)) as u32) as u8,
    ]
}

/// The key for a seed: the seed's bytes followed by the secret's bytes
/// are mixed into an accumulator seeded with `parameter`, which is then
/// repacked into 3 bytes. Consuming no bytes at all is well-defined: the
/// accumulator is the parameter itself.
pub open spec fn spec_generate_key(secret: Seq<u8>, parameter: u32, seed: Seq<u8>) -> Seq<u8> {
    key_pack(key_mix_bytes(seed + secret, parameter))
}

/// Runs the 8 rotation steps for one input byte.
fn mix_byte(c: u8, parameter: u32) -> (r: u32)
    ensures
        r == key_mix_byte(c, parameter),
{
    let mut cc = c;
    let mut pp = parameter;
    let mut k: usize = 0;
    while k < 8
        invariant
            k <= 8,
            (cc, pp) == key_steps(c, parameter, k as nat),
        decreases 8 - k,
    {
        let s = (cc & 1) ^ ((pp & 1) as u8);
        let mut m: u32 = 0;
        if s != 0 {
            pp = pp | 0x0100_0000;
            m = 0x0010_9028;
        }
        cc = cc >> 1;
        pp = pp >> 1;
        let p3 = pp & 0xFFEF_6FD7;
        pp = pp ^ m;
        pp = pp & 0x0010_9028;
        pp = pp | p3;
        pp = pp & 0x00FF_FFFF;
        proof {
            assert((cc, pp) == key_step(
                key_steps(c, parameter, k as nat).0,
                key_steps(c, parameter, k as nat).1,
            ));
        }
        k = k + 1;
    }
    pp
}

/// Derives the 3-byte security-access key from the shared secret, the
/// fixed mixing parameter and the seed handed out by the ECU. A pure
/// function of its arguments: the result always equals
/// [`spec_generate_key`], so equal inputs give equal keys.
pub fn generate_key(key: &str, parameter: u32, seed: &[u8]) -> (r: [u8; 3])
    ensures
        r@ == spec_generate_key(key.spec_bytes(), parameter, seed@),
{
    let kb: &[u8] = key.as_bytes();
    let mut p: u32 = parameter;
    let mut i: usize = 0;
    while i < seed.len()
        invariant
            i <= seed@.len(),
            p == key_mix_bytes(seed@.take(i as int), parameter),
        decreases seed@.len() - i,
    {
        let ghost before = seed@.take(i as int);
        p = mix_byte(seed[i], p);
        proof {
            assert(seed@.take(i + 1).drop_last() =~= before);
            assert(seed@.take(i + 1).last() == seed@[i as int]);
        }
        i = i + 1;
    }
    proof {
        assert(seed@.take(seed@.len() as int) =~= seed@);
    }
    let mut j: usize = 0;
    while j < kb.len()
        invariant
            j <= kb@.len(),
            kb@ == key.spec_bytes(),
            p == key_mix_bytes(seed@ + kb@.take(j as int), parameter),
        decreases kb@.len() - j,
    {
        let ghost before = seed@ + kb@.take(j as int);
        p = mix_byte(kb[j], p);
        proof {
            assert((seed@ + kb@.take(j + 1)).drop_last() =~= before);
            assert((seed@ + kb@.take(j + 1)).last() == kb@[j as int]);
        }
        j = j + 1;
    }
    proof {
        assert(seed@ + kb@.take(kb@.len() as int) =~= seed@ + key.spec_bytes());
    }
    assert(((p >> 20) & 0xFF) <= 0xFF && ((p >> 8) & 0xF0) <= 0xF0 && ((p << 4) & 0xFF) <= 0xFF
        && ((p >> 16) & 0x0F) <= 0x0F) by (bit_vector);
    let r: [u8; 3] = [
        ((p >> 4) & 0xFF) as u8,
        (((p >> 20) & 0xFF) + ((p >> 8) & 0xF0)) as u8,
        (((p << 4) & 0xFF) + ((p >> 16) & 0x0F)) as u8,
    ];
    proof {
        assert(r@ =~= key_pack(p));
    }
    r
}

} // verus!
