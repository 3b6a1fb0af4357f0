//! ROM checksum computation and correction.
//!
//! A ROM region is checksummed as the sum of its big-endian 32-bit words,
//! modulo 2^32. The correction routine rewrites the first word of the
//! region so that the whole region sums to a given target value.

use vstd::prelude::*;
use vstd::arithmetic::div_mod::{lemma_add_mod_noop, lemma_mod_self_0, lemma_small_mod};

verus! {

/// The big-endian 32-bit word starting at byte offset `i` of `data`.
pub open spec fn be_word_at(data: Seq<u8>, i: int) -> int {
    data[i] * 0x100_0000 + data[i + 1] * 0x1_0000 + data[i + 2] * 0x100 + data[i + 3]
}

/// Sum (over the integers) of the first `n` big-endian 32-bit words of `data`.
pub open spec fn word_sum(data: Seq<u8>, n: int) -> int
    decreases n,
{
    if n <= 0 {
        0
    } else {
        word_sum(data, n - 1) + be_word_at(data, 4 * (n - 1))
    }
}

/// The checksum of `data`: the wrapping sum of its big-endian 32-bit words.
pub open spec fn checksum_of(data: Seq<u8>) -> int {
    word_sum(data, data.len() as int / 4) % 0x1_0000_0000
}

proof fn lemma_be_word_bounds(data: Seq<u8>, i: int)
    requires
        0 <= i,
        i + 4 <= data.len(),
    ensures
        0 <= be_word_at(data, i) < 0x1_0000_0000,
{
}

/// Computes the checksum of `data`: the sum of its big-endian 32-bit
/// words, modulo 2^32.
pub fn compute_checksum(data: &[u8]) -> (r: u32)
    requires
        data@.len() % 4 == 0,
    ensures
        r == checksum_of(data@),
{
    let n: usize = data.len();
    let words: usize = n / 4;
    let mut sum: u32 = 0;
    let mut k: usize = 0;
    proof {
        assert(data@.len() == 4 * words);
    }
    while k < words
        invariant
            data@.len() == n,
            n == 4 * words,
            k <= words,
            sum == word_sum(data@, k as int) % 0x1_0000_0000,
        decreases words - k,
    {
        let w: u32 = (data[4 * k] as u32) * 0x100_0000 + (data[4 * k + 1] as u32) * 0x1_0000
            + (data[4 * k + 2] as u32) * 0x100 + (data[4 * k + 3] as u32);
        proof {
            assert(w == be_word_at(data@, 4 * k as int));
            lemma_be_word_bounds(data@, 4 * k as int);
            lemma_small_mod(w as nat, 0x1_0000_0000);
            lemma_add_mod_noop(word_sum(data@, k as int), w as int, 0x1_0000_0000);
        }
        sum = (((sum as u64) + (w as u64)) % 0x1_0000_0000) as u32;
        k = k + 1;
    }
    sum
}

/// Changing only the first word of a region shifts its word sum by exactly
/// the difference between the old and the new first word.
proof fn lemma_word_sum_first_word(a: Seq<u8>, b: Seq<u8>, n: int)
    requires
        1 <= n,
        4 * n <= a.len(),
        a.len() == b.len(),
        forall|i: int| 4 <= i < a.len() ==> a[i] == b[i],
    ensures
        word_sum(a, n) - be_word_at(a, 0) == word_sum(b, n) - be_word_at(b, 0),
    decreases n,
{
    if n == 1 {
        assert(word_sum(a, 1) == word_sum(a, 0) + be_word_at(a, 0));
        assert(word_sum(a, 0) == 0);
        assert(word_sum(b, 0) == 0);
    } else {
        lemma_word_sum_first_word(a, b, n - 1);
        assert(be_word_at(a, 4 * (n - 1)) == be_word_at(b, 4 * (n - 1)));
    }
}

/// Rewrites the first 32-bit word of `data` (big-endian) so that the
/// checksum of the whole region equals `target`, and reports whether the
/// correction succeeded - which it always does. Bytes past the first
/// word are left untouched.
pub fn correct_checksum(data: &mut [u8], target: u32) -> (r: bool)
    requires
        old(data)@.len() % 4 == 0,
        old(data)@.len() >= 4,
    ensures
        r,
        checksum_of(final(data)@) == target,
        final(data)@.len() == old(data)@.len(),
        forall|i: int| 4 <= i < old(data)@.len() ==> final(data)@[i] == old(data)@[i],
{
    // Zero the correction region.
    data[0] = 0;
    data[1] = 0;
    data[2] = 0;
    data[3] = 0;

    let sum = compute_checksum(data);
    let ghost zeroed = data@;
    // Wrapping difference between the target and the zeroed sum.
    let correction: u32 = (((target as u64) + 0x1_0000_0000 - (sum as u64)) % 0x1_0000_0000) as u32;
    data[0] = (correction / 0x100_0000) as u8;
    data[1] = ((correction / 0x1_0000) % 0x100) as u8;
    data[2] = ((correction / 0x100) % 0x100) as u8;
    data[3] = (correction % 0x100) as u8;

    proof {
        let m = 0x1_0000_0000int;
        let n = zeroed.len() as int / 4;
        assert(be_word_at(data@, 0) == correction) by {
            assert(correction == (correction / 0x100_0000) * 0x100_0000 + ((correction / 0x1_0000)
                % 0x100) * 0x1_0000 + ((correction / 0x100) % 0x100) * 0x100 + (correction
                % 0x100)) by (bit_vector);
        }
        assert(be_word_at(zeroed, 0) == 0);
        lemma_word_sum_first_word(data@, zeroed, n);
        assert(word_sum(data@, n) == word_sum(zeroed, n) + correction);
        // (s + ((t - s) mod m)) mod m == t, for 0 <= t < m.
        lemma_add_mod_noop(word_sum(zeroed, n), correction as int, m);
        lemma_add_mod_noop(sum as int, correction as int, m);
        lemma_small_mod(sum as nat, m as nat);
        lemma_small_mod(correction as nat, m as nat);
        assert((sum + correction) % m == target) by {
            assert(correction == (target + m - sum) % m);
            lemma_add_mod_noop(sum as int, (target + m - sum) % m, m);
            lemma_add_mod_noop(sum as int, target + m - sum, m);
            lemma_small_mod(sum as nat, m as nat);
            assert((sum + (target + m - sum)) % m == (target + m) % m);
            lemma_mod_self_0(m);
            lemma_add_mod_noop(target as int, m, m);
            lemma_small_mod(target as nat, m as nat);
        }
    }
    compute_checksum(data) == target
}

} // verus!
