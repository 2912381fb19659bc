//! Bit-level views of byte sequences shared by the bitstream parsers.

use vstd::prelude::*;

verus! {

/// `2^n` over the naturals.
pub open spec fn two_pow(n: nat) -> nat
    decreases n,
{
    if n == 0 {
        1
    } else {
        2 * two_pow((n - 1) as nat)
    }
}

/// Bit `k` of `s`, counting from the most significant bit of `s[0]`.
pub open spec fn bit_at(s: Seq<u8>, k: int) -> u8 {
    (s[k / 8] >> ((7 - k % 8) as u8)) & 1u8
}

/// The `n` bits of `s` that start at bit `start`, read most significant first.
pub open spec fn bits_msb(s: Seq<u8>, start: int, n: nat) -> nat
    decreases n,
{
    if n == 0 {
        0
    } else {
        2 * bits_msb(s, start, (n - 1) as nat) + bit_at(s, start + n - 1) as nat
    }
}

pub proof fn lemma_bit_is_0_or_1(b: u8, sh: u8)
    ensures
        (b >> sh) & 1u8 == 0 || (b >> sh) & 1u8 == 1,
{
    assert((b >> sh) & 1u8 == 0 || (b >> sh) & 1u8 == 1) by (bit_vector);
}

pub proof fn lemma_two_pow_pos(n: nat)
    ensures
        two_pow(n) >= 1,
    decreases n,
{
    if n > 0 {
        lemma_two_pow_pos((n - 1) as nat);
    }
}

pub proof fn lemma_two_pow_mono(a: nat, b: nat)
    requires
        a <= b,
    ensures
        two_pow(a) <= two_pow(b),
    decreases b,
{
    if a < b {
        lemma_two_pow_mono(a, (b - 1) as nat);
    }
}

/// `n` bits never hold a value of `2^n` or more.
pub proof fn lemma_bits_msb_bound(s: Seq<u8>, start: int, n: nat)
    requires
        0 <= start,
        start + n <= 8 * s.len(),
    ensures
        bits_msb(s, start, n) < two_pow(n),
    decreases n,
{
    if n > 0 {
        lemma_bits_msb_bound(s, start, (n - 1) as nat);
        let k = start + n - 1;
        lemma_bit_is_0_or_1(s[k / 8], (7 - k % 8) as u8);
    }
}

/// The bits of a prefix are the bits of the whole.
pub proof fn lemma_bits_msb_prefix(s: Seq<u8>, t: Seq<u8>, start: int, n: nat)
    requires
        0 <= start,
        start + n <= 8 * s.len(),
        s.len() <= t.len(),
        forall|i: int| 0 <= i < s.len() ==> s[i] == t[i],
    ensures
        bits_msb(s, start, n) == bits_msb(t, start, n),
    decreases n,
{
    if n > 0 {
        lemma_bits_msb_prefix(s, t, start, (n - 1) as nat);
        let k = start + n - 1;
        assert(k / 8 < s.len());
    }
}

} // verus!
