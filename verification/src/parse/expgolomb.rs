//! RBSP de-emulation and unsigned Exp-Golomb (`ue(v)`) decoding of the first
//! bytes of a slice header.

use vstd::prelude::*;
use crate::parse::bits::{bit_at, bits_msb, two_pow, lemma_bits_msb_bound, lemma_two_pow_pos,
    lemma_two_pow_mono, lemma_bit_is_0_or_1, lemma_bits_msb_prefix};

verus! {

/// Removes emulation-prevention bytes: a `0x03` that follows two zero bytes of
/// payload is dropped and restarts the zero count. `zeros` is the number of
/// zero payload bytes that directly precede `s`.
pub open spec fn unescape(s: Seq<u8>, zeros: nat) -> Seq<u8>
    decreases s.len(),
{
    if s.len() == 0 {
        Seq::empty()
    } else if zeros >= 2 && s[0] == 3 {
        unescape(s.drop_first(), 0)
    } else {
        seq![s[0]] + unescape(s.drop_first(), if s[0] == 0 { zeros + 1 } else { 0 })
    }
}

/// Index of the first 1-bit of `w` at or after bit `k`; `8 * w.len()` when
/// there is none.
pub open spec fn first_one_bit(w: Seq<u8>, k: int) -> int
    decreases 8 * w.len() - k,
{
    if k < 0 || k >= 8 * w.len() {
        8 * w.len() as int
    } else if bit_at(w, k) == 1 {
        k
    } else {
        first_one_bit(w, k + 1)
    }
}

/// The unsigned Exp-Golomb code at the start of `w`: `lz` zero bits, a 1-bit,
/// then `lz` more bits `x`, giving `2^lz - 1 + x`. `None` when the code does
/// not end within `w`.
pub open spec fn exp_golomb(w: Seq<u8>) -> Option<u32> {
    let total = 8 * w.len();
    let lz = first_one_bit(w, 0);
    if w.len() == 0 || lz >= total || 2 * lz + 1 > total {
        None
    } else {
        Some((two_pow(lz as nat) - 1 + bits_msb(w, lz + 1, lz as nat)) as u32)
    }
}

/// At most the first eight elements of `s`.
pub open spec fn first8(s: Seq<u8>) -> Seq<u8> {
    if s.len() <= 8 {
        s
    } else {
        s.take(8)
    }
}

/// The first (at most eight) RBSP bytes of `b` from offset `q` on.
pub open spec fn rbsp_window(b: Seq<u8>, q: int) -> Seq<u8> {
    if 0 <= q <= b.len() {
        first8(unescape(b.subrange(q, b.len() as int), 0))
    } else {
        Seq::empty()
    }
}

pub proof fn lemma_unescape_len(s: Seq<u8>, zeros: nat)
    ensures
        unescape(s, zeros).len() <= s.len(),
    decreases s.len(),
{
    if s.len() > 0 {
        lemma_unescape_len(s.drop_first(), if zeros >= 2 && s[0] == 3 { 0 } else if s[0] == 0 { zeros + 1 } else { 0 });
    }
}

/// `p` is a prefix of `q`.
pub open spec fn is_prefix(p: Seq<u8>, q: Seq<u8>) -> bool {
    p.len() <= q.len() && forall|i: int| 0 <= i < p.len() ==> p[i] == q[i]
}

/// De-emulating more bytes only extends what the first bytes gave.
pub proof fn lemma_unescape_append(s: Seq<u8>, t: Seq<u8>, zeros: nat)
    ensures
        is_prefix(unescape(s, zeros), unescape(s + t, zeros)),
    decreases s.len(),
{
    if s.len() > 0 {
        let c = s + t;
        assert(c[0] == s[0]);
        assert(c.drop_first() =~= s.drop_first() + t);
        let z = if s[0] == 0 { zeros + 1 } else { 0 };
        if zeros >= 2 && s[0] == 3 {
            lemma_unescape_append(s.drop_first(), t, 0);
        } else {
            lemma_unescape_append(s.drop_first(), t, z);
            let u = unescape(s.drop_first(), z);
            let v = unescape(c.drop_first(), z);
            assert forall|i: int| 0 <= i < unescape(s, zeros).len() implies unescape(s, zeros)[i]
                == unescape(c, zeros)[i] by {
                if i > 0 {
                    assert(unescape(s, zeros)[i] == u[i - 1]);
                    assert(unescape(c, zeros)[i] == v[i - 1]);
                }
            }
        }
    }
}

proof fn lemma_first_one_bit_ge(w: Seq<u8>, k: int)
    requires
        0 <= k,
    ensures
        0 <= first_one_bit(w, k),
    decreases 8 * w.len() - k,
{
    if k < 8 * w.len() && bit_at(w, k) != 1 {
        lemma_first_one_bit_ge(w, k + 1);
    }
}

/// The first one-bit of a prefix that holds one is the first one-bit of the
/// whole.
proof fn lemma_first_one_bit_prefix(w: Seq<u8>, x: Seq<u8>, k: int)
    requires
        is_prefix(w, x),
        0 <= k,
        first_one_bit(w, k) < 8 * w.len(),
    ensures
        first_one_bit(x, k) == first_one_bit(w, k),
    decreases 8 * w.len() - k,
{
    assert(k < 8 * w.len());
    assert(k / 8 < w.len());
    assert(x[k / 8] == w[k / 8]);
    if bit_at(w, k) != 1 {
        lemma_first_one_bit_prefix(w, x, k + 1);
    }
}

/// A code that ends within `w` decodes the same from any extension of `w`.
pub proof fn lemma_exp_golomb_prefix(w: Seq<u8>, x: Seq<u8>)
    requires
        is_prefix(w, x),
        exp_golomb(w) is Some,
    ensures
        exp_golomb(x) == exp_golomb(w),
{
    let lz = first_one_bit(w, 0);
    lemma_first_one_bit_ge(w, 0);
    lemma_first_one_bit_prefix(w, x, 0);
    lemma_bits_msb_prefix(w, x, lz + 1, lz as nat);
}

/// With more bytes buffered, the RBSP window only grows (up to its eight
/// bytes), keeping what it held.
pub proof fn lemma_rbsp_window_append(b: Seq<u8>, more: Seq<u8>, q: int)
    requires
        0 <= q <= b.len(),
    ensures
        is_prefix(rbsp_window(b, q), rbsp_window(b + more, q)),
{
    let c = b + more;
    let sb = b.subrange(q, b.len() as int);
    assert(c.subrange(q, c.len() as int) =~= sb + more);
    lemma_unescape_append(sb, more, 0);
    let u = unescape(sb, 0);
    let v = unescape(sb + more, 0);
    assert forall|i: int| 0 <= i < first8(u).len() implies first8(u)[i] == first8(v)[i] by {
        assert(first8(u)[i] == u[i]);
        assert(first8(v)[i] == v[i]);
    }
}

/// Bit `bit` of the bytes held in `w`.
fn bit_of(w: &Vec<u8>, bit: usize) -> (r: u8)
    requires
        bit < 8 * w@.len(),
    ensures
        r == bit_at(w@, bit as int),
        r == 0 || r == 1,
{
    proof {
        lemma_bit_is_0_or_1(w@[bit as int / 8], (7 - bit as int % 8) as u8);
    }
    (w[bit / 8] >> ((7 - bit % 8) as u8)) & 1u8
}

/// Decode the Exp-Golomb code at the start of `w`.
pub fn read_exp_golomb(w: &Vec<u8>) -> (r: Option<u32>)
    requires
        w@.len() <= 8,
    ensures
        r == exp_golomb(w@),
{
    let got = w.len();
    if got == 0 {
        return None;
    }
    let total = got * 8;
    let mut bit: usize = 0;
    while bit < total && bit_of(w, bit) == 0
        invariant
            total == 8 * w@.len(),
            total <= 64,
            bit <= total,
            first_one_bit(w@, 0) == first_one_bit(w@, bit as int),
        decreases total - bit,
    {
        bit = bit + 1;
    }
    if bit >= total {
        return None;
    }
    let lz = bit;
    assert(first_one_bit(w@, 0) == lz);
    bit = bit + 1;
    if bit + lz > total {
        return None;
    }
    assert(lz <= 31);
    proof {
        reveal_with_fuel(two_pow, 32);
        assert(two_pow(31) == 0x8000_0000);
        lemma_two_pow_mono(lz as nat, 31);
    }
    let mut val: u32 = 0;
    let mut pw: u32 = 1;
    let mut i: usize = 0;
    while i < lz
        invariant
            total == 8 * w@.len(),
            lz <= 31,
            2 * lz + 1 <= total,
            i <= lz,
            bit == lz + 1 + i,
            val as nat == bits_msb(w@, lz + 1, i as nat),
            pw as nat == two_pow(i as nat),
            two_pow(lz as nat) <= 0x8000_0000,
        decreases lz - i,
    {
        proof {
            lemma_bits_msb_bound(w@, lz + 1, i as nat);
            lemma_two_pow_mono((i + 1) as nat, lz as nat);
            assert(two_pow((i + 1) as nat) == 2 * two_pow(i as nat));
        }
        let b = bit_of(w, bit);
        val = val * 2 + b as u32;
        pw = pw * 2;
        bit = bit + 1;
        i = i + 1;
    }
    proof {
        lemma_bits_msb_bound(w@, lz + 1, lz as nat);
        lemma_two_pow_pos(lz as nat);
    }
    Some(pw - 1 + val)
}

/// Collect the first (at most eight) RBSP bytes of `buf` from offset `q0` on.
pub fn read_rbsp_window(buf: &[u8], q0: usize) -> (w: Vec<u8>)
    requires
        q0 <= buf.len(),
    ensures
        w@ == rbsp_window(buf@, q0 as int),
        w@.len() <= 8,
{
    let ghost b = buf@;
    let ghost target = first8(unescape(b.subrange(q0 as int, b.len() as int), 0));
    let mut w: Vec<u8> = Vec::new();
    let mut zeros: usize = 0;
    let mut q = q0;
    proof {
        lemma_unescape_len(b.subrange(q0 as int, b.len() as int), 0);
    }
    while q < buf.len() && w.len() < 8
        invariant
            b == buf@,
            q0 <= q <= buf.len(),
            zeros <= q,
            w@.len() <= 8,
            target == first8(w@ + unescape(b.subrange(q as int, b.len() as int), zeros as nat)),
        decreases buf.len() - q,
    {
        let c = buf[q];
        let ghost rest = b.subrange(q as int, b.len() as int);
        assert(rest.drop_first() =~= b.subrange(q + 1, b.len() as int));
        if zeros >= 2 && c == 3 {
            zeros = 0;
            q = q + 1;
        } else {
            let ghost before = w@;
            w.push(c);
            assert(before + unescape(rest, zeros as nat) =~= w@ + unescape(
                b.subrange(q + 1, b.len() as int),
                if c == 0 { (zeros + 1) as nat } else { 0 },
            ));
            zeros = if c == 0 { zeros + 1 } else { 0 };
            q = q + 1;
        }
    }
    proof {
        let rest = b.subrange(q as int, b.len() as int);
        if q == buf.len() {
            assert(rest =~= Seq::<u8>::empty());
            assert(w@ + unescape(rest, zeros as nat) =~= w@);
        } else {
            assert(w@.len() == 8);
            assert(first8(w@ + unescape(rest, zeros as nat)) =~= w@);
        }
    }
    w
}

} // verus!
