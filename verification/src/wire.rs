//! Big-endian 32-bit integers, as the chunk format lays them out.

use vstd::prelude::*;

verus! {

/// The number that the first four bytes of `s` spell, most significant
/// byte first.
pub open spec fn be_u32(s: Seq<u8>) -> u32
    recommends
        s.len() == 4,
{
    (s[0] as int * 0x100_0000 + s[1] as int * 0x1_0000 + s[2] as int * 0x100 + s[3] as int) as u32
}

/// The four bytes that spell `n`, most significant byte first.
pub open spec fn u32_be(n: u32) -> Seq<u8> {
    seq![
        (n / 0x100_0000) as u8,
        (n / 0x1_0000 % 0x100) as u8,
        (n / 0x100 % 0x100) as u8,
        (n % 0x100) as u8,
    ]
}

/// A number that is `q` times `m` plus a remainder below `m` has quotient
/// `q` and that remainder.
proof fn lemma_quotient(n: int, m: int, q: int, r: int)
    by (nonlinear_arith)
    requires
        m > 0,
        0 <= r < m,
        n == q * m + r,
    ensures
        n / m == q,
        n % m == r,
{
}

/// Decoding undoes encoding.
pub proof fn lemma_be_u32_of_u32_be(n: u32)
    ensures
        u32_be(n).len() == 4,
        be_u32(u32_be(n)) == n,
{
}

/// Encoding undoes decoding: four bytes are the encoding of the number
/// they spell, so different bytes spell different numbers.
pub proof fn lemma_u32_be_of_be_u32(s: Seq<u8>)
    requires
        s.len() == 4,
    ensures
        u32_be(be_u32(s)) == s,
{
    let (a, b, c, d) = (s[0] as int, s[1] as int, s[2] as int, s[3] as int);
    let n = a * 0x100_0000 + b * 0x1_0000 + c * 0x100 + d;
    assert(n / 0x100_0000 == a && n / 0x1_0000 == a * 0x100 + b && n / 0x100 == a * 0x1_0000 + b
        * 0x100 + c) by {
        lemma_quotient(n, 0x100_0000, a, b * 0x1_0000 + c * 0x100 + d);
        lemma_quotient(n, 0x1_0000, a * 0x100 + b, c * 0x100 + d);
        lemma_quotient(n, 0x100, a * 0x1_0000 + b * 0x100 + c, d);
    }
    assert((a * 0x100 + b) % 0x100 == b) by {
        lemma_quotient(a * 0x100 + b, 0x100, a, b);
    }
    assert((a * 0x1_0000 + b * 0x100 + c) % 0x100 == c) by {
        lemma_quotient(a * 0x1_0000 + b * 0x100 + c, 0x100, a * 0x100 + b, c);
    }
    assert(n % 0x100 == d) by {
        lemma_quotient(n, 0x100, a * 0x1_0000 + b * 0x100 + c, d);
    }
    assert(u32_be(be_u32(s)) =~= s);
}

/// Reads the big-endian number that starts at index `at`.
pub fn read_be_u32(bytes: &[u8], at: usize) -> (n: u32)
    requires
        at + 4 <= bytes@.len(),
    ensures
        n == be_u32(bytes@.subrange(at as int, at + 4)),
{
    let b0: u32 = bytes[at] as u32;
    let b1: u32 = bytes[at + 1] as u32;
    let b2: u32 = bytes[at + 2] as u32;
    let b3: u32 = bytes[at + 3] as u32;
    b0 * 0x100_0000 + b1 * 0x1_0000 + b2 * 0x100 + b3
}

/// Appends the big-endian encoding of `n` to `out`.
pub fn push_be_u32(out: &mut Vec<u8>, n: u32)
    ensures
        final(out)@ == old(out)@ + u32_be(n),
{
    out.push((n / 0x100_0000) as u8);
    out.push((n / 0x1_0000 % 0x100) as u8);
    out.push((n / 0x100 % 0x100) as u8);
    out.push((n % 0x100) as u8);
    assert(out@ =~= old(out)@ + u32_be(n));
}

} // verus!
