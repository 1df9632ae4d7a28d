//! Numbers spelled as bytes, most or least significant byte first.

use vstd::prelude::*;

verus! {

/// `256` to the power `n`.
pub open spec fn pow256(n: nat) -> int
    decreases n,
{
    if n == 0 {
        1
    } else {
        256 * pow256((n - 1) as nat)
    }
}

/// The number that the bytes spell, most significant byte first.
pub open spec fn be_value(s: Seq<u8>) -> int
    decreases s.len(),
{
    if s.len() == 0 {
        0
    } else {
        be_value(s.drop_last()) * 256 + s.last()
    }
}

/// The number that the bytes spell, least significant byte first.
pub open spec fn le_value(s: Seq<u8>) -> int
    decreases s.len(),
{
    if s.len() == 0 {
        0
    } else {
        s.first() + 256 * le_value(s.drop_first())
    }
}

/// Eight bytes make one 64-bit limb.
pub proof fn lemma_pow256_8()
    ensures
        pow256(8) == 0x1_0000_0000_0000_0000,
        pow256(4) == 0x1_0000_0000,
{
    reveal_with_fuel(pow256, 9);
}

/// A number spelled by any bytes is not negative and lies below `256` to the
/// number of bytes.
pub proof fn lemma_be_value_bound(s: Seq<u8>)
    ensures
        0 <= be_value(s) < pow256(s.len()),
    decreases s.len(),
{
    if s.len() > 0 {
        lemma_be_value_bound(s.drop_last());
    }
}

/// A number spelled by any bytes is not negative and lies below `256` to the
/// number of bytes.
pub proof fn lemma_le_value_bound(s: Seq<u8>)
    ensures
        0 <= le_value(s) < pow256(s.len()),
    decreases s.len(),
{
    if s.len() > 0 {
        lemma_le_value_bound(s.drop_first());
    }
}

/// Bytes put behind a big-endian number shift it left by their count.
pub proof fn lemma_be_value_concat(a: Seq<u8>, b: Seq<u8>)
    ensures
        be_value(a + b) == be_value(a) * pow256(b.len()) + be_value(b),
    decreases b.len(),
{
    if b.len() == 0 {
        assert(a + b =~= a);
    } else {
        assert((a + b).drop_last() =~= a + b.drop_last());
        lemma_be_value_concat(a, b.drop_last());
        let n: nat = (b.len() - 1) as nat;
        assert((be_value(a) * pow256(n) + be_value(b.drop_last())) * 256 == be_value(a) * (256
            * pow256(n)) + be_value(b.drop_last()) * 256) by (nonlinear_arith);
    }
}

/// Bytes put behind a little-endian number are scaled by the count of the
/// bytes before them.
pub proof fn lemma_le_value_concat(a: Seq<u8>, b: Seq<u8>)
    ensures
        le_value(a + b) == le_value(a) + pow256(a.len()) * le_value(b),
    decreases a.len(),
{
    if a.len() == 0 {
        assert(a + b =~= b);
    } else {
        assert((a + b).drop_first() =~= a.drop_first() + b);
        lemma_le_value_concat(a.drop_first(), b);
        let n: nat = (a.len() - 1) as nat;
        assert(256 * (le_value(a.drop_first()) + pow256(n) * le_value(b)) == 256 * le_value(
            a.drop_first(),
        ) + (256 * pow256(n)) * le_value(b)) by (nonlinear_arith);
    }
}

/// Eight bytes are their shifted sum.
proof fn lemma_be_value_8(s: Seq<u8>)
    requires
        s.len() == 8,
    ensures
        be_value(s) == s[0] * 0x100_0000_0000_0000 + s[1] * 0x1_0000_0000_0000 + s[2]
            * 0x100_0000_0000 + s[3] * 0x1_0000_0000 + s[4] * 0x100_0000 + s[5] * 0x1_0000 + s[6]
            * 0x100 + s[7],
{
    let s7: Seq<u8> = s.drop_last();
    let s6: Seq<u8> = s7.drop_last();
    let s5: Seq<u8> = s6.drop_last();
    let s4: Seq<u8> = s5.drop_last();
    let s3: Seq<u8> = s4.drop_last();
    let s2: Seq<u8> = s3.drop_last();
    let s1: Seq<u8> = s2.drop_last();
    let s0: Seq<u8> = s1.drop_last();
    assert(be_value(s0) == 0);
    assert(be_value(s1) == s[0]);
    assert(be_value(s2) == be_value(s1) * 256 + s[1]);
    assert(be_value(s3) == be_value(s2) * 256 + s[2]);
    assert(be_value(s4) == be_value(s3) * 256 + s[3]);
    assert(be_value(s5) == be_value(s4) * 256 + s[4]);
    assert(be_value(s6) == be_value(s5) * 256 + s[5]);
    assert(be_value(s7) == be_value(s6) * 256 + s[6]);
    assert(be_value(s) == be_value(s7) * 256 + s[7]);
}

/// Reads eight bytes as a number, most significant byte first.
pub fn read_u64_be(bytes: &[u8], start: usize) -> (r: u64)
    requires
        start + 8 <= bytes.len(),
    ensures
        r == be_value(bytes@.subrange(start as int, start + 8)),
{
    let b0: u64 = bytes[start] as u64;
    let b1: u64 = bytes[start + 1] as u64;
    let b2: u64 = bytes[start + 2] as u64;
    let b3: u64 = bytes[start + 3] as u64;
    let b4: u64 = bytes[start + 4] as u64;
    let b5: u64 = bytes[start + 5] as u64;
    let b6: u64 = bytes[start + 6] as u64;
    let b7: u64 = bytes[start + 7] as u64;
    let r: u64 = (b0 << 56) | (b1 << 48) | (b2 << 40) | (b3 << 32) | (b4 << 24) | (b5 << 16) | (b6
        << 8) | b7;
    assert(r == b0 * 0x100_0000_0000_0000 + b1 * 0x1_0000_0000_0000 + b2 * 0x100_0000_0000 + b3
        * 0x1_0000_0000 + b4 * 0x100_0000 + b5 * 0x1_0000 + b6 * 0x100 + b7) by (bit_vector)
        requires
            r == (b0 << 56) | (b1 << 48) | (b2 << 40) | (b3 << 32) | (b4 << 24) | (b5 << 16) | (b6
                << 8) | b7,
            b0 < 256,
            b1 < 256,
            b2 < 256,
            b3 < 256,
            b4 < 256,
            b5 < 256,
            b6 < 256,
            b7 < 256,
    ;
    proof {
        lemma_be_value_8(bytes@.subrange(start as int, start + 8));
    }
    r
}

/// The eight bytes of a 64-bit number, most significant byte first.
pub open spec fn u64_be_bytes(x: u64) -> Seq<u8> {
    seq![
        (x / 0x100_0000_0000_0000) as u8,
        ((x / 0x1_0000_0000_0000) % 256) as u8,
        ((x / 0x100_0000_0000) % 256) as u8,
        ((x / 0x1_0000_0000) % 256) as u8,
        ((x / 0x100_0000) % 256) as u8,
        ((x / 0x1_0000) % 256) as u8,
        ((x / 0x100) % 256) as u8,
        (x % 256) as u8,
    ]
}

/// The eight bytes of a number spell that number.
pub proof fn lemma_u64_be_bytes_value(x: u64)
    ensures
        u64_be_bytes(x).len() == 8,
        be_value(u64_be_bytes(x)) == x,
{
    lemma_be_value_8(u64_be_bytes(x));
    assert(x == (x / 0x100_0000_0000_0000) * 0x100_0000_0000_0000 + ((x / 0x1_0000_0000_0000)
        % 256) * 0x1_0000_0000_0000 + ((x / 0x100_0000_0000) % 256) * 0x100_0000_0000 + ((x
        / 0x1_0000_0000) % 256) * 0x1_0000_0000 + ((x / 0x100_0000) % 256) * 0x100_0000 + ((x
        / 0x1_0000) % 256) * 0x1_0000 + ((x / 0x100) % 256) * 0x100 + x % 256) by (bit_vector);
    assert(x / 0x100_0000_0000_0000 < 256) by (bit_vector);
}

/// Appends the eight bytes of a number, most significant byte first.
pub fn push_u64_be(out: &mut Vec<u8>, x: u64)
    ensures
        final(out)@ == old(out)@ + u64_be_bytes(x),
{
    let b0: u8 = (x >> 56) as u8;
    let b1: u8 = #[verifier::truncate] ((x >> 48) as u8);
    let b2: u8 = #[verifier::truncate] ((x >> 40) as u8);
    let b3: u8 = #[verifier::truncate] ((x >> 32) as u8);
    let b4: u8 = #[verifier::truncate] ((x >> 24) as u8);
    let b5: u8 = #[verifier::truncate] ((x >> 16) as u8);
    let b6: u8 = #[verifier::truncate] ((x >> 8) as u8);
    let b7: u8 = #[verifier::truncate] (x as u8);
    assert(x >> 56 < 256 && b0 == x / 0x100_0000_0000_0000 && b1 == (x / 0x1_0000_0000_0000) % 256
        && b2 == (x / 0x100_0000_0000) % 256 && b3 == (x / 0x1_0000_0000) % 256 && b4 == (x
        / 0x100_0000) % 256 && b5 == (x / 0x1_0000) % 256 && b6 == (x / 0x100) % 256 && b7 == x
        % 256) by (bit_vector)
        requires
            b0 == (x >> 56) as u8,
            b1 == (x >> 48) as u8,
            b2 == (x >> 40) as u8,
            b3 == (x >> 32) as u8,
            b4 == (x >> 24) as u8,
            b5 == (x >> 16) as u8,
            b6 == (x >> 8) as u8,
            b7 == x as u8,
    ;
    out.push(b0);
    out.push(b1);
    out.push(b2);
    out.push(b3);
    out.push(b4);
    out.push(b5);
    out.push(b6);
    out.push(b7);
    assert(out@ =~= old(out)@ + u64_be_bytes(x));
}

/// Eight bytes are their shifted sum.
proof fn lemma_le_value_8(s: Seq<u8>)
    requires
        s.len() == 8,
    ensures
        le_value(s) == s[7] * 0x100_0000_0000_0000 + s[6] * 0x1_0000_0000_0000 + s[5]
            * 0x100_0000_0000 + s[4] * 0x1_0000_0000 + s[3] * 0x100_0000 + s[2] * 0x1_0000 + s[1]
            * 0x100 + s[0],
{
    let s7: Seq<u8> = s.drop_first();
    let s6: Seq<u8> = s7.drop_first();
    let s5: Seq<u8> = s6.drop_first();
    let s4: Seq<u8> = s5.drop_first();
    let s3: Seq<u8> = s4.drop_first();
    let s2: Seq<u8> = s3.drop_first();
    let s1: Seq<u8> = s2.drop_first();
    let s0: Seq<u8> = s1.drop_first();
    assert(le_value(s0) == 0);
    assert(le_value(s1) == s[7]);
    assert(le_value(s2) == s[6] + 256 * le_value(s1));
    assert(le_value(s3) == s[5] + 256 * le_value(s2));
    assert(le_value(s4) == s[4] + 256 * le_value(s3));
    assert(le_value(s5) == s[3] + 256 * le_value(s4));
    assert(le_value(s6) == s[2] + 256 * le_value(s5));
    assert(le_value(s7) == s[1] + 256 * le_value(s6));
    assert(le_value(s) == s[0] + 256 * le_value(s7));
}

/// Reads eight bytes as a number, least significant byte first.
pub fn read_u64_le(bytes: &[u8], start: usize) -> (r: u64)
    requires
        start + 8 <= bytes.len(),
    ensures
        r == le_value(bytes@.subrange(start as int, start + 8)),
{
    let b0: u64 = bytes[start] as u64;
    let b1: u64 = bytes[start + 1] as u64;
    let b2: u64 = bytes[start + 2] as u64;
    let b3: u64 = bytes[start + 3] as u64;
    let b4: u64 = bytes[start + 4] as u64;
    let b5: u64 = bytes[start + 5] as u64;
    let b6: u64 = bytes[start + 6] as u64;
    let b7: u64 = bytes[start + 7] as u64;
    let r: u64 = (b7 << 56) | (b6 << 48) | (b5 << 40) | (b4 << 32) | (b3 << 24) | (b2 << 16) | (b1
        << 8) | b0;
    assert(r == b7 * 0x100_0000_0000_0000 + b6 * 0x1_0000_0000_0000 + b5 * 0x100_0000_0000 + b4
        * 0x1_0000_0000 + b3 * 0x100_0000 + b2 * 0x1_0000 + b1 * 0x100 + b0) by (bit_vector)
        requires
            r == (b7 << 56) | (b6 << 48) | (b5 << 40) | (b4 << 32) | (b3 << 24) | (b2 << 16) | (b1
                << 8) | b0,
            b0 < 256,
            b1 < 256,
            b2 < 256,
            b3 < 256,
            b4 < 256,
            b5 < 256,
            b6 < 256,
            b7 < 256,
    ;
    proof {
        lemma_le_value_8(bytes@.subrange(start as int, start + 8));
    }
    r
}

/// Four bytes are their shifted sum.
proof fn lemma_le_value_4(s: Seq<u8>)
    requires
        s.len() == 4,
    ensures
        le_value(s) == s[3] * 0x100_0000 + s[2] * 0x1_0000 + s[1] * 0x100 + s[0],
{
    let s3: Seq<u8> = s.drop_first();
    let s2: Seq<u8> = s3.drop_first();
    let s1: Seq<u8> = s2.drop_first();
    let s0: Seq<u8> = s1.drop_first();
    assert(le_value(s0) == 0);
    assert(le_value(s1) == s[3]);
    assert(le_value(s2) == s[2] + 256 * le_value(s1));
    assert(le_value(s3) == s[1] + 256 * le_value(s2));
    assert(le_value(s) == s[0] + 256 * le_value(s3));
}

/// Reads four bytes as a number, least significant byte first.
pub fn read_u32_le(bytes: &[u8], start: usize) -> (r: u32)
    requires
        start + 4 <= bytes.len(),
    ensures
        r == le_value(bytes@.subrange(start as int, start + 4)),
{
    let b0: u32 = bytes[start] as u32;
    let b1: u32 = bytes[start + 1] as u32;
    let b2: u32 = bytes[start + 2] as u32;
    let b3: u32 = bytes[start + 3] as u32;
    let r: u32 = (b3 << 24) | (b2 << 16) | (b1 << 8) | b0;
    assert(r == b3 * 0x100_0000 + b2 * 0x1_0000 + b1 * 0x100 + b0) by (bit_vector)
        requires
            r == (b3 << 24) | (b2 << 16) | (b1 << 8) | b0,
            b0 < 256,
            b1 < 256,
            b2 < 256,
            b3 < 256,
    ;
    proof {
        lemma_le_value_4(bytes@.subrange(start as int, start + 4));
    }
    r
}

} // verus!
