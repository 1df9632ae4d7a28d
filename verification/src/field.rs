//! The BN254 scalar field and the traits that the rest of the library asks of
//! a prime field.

use crate::bytes::{
    be_value, le_value, lemma_be_value_bound, lemma_be_value_concat, lemma_le_value_bound,
    lemma_le_value_concat, lemma_pow256_8, lemma_u64_be_bytes_value, push_u64_be, read_u64_be,
    read_u64_le, u64_be_bytes,
};
use crate::limbs::{adc, limbs4, limbs5, mac, sbb};
use vstd::arithmetic::mul::{
    lemma_mul_is_associative, lemma_mul_is_distributive_add,
    lemma_mul_is_distributive_add_other_way,
};
use vstd::prelude::*;

verus! {

/// What the library needs of a prime field: a modulus above one, the residue
/// that each element stands for, and arithmetic that is exact on residues.
pub trait PF: Copy + Sized + FromU8s + ToU8s {
    /// The modulus of the field.
    spec fn modulus() -> int;

    /// The residue that this element stands for.
    spec fn value(&self) -> int;

    /// The modulus exceeds one.
    proof fn modulus_exceeds_one()
        ensures
            Self::modulus() > 1,
    ;

    /// Every residue lies below the modulus.
    proof fn value_in_range(&self)
        ensures
            0 <= self.value() < Self::modulus(),
    ;

    /// The additive identity.
    fn zero() -> (r: Self)
        ensures
            r.value() == 0,
    ;

    /// The multiplicative identity.
    fn one() -> (r: Self)
        ensures
            r.value() == 1,
    ;

    /// The sum of two elements.
    fn add(&self, rhs: &Self) -> (r: Self)
        ensures
            r.value() == (self.value() + rhs.value()) % Self::modulus(),
    ;

    /// The difference of two elements.
    fn sub(&self, rhs: &Self) -> (r: Self)
        ensures
            r.value() == (self.value() - rhs.value()) % Self::modulus(),
    ;

    /// The product of two elements.
    fn mul(&self, rhs: &Self) -> (r: Self)
        ensures
            r.value() == (self.value() * rhs.value()) % Self::modulus(),
    ;

    /// The additive inverse of an element.
    fn neg(&self) -> (r: Self)
        ensures
            r.value() == (-self.value()) % Self::modulus(),
    ;

    /// Whether two elements stand for the same residue.
    fn equals(&self, rhs: &Self) -> (b: bool)
        ensures
            b == (self.value() == rhs.value()),
    ;

    /// The residue that thirty-two uniform bytes are accepted as, if they are
    /// accepted at all.
    spec fn sampled(candidate: Seq<u8>) -> Option<int>;

    /// What is accepted is a residue.
    proof fn sampled_in_range(candidate: Seq<u8>)
        ensures
            Self::sampled(candidate) matches Some(v) ==> 0 <= v < Self::modulus(),
    ;

    /// Rejection sampling: turns the thirty-two bytes from `start` on into an
    /// element, or rejects them.
    fn sample(bytes: &[u8], start: usize) -> (r: Option<Self>)
        requires
            start + 32 <= bytes.len(),
        ensures
            match r {
                Some(x) => Self::sampled(bytes@.subrange(start as int, start + 32)) == Some(
                    x.value(),
                ),
                None => Self::sampled(bytes@.subrange(start as int, start + 32)) is None,
            },
    ;
}

/// Decoding of an element from its fixed-size byte encoding.
pub trait FromU8s: Sized {
    /// Whether the bytes are the encoding of an element.
    spec fn decodable(u: Seq<u8>) -> bool;

    /// The element that the bytes encode.
    spec fn decoded(u: Seq<u8>) -> Self;

    /// Decodes an element from its encoding.
    fn from_u8s(u: &Vec<u8>) -> (r: Self)
        requires
            Self::decodable(u@),
        ensures
            r == Self::decoded(u@),
    ;
}

/// Encoding of an element as bytes.
pub trait ToU8s {
    /// The bytes that encode this element.
    spec fn encoded(&self) -> Seq<u8>;

    /// Encodes this element.
    fn to_u8s(&self) -> (r: Vec<u8>)
        ensures
            r@ == self.encoded(),
    ;
}

/// The BN254 scalar prime.
pub open spec fn bn254_modulus() -> int {
    0x30644e72e131a029b85045b68181585d2833e84879b9709143e1f593f0000001int
}

const PRIME_0: u64 = 0x43e1f593f0000001;

const PRIME_1: u64 = 0x2833e84879b97091;

const PRIME_2: u64 = 0xb85045b68181585d;

const PRIME_3: u64 = 0x30644e72e131a029;

/// An element of the BN254 scalar field, held as four limbs of its least
/// residue, least significant limb first.
#[derive(Clone, Copy, Debug, PartialEq, Eq, Structural)]
pub struct Fr {
    l0: u64,
    l1: u64,
    l2: u64,
    l3: u64,
}

impl Fr {
    #[verifier::type_invariant]
    spec fn canonical(self) -> bool {
        limbs4(self.l0, self.l1, self.l2, self.l3) < bn254_modulus()
    }

    /// The number that the limbs spell, reduced to its residue.
    pub closed spec fn residue(self) -> int {
        limbs4(self.l0, self.l1, self.l2, self.l3) % bn254_modulus()
    }

    /// Limbs that spell a number below the modulus spell their own residue.
    proof fn lemma_residue(self)
        requires
            limbs4(self.l0, self.l1, self.l2, self.l3) < bn254_modulus(),
        ensures
            self.residue() == limbs4(self.l0, self.l1, self.l2, self.l3),
    {
        vstd::arithmetic::div_mod::lemma_small_mod(
            limbs4(self.l0, self.l1, self.l2, self.l3) as nat,
            bn254_modulus() as nat,
        );
    }
}

/// The sum of two four-limb numbers and the carry out of the top limb.
fn add4(a0: u64, a1: u64, a2: u64, a3: u64, b0: u64, b1: u64, b2: u64, b3: u64) -> (r: (
    u64,
    u64,
    u64,
    u64,
    u64,
))
    ensures
        limbs5(r.0, r.1, r.2, r.3, r.4) == limbs4(a0, a1, a2, a3) + limbs4(b0, b1, b2, b3),
        r.4 <= 1,
{
    let (s0, c): (u64, u64) = adc(a0, b0, 0);
    let (s1, c): (u64, u64) = adc(a1, b1, c);
    let (s2, c): (u64, u64) = adc(a2, b2, c);
    let (s3, c): (u64, u64) = adc(a3, b3, c);
    (s0, s1, s2, s3, c)
}

/// The difference of two four-limb numbers and the borrow out of the top
/// limb.
fn sub4(a0: u64, a1: u64, a2: u64, a3: u64, b0: u64, b1: u64, b2: u64, b3: u64) -> (r: (
    u64,
    u64,
    u64,
    u64,
    u64,
))
    ensures
        limbs4(r.0, r.1, r.2, r.3) - r.4
            * 0x1_0000_0000_0000_0000_0000_0000_0000_0000_0000_0000_0000_0000_0000_0000_0000_0000
            == limbs4(a0, a1, a2, a3) - limbs4(b0, b1, b2, b3),
        r.4 <= 1,
{
    let (d0, b): (u64, u64) = sbb(a0, b0, 0);
    let (d1, b): (u64, u64) = sbb(a1, b1, b);
    let (d2, b): (u64, u64) = sbb(a2, b2, b);
    let (d3, b): (u64, u64) = sbb(a3, b3, b);
    (d0, d1, d2, d3, b)
}

/// Brings a number below twice the modulus to its residue.
fn reduce_once(s0: u64, s1: u64, s2: u64, s3: u64) -> (r: Fr)
    requires
        limbs4(s0, s1, s2, s3) < 2 * bn254_modulus(),
    ensures
        r.residue() == limbs4(s0, s1, s2, s3) % bn254_modulus(),
{
    let (d0, b): (u64, u64) = sbb(s0, PRIME_0, 0);
    let (d1, b): (u64, u64) = sbb(s1, PRIME_1, b);
    let (d2, b): (u64, u64) = sbb(s2, PRIME_2, b);
    let (d3, b): (u64, u64) = sbb(s3, PRIME_3, b);
    if b == 1 {
        Fr { l0: s0, l1: s1, l2: s2, l3: s3 }
    } else {
        Fr { l0: d0, l1: d1, l2: d2, l3: d3 }
    }
}

/// Multiplies four limbs by one limb and adds four limbs.
fn mul_row(x: u64, b0: u64, b1: u64, b2: u64, b3: u64, t0: u64, t1: u64, t2: u64, t3: u64) -> (r: (
    u64,
    u64,
    u64,
    u64,
    u64,
))
    ensures
        limbs5(r.0, r.1, r.2, r.3, r.4) == x * limbs4(b0, b1, b2, b3) + limbs4(t0, t1, t2, t3),
{
    let (r0, c): (u64, u64) = mac(x, b0, t0, 0);
    let (r1, c): (u64, u64) = mac(x, b1, t1, c);
    let (r2, c): (u64, u64) = mac(x, b2, t2, c);
    let (r3, c): (u64, u64) = mac(x, b3, t3, c);
    proof {
        lemma_scale_limbs4(x as int, b0, b1, b2, b3);
    }
    (r0, r1, r2, r3, c)
}

/// A number times four limbs is the sum of its products with each limb.
proof fn lemma_scale_limbs4(x: int, b0: u64, b1: u64, b2: u64, b3: u64)
    ensures
        x * limbs4(b0, b1, b2, b3) == x * b0 + (x * b1) * 0x1_0000_0000_0000_0000 + (x * b2)
            * 0x1_0000_0000_0000_0000_0000_0000_0000_0000 + (x * b3)
            * 0x1_0000_0000_0000_0000_0000_0000_0000_0000_0000_0000_0000_0000,
{
    let c1: int = 0x1_0000_0000_0000_0000int;
    let c2: int = 0x1_0000_0000_0000_0000_0000_0000_0000_0000int;
    let c3: int = 0x1_0000_0000_0000_0000_0000_0000_0000_0000_0000_0000_0000_0000int;
    lemma_mul_is_distributive_add(x, b0 + b1 * c1 + b2 * c2, b3 * c3);
    lemma_mul_is_distributive_add(x, b0 + b1 * c1, b2 * c2);
    lemma_mul_is_distributive_add(x, b0 as int, b1 * c1);
    lemma_mul_is_associative(x, b1 as int, c1);
    lemma_mul_is_associative(x, b2 as int, c2);
    lemma_mul_is_associative(x, b3 as int, c3);
}

/// Four limbs times a number is the sum of the products of each limb with it.
proof fn lemma_limbs4_scale(a0: u64, a1: u64, a2: u64, a3: u64, y: int)
    ensures
        limbs4(a0, a1, a2, a3) * y == a0 * y + (a1 * y) * 0x1_0000_0000_0000_0000 + (a2 * y)
            * 0x1_0000_0000_0000_0000_0000_0000_0000_0000 + (a3 * y)
            * 0x1_0000_0000_0000_0000_0000_0000_0000_0000_0000_0000_0000_0000,
{
    let c1: int = 0x1_0000_0000_0000_0000int;
    let c2: int = 0x1_0000_0000_0000_0000_0000_0000_0000_0000int;
    let c3: int = 0x1_0000_0000_0000_0000_0000_0000_0000_0000_0000_0000_0000_0000int;
    lemma_mul_is_distributive_add_other_way(y, a0 + a1 * c1 + a2 * c2, a3 * c3);
    lemma_mul_is_distributive_add_other_way(y, a0 + a1 * c1, a2 * c2);
    lemma_mul_is_distributive_add_other_way(y, a0 as int, a1 * c1);
    assert((a1 * c1) * y == (a1 * y) * c1) by (nonlinear_arith);
    assert((a2 * c2) * y == (a2 * y) * c2) by (nonlinear_arith);
    assert((a3 * c3) * y == (a3 * y) * c3) by (nonlinear_arith);
}

/// The difference of two five-limb numbers, the first no less than the second.
fn sub5(
    a0: u64,
    a1: u64,
    a2: u64,
    a3: u64,
    a4: u64,
    b0: u64,
    b1: u64,
    b2: u64,
    b3: u64,
    b4: u64,
) -> (r: (u64, u64, u64, u64, u64))
    requires
        limbs5(b0, b1, b2, b3, b4) <= limbs5(a0, a1, a2, a3, a4),
    ensures
        limbs5(r.0, r.1, r.2, r.3, r.4) == limbs5(a0, a1, a2, a3, a4) - limbs5(b0, b1, b2, b3, b4),
{
    let (y0, b): (u64, u64) = sbb(a0, b0, 0);
    let (y1, b): (u64, u64) = sbb(a1, b1, b);
    let (y2, b): (u64, u64) = sbb(a2, b2, b);
    let (y3, b): (u64, u64) = sbb(a3, b3, b);
    let (y4, b): (u64, u64) = sbb(a4, b4, b);
    (y0, y1, y2, y3, y4)
}

/// A multiple of the modulus that does not exceed `r * 2^64 + t`, as five
/// limbs: the two top limbs divided by the top limb of the modulus rounded up
/// give a quotient that is never too large.
fn multiple_below(r: Fr, t: u64) -> (m: (u64, u64, u64, u64, u64, Ghost<int>))
    ensures
        limbs5(m.0, m.1, m.2, m.3, m.4) == m.5@ * bn254_modulus(),
        limbs5(m.0, m.1, m.2, m.3, m.4) <= limbs5(t, r.l0, r.l1, r.l2, r.l3),
{
    proof {
        use_type_invariant(r);
    }
    let hi: u64 = r.l3;
    let lo: u64 = r.l2;
    let top: u128 = ((hi as u128) << 64) | (lo as u128);
    assert(top == hi as u128 * 0x1_0000_0000_0000_0000 + lo as u128) by (bit_vector)
        requires
            top == ((hi as u128) << 64) | (lo as u128),
    ;
    let q: u64 = (top / 0x30644e72e131a02au128) as u64;
    let (m0, m1, m2, m3, m4): (u64, u64, u64, u64, u64) = mul_row(q, PRIME_0, PRIME_1, PRIME_2, PRIME_3, 0, 0, 0, 0);
    proof {
        let c3: int = 0x1_0000_0000_0000_0000_0000_0000_0000_0000_0000_0000_0000_0000int;
        assert(limbs4(PRIME_0, PRIME_1, PRIME_2, PRIME_3) == bn254_modulus());
        assert(q * 0x30644e72e131a02a <= top);
        assert(bn254_modulus() <= 0x30644e72e131a02a * c3);
        assert(q * bn254_modulus() <= (q * 0x30644e72e131a02a) * c3) by (nonlinear_arith)
            requires
                0 <= q,
                bn254_modulus() <= 0x30644e72e131a02a * c3,
        ;
        assert(top * c3 <= limbs5(t, r.l0, r.l1, r.l2, r.l3));
    }
    (m0, m1, m2, m3, m4, Ghost(q as int))
}

/// Takes the modulus off a five-limb number once, if it is large enough.
fn sub_modulus(y0: u64, y1: u64, y2: u64, y3: u64, y4: u64) -> (r: (u64, u64, u64, u64, u64, bool))
    ensures
        r.5 == (limbs5(y0, y1, y2, y3, y4) >= bn254_modulus()),
        r.5 ==> limbs5(r.0, r.1, r.2, r.3, r.4) == limbs5(y0, y1, y2, y3, y4) - bn254_modulus(),
        !r.5 ==> r.0 == y0 && r.1 == y1 && r.2 == y2 && r.3 == y3 && r.4 == y4,
{
    let (d0, b): (u64, u64) = sbb(y0, PRIME_0, 0);
    let (d1, b): (u64, u64) = sbb(y1, PRIME_1, b);
    let (d2, b): (u64, u64) = sbb(y2, PRIME_2, b);
    let (d3, b): (u64, u64) = sbb(y3, PRIME_3, b);
    let (d4, b): (u64, u64) = sbb(y4, 0, b);
    if b == 1 {
        (y0, y1, y2, y3, y4, false)
    } else {
        (d0, d1, d2, d3, d4, true)
    }
}

/// The residue of `r * 2^64 + t`, for `r` below the modulus.
fn reduce_step(r: Fr, t: u64) -> (out: Fr)
    ensures
        out.residue() == (r.residue() * 0x1_0000_0000_0000_0000 + t) % bn254_modulus(),
{
    proof {
        use_type_invariant(r);
    }
    let ghost x: int = limbs5(t, r.l0, r.l1, r.l2, r.l3);
    assert(x == r.residue() * 0x1_0000_0000_0000_0000 + t);
    let (m0, m1, m2, m3, m4, q): (u64, u64, u64, u64, u64, Ghost<int>) = multiple_below(r, t);
    let (y0, y1, y2, y3, y4): (u64, u64, u64, u64, u64) = sub5(
        t,
        r.l0,
        r.l1,
        r.l2,
        r.l3,
        m0,
        m1,
        m2,
        m3,
        m4,
    );
    let mut y0: u64 = y0;
    let mut y1: u64 = y1;
    let mut y2: u64 = y2;
    let mut y3: u64 = y3;
    let mut y4: u64 = y4;
    let ghost mut k: int = q@;
    let mut more: bool = true;
    while more
        invariant
            limbs5(y0, y1, y2, y3, y4) + k * bn254_modulus() == x,
            !more ==> limbs5(y0, y1, y2, y3, y4) < bn254_modulus(),
        decreases
            if more { 1 + limbs5(y0, y1, y2, y3, y4) } else { 0 },
    {
        let (d0, d1, d2, d3, d4, took): (u64, u64, u64, u64, u64, bool) = sub_modulus(
            y0,
            y1,
            y2,
            y3,
            y4,
        );
        proof {
            if took {
                assert((k + 1) * bn254_modulus() == k * bn254_modulus() + bn254_modulus())
                    by (nonlinear_arith);
                k = k + 1;
            }
        }
        y0 = d0;
        y1 = d1;
        y2 = d2;
        y3 = d3;
        y4 = d4;
        more = took;
    }
    assert(y4 == 0);
    proof {
        let y: int = limbs4(y0, y1, y2, y3);
        assert(x == k * bn254_modulus() + y) by (nonlinear_arith)
            requires
                y + k * bn254_modulus() == x,
        ;
        vstd::arithmetic::div_mod::lemma_fundamental_div_mod_converse(x, bn254_modulus(), k, y);
    }
    Fr { l0: y0, l1: y1, l2: y2, l3: y3 }
}

/// The product of two elements as eight limbs.
fn mul_wide(a: &Fr, b: &Fr) -> (t: (u64, u64, u64, u64, u64, u64, u64, u64))
    ensures
        limbs4(t.0, t.1, t.2, t.3) + limbs4(t.4, t.5, t.6, t.7)
            * 0x1_0000_0000_0000_0000_0000_0000_0000_0000_0000_0000_0000_0000_0000_0000_0000_0000
            == limbs4(a.l0, a.l1, a.l2, a.l3) * limbs4(b.l0, b.l1, b.l2, b.l3),
{
    let (t0, t1, t2, t3, t4): (u64, u64, u64, u64, u64) = mul_row(
        a.l0,
        b.l0,
        b.l1,
        b.l2,
        b.l3,
        0,
        0,
        0,
        0,
    );
    let (u1, u2, u3, u4, u5): (u64, u64, u64, u64, u64) = mul_row(
        a.l1,
        b.l0,
        b.l1,
        b.l2,
        b.l3,
        t1,
        t2,
        t3,
        t4,
    );
    let (v2, v3, v4, v5, v6): (u64, u64, u64, u64, u64) = mul_row(
        a.l2,
        b.l0,
        b.l1,
        b.l2,
        b.l3,
        u2,
        u3,
        u4,
        u5,
    );
    let (w3, w4, w5, w6, w7): (u64, u64, u64, u64, u64) = mul_row(
        a.l3,
        b.l0,
        b.l1,
        b.l2,
        b.l3,
        v3,
        v4,
        v5,
        v6,
    );
    proof {
        lemma_limbs4_scale(a.l0, a.l1, a.l2, a.l3, limbs4(b.l0, b.l1, b.l2, b.l3));
    }
    (t0, u1, v2, w3, w4, w5, w6, w7)
}

/// Reducing before a shift by one limb does not change the residue.
proof fn lemma_shift_residue(x: int, t: int)
    ensures
        ((x % bn254_modulus()) * 0x1_0000_0000_0000_0000 + t) % bn254_modulus() == (x
            * 0x1_0000_0000_0000_0000 + t) % bn254_modulus(),
{
    let p: int = bn254_modulus();
    let q: int = x / p;
    let r: int = x % p;
    vstd::arithmetic::div_mod::lemma_fundamental_div_mod(x, p);
    assert(x * 0x1_0000_0000_0000_0000 + t == p * (q * 0x1_0000_0000_0000_0000) + (r
        * 0x1_0000_0000_0000_0000 + t)) by (nonlinear_arith)
        requires
            x == p * q + r,
    ;
    vstd::arithmetic::div_mod::lemma_mod_multiples_vanish(
        q * 0x1_0000_0000_0000_0000,
        r * 0x1_0000_0000_0000_0000 + t,
        p,
    );
}

/// The residue of an eight-limb number below the modulus times `2^256`.
fn reduce_wide(t0: u64, t1: u64, t2: u64, t3: u64, t4: u64, t5: u64, t6: u64, t7: u64) -> (r: Fr)
    requires
        limbs4(t4, t5, t6, t7) < bn254_modulus(),
    ensures
        r.residue() == (limbs4(t0, t1, t2, t3) + limbs4(t4, t5, t6, t7)
            * 0x1_0000_0000_0000_0000_0000_0000_0000_0000_0000_0000_0000_0000_0000_0000_0000_0000)
            % bn254_modulus(),
{
    let h0: Fr = Fr { l0: t4, l1: t5, l2: t6, l3: t7 };
    let h1: Fr = reduce_step(h0, t3);
    let h2: Fr = reduce_step(h1, t2);
    let h3: Fr = reduce_step(h2, t1);
    let h4: Fr = reduce_step(h3, t0);
    proof {
        let b: int = 0x1_0000_0000_0000_0000int;
        let x0: int = limbs4(t4, t5, t6, t7);
        let x1: int = x0 * b + t3;
        let x2: int = x1 * b + t2;
        let x3: int = x2 * b + t1;
        let x4: int = x3 * b + t0;
        assert(h0.residue() == x0);
        assert(h1.residue() == x1 % bn254_modulus());
        lemma_shift_residue(x1, t2 as int);
        assert(h2.residue() == x2 % bn254_modulus());
        lemma_shift_residue(x2, t1 as int);
        assert(h3.residue() == x3 % bn254_modulus());
        lemma_shift_residue(x3, t0 as int);
        assert(h4.residue() == x4 % bn254_modulus());
        assert(x4 == limbs4(t0, t1, t2, t3) + x0
            * 0x1_0000_0000_0000_0000_0000_0000_0000_0000_0000_0000_0000_0000_0000_0000_0000_0000)
            by (nonlinear_arith)
            requires
                x1 == x0 * b + t3,
                x2 == x1 * b + t2,
                x3 == x2 * b + t1,
                x4 == x3 * b + t0,
                b == 0x1_0000_0000_0000_0000,
                limbs4(t0, t1, t2, t3) == t0 + t1 * 0x1_0000_0000_0000_0000 + t2
                    * 0x1_0000_0000_0000_0000_0000_0000_0000_0000 + t3
                    * 0x1_0000_0000_0000_0000_0000_0000_0000_0000_0000_0000_0000_0000,
        ;
    }
    h4
}

impl PF for Fr {
    open spec fn modulus() -> int {
        bn254_modulus()
    }

    open spec fn value(&self) -> int {
        self.residue()
    }

    proof fn modulus_exceeds_one() {
    }

    proof fn value_in_range(&self) {
    }

    fn zero() -> (r: Self) {
        Fr { l0: 0, l1: 0, l2: 0, l3: 0 }
    }

    fn one() -> (r: Self) {
        Fr { l0: 1, l1: 0, l2: 0, l3: 0 }
    }

    fn add(&self, rhs: &Self) -> (r: Self) {
        proof {
            use_type_invariant(self);
            use_type_invariant(rhs);
        }
        let (s0, s1, s2, s3, c): (u64, u64, u64, u64, u64) = add4(
            self.l0,
            self.l1,
            self.l2,
            self.l3,
            rhs.l0,
            rhs.l1,
            rhs.l2,
            rhs.l3,
        );
        proof {
            self.lemma_residue();
            rhs.lemma_residue();
        }
        reduce_once(s0, s1, s2, s3)
    }

    fn sub(&self, rhs: &Self) -> (r: Self) {
        proof {
            use_type_invariant(self);
            use_type_invariant(rhs);
        }
        let (d0, d1, d2, d3, b): (u64, u64, u64, u64, u64) = sub4(
            self.l0,
            self.l1,
            self.l2,
            self.l3,
            rhs.l0,
            rhs.l1,
            rhs.l2,
            rhs.l3,
        );
        proof {
            self.lemma_residue();
            rhs.lemma_residue();
        }
        let ghost diff: int = limbs4(self.l0, self.l1, self.l2, self.l3) - limbs4(
            rhs.l0,
            rhs.l1,
            rhs.l2,
            rhs.l3,
        );
        if b == 0 {
            let r: Fr = Fr { l0: d0, l1: d1, l2: d2, l3: d3 };
            proof {
                r.lemma_residue();
                vstd::arithmetic::div_mod::lemma_small_mod(diff as nat, bn254_modulus() as nat);
            }
            r
        } else {
            let (e0, e1, e2, e3, c): (u64, u64, u64, u64, u64) = add4(
                d0,
                d1,
                d2,
                d3,
                PRIME_0,
                PRIME_1,
                PRIME_2,
                PRIME_3,
            );
            assert(limbs4(e0, e1, e2, e3) == diff + bn254_modulus());
            let r: Fr = Fr { l0: e0, l1: e1, l2: e2, l3: e3 };
            proof {
                r.lemma_residue();
                vstd::arithmetic::div_mod::lemma_fundamental_div_mod_converse(
                    diff,
                    bn254_modulus(),
                    -1,
                    diff + bn254_modulus(),
                );
            }
            r
        }
    }

    fn mul(&self, rhs: &Self) -> (r: Self) {
        proof {
            use_type_invariant(self);
            use_type_invariant(rhs);
        }
        let (t0, t1, t2, t3, t4, t5, t6, t7): (u64, u64, u64, u64, u64, u64, u64, u64) = mul_wide(
            self,
            rhs,
        );
        proof {
            let a: int = limbs4(self.l0, self.l1, self.l2, self.l3);
            let b: int = limbs4(rhs.l0, rhs.l1, rhs.l2, rhs.l3);
            vstd::arithmetic::mul::lemma_mul_upper_bound(
                a,
                bn254_modulus() - 1,
                b,
                bn254_modulus() - 1,
            );
            assert((bn254_modulus() - 1) * (bn254_modulus() - 1) < bn254_modulus()
                * 0x1_0000_0000_0000_0000_0000_0000_0000_0000_0000_0000_0000_0000_0000_0000_0000_0000)
                by (nonlinear_arith);
        }
        reduce_wide(t0, t1, t2, t3, t4, t5, t6, t7)
    }

    fn neg(&self) -> (r: Self) {
        let z: Fr = Fr { l0: 0, l1: 0, l2: 0, l3: 0 };
        z.sub(self)
    }

    fn equals(&self, rhs: &Self) -> (b: bool) {
        proof {
            use_type_invariant(self);
            use_type_invariant(rhs);
            self.lemma_residue();
            rhs.lemma_residue();
        }
        self.l0 == rhs.l0 && self.l1 == rhs.l1 && self.l2 == rhs.l2 && self.l3 == rhs.l3
    }

    /// The bytes spell a number, least significant byte first; its low 254
    /// bits are accepted if they lie below the modulus.
    open spec fn sampled(candidate: Seq<u8>) -> Option<int> {
        let v = le_value(candidate)
            % 0x4000_0000_0000_0000_0000_0000_0000_0000_0000_0000_0000_0000_0000_0000_0000_0000int;
        if v < bn254_modulus() {
            Some(v)
        } else {
            None
        }
    }

    proof fn sampled_in_range(candidate: Seq<u8>) {
    }

    fn sample(bytes: &[u8], start: usize) -> (r: Option<Self>) {
        let l0: u64 = read_u64_le(bytes, start);
        let l1: u64 = read_u64_le(bytes, start + 8);
        let l2: u64 = read_u64_le(bytes, start + 16);
        let top: u64 = read_u64_le(bytes, start + 24);
        let l3: u64 = top & 0x3fff_ffff_ffff_ffff;
        assert(l3 == top % 0x4000_0000_0000_0000) by (bit_vector)
            requires
                l3 == top & 0x3fff_ffff_ffff_ffff,
        ;
        proof {
            let c: Seq<u8> = bytes@.subrange(start as int, start + 32);
            assert(c.subrange(0, 8) =~= bytes@.subrange(start as int, start + 8));
            assert(c.subrange(8, 16) =~= bytes@.subrange(start + 8, start + 16));
            assert(c.subrange(16, 24) =~= bytes@.subrange(start + 16, start + 24));
            assert(c.subrange(24, 32) =~= bytes@.subrange(start + 24, start + 32));
            lemma_le_value_32(c);
            let low: int = limbs4(l0, l1, l2, l3);
            vstd::arithmetic::div_mod::lemma_fundamental_div_mod_converse(
                le_value(c),
                0x4000_0000_0000_0000_0000_0000_0000_0000_0000_0000_0000_0000_0000_0000_0000_0000int,
                (top / 0x4000_0000_0000_0000) as int,
                low,
            );
        }
        let (d0, d1, d2, d3, b): (u64, u64, u64, u64, u64) = sub4(l0, l1, l2, l3, PRIME_0, PRIME_1, PRIME_2, PRIME_3);
        if b == 1 {
            let x: Fr = Fr { l0, l1, l2, l3 };
            proof {
                x.lemma_residue();
            }
            Some(x)
        } else {
            None
        }
    }
}

/// Thirty-two bytes spell four limbs, the least significant first.
proof fn lemma_le_value_32(u: Seq<u8>)
    requires
        u.len() == 32,
    ensures
        le_value(u) == le_value(u.subrange(0, 8)) + le_value(u.subrange(8, 16))
            * 0x1_0000_0000_0000_0000 + le_value(u.subrange(16, 24))
            * 0x1_0000_0000_0000_0000_0000_0000_0000_0000 + le_value(u.subrange(24, 32))
            * 0x1_0000_0000_0000_0000_0000_0000_0000_0000_0000_0000_0000_0000,
        0 <= le_value(u.subrange(0, 8)) < 0x1_0000_0000_0000_0000,
        0 <= le_value(u.subrange(8, 16)) < 0x1_0000_0000_0000_0000,
        0 <= le_value(u.subrange(16, 24)) < 0x1_0000_0000_0000_0000,
        0 <= le_value(u.subrange(24, 32)) < 0x1_0000_0000_0000_0000,
{
    let a: Seq<u8> = u.subrange(0, 8);
    let b: Seq<u8> = u.subrange(8, 16);
    let c: Seq<u8> = u.subrange(16, 24);
    let d: Seq<u8> = u.subrange(24, 32);
    lemma_pow256_8();
    lemma_le_value_bound(a);
    lemma_le_value_bound(b);
    lemma_le_value_bound(c);
    lemma_le_value_bound(d);
    assert(u =~= a + (b + (c + d)));
    lemma_le_value_concat(a, b + (c + d));
    lemma_le_value_concat(b, c + d);
    lemma_le_value_concat(c, d);
}

/// Thirty-two bytes spell four limbs, the most significant first.
proof fn lemma_be_value_32(u: Seq<u8>)
    requires
        u.len() == 32,
    ensures
        be_value(u) == be_value(u.subrange(24, 32)) + be_value(u.subrange(16, 24))
            * 0x1_0000_0000_0000_0000 + be_value(u.subrange(8, 16))
            * 0x1_0000_0000_0000_0000_0000_0000_0000_0000 + be_value(u.subrange(0, 8))
            * 0x1_0000_0000_0000_0000_0000_0000_0000_0000_0000_0000_0000_0000,
        0 <= be_value(u.subrange(24, 32)) < 0x1_0000_0000_0000_0000,
        0 <= be_value(u.subrange(16, 24)) < 0x1_0000_0000_0000_0000,
        0 <= be_value(u.subrange(8, 16)) < 0x1_0000_0000_0000_0000,
        0 <= be_value(u.subrange(0, 8)) < 0x1_0000_0000_0000_0000,
{
    let a: Seq<u8> = u.subrange(0, 8);
    let b: Seq<u8> = u.subrange(8, 16);
    let c: Seq<u8> = u.subrange(16, 24);
    let d: Seq<u8> = u.subrange(24, 32);
    lemma_pow256_8();
    lemma_be_value_bound(a);
    lemma_be_value_bound(b);
    lemma_be_value_bound(c);
    lemma_be_value_bound(d);
    assert(u =~= ((a + b) + c) + d);
    lemma_be_value_concat((a + b) + c, d);
    lemma_be_value_concat(a + b, c);
    lemma_be_value_concat(a, b);
}

impl FromU8s for Fr {
    /// Thirty-two bytes that spell, most significant byte first, a number
    /// below the modulus.
    open spec fn decodable(u: Seq<u8>) -> bool {
        u.len() == 32 && be_value(u) < bn254_modulus()
    }

    closed spec fn decoded(u: Seq<u8>) -> Self {
        Fr {
            l0: be_value(u.subrange(24, 32)) as u64,
            l1: be_value(u.subrange(16, 24)) as u64,
            l2: be_value(u.subrange(8, 16)) as u64,
            l3: be_value(u.subrange(0, 8)) as u64,
        }
    }

    fn from_u8s(u: &Vec<u8>) -> (r: Self)
        ensures
            r.value() == be_value(u@),
    {
        let l3: u64 = read_u64_be(u.as_slice(), 0);
        let l2: u64 = read_u64_be(u.as_slice(), 8);
        let l1: u64 = read_u64_be(u.as_slice(), 16);
        let l0: u64 = read_u64_be(u.as_slice(), 24);
        proof {
            lemma_be_value_32(u@);
        }
        Fr { l0, l1, l2, l3 }
    }
}

/// The 64-bit limb of a number at a place, the place given as its weight.
pub open spec fn limb_at(v: int, weight: int) -> u64 {
    ((v / weight) % 0x1_0000_0000_0000_0000) as u64
}

/// The thirty-two bytes that spell a number, most significant byte first.
#[verifier::opaque]
pub open spec fn be_bytes32(v: int) -> Seq<u8> {
    u64_be_bytes(
        limb_at(v, 0x1_0000_0000_0000_0000_0000_0000_0000_0000_0000_0000_0000_0000int),
    ) + u64_be_bytes(limb_at(v, 0x1_0000_0000_0000_0000_0000_0000_0000_0000int)) + u64_be_bytes(
        limb_at(v, 0x1_0000_0000_0000_0000int),
    ) + u64_be_bytes(limb_at(v, 1int))
}

/// A number below `2^256` is spelled by its four limbs.
pub proof fn lemma_limbs_of_value(v: int)
    requires
        0 <= v < 0x1_0000_0000_0000_0000_0000_0000_0000_0000_0000_0000_0000_0000_0000_0000_0000_0000int,
    ensures
        v == limbs4(
            limb_at(v, 1int),
            limb_at(v, 0x1_0000_0000_0000_0000int),
            limb_at(v, 0x1_0000_0000_0000_0000_0000_0000_0000_0000int),
            limb_at(v, 0x1_0000_0000_0000_0000_0000_0000_0000_0000_0000_0000_0000_0000int),
        ),
{
    let b: int = 0x1_0000_0000_0000_0000int;
    let b2: int = 0x1_0000_0000_0000_0000_0000_0000_0000_0000int;
    let b3: int = 0x1_0000_0000_0000_0000_0000_0000_0000_0000_0000_0000_0000_0000int;
    let a1: int = v / b;
    let a2: int = a1 / b;
    let a3: int = a2 / b;
    vstd::arithmetic::div_mod::lemma_fundamental_div_mod(v, b);
    vstd::arithmetic::div_mod::lemma_fundamental_div_mod(a1, b);
    vstd::arithmetic::div_mod::lemma_fundamental_div_mod(a2, b);
    vstd::arithmetic::div_mod::lemma_div_denominator(v, b, b);
    vstd::arithmetic::div_mod::lemma_div_denominator(v, b2, b);
    assert(b * b == b2);
    assert(b2 * b == b3);
    assert(a2 == v / b2);
    assert(a3 == v / b3);
    assert(0 <= a3 < b);
    vstd::arithmetic::div_mod::lemma_small_mod(a3 as nat, b as nat);
    assert(v / 1 == v);
}

/// The limbs of a number spelled by four limbs are those limbs.
proof fn lemma_limbs_of_limbs(l0: u64, l1: u64, l2: u64, l3: u64)
    ensures
        limb_at(limbs4(l0, l1, l2, l3), 1) == l0,
        limb_at(limbs4(l0, l1, l2, l3), 0x1_0000_0000_0000_0000int) == l1,
        limb_at(limbs4(l0, l1, l2, l3), 0x1_0000_0000_0000_0000_0000_0000_0000_0000int) == l2,
        limb_at(
            limbs4(l0, l1, l2, l3),
            0x1_0000_0000_0000_0000_0000_0000_0000_0000_0000_0000_0000_0000int,
        ) == l3,
{
    let b: int = 0x1_0000_0000_0000_0000int;
    let b2: int = 0x1_0000_0000_0000_0000_0000_0000_0000_0000int;
    let b3: int = 0x1_0000_0000_0000_0000_0000_0000_0000_0000_0000_0000_0000_0000int;
    let v: int = limbs4(l0, l1, l2, l3);
    assert(v / 1 == v);
    vstd::arithmetic::div_mod::lemma_fundamental_div_mod_converse(
        v,
        b,
        l1 + l2 * b + l3 * b2,
        l0 as int,
    );
    vstd::arithmetic::div_mod::lemma_fundamental_div_mod_converse(
        v,
        b2,
        l2 + l3 * b,
        l0 + l1 * b,
    );
    vstd::arithmetic::div_mod::lemma_fundamental_div_mod_converse(
        v,
        b3,
        l3 as int,
        l0 + l1 * b + l2 * b2,
    );
    vstd::arithmetic::div_mod::lemma_fundamental_div_mod_converse(
        l1 + l2 * b + l3 * b2,
        b,
        l2 + l3 * b,
        l1 as int,
    );
    vstd::arithmetic::div_mod::lemma_fundamental_div_mod_converse(
        l2 + l3 * b,
        b,
        l3 as int,
        l2 as int,
    );
    vstd::arithmetic::div_mod::lemma_small_mod(l3 as nat, b as nat);
}

/// A number is spelled in thirty-two bytes.
pub proof fn lemma_be_bytes32_len(v: int)
    ensures
        be_bytes32(v).len() == 32,
{
    reveal(be_bytes32);
}

/// The thirty-two bytes of a number below `2^256` spell the number.
pub proof fn lemma_be_bytes32_value(v: int)
    requires
        0 <= v < 0x1_0000_0000_0000_0000_0000_0000_0000_0000_0000_0000_0000_0000_0000_0000_0000_0000int,
    ensures
        be_bytes32(v).len() == 32,
        be_value(be_bytes32(v)) == v,
{
    reveal(be_bytes32);
    let l0: u64 = limb_at(v, 1int);
    let l1: u64 = limb_at(v, 0x1_0000_0000_0000_0000int);
    let l2: u64 = limb_at(v, 0x1_0000_0000_0000_0000_0000_0000_0000_0000int);
    let l3: u64 = limb_at(v, 0x1_0000_0000_0000_0000_0000_0000_0000_0000_0000_0000_0000_0000int);
    lemma_limbs_of_value(v);
    lemma_u64_be_bytes_value(l3);
    lemma_u64_be_bytes_value(l2);
    lemma_u64_be_bytes_value(l1);
    lemma_u64_be_bytes_value(l0);
    let out: Seq<u8> = be_bytes32(v);
    assert(out.subrange(0, 8) =~= u64_be_bytes(l3));
    assert(out.subrange(8, 16) =~= u64_be_bytes(l2));
    assert(out.subrange(16, 24) =~= u64_be_bytes(l1));
    assert(out.subrange(24, 32) =~= u64_be_bytes(l0));
    lemma_be_value_32(out);
}

impl ToU8s for Fr {
    /// The thirty-two bytes that spell the residue, most significant byte
    /// first.
    open spec fn encoded(&self) -> Seq<u8> {
        be_bytes32(self.residue())
    }

    fn to_u8s(&self) -> (r: Vec<u8>)
        ensures
            r@.len() == 32,
            be_value(r@) == self.value(),
    {
        proof {
            reveal(be_bytes32);
            use_type_invariant(self);
            self.lemma_residue();
            lemma_limbs_of_limbs(self.l0, self.l1, self.l2, self.l3);
            lemma_be_bytes32_value(self.residue());
        }
        let mut out: Vec<u8> = Vec::with_capacity(32);
        push_u64_be(&mut out, self.l3);
        push_u64_be(&mut out, self.l2);
        push_u64_be(&mut out, self.l1);
        push_u64_be(&mut out, self.l0);
        out
    }
}

impl Fr {
    /// The element that the thirty-two bytes from `start` on spell, most
    /// significant byte first; none where they spell a number that is not
    /// below the modulus.
    pub fn from_be_bytes(bytes: &[u8], start: usize) -> (r: Option<Fr>)
        requires
            start + 32 <= bytes.len(),
        ensures
            r is Some <==> be_value(bytes@.subrange(start as int, start + 32)) < bn254_modulus(),
            r matches Some(x) ==> x.value() == be_value(
                bytes@.subrange(start as int, start + 32),
            ),
    {
        let l3: u64 = read_u64_be(bytes, start);
        let l2: u64 = read_u64_be(bytes, start + 8);
        let l1: u64 = read_u64_be(bytes, start + 16);
        let l0: u64 = read_u64_be(bytes, start + 24);
        proof {
            let c: Seq<u8> = bytes@.subrange(start as int, start + 32);
            assert(c.subrange(0, 8) =~= bytes@.subrange(start as int, start + 8));
            assert(c.subrange(8, 16) =~= bytes@.subrange(start + 8, start + 16));
            assert(c.subrange(16, 24) =~= bytes@.subrange(start + 16, start + 24));
            assert(c.subrange(24, 32) =~= bytes@.subrange(start + 24, start + 32));
            lemma_be_value_32(c);
        }
        let (d0, d1, d2, d3, b): (u64, u64, u64, u64, u64) = sub4(l0, l1, l2, l3, PRIME_0, PRIME_1, PRIME_2, PRIME_3);
        if b == 1 {
            let x: Fr = Fr { l0, l1, l2, l3 };
            proof {
                x.lemma_residue();
            }
            Some(x)
        } else {
            None
        }
    }
}

/// A residue read as a signed number of least magnitude: a sign and a
/// magnitude of at most half the modulus.
#[derive(Clone, Copy, Debug)]
pub struct Norm {
    pub negative: bool,
    pub magnitude: Fr,
}

impl Norm {
    /// The signed number.
    pub open spec fn signed_value(self) -> int {
        if self.negative {
            -self.magnitude.value()
        } else {
            self.magnitude.value()
        }
    }
}

impl Fr {
    /// The element that stands for a 64-bit number.
    pub fn from_u64(x: u64) -> (r: Fr)
        ensures
            r.value() == x,
    {
        let r: Fr = Fr { l0: x, l1: 0, l2: 0, l3: 0 };
        proof {
            r.lemma_residue();
        }
        r
    }

    /// The element that stands for a 128-bit number.
    pub fn from_u128(x: u128) -> (r: Fr)
        ensures
            r.value() == x,
    {
        let lo: u64 = #[verifier::truncate] (x as u64);
        let hi: u64 = (x >> 64) as u64;
        assert(lo == x % 0x1_0000_0000_0000_0000 && hi == x / 0x1_0000_0000_0000_0000)
            by (bit_vector)
            requires
                lo == x as u64,
                hi == (x >> 64) as u64,
        ;
        let r: Fr = Fr { l0: lo, l1: hi, l2: 0, l3: 0 };
        proof {
            r.lemma_residue();
        }
        r
    }

    /// The modulus, as thirty-two bytes, most significant byte first.
    pub fn prime() -> (r: Vec<u8>)
        ensures
            r@.len() == 32,
            be_value(r@) == bn254_modulus(),
    {
        let mut out: Vec<u8> = Vec::with_capacity(32);
        push_u64_be(&mut out, PRIME_3);
        push_u64_be(&mut out, PRIME_2);
        push_u64_be(&mut out, PRIME_1);
        push_u64_be(&mut out, PRIME_0);
        proof {
            lemma_u64_be_bytes_value(PRIME_3);
            lemma_u64_be_bytes_value(PRIME_2);
            lemma_u64_be_bytes_value(PRIME_1);
            lemma_u64_be_bytes_value(PRIME_0);
            assert(out@.subrange(0, 8) =~= u64_be_bytes(PRIME_3));
            assert(out@.subrange(8, 16) =~= u64_be_bytes(PRIME_2));
            assert(out@.subrange(16, 24) =~= u64_be_bytes(PRIME_1));
            assert(out@.subrange(24, 32) =~= u64_be_bytes(PRIME_0));
            lemma_be_value_32(out@);
        }
        out
    }

    /// Half the modulus, rounded down.
    pub fn half_prime() -> (r: Fr)
        ensures
            r.value() == bn254_modulus() / 2,
    {
        let r: Fr = Fr {
            l0: 0xa1f0fac9f8000000,
            l1: 0x9419f4243cdcb848,
            l2: 0xdc2822db40c0ac2e,
            l3: 0x183227397098d014,
        };
        proof {
            r.lemma_residue();
        }
        r
    }

    /// The residue as a signed number of least magnitude: itself where it is
    /// at most half the modulus, else itself less the modulus.
    pub fn norm(&self) -> (r: Norm)
        ensures
            r.signed_value() == if self.value() > bn254_modulus() / 2 {
                self.value() - bn254_modulus()
            } else {
                self.value()
            },
    {
        proof {
            use_type_invariant(self);
            self.lemma_residue();
        }
        let half: Fr = Fr::half_prime();
        proof {
            use_type_invariant(half);
            half.lemma_residue();
        }
        let (d0, d1, d2, d3, b): (u64, u64, u64, u64, u64) = sub4(
            half.l0,
            half.l1,
            half.l2,
            half.l3,
            self.l0,
            self.l1,
            self.l2,
            self.l3,
        );
        if b == 1 {
            let m: Fr = self.neg();
            proof {
                vstd::arithmetic::div_mod::lemma_fundamental_div_mod_converse(
                    -self.value(),
                    bn254_modulus(),
                    -1,
                    bn254_modulus() - self.value(),
                );
            }
            Norm { negative: true, magnitude: m }
        } else {
            Norm { negative: false, magnitude: *self }
        }
    }
}

impl Fr {
    /// The element that the thirty-two bytes from `start` on spell, least
    /// significant byte first; none where they spell a number that is not
    /// below the modulus.
    pub fn from_le_bytes(bytes: &[u8], start: usize) -> (r: Option<Fr>)
        requires
            start + 32 <= bytes.len(),
        ensures
            r is Some <==> le_value(bytes@.subrange(start as int, start + 32)) < bn254_modulus(),
            r matches Some(x) ==> x.value() == le_value(
                bytes@.subrange(start as int, start + 32),
            ),
    {
        let l0: u64 = read_u64_le(bytes, start);
        let l1: u64 = read_u64_le(bytes, start + 8);
        let l2: u64 = read_u64_le(bytes, start + 16);
        let l3: u64 = read_u64_le(bytes, start + 24);
        proof {
            let c: Seq<u8> = bytes@.subrange(start as int, start + 32);
            assert(c.subrange(0, 8) =~= bytes@.subrange(start as int, start + 8));
            assert(c.subrange(8, 16) =~= bytes@.subrange(start + 8, start + 16));
            assert(c.subrange(16, 24) =~= bytes@.subrange(start + 16, start + 24));
            assert(c.subrange(24, 32) =~= bytes@.subrange(start + 24, start + 32));
            lemma_le_value_32(c);
        }
        let (d0, d1, d2, d3, b): (u64, u64, u64, u64, u64) = sub4(l0, l1, l2, l3, PRIME_0, PRIME_1, PRIME_2, PRIME_3);
        if b == 1 {
            let x: Fr = Fr { l0, l1, l2, l3 };
            proof {
                x.lemma_residue();
            }
            Some(x)
        } else {
            None
        }
    }
}

/// A power of a product of powers: powers of one base multiply by adding
/// their exponents.
proof fn lemma_power_adds(b: int, m: nat, n: nat)
    ensures
        crate::quicksilver::power(b, m + n) == crate::quicksilver::power(b, m)
            * crate::quicksilver::power(b, n),
    decreases n,
{
    if n == 0 {
        assert(crate::quicksilver::power(b, 0) == 1);
        assert(crate::quicksilver::power(b, m) * 1 == crate::quicksilver::power(b, m));
    } else {
        lemma_power_adds(b, m, (n - 1) as nat);
        let pm: int = crate::quicksilver::power(b, m);
        let pn: int = crate::quicksilver::power(b, (n - 1) as nat);
        assert(crate::quicksilver::power(b, n) == pn * b);
        assert(crate::quicksilver::power(b, m + n) == crate::quicksilver::power(
            b,
            (m + n - 1) as nat,
        ) * b);
        assert((pm * pn) * b == pm * (pn * b)) by (nonlinear_arith);
    }
}

/// Raises to the power that one limb of an exponent adds: with `result` the
/// power for the exponent so far and `square` the power for the weight of
/// the limb, gives the power for the exponent with the limb and the power
/// for the weight of the next limb.
fn pow_limb(
    result: Fr,
    square: Fr,
    limb: u64,
    Ghost(base): Ghost<int>,
    Ghost(so_far): Ghost<nat>,
    Ghost(weight): Ghost<nat>,
) -> (r: (Fr, Fr))
    requires
        result.residue() == crate::quicksilver::power(base, so_far) % bn254_modulus(),
        square.residue() == crate::quicksilver::power(base, weight) % bn254_modulus(),
    ensures
        r.0.residue() == crate::quicksilver::power(base, so_far + weight * limb as nat)
            % bn254_modulus(),
        r.1.residue() == crate::quicksilver::power(
            base,
            weight * 0x1_0000_0000_0000_0000nat,
        ) % bn254_modulus(),
{
    let mut result: Fr = result;
    let mut square: Fr = square;
    let mut cur: u64 = limb;
    let mut j: u32 = 0;
    let ghost mut done: nat = 0;
    let ghost mut w: nat = 1;
    proof {
        vstd::arithmetic::power2::lemma2_to64();
        assert(weight * 0 == 0) by (nonlinear_arith);
        assert(weight * 1 == weight) by (nonlinear_arith);
    }
    while j < 64
        invariant
            j <= 64,
            w == vstd::arithmetic::power2::pow2(j as nat),
            limb == done + w * cur,
            result.residue() == crate::quicksilver::power(base, so_far + weight * done)
                % bn254_modulus(),
            square.residue() == crate::quicksilver::power(base, weight * w) % bn254_modulus(),
        decreases 64 - j,
    {
        let bit: u64 = cur % 2;
        let ghost e: nat = so_far + weight * done;
        let ghost step: nat = weight * w;
        if bit == 1 {
            result = result.mul(&square);
            proof {
                vstd::arithmetic::div_mod::lemma_mul_mod_noop_general(
                    crate::quicksilver::power(base, e),
                    crate::quicksilver::power(base, step),
                    bn254_modulus(),
                );
                lemma_power_adds(base, e, step);
                assert(weight * (done + w) == weight * done + weight * w) by (nonlinear_arith);
            }
        }
        proof {
            vstd::arithmetic::div_mod::lemma_mul_mod_noop_general(
                crate::quicksilver::power(base, step),
                crate::quicksilver::power(base, step),
                bn254_modulus(),
            );
            lemma_power_adds(base, step, step);
            assert(weight * (2 * w) == weight * w + weight * w) by (nonlinear_arith);
            vstd::arithmetic::power2::lemma_pow2_unfold((j + 1) as nat);
            assert(w * cur == w * (cur % 2) + (2 * w) * (cur / 2)) by (nonlinear_arith)
                requires
                    cur == 2 * (cur / 2) + cur % 2,
            ;
            if bit == 1 {
                assert(w * (cur % 2) == w) by (nonlinear_arith)
                    requires
                        cur % 2 == 1,
                ;
                done = done + w;
            } else {
                assert(w * (cur % 2) == 0) by (nonlinear_arith)
                    requires
                        cur % 2 == 0,
                ;
            }
            w = 2 * w;
        }
        square = square.mul(&square);
        cur = cur / 2;
        j += 1;
    }
    proof {
        vstd::arithmetic::power2::lemma2_to64();
        assert(w == 0x1_0000_0000_0000_0000nat);
        if cur > 0 {
            assert(w * cur >= w) by (nonlinear_arith)
                requires
                    cur >= 1,
                    w >= 0,
            ;
        }
        assert(cur == 0);
        assert(w * cur == 0) by (nonlinear_arith)
            requires
                cur == 0,
        ;
    }
    (result, square)
}

/// The power with the modulus less two as exponent.
fn pow_modulus_less_two(x: &Fr) -> (r: Fr)
    ensures
        r.residue() == crate::quicksilver::power(x.residue(), (bn254_modulus() - 2) as nat)
            % bn254_modulus(),
{
    let one: Fr = Fr { l0: 1, l1: 0, l2: 0, l3: 0 };
    let ghost b: int = x.residue();
    proof {
        use_type_invariant(x);
        x.lemma_residue();
        one.lemma_residue();
        assert(crate::quicksilver::power(b, 0) == 1);
        assert(crate::quicksilver::power(b, 1) == crate::quicksilver::power(b, 0) * b);
    }
    let ghost w1: nat = 0x1_0000_0000_0000_0000nat;
    let ghost w2: nat = 0x1_0000_0000_0000_0000_0000_0000_0000_0000nat;
    let ghost w3: nat = 0x1_0000_0000_0000_0000_0000_0000_0000_0000_0000_0000_0000_0000nat;
    let ghost e0: nat = 0x43e1f593efffffffnat;
    let ghost e1: nat = 0x2833e84879b9709143e1f593efffffffnat;
    let ghost e2: nat = 0xb85045b68181585d2833e84879b9709143e1f593efffffffnat;
    let (r0, s0): (Fr, Fr) = pow_limb(one, *x, 0x43e1f593efffffff, Ghost(b), Ghost(0), Ghost(1));
    assert(0 + 1 * 0x43e1f593efffffffnat == e0);
    assert(1 * 0x1_0000_0000_0000_0000nat == w1);
    let (r1, s1): (Fr, Fr) = pow_limb(r0, s0, 0x2833e84879b97091, Ghost(b), Ghost(e0), Ghost(w1));
    assert(e0 + w1 * 0x2833e84879b97091nat == e1);
    assert(w1 * 0x1_0000_0000_0000_0000nat == w2);
    let (r2, s2): (Fr, Fr) = pow_limb(r1, s1, 0xb85045b68181585d, Ghost(b), Ghost(e1), Ghost(w2));
    assert(e1 + w2 * 0xb85045b68181585dnat == e2);
    assert(w2 * 0x1_0000_0000_0000_0000nat == w3);
    let (r3, s3): (Fr, Fr) = pow_limb(r2, s2, 0x30644e72e131a029, Ghost(b), Ghost(e2), Ghost(w3));
    assert(e2 + w3 * 0x30644e72e131a029nat == bn254_modulus() - 2);
    r3
}

impl Fr {
    /// The multiplicative inverse, found as the power with the modulus less
    /// two as exponent; none for an element that this power does not invert,
    /// as it does not invert zero.
    pub fn invert(&self) -> (r: Option<Fr>)
        ensures
            r is Some <==> (self.value() * (crate::quicksilver::power(
                self.value(),
                (bn254_modulus() - 2) as nat,
            ) % bn254_modulus())) % bn254_modulus() == 1,
            r matches Some(x) ==> x.value() == crate::quicksilver::power(
                self.value(),
                (bn254_modulus() - 2) as nat,
            ) % bn254_modulus() && (self.value() * x.value()) % bn254_modulus() == 1,
            self.value() == 0 ==> r is None,
    {
        let candidate: Fr = pow_modulus_less_two(self);
        let check: Fr = self.mul(&candidate);
        let one: Fr = Fr::one();
        if check.equals(&one) {
            Some(candidate)
        } else {
            proof {
                if self.residue() == 0 {
                    assert(0 * candidate.residue() == 0);
                }
            }
            None
        }
    }
}

} // verus!
