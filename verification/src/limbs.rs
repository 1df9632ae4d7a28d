//! Carry-propagating arithmetic on 64-bit limbs.
//!
//! A multi-limb number is written least significant limb first. The functions
//! here are the building blocks of the field arithmetic; each states its
//! result as an equation over unbounded integers.

use vstd::prelude::*;

verus! {

/// The value of four limbs, least significant first.
pub open spec fn limbs4(l0: u64, l1: u64, l2: u64, l3: u64) -> int {
    l0 + l1 * 0x1_0000_0000_0000_0000 + l2 * 0x1_0000_0000_0000_0000_0000_0000_0000_0000
        + l3 * 0x1_0000_0000_0000_0000_0000_0000_0000_0000_0000_0000_0000_0000
}

/// The value of five limbs, least significant first.
pub open spec fn limbs5(l0: u64, l1: u64, l2: u64, l3: u64, l4: u64) -> int {
    limbs4(l0, l1, l2, l3) + l4
        * 0x1_0000_0000_0000_0000_0000_0000_0000_0000_0000_0000_0000_0000_0000_0000_0000_0000
}

/// Adds two limbs and an incoming carry; returns the low limb and the carry out.
pub fn adc(a: u64, b: u64, carry: u64) -> (r: (u64, u64))
    requires
        carry <= 1,
    ensures
        r.0 + r.1 * 0x1_0000_0000_0000_0000 == a + b + carry,
        r.1 <= 1,
{
    let t: u128 = a as u128 + b as u128 + carry as u128;
    let lo: u64 = #[verifier::truncate] (t as u64);
    let hi: u64 = (t >> 64) as u64;
    assert(t as u64 == t % 0x1_0000_0000_0000_0000) by (bit_vector);
    assert(t >> 64 == t / 0x1_0000_0000_0000_0000) by (bit_vector);
    (lo, hi)
}

/// Subtracts a limb and an incoming borrow from a limb; returns the low limb
/// and the borrow out.
pub fn sbb(a: u64, b: u64, borrow: u64) -> (r: (u64, u64))
    requires
        borrow <= 1,
    ensures
        r.0 - r.1 * 0x1_0000_0000_0000_0000 == a - b - borrow,
        r.1 <= 1,
{
    let t: u128 = (a as u128 + 0x1_0000_0000_0000_0000u128) - b as u128 - borrow as u128;
    let lo: u64 = #[verifier::truncate] (t as u64);
    let hi: u64 = (t >> 64) as u64;
    assert(t as u64 == t % 0x1_0000_0000_0000_0000) by (bit_vector);
    assert(t >> 64 == t / 0x1_0000_0000_0000_0000) by (bit_vector);
    (lo, 1 - hi)
}

/// Multiplies two limbs and adds two more; returns the low and the high limb.
pub fn mac(a: u64, b: u64, c: u64, carry: u64) -> (r: (u64, u64))
    ensures
        r.0 + r.1 * 0x1_0000_0000_0000_0000 == a * b + c + carry,
{
    assert(a * b <= 0xffff_ffff_ffff_ffff * 0xffff_ffff_ffff_ffff) by (nonlinear_arith)
        requires
            a <= 0xffff_ffff_ffff_ffff,
            b <= 0xffff_ffff_ffff_ffff,
    ;
    let t: u128 = (a as u128) * (b as u128) + c as u128 + carry as u128;
    let lo: u64 = #[verifier::truncate] (t as u64);
    let hi: u64 = (t >> 64) as u64;
    assert(t as u64 == t % 0x1_0000_0000_0000_0000) by (bit_vector);
    assert(t >> 64 == t / 0x1_0000_0000_0000_0000) by (bit_vector);
    (lo, hi)
}

} // verus!
