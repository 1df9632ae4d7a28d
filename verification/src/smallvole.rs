//! The small VOLE from two seeds.
//!
//! The prover expands both seeds of a pair to vectors `r0` and `r1` and keeps
//! `u = -(r0 + r1)` and `v = r0`. The verifier learns one seed of the pair and
//! with it a bit `delta`: from the first seed it has `delta = 0` and `q = r0`,
//! from the second `delta = 1` and `q = -r1`. Either way `u * delta + v = q`.

use crate::field::PF;
use crate::linalg::{vec_add, vec_neg, vec_scale, FVec};
use crate::vecccom::{accepted, expand_seed_to_field_vec, expanded_seed, max_expansion};
use vstd::prelude::*;

verus! {

/// What the prover keeps of one small VOLE.
#[derive(Debug)]
pub struct ProverSmallVOLEOutputs<T: PF> {
    pub u: FVec<T>,
    pub v: FVec<T>,
}

/// What the verifier learns of one small VOLE.
#[derive(Debug)]
pub struct VerifierSmallVOLEOutputs<T: PF> {
    pub delta: T,
    pub q: FVec<T>,
}

/// The prover's `u`: the negated sum of the two expansions.
pub open spec fn small_vole_u<T: PF>(seed0: Seq<u8>, seed1: Seq<u8>, len: nat) -> Seq<int> {
    vec_neg(
        vec_add(expanded_seed::<T>(seed0, len), expanded_seed::<T>(seed1, len), T::modulus()),
        T::modulus(),
    )
}

/// The prover's `v`: the expansion of the first seed.
pub open spec fn small_vole_v<T: PF>(seed0: Seq<u8>, len: nat) -> Seq<int> {
    expanded_seed::<T>(seed0, len)
}

/// The verifier's `q`: the expansion of the seed it knows, negated where the
/// bit is set.
pub open spec fn small_vole_q<T: PF>(seed: Seq<u8>, delta: bool, len: nat) -> Seq<int> {
    if delta {
        vec_neg(expanded_seed::<T>(seed, len), T::modulus())
    } else {
        expanded_seed::<T>(seed, len)
    }
}

/// A bit as a residue.
pub open spec fn bit_value(delta: bool) -> int {
    if delta {
        1
    } else {
        0
    }
}

/// The prover's outputs for a pair of seeds. For either bit, `u` times the
/// bit plus `v` is the `q` of the verifier that is shown the seed the bit
/// selects.
pub fn prover_outputs<T: PF>(seed0: &[u8; 32], seed1: &[u8; 32], vole_length: usize) -> (r:
    ProverSmallVOLEOutputs<T>)
    requires
        vole_length <= max_expansion(),
    ensures
        r.u@ == small_vole_u::<T>(seed0@, seed1@, vole_length as nat),
        r.v@ == small_vole_v::<T>(seed0@, vole_length as nat),
        vec_add(vec_scale(r.u@, 0, T::modulus()), r.v@, T::modulus()) == small_vole_q::<T>(
            seed0@,
            false,
            vole_length as nat,
        ),
        vec_add(vec_scale(r.u@, 1, T::modulus()), r.v@, T::modulus()) == small_vole_q::<T>(
            seed1@,
            true,
            vole_length as nat,
        ),
{
    let out0: FVec<T> = expand_seed_to_field_vec(*seed0, vole_length);
    let out1: FVec<T> = expand_seed_to_field_vec(*seed1, vole_length);
    let u: FVec<T> = out0.add(&out1).neg();
    proof {
        lemma_small_vole_correct::<T>(seed0@, seed1@, vole_length as nat, false);
        lemma_small_vole_correct::<T>(seed0@, seed1@, vole_length as nat, true);
    }
    ProverSmallVOLEOutputs { u, v: out0 }
}

/// The verifier's outputs for the seed it was shown: `delta` tells whether
/// that seed is the second of its pair.
pub fn verifier_outputs<T: PF>(seed: &[u8; 32], delta: bool, vole_length: usize) -> (r:
    VerifierSmallVOLEOutputs<T>)
    requires
        vole_length <= max_expansion(),
    ensures
        r.delta.value() == bit_value(delta),
        r.q@ == small_vole_q::<T>(seed@, delta, vole_length as nat),
{
    let out: FVec<T> = expand_seed_to_field_vec(*seed, vole_length);
    if delta {
        VerifierSmallVOLEOutputs { delta: T::one(), q: out.neg() }
    } else {
        VerifierSmallVOLEOutputs { delta: T::zero(), q: out }
    }
}

/// Whether every entry of a vector is a residue.
pub open spec fn all_residues(v: Seq<int>, m: int) -> bool {
    forall|i: int| 0 <= i < v.len() ==> 0 <= #[trigger] v[i] < m
}

/// Every residue accepted from a stream lies below the modulus.
pub proof fn lemma_accepted_residues<T: PF>(stream: Seq<u8>, k: nat)
    ensures
        all_residues(accepted::<T>(stream, k), T::modulus()),
    decreases k,
{
    if k > 0 {
        lemma_accepted_residues::<T>(stream, (k - 1) as nat);
        T::sampled_in_range(stream.subrange(32 * (k - 1), 32 * (k as int)));
    }
}

/// Every element that a seed expands to is a residue.
pub proof fn lemma_expanded_residues<T: PF>(seed: Seq<u8>, len: nat)
    ensures
        all_residues(expanded_seed::<T>(seed, len), T::modulus()),
        expanded_seed::<T>(seed, len).len() == len,
{
    T::modulus_exceeds_one();
    lemma_accepted_residues::<T>(
        crate::stream::chacha12_keystream(seed, 32 * crate::vecccom::candidates_for(len)),
        crate::vecccom::candidates_for(len),
    );
}

/// The small VOLE is correct: for every pair of seeds, every length and
/// either bit, the prover's `u` times the bit plus its `v` is, entry by entry,
/// the `q` of the verifier that was shown the seed the bit selects.
pub proof fn lemma_small_vole_correct<T: PF>(
    seed0: Seq<u8>,
    seed1: Seq<u8>,
    len: nat,
    delta: bool,
)
    ensures
        vec_add(
            vec_scale(small_vole_u::<T>(seed0, seed1, len), bit_value(delta), T::modulus()),
            small_vole_v::<T>(seed0, len),
            T::modulus(),
        ) == small_vole_q::<T>(
            if delta {
                seed1
            } else {
                seed0
            },
            delta,
            len,
        ),
{
    let m: int = T::modulus();
    T::modulus_exceeds_one();
    let r0: Seq<int> = expanded_seed::<T>(seed0, len);
    let r1: Seq<int> = expanded_seed::<T>(seed1, len);
    lemma_expanded_residues::<T>(seed0, len);
    lemma_expanded_residues::<T>(seed1, len);
    let u: Seq<int> = small_vole_u::<T>(seed0, seed1, len);
    let lhs: Seq<int> = vec_add(vec_scale(u, bit_value(delta), m), r0, m);
    let rhs: Seq<int> = small_vole_q::<T>(if delta { seed1 } else { seed0 }, delta, len);
    assert(lhs.len() == rhs.len());
    assert forall|i: int| 0 <= i < len implies lhs[i] == rhs[i] by {
        let a: int = r0[i];
        let b: int = r1[i];
        assert(u[i] == (-((a + b) % m)) % m);
        if delta {
            // ((u * 1) % m + a) % m == (-b) % m
            vstd::arithmetic::div_mod::lemma_sub_mod_noop_right(0, a + b, m);
            assert(u[i] == (-(a + b)) % m);
            vstd::arithmetic::div_mod::lemma_mod_twice(-(a + b), m);
            assert(u[i] * 1 == u[i]);
            vstd::arithmetic::div_mod::lemma_add_mod_noop_right(a, -(a + b), m);
            assert((u[i] + a) % m == (a + (-(a + b))) % m);
        } else {
            assert(u[i] * 0 == 0);
            vstd::arithmetic::div_mod::lemma_small_mod(0, m as nat);
            vstd::arithmetic::div_mod::lemma_small_mod(a as nat, m as nat);
        }
    }
    assert(lhs =~= rhs);
}

} // verus!
