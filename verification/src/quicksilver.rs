//! The Quicksilver check of a rank-1 constraint system over a long VOLE.
//!
//! The prover holds every wire value `x` with a mask `v`; the verifier holds
//! the key `q = x * delta + v`. For a gate with dot products `(xa, va)`,
//! `(xb, vb)` and `(xc, vc)` the verifier can compute `qa * qb - delta * qc`,
//! which for a satisfied gate is `delta * (xa * vb + xb * va - vc) + va * vb`.
//! The prover sends the two coefficients, summed over all gates with the
//! powers of a challenge as weights and hidden by one more VOLE entry.

use crate::actors::PublicOpenings;
use crate::errors::Error;
use crate::field::PF;
use crate::linalg::{
    mat_add, mat_scale, vec_add, vec_mul, vec_scale, vec_sparse_mat, vec_sub, FMatrix, FVec,
};
use crate::zkp::{wires_below, R1CSWithMetadata, R1CS};
use vstd::arithmetic::div_mod::{
    lemma_add_mod_noop, lemma_mul_mod_noop_general, lemma_mul_mod_noop_left, lemma_small_mod,
};
use vstd::prelude::*;

verus! {

/// The proof of the multiplication check: the coefficient of `delta` and the
/// constant coefficient.
#[derive(Debug)]
pub struct ZKP<T: PF> {
    pub mul_proof: (T, T),
}

/// The prover of the Quicksilver check: the wire values, their masks, and the
/// pair that hides the proof.
#[derive(Debug)]
pub struct Prover<T: PF> {
    pub u: FVec<T>,
    pub v: FVec<T>,
    pub mask: (T, T),
}

/// The verifier of the Quicksilver check: the keys of the wires, the global
/// `delta`, and the key of the hiding pair.
#[derive(Debug)]
pub struct Verifier<T: PF> {
    pub q: FVec<T>,
    pub delta: T,
    pub mask_key: T,
}

/// The first `n` rows of a matrix, one after the other.
pub open spec fn flattened(mat: Seq<Seq<int>>, n: nat) -> Seq<int>
    decreases n,
{
    if n == 0 {
        Seq::empty()
    } else {
        flattened(mat, (n - 1) as nat) + mat[n - 1]
    }
}

/// A number to a power.
pub open spec fn power(b: int, e: nat) -> int
    decreases e,
{
    if e == 0 {
        1
    } else {
        power(b, (e - 1) as nat) * b
    }
}

/// The sum of the first `n` terms, term `j` weighted by the `j`-th power of
/// `gamma`, taken in the integers.
pub open spec fn weighted_sum(terms: Seq<int>, gamma: int, n: nat) -> int
    decreases n,
{
    if n == 0 {
        0
    } else {
        weighted_sum(terms, gamma, (n - 1) as nat) + power(gamma, (n - 1) as nat) * terms[n - 1]
    }
}

/// The weighted sum of all terms plus a mask, as a residue.
pub open spec fn aggregate(terms: Seq<int>, gamma: int, mask: int, m: int) -> int {
    (weighted_sum(terms, gamma, terms.len()) + mask) % m
}

/// For every gate the coefficient of `delta`: `xa * vb + xb * va - vc`.
pub open spec fn linear_terms<T: PF>(x: Seq<int>, v: Seq<int>, r1cs: &R1CS<T>) -> Seq<int> {
    let m = T::modulus();
    vec_sub(
        vec_add(
            vec_mul(vec_sparse_mat(x, r1cs.a_rows@, m), vec_sparse_mat(v, r1cs.b_rows@, m), m),
            vec_mul(vec_sparse_mat(x, r1cs.b_rows@, m), vec_sparse_mat(v, r1cs.a_rows@, m), m),
            m,
        ),
        vec_sparse_mat(v, r1cs.c_rows@, m),
        m,
    )
}

/// For every gate the constant coefficient: `va * vb`.
pub open spec fn constant_terms<T: PF>(v: Seq<int>, r1cs: &R1CS<T>) -> Seq<int> {
    let m = T::modulus();
    vec_mul(vec_sparse_mat(v, r1cs.a_rows@, m), vec_sparse_mat(v, r1cs.b_rows@, m), m)
}

/// For every gate what the verifier computes from its keys:
/// `qa * qb - delta * qc`.
pub open spec fn key_terms<T: PF>(q: Seq<int>, delta: int, r1cs: &R1CS<T>) -> Seq<int> {
    let m = T::modulus();
    vec_sub(
        vec_mul(vec_sparse_mat(q, r1cs.a_rows@, m), vec_sparse_mat(q, r1cs.b_rows@, m), m),
        vec_scale(vec_sparse_mat(q, r1cs.c_rows@, m), delta, m),
        m,
    )
}

/// Whether opened pairs of a value and a mask agree with the keys at the
/// wires they are opened for.
pub open spec fn openings_agree(
    q: Seq<int>,
    delta: int,
    indices: Seq<usize>,
    openings: Seq<(int, int)>,
    m: int,
) -> bool {
    &&& openings.len() == indices.len()
    &&& forall|i: int|
        0 <= i < indices.len() ==> (#[trigger] openings[i].0 * delta + openings[i].1) % m
            == q[indices[i] as int]
}

/// The residues of a list of pairs.
pub open spec fn pair_residues<T: PF>(s: Seq<(T, T)>) -> Seq<(int, int)> {
    Seq::new(s.len(), |i: int| (s[i].0.value(), s[i].1.value()))
}

/// The first `rows` rows of a matrix, one after the other.
pub fn flatten<T: PF>(mat: &FMatrix<T>, rows: usize) -> (r: FVec<T>)
    requires
        rows <= mat@.len(),
    ensures
        r@ == flattened(mat@, rows as nat),
{
    let mut out: Vec<T> = Vec::new();
    let mut i: usize = 0;
    while i < rows
        invariant
            i <= rows,
            rows <= mat.0@.len(),
            crate::linalg::residues(out@) == flattened(mat@, i as nat),
        decreases rows - i,
    {
        let row: &FVec<T> = &mat.0[i];
        let mut j: usize = 0;
        let ghost start: Seq<int> = crate::linalg::residues(out@);
        while j < row.0.len()
            invariant
                j <= row.0@.len(),
                crate::linalg::residues(out@) == start + row@.subrange(0, j as int),
            decreases row.0@.len() - j,
        {
            let ghost before: Seq<T> = out@;
            out.push(row.0[j]);
            assert(crate::linalg::residues(out@) =~= crate::linalg::residues(before).push(
                row@[j as int],
            ));
            assert(start + row@.subrange(0, j + 1) =~= (start + row@.subrange(0, j as int)).push(
                row@[j as int],
            ));
            j += 1;
        }
        assert(row@.subrange(0, row@.len() as int) =~= row@);
        i += 1;
    }
    FVec(out)
}

/// The sum of the terms, term `j` weighted by the `j`-th power of `gamma`.
pub fn weighted_accumulate<T: PF>(terms: &FVec<T>, gamma: &T) -> (r: T)
    ensures
        r.value() == weighted_sum(terms@, gamma.value(), terms@.len()) % T::modulus(),
{
    let n: usize = terms.0.len();
    let mut acc: T = T::zero();
    let mut pw: T = T::one();
    let mut j: usize = 0;
    proof {
        T::modulus_exceeds_one();
        lemma_small_mod(0, T::modulus() as nat);
        lemma_small_mod(1, T::modulus() as nat);
    }
    while j < n
        invariant
            j <= n,
            n == terms.0@.len(),
            T::modulus() > 1,
            pw.value() == power(gamma.value(), j as nat) % T::modulus(),
            acc.value() == weighted_sum(terms@, gamma.value(), j as nat) % T::modulus(),
        decreases n - j,
    {
        let t: T = pw.mul(&terms.0[j]);
        proof {
            let m: int = T::modulus();
            let g: int = gamma.value();
            terms.0@[j as int].value_in_range();
            lemma_small_mod(terms@[j as int] as nat, m as nat);
            lemma_mul_mod_noop_general(power(g, j as nat), terms@[j as int], m);
            lemma_add_mod_noop(
                weighted_sum(terms@, g, j as nat),
                power(g, j as nat) * terms@[j as int],
                m,
            );
            lemma_mul_mod_noop_left(power(g, j as nat), g, m);
        }
        acc = acc.add(&t);
        pw = pw.mul(gamma);
        j += 1;
    }
    acc
}

impl<T: PF> Prover<T> {
    /// The prover from the halves of the subspace VOLE: the wire values are
    /// the witness rows, their masks the rows of `u2` beside them, and the
    /// hiding pair comes from the row of `u1` and `u2` behind the witness.
    pub fn from_vith(u1: &FMatrix<T>, u2: &FMatrix<T>, witness: &FMatrix<T>) -> (r: Prover<T>)
        requires
            u1@.len() > witness@.len(),
            u2@.len() > witness@.len(),
            u1@[witness@.len() as int].len() > 0,
            u2@[witness@.len() as int].len() > 0,
        ensures
            r.u@ == flattened(witness@, witness@.len()),
            r.v@ == flattened(u2@, witness@.len()),
            r.mask.0.value() == u1@[witness@.len() as int][0],
            r.mask.1.value() == u2@[witness@.len() as int][0],
    {
        let rows: usize = witness.0.len();
        let u: FVec<T> = flatten(witness, rows);
        let v: FVec<T> = flatten(u2, rows);
        Prover { u, v, mask: (u1.0[rows].0[0], u2.0[rows].0[0]) }
    }

    /// The proof that every gate holds: the two coefficients, each summed
    /// over the gates with the powers of the challenge as weights, plus the
    /// hiding pair.
    pub fn prove(&self, r1cs: &R1CS<T>, challenge: &T) -> (r: ZKP<T>)
        requires
            r1cs.wf(self.u@.len() as int),
            self.u@.len() == self.v@.len(),
        ensures
            r.mul_proof.0.value() == aggregate(
                linear_terms(self.u@, self.v@, r1cs),
                challenge.value(),
                self.mask.0.value(),
                T::modulus(),
            ),
            r.mul_proof.1.value() == aggregate(
                constant_terms(self.v@, r1cs),
                challenge.value(),
                self.mask.1.value(),
                T::modulus(),
            ),
    {
        let u_a: FVec<T> = self.u.mul_sparse_matrix(&r1cs.a_rows);
        let u_b: FVec<T> = self.u.mul_sparse_matrix(&r1cs.b_rows);
        let v_a: FVec<T> = self.v.mul_sparse_matrix(&r1cs.a_rows);
        let v_b: FVec<T> = self.v.mul_sparse_matrix(&r1cs.b_rows);
        let v_c: FVec<T> = self.v.mul_sparse_matrix(&r1cs.c_rows);
        let d1: FVec<T> = u_a.mul(&v_b).add(&u_b.mul(&v_a)).sub(&v_c);
        let d0: FVec<T> = v_a.mul(&v_b);
        let s1: T = weighted_accumulate(&d1, challenge);
        let s0: T = weighted_accumulate(&d0, challenge);
        proof {
            T::modulus_exceeds_one();
            self.mask.0.value_in_range();
            self.mask.1.value_in_range();
            lemma_small_mod(self.mask.0.value() as nat, T::modulus() as nat);
            lemma_small_mod(self.mask.1.value() as nat, T::modulus() as nat);
            lemma_add_mod_noop(
                weighted_sum(d1@, challenge.value(), d1@.len()),
                self.mask.0.value(),
                T::modulus(),
            );
            lemma_add_mod_noop(
                weighted_sum(d0@, challenge.value(), d0@.len()),
                self.mask.1.value(),
                T::modulus(),
            );
        }
        ZKP { mul_proof: (s1.add(&self.mask.0), s0.add(&self.mask.1)) }
    }

    /// Opens the wires at the given indices: for each its value and its mask.
    pub fn open_public(&self, indices: &Vec<usize>) -> (r: Vec<(T, T)>)
        requires
            wires_below(indices@, self.u@.len() as int),
            self.u@.len() == self.v@.len(),
        ensures
            r@.len() == indices@.len(),
            forall|i: int|
                0 <= i < indices@.len() ==> #[trigger] r@[i] == (
                    self.u.0@[indices@[i] as int],
                    self.v.0@[indices@[i] as int],
                ),
    {
        let mut out: Vec<(T, T)> = Vec::with_capacity(indices.len());
        let mut i: usize = 0;
        while i < indices.len()
            invariant
                i <= indices@.len(),
                wires_below(indices@, self.u@.len() as int),
                self.u@.len() == self.v@.len(),
                out@.len() == i,
                forall|j: int|
                    0 <= j < i ==> #[trigger] out@[j] == (
                        self.u.0@[indices@[j] as int],
                        self.v.0@[indices@[j] as int],
                    ),
            decreases indices@.len() - i,
        {
            let idx: usize = indices[i];
            assert(self.u.0@.len() == self.u@.len());
            assert(self.v.0@.len() == self.v@.len());
            out.push((self.u.0[idx], self.v.0[idx]));
            i += 1;
        }
        out
    }
}

impl<T: PF> Verifier<T> {
    /// The verifier from what the prover sent: a wire's key is its entry of
    /// the S matrix plus `delta` times its entry of the witness commitment;
    /// the key of the hiding pair comes from the row of the S matrix behind
    /// the witness commitment.
    pub fn from_vith(s_matrix: &FMatrix<T>, delta: T, witness_comm: &FMatrix<T>) -> (r: Verifier<T>)
        requires
            s_matrix@.len() > witness_comm@.len(),
            s_matrix@[witness_comm@.len() as int].len() > 0,
        ensures
            r.q@ == flattened(
                mat_add(
                    s_matrix@,
                    mat_scale(witness_comm@, delta.value(), T::modulus()),
                    T::modulus(),
                ),
                witness_comm@.len(),
            ),
            r.delta == delta,
            r.mask_key.value() == s_matrix@[witness_comm@.len() as int][0],
    {
        let rows: usize = witness_comm.0.len();
        let keys: FMatrix<T> = s_matrix.add(&witness_comm.scalar_mul(delta));
        let q: FVec<T> = flatten(&keys, rows);
        Verifier { q, delta, mask_key: s_matrix.0[rows].0[0] }
    }

    /// Whether the proof passes: what the verifier computes from its keys,
    /// summed over the gates with the powers of the challenge as weights and
    /// with the key of the hiding pair added, must be the first coefficient
    /// times `delta` plus the second.
    pub fn verify(&self, r1cs: &R1CS<T>, challenge: &T, proof: &ZKP<T>) -> (r: Result<(), Error>)
        requires
            r1cs.wf(self.q@.len() as int),
        ensures
            r is Ok <==> aggregate(
                key_terms(self.q@, self.delta.value(), r1cs),
                challenge.value(),
                self.mask_key.value(),
                T::modulus(),
            ) == (proof.mul_proof.0.value() * self.delta.value() + proof.mul_proof.1.value())
                % T::modulus(),
            r is Err ==> r == Err::<(), Error>(Error::Quicksilver),
    {
        let q_a: FVec<T> = self.q.mul_sparse_matrix(&r1cs.a_rows);
        let q_b: FVec<T> = self.q.mul_sparse_matrix(&r1cs.b_rows);
        let q_c: FVec<T> = self.q.mul_sparse_matrix(&r1cs.c_rows);
        let w: FVec<T> = q_a.mul(&q_b).sub(&q_c.scalar_mul(self.delta));
        let lhs: T = weighted_accumulate(&w, challenge).add(&self.mask_key);
        let rhs: T = proof.mul_proof.0.mul(&self.delta).add(&proof.mul_proof.1);
        proof {
            T::modulus_exceeds_one();
            self.mask_key.value_in_range();
            proof.mul_proof.1.value_in_range();
            lemma_small_mod(self.mask_key.value() as nat, T::modulus() as nat);
            lemma_small_mod(proof.mul_proof.1.value() as nat, T::modulus() as nat);
            lemma_add_mod_noop(
                weighted_sum(w@, challenge.value(), w@.len()),
                self.mask_key.value(),
                T::modulus(),
            );
            lemma_add_mod_noop(
                proof.mul_proof.0.value() * self.delta.value(),
                proof.mul_proof.1.value(),
                T::modulus(),
            );
        }
        if lhs.equals(&rhs) {
            Ok(())
        } else {
            Err(Error::Quicksilver)
        }
    }

    /// Whether opened pairs agree with the keys at the given wires: as many
    /// pairs as wires, and for each the value times `delta` plus the mask is
    /// the wire's key.
    pub fn openings_hold(&self, indices: &Vec<usize>, openings: &Vec<(T, T)>) -> (b: bool)
        requires
            wires_below(indices@, self.q@.len() as int),
        ensures
            b == openings_agree(
                self.q@,
                self.delta.value(),
                indices@,
                pair_residues(openings@),
                T::modulus(),
            ),
    {
        if openings.len() != indices.len() {
            return false;
        }
        let mut i: usize = 0;
        while i < indices.len()
            invariant
                i <= indices@.len(),
                openings@.len() == indices@.len(),
                wires_below(indices@, self.q@.len() as int),
                forall|j: int|
                    0 <= j < i ==> (#[trigger] pair_residues(openings@)[j].0 * self.delta.value()
                        + pair_residues(openings@)[j].1) % T::modulus()
                        == self.q@[indices@[j] as int],
            decreases indices@.len() - i,
        {
            let x: T = openings[i].0;
            let mac: T = openings[i].1;
            let key: T = x.mul(&self.delta).add(&mac);
            proof {
                T::modulus_exceeds_one();
                mac.value_in_range();
                lemma_small_mod(mac.value() as nat, T::modulus() as nat);
                lemma_add_mod_noop(x.value() * self.delta.value(), mac.value(), T::modulus());
                assert(pair_residues(openings@)[i as int] == (x.value(), mac.value()));
            }
            let idx: usize = indices[i];
            assert(self.q.0@.len() == self.q@.len());
            if !key.equals(&self.q.0[idx]) {
                assert((pair_residues(openings@)[i as int].0 * self.delta.value() + pair_residues(
                    openings@,
                )[i as int].1) % T::modulus() != self.q@[indices@[i as int] as int]);
                return false;
            }
            i += 1;
        }
        true
    }

    /// Checks the openings of the public inputs and of the public outputs of
    /// a circuit against the keys.
    pub fn verify_public(&self, circuit: &R1CSWithMetadata<T>, openings: &PublicOpenings<T>) -> (r:
        Result<(), Error>)
        requires
            wires_below(circuit.public_inputs_indices@, self.q@.len() as int),
            wires_below(circuit.public_outputs_indices@, self.q@.len() as int),
        ensures
            r is Ok <==> openings_agree(
                self.q@,
                self.delta.value(),
                circuit.public_inputs_indices@,
                pair_residues(openings.public_inputs@),
                T::modulus(),
            ) && openings_agree(
                self.q@,
                self.delta.value(),
                circuit.public_outputs_indices@,
                pair_residues(openings.public_outputs@),
                T::modulus(),
            ),
            r is Err ==> r == Err::<(), Error>(Error::PublicOpening),
    {
        if self.openings_hold(&circuit.public_inputs_indices, &openings.public_inputs)
            && self.openings_hold(&circuit.public_outputs_indices, &openings.public_outputs) {
            Ok(())
        } else {
            Err(Error::PublicOpening)
        }
    }
}

impl<T: PF> Clone for ZKP<T> {
    fn clone(&self) -> (r: Self)
        ensures
            r.mul_proof == self.mul_proof,
    {
        ZKP { mul_proof: (self.mul_proof.0, self.mul_proof.1) }
    }
}

} // verus!
