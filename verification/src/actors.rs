//! The prover and the verifier of the whole argument.

use crate::challenges::{
    calc_other_challenges, calc_quicksilver_challenge, challenge_bits, challenge_from_seed,
    challenge_vector, quicksilver_preimage, transcript, Challenges,
};
use crate::errors::Error;
use crate::field::PF;
use crate::hash::{blake3_digest, same_bytes};
use crate::linalg::{
    mat_add, mat_scale, mat_sub, residues, rows_of_width, transposed, vec_add, vec_mat, vec_mul,
    FMatrix, FVec,
};
use crate::quicksilver::{
    aggregate, constant_terms, flattened, key_terms, linear_terms, openings_agree, pair_residues,
    ZKP,
};
use crate::smallvole::{
    bit_value, prover_outputs, small_vole_q, small_vole_u, small_vole_v, verifier_outputs,
    ProverSmallVOLEOutputs, VerifierSmallVOLEOutputs,
};
use crate::stream::fresh_seed;
use crate::subspacevole::{
    all_of_width, calc_consistency_check, slice_of, zeros, LinearCode, RAAACode, NUM_VOLES,
};
use crate::vecccom::{
    byte_strings, commit_seed_commitments, commit_seeds, concat_digests, max_expansion,
    proof_for_revealed_seed, reconstruct_commitment, reconstructed_commitment, seed_commitment,
};
use crate::zkp::{padded_len, PadParams, R1CSWithMetadata};
use vstd::prelude::*;
use vstd::string::StringSliceAdditionalSpecFns;

verus! {

/// The values of the witness that the prover opens, each with its mask.
#[derive(Debug)]
pub struct PublicOpenings<T: PF> {
    pub public_inputs: Vec<(T, T)>,
    pub public_outputs: Vec<(T, T)>,
}

/// The opened values of the witness without their masks.
#[derive(Debug)]
pub struct PublicUOpenings<T: PF> {
    pub public_inputs: Vec<T>,
    pub public_outputs: Vec<T>,
}

/// The first entries of a list of pairs.
pub open spec fn firsts<T: PF>(s: Seq<(T, T)>) -> Seq<T> {
    Seq::new(s.len(), |i: int| s[i].0)
}

/// The first entry of every pair of a list.
pub fn first_of_each<T: PF>(pairs: &Vec<(T, T)>) -> (r: Vec<T>)
    ensures
        r@ == firsts(pairs@),
{
    let mut out: Vec<T> = Vec::with_capacity(pairs.len());
    let mut i: usize = 0;
    while i < pairs.len()
        invariant
            i <= pairs@.len(),
            out@.len() == i,
            forall|j: int| 0 <= j < i ==> out@[j] == pairs@[j].0,
        decreases pairs@.len() - i,
    {
        out.push(pairs[i].0);
        i += 1;
    }
    assert(out@ =~= firsts(pairs@));
    out
}

impl<T: PF> PublicOpenings<T> {
    /// The opened values without their masks.
    pub fn u_values(&self) -> (r: PublicUOpenings<T>)
        ensures
            r.public_inputs@ == firsts(self.public_inputs@),
            r.public_outputs@ == firsts(self.public_outputs@),
    {
        PublicUOpenings {
            public_inputs: first_of_each(&self.public_inputs),
            public_outputs: first_of_each(&self.public_outputs),
        }
    }
}

/// What the prover has learned by the time the subspace VOLE is made and must
/// keep hidden: the seed pairs and the two halves of the rows of `u` and of
/// `v`.
#[derive(Debug)]
pub struct SubspaceVOLESecrets<T: PF> {
    seeds: Vec<([u8; 32], [u8; 32])>,
    /// First half of the rows of `u`.
    u1: FMatrix<T>,
    /// Second half of the rows of `u`.
    u2: FMatrix<T>,
    /// First half of the rows of `v`.
    v1: FMatrix<T>,
    /// Second half of the rows of `v`.
    v2: FMatrix<T>,
}

/// The byte strings of a list of seed pairs.
pub open spec fn seed_pairs(list: Seq<([u8; 32], [u8; 32])>) -> Seq<(Seq<u8>, Seq<u8>)> {
    Seq::new(list.len(), |i: int| (list[i].0@, list[i].1@))
}

impl<T: PF> SubspaceVOLESecrets<T> {
    /// The seed pairs.
    pub closed spec fn seeds(&self) -> Seq<(Seq<u8>, Seq<u8>)> {
        seed_pairs(self.seeds@)
    }

    /// The first half of the rows of `u`.
    pub closed spec fn u1(&self) -> Seq<Seq<int>> {
        self.u1@
    }

    /// The second half of the rows of `u`.
    pub closed spec fn u2(&self) -> Seq<Seq<int>> {
        self.u2@
    }

    /// The first half of the rows of `v`.
    pub closed spec fn v1(&self) -> Seq<Seq<int>> {
        self.v1@
    }

    /// The second half of the rows of `v`.
    pub closed spec fn v2(&self) -> Seq<Seq<int>> {
        self.v2@
    }
}

/// What the prover commits to before any challenge is drawn.
#[derive(Debug)]
pub struct ProverCommitment<T: PF> {
    /// The hash of the commitments to the seed pairs of the small VOLEs.
    pub seed_comm: [u8; 32],
    /// The witness, in rows of the code's dimension, less the first rows of
    /// `u`.
    pub witness_comm: FMatrix<T>,
    /// The correction that brings the verifier's `q` into the code.
    pub subspace_vole_correction: FMatrix<T>,
    /// The consistency check of the subspace VOLE: the hash of `u`, then the
    /// hash of `v`.
    pub consistency_check: (FVec<T>, FVec<T>),
}

/// The openings of the seeds that the verifier needs for the subspace VOLE.
#[derive(Debug)]
pub struct SubspaceVOLEOpening {
    /// Of every pair the seed that is opened.
    pub seed_opens: Vec<[u8; 32]>,
    /// For every opened seed the hash of the seed that stays hidden.
    pub seed_proofs: Vec<[u8; 32]>,
}

/// What the prover sends once the challenges are drawn.
#[derive(Debug)]
pub struct Proof<T: PF> {
    pub zkp: ZKP<T>,
    /// The openings of the seeds that the verifier needs for the subspace
    /// VOLE.
    pub seed_openings: SubspaceVOLEOpening,
    /// The public inputs and outputs, each with its mask.
    pub public_openings: PublicOpenings<T>,
    /// The S matrix of the VOLE in the head.
    pub s_matrix: FMatrix<T>,
    /// The check that the S matrix was made as it should be.
    pub s_consistency_check: FVec<T>,
}

/// A commitment together with its proof.
#[derive(Debug)]
pub struct CommitAndProof<T: PF> {
    pub commitment: ProverCommitment<T>,
    pub proof: Proof<T>,
}

/// The prover: a witness in rows, the circuit it satisfies, and, once the
/// VOLE is made, what the VOLE left behind.
#[derive(Debug)]
pub struct Prover<T: PF> {
    pub code: RAAACode,
    pub vole_length: usize,
    pub num_voles: usize,
    pub witness: FMatrix<T>,
    /// The commitment to the witness, set when the subspace VOLE is made.
    pub witness_comm: Option<FMatrix<T>>,
    pub circuit: R1CSWithMetadata<T>,
    /// Set when the subspace VOLE is made, dropped when the proof is made.
    pub subspace_vole_secrets: Option<SubspaceVOLESecrets<T>>,
    /// Set when the subspace VOLE is made.
    pub seed_commitment: Option<[u8; 32]>,
}

/// The verifier: the circuit and the dimensions of the VOLE.
#[derive(Debug)]
pub struct Verifier<T: PF> {
    pub circuit: R1CSWithMetadata<T>,
    pub code: RAAACode,
    pub num_voles: usize,
    pub vole_length: usize,
    pub subspace_vole_deltas: Option<FVec<T>>,
    pub vith_delta: Option<T>,
}

/// The rows of width `k` that a vector is cut into.
pub open spec fn in_rows(v: Seq<int>, rows: nat, k: nat) -> Seq<Seq<int>> {
    Seq::new(rows, |i: int| v.subrange(i * k, (i + 1) * k))
}

/// Whether a circuit with that many wires fits a VOLE over the default code:
/// the padded witness must fit the machine, and the VOLE must not be longer
/// than a seed can be expanded to.
pub open spec fn fits_default_code(wires: int) -> bool {
    &&& padded_len(wires, 512) <= usize::MAX
    &&& 2 * (padded_len(wires, 512) / 512 + 1) <= max_expansion()
}

impl<T: PF> Prover<T> {
    /// The code is well formed and has as many columns as there are VOLEs;
    /// the witness fills whole rows of the code's dimension and covers every
    /// wire of the circuit; the VOLE has two rows for every row of the
    /// witness and two more.
    pub open spec fn wf(&self) -> bool {
        &&& self.code.wf()
        &&& self.num_voles == self.code.length()
        &&& self.circuit.wf()
        &&& rows_of_width(self.witness@, self.code.dimension() as int)
        &&& self.circuit.unpadded_wtns_len <= self.witness@.len() * self.code.dimension()
        &&& self.vole_length == 2 * (self.witness@.len() + 1)
        &&& self.vole_length <= max_expansion()
    }

    /// Pads a witness and circuit to dimensions that fit the VOLE in the head
    /// and the default code, then makes a prover. A witness of length `w` is
    /// padded to a multiple `l * k` of the code's dimension `k`; the VOLE gets
    /// `2 * l + 2` rows.
    pub fn from_witness_and_circuit_unpadded(witness: FVec<T>, circuit: R1CSWithMetadata<T>) -> (r:
        Self)
        requires
            circuit.wf(),
            witness@.len() >= circuit.unpadded_wtns_len,
            fits_default_code(circuit.unpadded_wtns_len as int),
        ensures
            r.wf(),
            r.code.checkable(),
            forall|round: int|
                0 <= round < 3 ==> r.code.forward(round)
                    == crate::subspacevole::default_permutation(round),
            r.code.q == 2,
            r.num_voles == NUM_VOLES,
            r.witness@ == in_rows(
                witness@ + zeros(
                    (padded_len(circuit.unpadded_wtns_len as int, 512)
                        - circuit.unpadded_wtns_len) as nat,
                ),
                (padded_len(circuit.unpadded_wtns_len as int, 512) / 512) as nat,
                512,
            ),
            r.witness@.len() * 512 == padded_len(circuit.unpadded_wtns_len as int, 512),
            r.code.dimension() == 512,
            r.circuit == circuit,
            r.witness_comm is None,
            r.subspace_vole_secrets is None,
            r.seed_commitment is None,
    {
        let mut witness: FVec<T> = witness;
        let code: RAAACode = RAAACode::rand_default();
        let k: usize = code.k();
        assert(k == 512);
        let pp: PadParams = match circuit.calc_padding_needed(k) {
            Some(pp) => pp,
            None => vstd::pervasive::unreached(),
        };
        let ghost unpadded: Seq<int> = witness@;
        witness.zero_pad(pp.pad_len);
        let ghost padded: Seq<int> = witness@;
        assert(pp.num_padded_wtns_rows == pp.padded_wtns_len / 512) by {
            vstd::arithmetic::div_mod::lemma_div_multiples_vanish(
                pp.num_padded_wtns_rows as int,
                512,
            );
        }
        let mut witness_rows: Vec<FVec<T>> = Vec::with_capacity(pp.num_padded_wtns_rows);
        let mut start_idx: usize = 0;
        let mut i: usize = 0;
        while i < pp.num_padded_wtns_rows
            invariant
                i <= pp.num_padded_wtns_rows,
                k == 512,
                start_idx == i * k,
                pp.num_padded_wtns_rows * k == pp.padded_wtns_len,
                witness@ == padded,
                padded.len() >= pp.padded_wtns_len,
                witness_rows@.len() == i,
                forall|j: int|
                    0 <= j < i ==> (#[trigger] witness_rows@[j])@ == padded.subrange(
                        j * 512,
                        (j + 1) * 512,
                    ),
            decreases pp.num_padded_wtns_rows - i,
        {
            witness_rows.push(slice_of(&witness, start_idx, start_idx + k));
            start_idx += k;
            i += 1;
        }
        let rows: FMatrix<T> = FMatrix(witness_rows);
        assert(rows@ =~= in_rows(padded, pp.num_padded_wtns_rows as nat, 512));
        Prover {
            num_voles: code.n(),
            // Two rows of the VOLE for every row of the witness, and two
            // more that hide the proof.
            vole_length: 2 * (pp.num_padded_wtns_rows + 1),
            code,
            circuit,
            witness: rows,
            seed_commitment: None,
            subspace_vole_secrets: None,
            witness_comm: None,
        }
    }
}

/// The commitments to the seed pairs.
pub open spec fn pair_commitments(seeds: Seq<(Seq<u8>, Seq<u8>)>) -> Seq<Seq<u8>> {
    Seq::new(seeds.len(), |i: int| seed_commitment(seeds[i].0, seeds[i].1))
}

/// The hash of the commitments to all seed pairs.
pub open spec fn batch_commitment(seeds: Seq<(Seq<u8>, Seq<u8>)>) -> Seq<u8> {
    blake3_digest(concat_digests(pair_commitments(seeds), seeds.len()))
}

/// The prover's `u` of every small VOLE, one column per seed pair.
pub open spec fn prover_u_cols<T: PF>(seeds: Seq<(Seq<u8>, Seq<u8>)>, len: nat) -> Seq<Seq<int>> {
    Seq::new(seeds.len(), |i: int| small_vole_u::<T>(seeds[i].0, seeds[i].1, len))
}

/// The prover's `v` of every small VOLE, one column per seed pair.
pub open spec fn prover_v_cols<T: PF>(seeds: Seq<(Seq<u8>, Seq<u8>)>, len: nat) -> Seq<Seq<int>> {
    Seq::new(seeds.len(), |i: int| small_vole_v::<T>(seeds[i].0, len))
}

/// The rows of `u` multiplied by the inverse of the extended generator.
pub open spec fn inverted_rows<T: PF>(code: &RAAACode, seeds: Seq<(Seq<u8>, Seq<u8>)>, len: nat)
    -> Seq<Seq<int>> {
    Seq::new(
        len,
        |j: int|
            code.extended_message(transposed(prover_u_cols::<T>(seeds, len), len)[j], T::modulus()),
    )
}

/// The prover's corrected rows of `u`: the first `k` entries of each inverted
/// row.
pub open spec fn corrected_u_rows<T: PF>(
    code: &RAAACode,
    seeds: Seq<(Seq<u8>, Seq<u8>)>,
    len: nat,
) -> Seq<Seq<int>> {
    Seq::new(
        len,
        |j: int| inverted_rows::<T>(code, seeds, len)[j].subrange(0, code.dimension() as int),
    )
}

/// The correction that the verifier gets: what is left of each inverted row.
pub open spec fn correction_rows<T: PF>(
    code: &RAAACode,
    seeds: Seq<(Seq<u8>, Seq<u8>)>,
    len: nat,
) -> Seq<Seq<int>> {
    Seq::new(
        len,
        |j: int|
            inverted_rows::<T>(code, seeds, len)[j].subrange(
                code.dimension() as int,
                code.length() as int,
            ),
    )
}

/// The challenge of the consistency check of the subspace VOLE.
pub open spec fn consistency_challenge<T: PF>(seed_comm: Seq<u8>, len: nat) -> Seq<int> {
    challenge_vector::<T>("vole_consistency_check".spec_bytes() + seed_comm, len)
}

/// Commits to every seed pair and makes the prover's side of every small
/// VOLE.
pub fn small_voles<T: PF>(seeds: &Vec<([u8; 32], [u8; 32])>, vole_length: usize) -> (r: (
    Vec<[u8; 32]>,
    FMatrix<T>,
    FMatrix<T>,
))
    requires
        vole_length <= max_expansion(),
    ensures
        byte_strings(r.0@) == pair_commitments(seed_pairs(seeds@)),
        r.1@ == prover_u_cols::<T>(seed_pairs(seeds@), vole_length as nat),
        r.2@ == prover_v_cols::<T>(seed_pairs(seeds@), vole_length as nat),
{
    let n: usize = seeds.len();
    let mut seed_commitments: Vec<[u8; 32]> = Vec::with_capacity(n);
    let mut u_cols: Vec<FVec<T>> = Vec::with_capacity(n);
    let mut v_cols: Vec<FVec<T>> = Vec::with_capacity(n);
    let mut i: usize = 0;
    while i < n
        invariant
            i <= n,
            n == seeds@.len(),
            vole_length <= max_expansion(),
            seed_commitments@.len() == i,
            u_cols@.len() == i,
            v_cols@.len() == i,
            forall|j: int|
                0 <= j < i ==> (#[trigger] seed_commitments@[j])@ == seed_commitment(
                    seeds@[j].0@,
                    seeds@[j].1@,
                ),
            forall|j: int|
                0 <= j < i ==> (#[trigger] u_cols@[j])@ == small_vole_u::<T>(
                    seeds@[j].0@,
                    seeds@[j].1@,
                    vole_length as nat,
                ),
            forall|j: int|
                0 <= j < i ==> (#[trigger] v_cols@[j])@ == small_vole_v::<T>(
                    seeds@[j].0@,
                    vole_length as nat,
                ),
        decreases n - i,
    {
        let seed0: &[u8; 32] = &seeds[i].0;
        let seed1: &[u8; 32] = &seeds[i].1;
        seed_commitments.push(commit_seeds(seed0.as_slice(), seed1.as_slice()));
        let out: ProverSmallVOLEOutputs<T> = prover_outputs(seed0, seed1, vole_length);
        u_cols.push(out.u);
        v_cols.push(out.v);
        i += 1;
    }
    let u: FMatrix<T> = FMatrix(u_cols);
    let v: FMatrix<T> = FMatrix(v_cols);
    assert(byte_strings(seed_commitments@) =~= pair_commitments(seed_pairs(seeds@)));
    assert(u@ =~= prover_u_cols::<T>(seed_pairs(seeds@), vole_length as nat));
    assert(v@ =~= prover_v_cols::<T>(seed_pairs(seeds@), vole_length as nat));
    (seed_commitments, u, v)
}

/// The rows of a matrix before `half` and from `half` on.
pub fn halves<T: PF>(mat: &FMatrix<T>, half: usize) -> (r: (FMatrix<T>, FMatrix<T>))
    requires
        half <= mat@.len(),
    ensures
        r.0@ == mat@.subrange(0, half as int),
        r.1@ == mat@.subrange(half as int, mat@.len() as int),
{
    let mut first: Vec<FVec<T>> = Vec::with_capacity(half);
    let mut second: Vec<FVec<T>> = Vec::with_capacity(mat.0.len() - half);
    let mut i: usize = 0;
    while i < mat.0.len()
        invariant
            i <= mat.0@.len(),
            half <= mat.0@.len(),
            first@.len() == if i <= half {
                i
            } else {
                half
            },
            second@.len() == if i <= half {
                0
            } else {
                i - half
            },
            forall|j: int| 0 <= j < first@.len() ==> (#[trigger] first@[j])@ == mat@[j],
            forall|j: int| 0 <= j < second@.len() ==> (#[trigger] second@[j])@ == mat@[half + j],
        decreases mat.0@.len() - i,
    {
        if i < half {
            first.push(mat.0[i].clone());
        } else {
            second.push(mat.0[i].clone());
        }
        i += 1;
    }
    let a: FMatrix<T> = FMatrix(first);
    let b: FMatrix<T> = FMatrix(second);
    assert(a@ =~= mat@.subrange(0, half as int));
    assert(b@ =~= mat@.subrange(half as int, mat@.len() as int));
    (a, b)
}

/// As many fresh pairs of seeds as asked for.
pub fn draw_seed_pairs(n: usize) -> (r: Vec<([u8; 32], [u8; 32])>)
    ensures
        r@.len() == n,
{
    let mut seeds: Vec<([u8; 32], [u8; 32])> = Vec::with_capacity(n);
    let mut i: usize = 0;
    while i < n
        invariant
            i <= n,
            seeds@.len() == i,
        decreases n - i,
    {
        let seed0: [u8; 32] = fresh_seed();
        let seed1: [u8; 32] = fresh_seed();
        seeds.push((seed0, seed1));
        i += 1;
    }
    seeds
}

impl<T: PF> Prover<T> {
    /// Once the VOLE is made, its secrets have the shape of the VOLE: one
    /// seed pair per VOLE, and halves with half the rows of the VOLE, of the
    /// code's dimension for `u` and of its block length for `v`.
    pub open spec fn secrets_wf(&self) -> bool {
        self.subspace_vole_secrets matches Some(s) ==> {
            &&& s.seeds().len() == self.num_voles
            &&& s.u1().len() == self.vole_length / 2
            &&& s.u2().len() == self.vole_length / 2
            &&& s.v1().len() == self.vole_length / 2
            &&& s.v2().len() == self.vole_length / 2
            &&& rows_of_width(s.u1(), self.code.dimension() as int)
            &&& rows_of_width(s.u2(), self.code.dimension() as int)
            &&& rows_of_width(s.v1(), self.num_voles as int)
            &&& rows_of_width(s.v2(), self.num_voles as int)
        }
    }

    /// What the commitment of a prover whose VOLE left the given secrets is:
    /// the hash of the commitments to the seed pairs; the witness less the
    /// first rows of the corrected `u`; the correction for the verifier; and
    /// the consistency check of `u` and `v` under the challenge that the seed
    /// commitment gives. The secrets are the seed pairs and the halves of the
    /// corrected `u` and of `v`.
    pub open spec fn commits(&self, s: SubspaceVOLESecrets<T>, c: ProverCommitment<T>) -> bool {
        let pairs = s.seeds();
        let len = self.vole_length as nat;
        let us = corrected_u_rows::<T>(&self.code, pairs, len);
        let vs = transposed(prover_v_cols::<T>(pairs, len), len);
        let m = T::modulus();
        &&& pairs.len() == self.num_voles
        &&& c.seed_comm@ == batch_commitment(pairs)
        &&& c.witness_comm@ == mat_sub(self.witness@, us, m)
        &&& c.subspace_vole_correction@ == correction_rows::<T>(&self.code, pairs, len)
        &&& c.consistency_check.0@ == vec_mat(
            consistency_challenge::<T>(c.seed_comm@, len),
            transposed(us, self.code.dimension()),
            m,
        )
        &&& c.consistency_check.1@ == vec_mat(
            consistency_challenge::<T>(c.seed_comm@, len),
            prover_v_cols::<T>(pairs, len),
            m,
        )
        &&& s.u1() == us.subrange(0, (len / 2) as int)
        &&& s.u2() == us.subrange((len / 2) as int, len as int)
        &&& s.v1() == vs.subrange(0, (len / 2) as int)
        &&& s.v2() == vs.subrange((len / 2) as int, len as int)
    }

    /// Whether the code has fewer columns than the 1024 that about 128 bits of
    /// soundness take with the default parameters.
    pub fn below_recommended_size(&self) -> (b: bool)
        ensures
            b == (self.num_voles < 1024),
    {
        self.num_voles < 1024
    }

    /// Makes the subspace VOLE from the given seed pairs, keeps its secrets
    /// and returns the commitment: the hash of the seed commitments, the
    /// witness less the first rows of the corrected `u`, the correction for
    /// the verifier, and the consistency check of `u` and `v` under the
    /// challenge that the seed commitment gives.
    pub fn mkvole_with_seeds(&mut self, seeds: Vec<([u8; 32], [u8; 32])>) -> (r: Result<
        ProverCommitment<T>,
        Error,
    >)
        requires
            old(self).wf(),
            seeds@.len() == old(self).num_voles,
        ensures
            final(self).wf(),
            final(self).secrets_wf(),
            final(self).code == old(self).code,
            final(self).vole_length == old(self).vole_length,
            final(self).num_voles == old(self).num_voles,
            final(self).witness == old(self).witness,
            final(self).circuit == old(self).circuit,
            r matches Ok(c) && final(self).subspace_vole_secrets matches Some(s) && final(self)
                .witness_comm matches Some(wc) && final(self).seed_commitment matches Some(sc) && {
                &&& s.seeds() == seed_pairs(seeds@)
                &&& old(self).commits(s, c)
                &&& sc@ == c.seed_comm@
                &&& wc@ == c.witness_comm@
                &&& wc.elements() == c.witness_comm.elements()
            },
    {
        let (seed_commitments, u_prime_cols, v_cols): (Vec<[u8; 32]>, FMatrix<T>, FMatrix<T>) =
            small_voles(&seeds, self.vole_length);
        let seed_comm: [u8; 32] = commit_seed_commitments(&seed_commitments);
        let ghost pairs: Seq<(Seq<u8>, Seq<u8>)> = seed_pairs(seeds@);
        let ghost len: nat = self.vole_length as nat;
        proof {
            assert forall|i: int| 0 <= i < pairs.len() implies (#[trigger] u_prime_cols@[i]).len()
                == len && v_cols@[i].len() == len by {
                crate::smallvole::lemma_expanded_residues::<T>(pairs[i].0, len);
                crate::smallvole::lemma_expanded_residues::<T>(pairs[i].1, len);
            }
        }
        assert(u_prime_cols@.len() == pairs.len());
        assert(v_cols@.len() == pairs.len());
        assert(u_prime_cols@[0].len() == len);
        assert(v_cols@[0].len() == len);
        let u_prime_rows: FMatrix<T> = u_prime_cols.transpose();
        let v_rows: FMatrix<T> = v_cols.transpose();
        assert(u_prime_rows@ == transposed(prover_u_cols::<T>(pairs, len), len));
        assert(all_of_width(u_prime_rows.0@, self.code.length())) by {
            assert forall|j: int| 0 <= j < u_prime_rows.0@.len() implies (
            #[trigger] u_prime_rows.0@[j])@.len() == self.code.length() by {
                assert(u_prime_rows@[j] == u_prime_rows.0@[j]@);
                assert(u_prime_rows@[j].len() == u_prime_cols@.len());
            }
        }
        let (new_u_rows, correction): (FMatrix<T>, FMatrix<T>) = self.code.get_prover_correction(
            &u_prime_rows,
        );
        let ghost us: Seq<Seq<int>> = corrected_u_rows::<T>(&self.code, pairs, len);
        assert(new_u_rows@ =~= us);
        assert(correction@ =~= correction_rows::<T>(&self.code, pairs, len));
        let witness_comm: FMatrix<T> = self.witness.sub(&new_u_rows);
        let challenge_hash: FVec<T> = challenge_from_seed(
            seed_comm.as_slice(),
            "vole_consistency_check".as_bytes(),
            self.vole_length,
        );
        let new_u_cols: FMatrix<T> = new_u_rows.transpose();
        let consistency_check: (FVec<T>, FVec<T>) = calc_consistency_check(
            &challenge_hash,
            &new_u_cols,
            &v_cols,
        );
        // Before storing the secrets, split them in half: the VOLE in the
        // head works on the two halves.
        let half: usize = self.vole_length / 2;
        let (u1, u2): (FMatrix<T>, FMatrix<T>) = halves(&new_u_rows, half);
        let (v1, v2): (FMatrix<T>, FMatrix<T>) = halves(&v_rows, half);
        let kept: FMatrix<T> = witness_comm.clone();
        proof {
            let vs: Seq<Seq<int>> = transposed(prover_v_cols::<T>(pairs, len), len);
            let m: int = T::modulus();
            assert(byte_strings(seed_commitments@).len() == pair_commitments(pairs).len());
            assert(seed_comm@ == batch_commitment(pairs));
            assert(witness_comm@ == mat_sub(self.witness@, us, m));
            assert(consistency_check.0@ == vec_mat(
                consistency_challenge::<T>(seed_comm@, len),
                transposed(us, self.code.dimension()),
                m,
            ));
            assert(consistency_check.1@ == vec_mat(
                consistency_challenge::<T>(seed_comm@, len),
                prover_v_cols::<T>(pairs, len),
                m,
            ));
            assert(v_rows@ == vs);
            assert(u1@ == us.subrange(0, (len / 2) as int));
            assert(u2@ == us.subrange((len / 2) as int, len as int));
            assert(v1@ == vs.subrange(0, (len / 2) as int));
            assert(v2@ == vs.subrange((len / 2) as int, len as int));
        }
        self.witness_comm = Some(kept);
        self.seed_commitment = Some(seed_comm);
        self.subspace_vole_secrets = Some(SubspaceVOLESecrets { seeds, u1, u2, v1, v2 });
        Ok(
            ProverCommitment {
                seed_comm,
                witness_comm,
                consistency_check,
                subspace_vole_correction: correction,
            },
        )
    }
}

/// Of every seed pair the seed that the choice selects.
pub open spec fn opened_seeds(seeds: Seq<(Seq<u8>, Seq<u8>)>, choices: Seq<usize>) -> Seq<Seq<u8>> {
    Seq::new(
        seeds.len(),
        |i: int|
            if choices[i] == 0 {
                seeds[i].0
            } else {
                seeds[i].1
            },
    )
}

/// For every seed pair the hash of the seed that the choice leaves hidden.
pub open spec fn hidden_seed_hashes(seeds: Seq<(Seq<u8>, Seq<u8>)>, choices: Seq<usize>) -> Seq<
    Seq<u8>,
> {
    Seq::new(
        seeds.len(),
        |i: int|
            if choices[i] == 0 {
                blake3_digest(seeds[i].1)
            } else {
                blake3_digest(seeds[i].0)
            },
    )
}

/// The values and masks at the given wires.
pub open spec fn opened_wires(values: Seq<int>, masks: Seq<int>, indices: Seq<usize>) -> Seq<
    (int, int),
> {
    Seq::new(indices.len(), |i: int| (values[indices[i] as int], masks[indices[i] as int]))
}

/// The S matrix: the first half of `u` times the global `delta`, plus the
/// second half.
pub open spec fn s_matrix_of(u1: Seq<Seq<int>>, u2: Seq<Seq<int>>, delta: int, m: int) -> Seq<
    Seq<int>,
> {
    mat_add(mat_scale(u1, delta, m), u2, m)
}

/// The check of the S matrix: the challenge applied to the columns of the
/// first half of `v` times the global `delta` plus the second half.
pub open spec fn s_check_of(
    v1: Seq<Seq<int>>,
    v2: Seq<Seq<int>>,
    delta: int,
    challenge: Seq<int>,
    width: nat,
    m: int,
) -> Seq<int> {
    vec_mat(challenge, transposed(mat_add(mat_scale(v1, delta, m), v2, m), width), m)
}

/// Opens of every seed pair the seed that the choice selects, with the hash
/// of the other as proof.
pub fn open_seeds(seeds: &Vec<([u8; 32], [u8; 32])>, choices: &Vec<usize>) -> (r:
    SubspaceVOLEOpening)
    requires
        choices@.len() == seeds@.len(),
    ensures
        byte_strings(r.seed_opens@) == opened_seeds(seed_pairs(seeds@), choices@),
        byte_strings(r.seed_proofs@) == hidden_seed_hashes(seed_pairs(seeds@), choices@),
{
    let n: usize = seeds.len();
    let mut openings: Vec<[u8; 32]> = Vec::with_capacity(n);
    let mut opening_proofs: Vec<[u8; 32]> = Vec::with_capacity(n);
    let mut i: usize = 0;
    while i < n
        invariant
            i <= n,
            n == seeds@.len(),
            choices@.len() == seeds@.len(),
            openings@.len() == i,
            opening_proofs@.len() == i,
            forall|j: int|
                0 <= j < i ==> (#[trigger] openings@[j])@ == opened_seeds(
                    seed_pairs(seeds@),
                    choices@,
                )[j],
            forall|j: int|
                0 <= j < i ==> (#[trigger] opening_proofs@[j])@ == hidden_seed_hashes(
                    seed_pairs(seeds@),
                    choices@,
                )[j],
        decreases n - i,
    {
        if choices[i] == 0 {
            openings.push(seeds[i].0);
            opening_proofs.push(proof_for_revealed_seed(&seeds[i].1));
        } else {
            openings.push(seeds[i].1);
            opening_proofs.push(proof_for_revealed_seed(&seeds[i].0));
        }
        i += 1;
    }
    assert(byte_strings(openings@) =~= opened_seeds(seed_pairs(seeds@), choices@));
    assert(byte_strings(opening_proofs@) =~= hidden_seed_hashes(seed_pairs(seeds@), choices@));
    SubspaceVOLEOpening { seed_opens: openings, seed_proofs: opening_proofs }
}

/// The rows of a matrix of uniform width, one after the other, have as many
/// entries as the matrix.
pub proof fn lemma_flattened_len(mat: Seq<Seq<int>>, n: nat, width: nat)
    requires
        n <= mat.len(),
        rows_of_width(mat, width as int),
    ensures
        flattened(mat, n).len() == n * width,
    decreases n,
{
    if n > 0 {
        lemma_flattened_len(mat, (n - 1) as nat, width);
        assert(mat[n - 1].len() == width);
        assert((n - 1) * width + width == n * width) by (nonlinear_arith);
    }
}

impl<T: PF> Prover<T> {
    /// Makes the subspace VOLE from fresh seeds, keeps its secrets and returns
    /// the commitment. The commitment is the one that the seeds which are now
    /// among the secrets give.
    pub fn mkvole(&mut self) -> (r: Result<ProverCommitment<T>, Error>)
        requires
            old(self).wf(),
        ensures
            final(self).wf(),
            final(self).secrets_wf(),
            final(self).code == old(self).code,
            final(self).vole_length == old(self).vole_length,
            final(self).num_voles == old(self).num_voles,
            final(self).witness == old(self).witness,
            final(self).circuit == old(self).circuit,
            r matches Ok(c) && final(self).subspace_vole_secrets matches Some(s) && final(self)
                .witness_comm matches Some(wc) && final(self).seed_commitment matches Some(sc) && {
                &&& old(self).commits(s, c)
                &&& sc@ == c.seed_comm@
                &&& wc@ == c.witness_comm@
                &&& wc.elements() == c.witness_comm.elements()
            },
    {
        let seeds: Vec<([u8; 32], [u8; 32])> = draw_seed_pairs(self.num_voles);
        self.mkvole_with_seeds(seeds)
    }

    /// The S matrix to show the verifier once it has the global `delta` and
    /// the challenge, together with the check that the S matrix was made as
    /// it should be.
    pub fn s_matrix_with_consistency_proof(&self, vith_delta: &T, challenge: &FVec<T>) -> (r:
        Result<(FMatrix<T>, FVec<T>), Error>)
        requires
            self.wf(),
            self.secrets_wf(),
        ensures
            r is Ok <==> self.subspace_vole_secrets is Some,
            r is Err ==> r == Err::<(FMatrix<T>, FVec<T>), Error>(Error::VoleNotCompleted),
            r matches Ok(p) ==> (self.subspace_vole_secrets matches Some(s) ==> p.0@
                == s_matrix_of(s.u1(), s.u2(), vith_delta.value(), T::modulus()) && p.1@
                == s_check_of(
                s.v1(),
                s.v2(),
                vith_delta.value(),
                challenge@,
                self.num_voles as nat,
                T::modulus(),
            )),
    {
        match &self.subspace_vole_secrets {
            None => Err(Error::VoleNotCompleted),
            Some(svs) => {
                let s: FMatrix<T> = svs.u1.scalar_mul(*vith_delta).add(&svs.u2);
                let masked_v: FMatrix<T> = svs.v1.scalar_mul(*vith_delta).add(&svs.v2);
                assert(masked_v@.len() == self.vole_length / 2);
                assert(masked_v@[0].len() == self.num_voles) by {
                    assert(svs.v1@[0].len() == self.num_voles);
                    assert(svs.v2@[0].len() == self.num_voles);
                }
                assert forall|j: int| 0 <= j < masked_v@.len() implies (#[trigger] masked_v@[j])
                    .len() >= masked_v@[0].len() by {
                    assert(svs.v1@[j].len() == self.num_voles);
                    assert(svs.v2@[j].len() == self.num_voles);
                }
                let proof: FVec<T> = challenge.mul_matrix(&masked_v.transpose());
                Ok((s, proof))
            },
        }
    }
}

/// A sparse matrix whose rows name columns below one bound names columns
/// below every larger bound.
pub proof fn lemma_columns_below_more(mat: Seq<Seq<(int, int)>>, a: int, b: int)
    requires
        crate::zkp::columns_below(mat, a),
        a <= b,
    ensures
        crate::zkp::columns_below(mat, b),
{
    assert forall|j: int| 0 <= j < mat.len() implies crate::linalg::indices_below(
        #[trigger] mat[j],
        b,
    ) by {
        assert(crate::linalg::indices_below(mat[j], a));
        assert forall|k: int| 0 <= k < mat[j].len() implies 0 <= #[trigger] mat[j][k].0 < b by {
            assert(0 <= mat[j][k].0 < a);
        }
    }
}

/// A well-formed code has a dimension of at least one.
pub proof fn lemma_dimension_positive(code: &RAAACode)
    requires
        code.wf(),
    ensures
        code.dimension() >= 1,
        code.length() == code.q * code.dimension(),
        code.dimension() <= code.length(),
{
    vstd::arithmetic::div_mod::lemma_fundamental_div_mod(code.length() as int, code.q as int);
    let k: int = code.dimension() as int;
    let q: int = code.q as int;
    if k <= 0 {
        assert(q * k <= 0) by (nonlinear_arith)
            requires
                q >= 1,
                k <= 0,
        ;
    }
    assert(q * k >= k) by (nonlinear_arith)
        requires
            q >= 1,
            k >= 0,
    ;
}

impl<T: PF> Prover<T> {
    /// What the proof of a prover with the given secrets and commitments is:
    /// the Quicksilver proof over the witness with the second half of `u` as
    /// masks, under the challenge that the commitments give; the openings of
    /// the public wires; and, under the challenges that the transcript up to
    /// there gives, the S matrix with its check and the opened seeds.
    pub open spec fn proves(
        &self,
        s: SubspaceVOLESecrets<T>,
        seed_comm: Seq<u8>,
        witness_comm: Seq<Seq<T>>,
        p: Proof<T>,
    ) -> bool {
        let m = T::modulus();
        let rows = self.witness@.len();
        let values = flattened(self.witness@, rows);
        let masks = flattened(s.u2(), rows);
        let gamma = challenge_vector::<T>(quicksilver_preimage(seed_comm, witness_comm), 1)[0];
        let t = transcript(
            seed_comm,
            witness_comm,
            p.zkp.mul_proof,
            self.vole_length,
            self.num_voles,
            p.public_openings.public_inputs@,
            p.public_openings.public_outputs@,
        );
        let later = challenge_vector::<T>(t, (1 + self.vole_length / 2) as nat);
        let choices = challenge_bits(t, self.num_voles as nat);
        &&& p.zkp.mul_proof.0.value() == aggregate(
            linear_terms(values, masks, &self.circuit.r1cs),
            gamma,
            s.u1()[rows as int][0],
            m,
        )
        &&& p.zkp.mul_proof.1.value() == aggregate(
            constant_terms(masks, &self.circuit.r1cs),
            gamma,
            s.u2()[rows as int][0],
            m,
        )
        &&& pair_residues(p.public_openings.public_inputs@) == opened_wires(
            values,
            masks,
            self.circuit.public_inputs_indices@,
        )
        &&& pair_residues(p.public_openings.public_outputs@) == opened_wires(
            values,
            masks,
            self.circuit.public_outputs_indices@,
        )
        &&& p.s_matrix@ == s_matrix_of(s.u1(), s.u2(), later[0], m)
        &&& p.s_consistency_check@ == s_check_of(
            s.v1(),
            s.v2(),
            later[0],
            later.subrange(1, 1 + self.vole_length / 2),
            self.num_voles as nat,
            m,
        )
        &&& byte_strings(p.seed_openings.seed_opens@) == opened_seeds(s.seeds(), choices)
        &&& byte_strings(p.seed_openings.seed_proofs@) == hidden_seed_hashes(s.seeds(), choices)
    }

    /// Makes the proof and drops the secrets of the VOLE. Before the VOLE is
    /// made there is nothing to prove with: the call fails, says that the
    /// VOLE must be completed before this step, and leaves the prover as it
    /// was.
    pub fn prove(&mut self) -> (r: Result<Proof<T>, Error>)
        requires
            old(self).wf(),
            old(self).secrets_wf(),
        ensures
            final(self).wf(),
            final(self).secrets_wf(),
            final(self).code == old(self).code,
            final(self).vole_length == old(self).vole_length,
            final(self).num_voles == old(self).num_voles,
            final(self).witness == old(self).witness,
            final(self).circuit == old(self).circuit,
            final(self).witness_comm == old(self).witness_comm,
            final(self).seed_commitment == old(self).seed_commitment,
            r is Ok <==> old(self).subspace_vole_secrets is Some && old(self).seed_commitment
                is Some && old(self).witness_comm is Some,
            r is Err ==> r == Err::<Proof<T>, Error>(Error::VoleNotCompleted) && *final(self)
                == *old(self),
            r matches Err(e) ==> e.message_text() == "VOLE must be completed before this step"@,
            r is Ok ==> final(self).subspace_vole_secrets is None,
            r matches Ok(p) ==> (old(self).subspace_vole_secrets matches Some(s) ==> (old(self)
                .seed_commitment matches Some(sc) ==> (old(self).witness_comm matches Some(wc)
                ==> old(self).proves(s, sc@, wc.elements(), p)))),
    {
        let proof: Proof<T> = match (
            &self.subspace_vole_secrets,
            &self.seed_commitment,
            &self.witness_comm,
        ) {
            (Some(svs), Some(seed_comm), Some(witness_comm)) => {
                let ghost rows: nat = self.witness@.len();
                let ghost k: nat = self.code.dimension();
                proof {
                    lemma_dimension_positive(&self.code);
                    assert(svs.u1@[rows as int].len() == k);
                    assert(svs.u2@[rows as int].len() == k);
                    lemma_flattened_len(self.witness@, rows, k);
                    lemma_flattened_len(svs.u2@, rows, k);
                    lemma_columns_below_more(
                        self.circuit.r1cs.a_rows@,
                        self.circuit.unpadded_wtns_len as int,
                        (rows * k) as int,
                    );
                    lemma_columns_below_more(
                        self.circuit.r1cs.b_rows@,
                        self.circuit.unpadded_wtns_len as int,
                        (rows * k) as int,
                    );
                    lemma_columns_below_more(
                        self.circuit.r1cs.c_rows@,
                        self.circuit.unpadded_wtns_len as int,
                        (rows * k) as int,
                    );
                }
                let prover: crate::quicksilver::Prover<T> = crate::quicksilver::Prover::from_vith(
                    &svs.u1,
                    &svs.u2,
                    &self.witness,
                );
                let challenge: T = calc_quicksilver_challenge(seed_comm, witness_comm);
                let zkp: ZKP<T> = prover.prove(&self.circuit.r1cs, &challenge);
                let public_openings: PublicOpenings<T> = PublicOpenings {
                    public_inputs: prover.open_public(&self.circuit.public_inputs_indices),
                    public_outputs: prover.open_public(&self.circuit.public_outputs_indices),
                };
                proof {
                    assert(pair_residues(public_openings.public_inputs@) =~= opened_wires(
                        prover.u@,
                        prover.v@,
                        self.circuit.public_inputs_indices@,
                    ));
                    assert(pair_residues(public_openings.public_outputs@) =~= opened_wires(
                        prover.u@,
                        prover.v@,
                        self.circuit.public_outputs_indices@,
                    ));
                }
                let challenges: Challenges<T> = calc_other_challenges(
                    seed_comm,
                    witness_comm,
                    &zkp,
                    self.vole_length,
                    self.num_voles,
                    &public_openings,
                );
                let (s_matrix, s_consistency_check): (FMatrix<T>, FVec<T>) = match self
                    .s_matrix_with_consistency_proof(
                    &challenges.vith_delta,
                    &challenges.s_challenge,
                ) {
                    Ok(pair) => pair,
                    Err(e) => {
                        return Err(e);
                    },
                };
                let seed_openings: SubspaceVOLEOpening = open_seeds(
                    &svs.seeds,
                    &challenges.delta_choices,
                );
                Proof { zkp, s_matrix, s_consistency_check, public_openings, seed_openings }
            },
            _ => {
                return Err(Error::VoleNotCompleted);
            },
        };
        self.subspace_vole_secrets = None;
        Ok(proof)
    }

    /// Whether a commitment and a proof are what this prover makes from some
    /// seeds: there are secrets of a VOLE that give the commitment and, with
    /// it, the proof.
    pub open spec fn makes(&self, cnp: CommitAndProof<T>) -> bool {
        exists|s: SubspaceVOLESecrets<T>|
            {
                &&& #[trigger] self.commits(s, cnp.commitment)
                &&& self.proves(
                    s,
                    cnp.commitment.seed_comm@,
                    cnp.commitment.witness_comm.elements(),
                    cnp.proof,
                )
            }
    }

    /// Makes the VOLE from fresh seeds and then the proof.
    pub fn commit_and_prove(&mut self) -> (r: Result<CommitAndProof<T>, Error>)
        requires
            old(self).wf(),
        ensures
            final(self).wf(),
            final(self).code == old(self).code,
            final(self).vole_length == old(self).vole_length,
            final(self).num_voles == old(self).num_voles,
            final(self).witness == old(self).witness,
            final(self).circuit == old(self).circuit,
            final(self).subspace_vole_secrets is None,
            r matches Ok(cnp) && old(self).makes(cnp),
    {
        let commitment: ProverCommitment<T> = match self.mkvole() {
            Ok(c) => c,
            Err(e) => {
                return Err(e);
            },
        };
        let ghost secrets: SubspaceVOLESecrets<T> = self.subspace_vole_secrets->0;
        let ghost committed: Prover<T> = *self;
        let proof: Proof<T> = match self.prove() {
            Ok(p) => p,
            Err(e) => {
                return Err(e);
            },
        };
        let cnp: CommitAndProof<T> = CommitAndProof { commitment, proof };
        proof {
            assert(old(self).commits(secrets, cnp.commitment));
            assert(committed.proves(
                secrets,
                cnp.commitment.seed_comm@,
                cnp.commitment.witness_comm.elements(),
                cnp.proof,
            ));
            assert(old(self).proves(
                secrets,
                cnp.commitment.seed_comm@,
                cnp.commitment.witness_comm.elements(),
                cnp.proof,
            ));
        }
        Ok(cnp)
    }
}

/// The verifier's `delta` of every small VOLE.
pub open spec fn verifier_deltas(choices: Seq<usize>) -> Seq<int> {
    Seq::new(choices.len(), |i: int| bit_value(choices[i] != 0))
}

/// The verifier's `q` of every small VOLE, one column per opened seed.
pub open spec fn verifier_q_cols<T: PF>(opens: Seq<Seq<u8>>, choices: Seq<usize>, len: nat) -> Seq<
    Seq<int>,
> {
    Seq::new(opens.len(), |i: int| small_vole_q::<T>(opens[i], choices[i] != 0, len))
}

/// The commitment to every seed pair as its opening reconstructs it.
pub open spec fn reconstructed_commitments(
    opens: Seq<Seq<u8>>,
    choices: Seq<usize>,
    proofs: Seq<Seq<u8>>,
) -> Seq<Seq<u8>> {
    Seq::new(
        opens.len(),
        |i: int| reconstructed_commitment(opens[i], choices[i] != 0, proofs[i]),
    )
}

/// The verifier's rows of `q` after the prover's correction.
pub open spec fn corrected_q_rows(
    code: &RAAACode,
    q_rows: Seq<Seq<int>>,
    deltas: Seq<int>,
    correction: Seq<Seq<int>>,
    m: int,
) -> Seq<Seq<int>> {
    Seq::new(
        q_rows.len(),
        |i: int|
            crate::linalg::vec_sub(
                q_rows[i],
                vec_mul(
                    code.extended_codeword(
                        zeros((code.length() - correction[0].len()) as nat) + correction[i],
                        m,
                    ),
                    deltas,
                    m,
                ),
                m,
            ),
    )
}

/// The rows of the S matrix encoded and multiplied, entry by entry, by the
/// deltas.
pub open spec fn encoded_s_rows(code: &RAAACode, s: Seq<Seq<int>>, deltas: Seq<int>, m: int) -> Seq<
    Seq<int>,
> {
    Seq::new(s.len(), |i: int| vec_mul(code.codeword(s[i], m), deltas, m))
}

/// Whether a matrix has `rows` rows of width `width`.
pub fn has_shape<T: PF>(mat: &FMatrix<T>, rows: usize, width: usize) -> (b: bool)
    ensures
        b == (mat@.len() == rows && rows_of_width(mat@, width as int)),
{
    if mat.0.len() != rows {
        return false;
    }
    let mut i: usize = 0;
    while i < rows
        invariant
            i <= rows,
            rows == mat.0@.len(),
            forall|j: int| 0 <= j < i ==> (#[trigger] mat@[j]).len() == width,
        decreases rows - i,
    {
        if mat.0[i].0.len() != width {
            assert(mat@[i as int].len() != width);
            return false;
        }
        i += 1;
    }
    true
}

impl<T: PF> Verifier<T> {
    /// The code is well formed and has as many columns as there are VOLEs;
    /// the VOLE has an even number of rows, at least two; and the rows of the
    /// witness that go with it cover every wire of the circuit.
    pub open spec fn wf(&self) -> bool {
        &&& self.code.wf()
        &&& self.num_voles == self.code.length()
        &&& self.circuit.wf()
        &&& self.vole_length % 2 == 0
        &&& self.vole_length >= 2
        &&& self.vole_length <= max_expansion()
        &&& self.circuit.unpadded_wtns_len <= (self.vole_length / 2 - 1) * self.code.dimension()
    }

    /// The challenges that a commitment and a proof give.
    pub open spec fn transcript_of(&self, cnp: &CommitAndProof<T>) -> Seq<u8> {
        transcript(
            cnp.commitment.seed_comm@,
            cnp.commitment.witness_comm.elements(),
            cnp.proof.zkp.mul_proof,
            self.vole_length,
            self.num_voles,
            cnp.proof.public_openings.public_inputs@,
            cnp.proof.public_openings.public_outputs@,
        )
    }

    /// The global `delta` that a commitment and a proof give.
    pub open spec fn vith_delta_of(&self, cnp: &CommitAndProof<T>) -> int {
        challenge_vector::<T>(self.transcript_of(cnp), (1 + self.vole_length / 2) as nat)[0]
    }

    /// The challenge of the S matrix check that a commitment and a proof give.
    pub open spec fn s_challenge_of(&self, cnp: &CommitAndProof<T>) -> Seq<int> {
        challenge_vector::<T>(
            self.transcript_of(cnp),
            (1 + self.vole_length / 2) as nat,
        ).subrange(1, 1 + self.vole_length / 2)
    }

    /// The choice of seeds that a commitment and a proof give.
    pub open spec fn choices_of(&self, cnp: &CommitAndProof<T>) -> Seq<usize> {
        challenge_bits(self.transcript_of(cnp), self.num_voles as nat)
    }

    /// Whether every part of a commitment and a proof has the size that the
    /// VOLE and the code ask for.
    pub open spec fn well_shaped(&self, cnp: &CommitAndProof<T>) -> bool {
        let half = self.vole_length / 2;
        &&& cnp.proof.seed_openings.seed_opens@.len() == self.num_voles
        &&& cnp.proof.seed_openings.seed_proofs@.len() == self.num_voles
        &&& cnp.commitment.subspace_vole_correction@.len() == self.vole_length
        &&& rows_of_width(
            cnp.commitment.subspace_vole_correction@,
            self.code.length() - self.code.dimension(),
        )
        &&& cnp.proof.s_matrix@.len() == half
        &&& rows_of_width(cnp.proof.s_matrix@, self.code.dimension() as int)
        &&& cnp.proof.s_consistency_check@.len() == self.num_voles
        &&& cnp.commitment.witness_comm@.len() == half - 1
        &&& rows_of_width(cnp.commitment.witness_comm@, self.code.dimension() as int)
    }

    /// Whether the opened seeds give the seed commitment.
    pub open spec fn seeds_committed(&self, cnp: &CommitAndProof<T>) -> bool {
        blake3_digest(
            concat_digests(
                reconstructed_commitments(
                    byte_strings(cnp.proof.seed_openings.seed_opens@),
                    self.choices_of(cnp),
                    byte_strings(cnp.proof.seed_openings.seed_proofs@),
                ),
                self.num_voles as nat,
            ),
        ) == cnp.commitment.seed_comm@
    }

    /// The verifier's rows of `q`: those of the small VOLEs of the opened
    /// seeds, corrected with the prover's correction.
    pub open spec fn q_rows_of(&self, cnp: &CommitAndProof<T>) -> Seq<Seq<int>> {
        corrected_q_rows(
            &self.code,
            transposed(
                verifier_q_cols::<T>(
                    byte_strings(cnp.proof.seed_openings.seed_opens@),
                    self.choices_of(cnp),
                    self.vole_length as nat,
                ),
                self.vole_length as nat,
            ),
            verifier_deltas(self.choices_of(cnp)),
            cnp.commitment.subspace_vole_correction@,
            T::modulus(),
        )
    }

    /// Whether the consistency check of the subspace VOLE holds.
    pub open spec fn consistent(&self, cnp: &CommitAndProof<T>) -> bool {
        let m = T::modulus();
        &&& cnp.commitment.consistency_check.0@.len() == self.code.dimension()
        &&& cnp.commitment.consistency_check.1@ == crate::linalg::vec_sub(
            vec_mat(
                consistency_challenge::<T>(cnp.commitment.seed_comm@, self.vole_length as nat),
                transposed(self.q_rows_of(cnp), self.num_voles as nat),
                m,
            ),
            vec_mul(
                self.code.codeword(cnp.commitment.consistency_check.0@, m),
                verifier_deltas(self.choices_of(cnp)),
                m,
            ),
            m,
        )
    }

    /// Whether the S matrix passes its check against the two halves of the
    /// verifier's rows of `q`: the check vector has one entry for every
    /// VOLE, and the equation holds entry by entry.
    pub open spec fn s_matrix_holds(&self, cnp: &CommitAndProof<T>) -> bool {
        let m = T::modulus();
        let half = (self.vole_length / 2) as int;
        let q = self.q_rows_of(cnp);
        let delta = self.vith_delta_of(cnp);
        let challenge = self.s_challenge_of(cnp);
        &&& cnp.proof.s_consistency_check@.len() == self.num_voles
        &&& vec_mat(
            challenge,
            transposed(
                mat_add(
                    mat_scale(q.subrange(0, half), delta, m),
                    q.subrange(half, self.vole_length as int),
                    m,
                ),
                self.num_voles as nat,
            ),
            m,
        ) == vec_add(
            cnp.proof.s_consistency_check@,
            vec_mat(
                challenge,
                transposed(
                    encoded_s_rows(
                        &self.code,
                        cnp.proof.s_matrix@,
                        verifier_deltas(self.choices_of(cnp)),
                        m,
                    ),
                    self.num_voles as nat,
                ),
                m,
            ),
            m,
        )
    }

    /// The keys of the wires: the S matrix plus the global `delta` times the
    /// witness commitment, row after row.
    pub open spec fn keys_of(&self, cnp: &CommitAndProof<T>) -> Seq<int> {
        flattened(
            mat_add(
                cnp.proof.s_matrix@,
                mat_scale(cnp.commitment.witness_comm@, self.vith_delta_of(cnp), T::modulus()),
                T::modulus(),
            ),
            cnp.commitment.witness_comm@.len(),
        )
    }

    /// Whether the Quicksilver check of the constraints holds.
    pub open spec fn constraints_hold(&self, cnp: &CommitAndProof<T>) -> bool {
        let m = T::modulus();
        let delta = self.vith_delta_of(cnp);
        aggregate(
            key_terms(self.keys_of(cnp), delta, &self.circuit.r1cs),
            challenge_vector::<T>(
                quicksilver_preimage(
                    cnp.commitment.seed_comm@,
                    cnp.commitment.witness_comm.elements(),
                ),
                1,
            )[0],
            cnp.proof.s_matrix@[cnp.commitment.witness_comm@.len() as int][0],
            m,
        ) == (cnp.proof.zkp.mul_proof.0.value() * delta + cnp.proof.zkp.mul_proof.1.value()) % m
    }

    /// Whether the public openings agree with the keys of their wires.
    pub open spec fn openings_hold(&self, cnp: &CommitAndProof<T>) -> bool {
        let m = T::modulus();
        &&& openings_agree(
            self.keys_of(cnp),
            self.vith_delta_of(cnp),
            self.circuit.public_inputs_indices@,
            pair_residues(cnp.proof.public_openings.public_inputs@),
            m,
        )
        &&& openings_agree(
            self.keys_of(cnp),
            self.vith_delta_of(cnp),
            self.circuit.public_outputs_indices@,
            pair_residues(cnp.proof.public_openings.public_outputs@),
            m,
        )
    }

    /// Why a commitment and a proof are rejected, if they are: the first of
    /// the checks, in their order, that does not hold.
    pub open spec fn rejection(&self, cnp: &CommitAndProof<T>) -> Option<Error> {
        if !self.well_shaped(cnp) {
            Some(Error::Malformed)
        } else if !self.seeds_committed(cnp) {
            Some(Error::SeedCommitment)
        } else if !self.consistent(cnp) {
            Some(Error::ConsistencyCheck)
        } else if !self.s_matrix_holds(cnp) {
            Some(Error::SMatrix)
        } else if !self.constraints_hold(cnp) {
            Some(Error::Quicksilver)
        } else if !self.openings_hold(cnp) {
            Some(Error::PublicOpening)
        } else {
            None
        }
    }

    /// Pads the circuit to the dimensions of the VOLE over the default code
    /// and makes a verifier.
    pub fn from_circuit(circuit: R1CSWithMetadata<T>) -> (r: Self)
        requires
            circuit.wf(),
            fits_default_code(circuit.unpadded_wtns_len as int),
        ensures
            r.wf(),
            r.code.checkable(),
            forall|round: int|
                0 <= round < 3 ==> r.code.forward(round)
                    == crate::subspacevole::default_permutation(round),
            r.code.q == 2,
            r.num_voles == NUM_VOLES,
            r.vole_length == 2 * (padded_len(circuit.unpadded_wtns_len as int, 512) / 512 + 1),
            r.circuit == circuit,
            r.subspace_vole_deltas is None,
            r.vith_delta is None,
    {
        let code: RAAACode = RAAACode::rand_default();
        let k: usize = code.k();
        assert(k == 512);
        let pp: PadParams = match circuit.calc_padding_needed(k) {
            Some(pp) => pp,
            None => vstd::pervasive::unreached(),
        };
        assert(pp.num_padded_wtns_rows == pp.padded_wtns_len / 512) by {
            vstd::arithmetic::div_mod::lemma_div_multiples_vanish(
                pp.num_padded_wtns_rows as int,
                512,
            );
        }
        Verifier {
            circuit,
            num_voles: code.n(),
            // Two rows of the VOLE for every row of the witness, and two
            // more that hide the proof.
            vole_length: 2 * (pp.num_padded_wtns_rows + 1),
            code,
            subspace_vole_deltas: None,
            vith_delta: None,
        }
    }
}

/// Reconstructs the commitment of every seed pair from its opening and makes
/// the verifier's side of every small VOLE.
pub fn reconstruct_voles<T: PF>(
    opens: &Vec<[u8; 32]>,
    proofs: &Vec<[u8; 32]>,
    choices: &Vec<usize>,
    vole_length: usize,
) -> (r: (Vec<[u8; 32]>, FVec<T>, FMatrix<T>))
    requires
        proofs@.len() == opens@.len(),
        choices@.len() == opens@.len(),
        vole_length <= max_expansion(),
    ensures
        byte_strings(r.0@) == reconstructed_commitments(
            byte_strings(opens@),
            choices@,
            byte_strings(proofs@),
        ),
        r.1@ == verifier_deltas(choices@),
        r.2@ == verifier_q_cols::<T>(byte_strings(opens@), choices@, vole_length as nat),
{
    let n: usize = opens.len();
    let mut recs: Vec<[u8; 32]> = Vec::with_capacity(n);
    let mut deltas: Vec<T> = Vec::with_capacity(n);
    let mut q_cols: Vec<FVec<T>> = Vec::with_capacity(n);
    let mut i: usize = 0;
    while i < n
        invariant
            i <= n,
            n == opens@.len(),
            proofs@.len() == opens@.len(),
            choices@.len() == opens@.len(),
            vole_length <= max_expansion(),
            recs@.len() == i,
            deltas@.len() == i,
            q_cols@.len() == i,
            forall|j: int|
                0 <= j < i ==> (#[trigger] recs@[j])@ == reconstructed_commitment(
                    opens@[j]@,
                    choices@[j] != 0,
                    proofs@[j]@,
                ),
            forall|j: int|
                0 <= j < i ==> (#[trigger] deltas@[j]).value() == bit_value(choices@[j] != 0),
            forall|j: int|
                0 <= j < i ==> (#[trigger] q_cols@[j])@ == small_vole_q::<T>(
                    opens@[j]@,
                    choices@[j] != 0,
                    vole_length as nat,
                ),
        decreases n - i,
    {
        let second: bool = choices[i] != 0;
        recs.push(reconstruct_commitment(&opens[i], second, &proofs[i]));
        let vole_outs: VerifierSmallVOLEOutputs<T> = verifier_outputs(
            &opens[i],
            second,
            vole_length,
        );
        deltas.push(vole_outs.delta);
        q_cols.push(vole_outs.q);
        i += 1;
    }
    let d: FVec<T> = FVec(deltas);
    let q: FMatrix<T> = FMatrix(q_cols);
    assert(byte_strings(recs@) =~= reconstructed_commitments(
        byte_strings(opens@),
        choices@,
        byte_strings(proofs@),
    ));
    assert(d@ =~= verifier_deltas(choices@));
    assert(q@ =~= verifier_q_cols::<T>(byte_strings(opens@), choices@, vole_length as nat));
    (recs, d, q)
}

impl<T: PF> Verifier<T> {
    /// The check of the S matrix: the prover's check must have one entry for
    /// every VOLE, and with the challenge applied to the columns, the first
    /// half of `q` times the global `delta` plus the second half must be the
    /// prover's check plus the encoded rows of the S matrix times the deltas.
    pub fn check_s_matrix(
        &self,
        new_q_rows: &FMatrix<T>,
        deltas: &FVec<T>,
        s_matrix: &FMatrix<T>,
        s_consistency_check: &FVec<T>,
        vith_delta: T,
        s_challenge: &FVec<T>,
    ) -> (b: bool)
        requires
            self.wf(),
            new_q_rows@.len() == self.vole_length,
            rows_of_width(new_q_rows@, self.num_voles as int),
            deltas@.len() == self.num_voles,
            s_matrix@.len() == self.vole_length / 2,
            rows_of_width(s_matrix@, self.code.dimension() as int),
        ensures
            b == (s_consistency_check@.len() == self.num_voles && vec_mat(
                s_challenge@,
                transposed(
                    mat_add(
                        mat_scale(
                            new_q_rows@.subrange(0, (self.vole_length / 2) as int),
                            vith_delta.value(),
                            T::modulus(),
                        ),
                        new_q_rows@.subrange(
                            (self.vole_length / 2) as int,
                            self.vole_length as int,
                        ),
                        T::modulus(),
                    ),
                    self.num_voles as nat,
                ),
                T::modulus(),
            ) == vec_add(
                s_consistency_check@,
                vec_mat(
                    s_challenge@,
                    transposed(
                        encoded_s_rows(&self.code, s_matrix@, deltas@, T::modulus()),
                        self.num_voles as nat,
                    ),
                    T::modulus(),
                ),
                T::modulus(),
            )),
    {
        let half_len: usize = self.vole_length / 2;
        let (q1, q2): (FMatrix<T>, FMatrix<T>) = halves(new_q_rows, half_len);
        let masked_q: FMatrix<T> = q1.scalar_mul(vith_delta).add(&q2);
        proof {
            assert(masked_q@.len() == half_len);
            assert forall|j: int| 0 <= j < masked_q@.len() implies (#[trigger] masked_q@[j]).len()
                == self.num_voles by {
                assert(new_q_rows@[j].len() == self.num_voles);
                assert(new_q_rows@[half_len + j].len() == self.num_voles);
            }
        }
        let lhs: FVec<T> = s_challenge.mul_matrix(&masked_q.transpose());
        assert(all_of_width(s_matrix.0@, self.code.dimension())) by {
            assert forall|i: int| 0 <= i < s_matrix.0@.len() implies (#[trigger] s_matrix.0@[i])@
                .len() == self.code.dimension() by {
                assert(s_matrix@[i] == s_matrix.0@[i]@);
            }
        }
        let encoded: Vec<FVec<T>> = self.code.batch_encode(&s_matrix.0);
        let mut sgc_diag_delta: Vec<FVec<T>> = Vec::with_capacity(encoded.len());
        let mut i: usize = 0;
        while i < encoded.len()
            invariant
                i <= encoded@.len(),
                encoded@.len() == s_matrix@.len(),
                deltas@.len() == self.num_voles,
                self.num_voles == self.code.length(),
                all_of_width(encoded@, self.code.length()),
                forall|j: int|
                    0 <= j < encoded@.len() ==> (#[trigger] encoded@[j])@ == self.code.codeword(
                        s_matrix.0@[j]@,
                        T::modulus(),
                    ),
                sgc_diag_delta@.len() == i,
                forall|j: int|
                    0 <= j < i ==> (#[trigger] sgc_diag_delta@[j])@ == vec_mul(
                        self.code.codeword(s_matrix@[j], T::modulus()),
                        deltas@,
                        T::modulus(),
                    ) && sgc_diag_delta@[j]@.len() == self.num_voles,
            decreases encoded@.len() - i,
        {
            assert(s_matrix@[i as int] == s_matrix.0@[i as int]@);
            sgc_diag_delta.push(encoded[i].mul(deltas));
            i += 1;
        }
        let sgc: FMatrix<T> = FMatrix(sgc_diag_delta);
        assert(sgc@ =~= encoded_s_rows(&self.code, s_matrix@, deltas@, T::modulus()));
        assert(sgc@[0].len() == self.num_voles);
        assert forall|j: int| 0 <= j < sgc@.len() implies (#[trigger] sgc@[j]).len()
            >= sgc@[0].len() by {
            assert(sgc.0@[j]@.len() == self.num_voles);
        }
        let rhs: FVec<T> = s_consistency_check.add(&s_challenge.mul_matrix(&sgc.transpose()));
        s_consistency_check.0.len() == self.num_voles && lhs.equals(&rhs)
    }

    /// Verifies a commitment and its proof. The opened seeds must give the
    /// seed commitment; the verifier's `q`, made from the opened seeds and the
    /// correction, must pass the consistency check of the subspace VOLE; the
    /// S matrix must pass its check; the Quicksilver check must hold of the
    /// keys that the S matrix and the witness commitment give; and the public
    /// openings must agree with those keys. Then the opened public values are
    /// returned; else the first check that fails gives the error.
    pub fn verify(&self, cnp: &CommitAndProof<T>) -> (r: Result<PublicUOpenings<T>, Error>)
        requires
            self.wf(),
        ensures
            r is Ok <==> self.rejection(cnp) is None,
            r matches Err(e) ==> self.rejection(cnp) == Some(e),
            r matches Ok(o) ==> o.public_inputs@ == firsts(cnp.proof.public_openings.public_inputs@)
                && o.public_outputs@ == firsts(cnp.proof.public_openings.public_outputs@),
    {
        let comm: &ProverCommitment<T> = &cnp.commitment;
        let proof: &Proof<T> = &cnp.proof;
        let k: usize = self.code.k();
        let n: usize = self.code.n();
        let half_len: usize = self.vole_length / 2;
        proof {
            lemma_dimension_positive(&self.code);
        }
        if proof.seed_openings.seed_opens.len() != self.num_voles
            || proof.seed_openings.seed_proofs.len() != self.num_voles
            || proof.s_consistency_check.0.len() != self.num_voles || !has_shape(
            &comm.subspace_vole_correction,
            self.vole_length,
            n - k,
        ) || !has_shape(&proof.s_matrix, half_len, k) || !has_shape(
            &comm.witness_comm,
            half_len - 1,
            k,
        ) {
            return Err(Error::Malformed);
        }
        let challenges: Challenges<T> = calc_other_challenges(
            &comm.seed_comm,
            &comm.witness_comm,
            &proof.zkp,
            self.vole_length,
            self.num_voles,
            &proof.public_openings,
        );
        // Make the small VOLEs of the opened seeds, then check that the
        // seeds were all committed to.
        let (recs, deltas, q_cols): (Vec<[u8; 32]>, FVec<T>, FMatrix<T>) = reconstruct_voles(
            &proof.seed_openings.seed_opens,
            &proof.seed_openings.seed_proofs,
            &challenges.delta_choices,
            self.vole_length,
        );
        let rec_comm: [u8; 32] = commit_seed_commitments(&recs);
        proof {
            assert(byte_strings(recs@).len() == recs@.len());
        }
        if !same_bytes(&rec_comm, &comm.seed_comm) {
            return Err(Error::SeedCommitment);
        }
        // Construct the subspace VOLE.
        let ghost opens: Seq<Seq<u8>> = byte_strings(proof.seed_openings.seed_opens@);
        let ghost len: nat = self.vole_length as nat;
        proof {
            assert forall|i: int| 0 <= i < q_cols@.len() implies (#[trigger] q_cols@[i]).len()
                == len by {
                crate::smallvole::lemma_expanded_residues::<T>(opens[i], len);
            }
        }
        assert(q_cols@[0].len() == len);
        let q_rows: FMatrix<T> = q_cols.transpose();
        assert(q_rows@[0].len() == self.code.length());
        let new_q_rows: FMatrix<T> = self.code.correct_verifier_qs(
            &q_rows,
            &deltas,
            &comm.subspace_vole_correction,
        );
        assert(new_q_rows@ =~= self.q_rows_of(cnp));
        // Check that its outputs are in the subspace.
        let challenge_hash: FVec<T> = challenge_from_seed(
            comm.seed_comm.as_slice(),
            "vole_consistency_check".as_bytes(),
            self.vole_length,
        );
        proof {
            assert forall|j: int| 0 <= j < new_q_rows@.len() implies (#[trigger] new_q_rows@[j])
                .len() == self.num_voles by {
                assert(q_rows@[j].len() == self.num_voles);
            }
        }
        let new_q_cols: FMatrix<T> = new_q_rows.transpose();
        match self.code.verify_consistency_check(
            &challenge_hash,
            &comm.consistency_check,
            &deltas,
            &new_q_cols,
        ) {
            Ok(_) => {},
            Err(e) => {
                return Err(e);
            },
        }
        // Check that the S matrix is made as it should be.
        if !self.check_s_matrix(
            &new_q_rows,
            &deltas,
            &proof.s_matrix,
            &proof.s_consistency_check,
            challenges.vith_delta,
            &challenges.s_challenge,
        ) {
            return Err(Error::SMatrix);
        }
        // Verify the proof of the constraints.
        let zk_verifier: crate::quicksilver::Verifier<T> = crate::quicksilver::Verifier::from_vith(
            &proof.s_matrix,
            challenges.vith_delta,
            &comm.witness_comm,
        );
        let quicksilver_challenge: T = calc_quicksilver_challenge(
            &comm.seed_comm,
            &comm.witness_comm,
        );
        proof {
            let keys: Seq<Seq<int>> = mat_add(
                proof.s_matrix@,
                mat_scale(comm.witness_comm@, challenges.vith_delta.value(), T::modulus()),
                T::modulus(),
            );
            assert forall|j: int| 0 <= j < keys.len() implies (#[trigger] keys[j]).len()
                == k by {
                assert(proof.s_matrix@[j].len() == k);
                assert(comm.witness_comm@[j].len() == k);
            }
            lemma_flattened_len(keys, (half_len - 1) as nat, k as nat);
            let wires: int = ((half_len - 1) * k) as int;
            lemma_columns_below_more(
                self.circuit.r1cs.a_rows@,
                self.circuit.unpadded_wtns_len as int,
                wires,
            );
            lemma_columns_below_more(
                self.circuit.r1cs.b_rows@,
                self.circuit.unpadded_wtns_len as int,
                wires,
            );
            lemma_columns_below_more(
                self.circuit.r1cs.c_rows@,
                self.circuit.unpadded_wtns_len as int,
                wires,
            );
        }
        match zk_verifier.verify(&self.circuit.r1cs, &quicksilver_challenge, &proof.zkp) {
            Ok(_) => {},
            Err(e) => {
                return Err(e);
            },
        }
        match zk_verifier.verify_public(&self.circuit, &proof.public_openings) {
            Ok(_) => {},
            Err(e) => {
                return Err(e);
            },
        }
        // The public values without their masks: the masks only serve the
        // verification.
        Ok(proof.public_openings.u_values())
    }
}

/// The entries of a vector at the given wires.
pub open spec fn wire_values(w: Seq<int>, indices: Seq<usize>) -> Seq<int> {
    Seq::new(indices.len(), |i: int| w[indices[i] as int])
}

/// Proves that a witness satisfies a circuit and verifies the proof. For a
/// witness that satisfies the circuit the proof is accepted, whatever seeds
/// the prover drew, and the values of the public wires come back.
pub fn e2e_test<T: PF>(witness: FVec<T>, circuit: R1CSWithMetadata<T>) -> (r: Result<
    PublicUOpenings<T>,
    Error,
>)
    requires
        circuit.wf(),
        witness@.len() >= circuit.unpadded_wtns_len,
        fits_default_code(circuit.unpadded_wtns_len as int),
    ensures
        circuit.r1cs.satisfied_by(witness@) ==> (r matches Ok(o) && residues(o.public_inputs@)
            == wire_values(witness@, circuit.public_inputs_indices@) && residues(
            o.public_outputs@,
        ) == wire_values(witness@, circuit.public_outputs_indices@)),
{
    let for_verifier: R1CSWithMetadata<T> = circuit.clone();
    let ghost unpadded: Seq<int> = witness@;
    let ghost given: R1CSWithMetadata<T> = circuit;
    let mut prover: Prover<T> = Prover::from_witness_and_circuit_unpadded(witness, circuit);
    let ghost fresh: Prover<T> = prover;
    let cnp: CommitAndProof<T> = match prover.commit_and_prove() {
        Ok(cnp) => cnp,
        Err(e) => {
            return Err(e);
        },
    };
    let verifier: Verifier<T> = Verifier::from_circuit(for_verifier);
    proof {
        assert forall|round: int| 0 <= round < 3 implies #[trigger] verifier.code.forward(round)
            == fresh.code.forward(round) by {
            assert(verifier.code.forward(round) == crate::subspacevole::default_permutation(
                round,
            ));
            assert(fresh.code.forward(round) == crate::subspacevole::default_permutation(round));
        }
        crate::completeness::lemma_codes_agree(&verifier.code, &fresh.code);
        let pad: nat = (padded_len(given.unpadded_wtns_len as int, 512)
            - given.unpadded_wtns_len) as nat;
        assert(crate::actors::in_rows(
            unpadded + zeros(pad),
            fresh.witness@.len(),
            fresh.code.dimension(),
        ) == fresh.witness@) by {
            assert(fresh.witness@.len() == padded_len(given.unpadded_wtns_len as int, 512) / 512);
        }
        assert((unpadded + zeros(pad)).len() >= fresh.witness@.len() * fresh.code.dimension());
        if given.r1cs.satisfied_by(unpadded) {
            crate::completeness::lemma_fresh_prover_is_accepted(
                &fresh,
                unpadded,
                &cnp,
                &verifier,
            );
        }
    }
    verifier.verify(&cnp)
}

/// A copy of a list.
pub fn copy_list<A: Copy>(v: &Vec<A>) -> (r: Vec<A>)
    ensures
        r@ == v@,
{
    let mut out: Vec<A> = Vec::with_capacity(v.len());
    let mut i: usize = 0;
    while i < v.len()
        invariant
            i <= v@.len(),
            out@ == v@.subrange(0, i as int),
        decreases v@.len() - i,
    {
        out.push(v[i]);
        i += 1;
    }
    assert(out@ =~= v@);
    out
}

impl<T: PF> Clone for PublicOpenings<T> {
    fn clone(&self) -> (r: Self)
        ensures
            r.public_inputs@ == self.public_inputs@,
            r.public_outputs@ == self.public_outputs@,
    {
        PublicOpenings {
            public_inputs: copy_list(&self.public_inputs),
            public_outputs: copy_list(&self.public_outputs),
        }
    }
}

impl<T: PF> Clone for PublicUOpenings<T> {
    fn clone(&self) -> (r: Self)
        ensures
            r.public_inputs@ == self.public_inputs@,
            r.public_outputs@ == self.public_outputs@,
    {
        PublicUOpenings {
            public_inputs: copy_list(&self.public_inputs),
            public_outputs: copy_list(&self.public_outputs),
        }
    }
}

impl<T: PF> Clone for ProverCommitment<T> {
    fn clone(&self) -> (r: Self)
        ensures
            r.seed_comm == self.seed_comm,
            r.witness_comm.elements() == self.witness_comm.elements(),
            r.witness_comm@ == self.witness_comm@,
            r.subspace_vole_correction@ == self.subspace_vole_correction@,
            r.consistency_check.0@ == self.consistency_check.0@,
            r.consistency_check.1@ == self.consistency_check.1@,
    {
        ProverCommitment {
            seed_comm: self.seed_comm,
            witness_comm: self.witness_comm.clone(),
            subspace_vole_correction: self.subspace_vole_correction.clone(),
            consistency_check: (self.consistency_check.0.clone(), self.consistency_check.1.clone()),
        }
    }
}

impl Clone for SubspaceVOLEOpening {
    fn clone(&self) -> (r: Self)
        ensures
            r.seed_opens@ == self.seed_opens@,
            r.seed_proofs@ == self.seed_proofs@,
    {
        SubspaceVOLEOpening {
            seed_opens: copy_list(&self.seed_opens),
            seed_proofs: copy_list(&self.seed_proofs),
        }
    }
}

impl<T: PF> Clone for Proof<T> {
    fn clone(&self) -> (r: Self)
        ensures
            r.zkp.mul_proof == self.zkp.mul_proof,
            r.seed_openings.seed_opens@ == self.seed_openings.seed_opens@,
            r.seed_openings.seed_proofs@ == self.seed_openings.seed_proofs@,
            r.public_openings.public_inputs@ == self.public_openings.public_inputs@,
            r.public_openings.public_outputs@ == self.public_openings.public_outputs@,
            r.s_matrix@ == self.s_matrix@,
            r.s_consistency_check@ == self.s_consistency_check@,
    {
        Proof {
            zkp: self.zkp.clone(),
            seed_openings: self.seed_openings.clone(),
            public_openings: self.public_openings.clone(),
            s_matrix: self.s_matrix.clone(),
            s_consistency_check: self.s_consistency_check.clone(),
        }
    }
}

impl<T: PF> Clone for CommitAndProof<T> {
    fn clone(&self) -> (r: Self)
        ensures
            r.commitment.seed_comm == self.commitment.seed_comm,
            r.commitment.witness_comm.elements() == self.commitment.witness_comm.elements(),
            r.commitment.witness_comm@ == self.commitment.witness_comm@,
            r.commitment.subspace_vole_correction@ == self.commitment.subspace_vole_correction@,
            r.commitment.consistency_check.0@ == self.commitment.consistency_check.0@,
            r.commitment.consistency_check.1@ == self.commitment.consistency_check.1@,
            r.proof.zkp.mul_proof == self.proof.zkp.mul_proof,
            r.proof.seed_openings.seed_opens@ == self.proof.seed_openings.seed_opens@,
            r.proof.seed_openings.seed_proofs@ == self.proof.seed_openings.seed_proofs@,
            r.proof.public_openings.public_inputs@ == self.proof.public_openings.public_inputs@,
            r.proof.public_openings.public_outputs@ == self.proof.public_openings.public_outputs@,
            r.proof.s_matrix@ == self.proof.s_matrix@,
            r.proof.s_consistency_check@ == self.proof.s_consistency_check@,
    {
        CommitAndProof { commitment: self.commitment.clone(), proof: self.proof.clone() }
    }
}

} // verus!
