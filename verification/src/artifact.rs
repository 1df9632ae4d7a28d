//! The proof artifact on the wire: a commitment and its proof as bytes.
//!
//! Field elements take thirty-two bytes, most significant byte first; every
//! list is preceded by its length as eight bytes, most significant byte
//! first, and every matrix by the number of its rows. The parts follow each
//! other in the order of the fields: the seed commitment, the witness
//! commitment, the correction, the two hashes of the consistency check, the
//! two coefficients of the Quicksilver proof, the opened seeds and their
//! proofs, the public inputs and outputs as their values followed by their
//! masks, the S matrix and its check.

use crate::actors::{
    CommitAndProof, Proof, ProverCommitment, PublicOpenings, SubspaceVOLEOpening, Verifier,
};
use crate::bytes::{be_value, lemma_u64_be_bytes_value, push_u64_be, read_u64_be, u64_be_bytes};
use crate::field::{
    be_bytes32, bn254_modulus, lemma_be_bytes32_len, lemma_be_bytes32_value, Fr, ToU8s, PF,
};
use crate::linalg::{residues, FMatrix, FVec};
use crate::quicksilver::{pair_residues, ZKP};
use crate::smallvole::all_residues;
use crate::challenges::{elements_bytes, matrix_bytes, pairs_bytes, quicksilver_preimage, transcript};
use crate::vecccom::byte_strings;
use vstd::prelude::*;

verus! {

/// What a commitment and its proof hold, as plain values.
pub struct ArtifactModel {
    pub seed_comm: Seq<u8>,
    pub witness_comm: Seq<Seq<int>>,
    pub correction: Seq<Seq<int>>,
    pub u_hash: Seq<int>,
    pub v_hash: Seq<int>,
    pub zkp: (int, int),
    pub seed_opens: Seq<Seq<u8>>,
    pub seed_proofs: Seq<Seq<u8>>,
    pub public_inputs: Seq<(int, int)>,
    pub public_outputs: Seq<(int, int)>,
    pub s_matrix: Seq<Seq<int>>,
    pub s_check: Seq<int>,
}

impl<T: PF> View for CommitAndProof<T> {
    type V = ArtifactModel;

    open spec fn view(&self) -> ArtifactModel {
        ArtifactModel {
            seed_comm: self.commitment.seed_comm@,
            witness_comm: self.commitment.witness_comm@,
            correction: self.commitment.subspace_vole_correction@,
            u_hash: self.commitment.consistency_check.0@,
            v_hash: self.commitment.consistency_check.1@,
            zkp: (self.proof.zkp.mul_proof.0.value(), self.proof.zkp.mul_proof.1.value()),
            seed_opens: byte_strings(self.proof.seed_openings.seed_opens@),
            seed_proofs: byte_strings(self.proof.seed_openings.seed_proofs@),
            public_inputs: pair_residues(self.proof.public_openings.public_inputs@),
            public_outputs: pair_residues(self.proof.public_openings.public_outputs@),
            s_matrix: self.proof.s_matrix@,
            s_check: self.proof.s_consistency_check@,
        }
    }
}

/// The first entries of a list of pairs.
pub open spec fn lefts(s: Seq<(int, int)>) -> Seq<int> {
    Seq::new(s.len(), |i: int| s[i].0)
}

/// The second entries of a list of pairs.
pub open spec fn rights(s: Seq<(int, int)>) -> Seq<int> {
    Seq::new(s.len(), |i: int| s[i].1)
}

/// The pairs of the entries of two lists of one length.
pub open spec fn paired(a: Seq<int>, b: Seq<int>) -> Seq<(int, int)> {
    Seq::new(a.len(), |i: int| (a[i], b[i]))
}

/// The encodings of the first `n` elements, one after the other.
pub open spec fn enc_elems(s: Seq<int>, n: nat) -> Seq<u8>
    decreases n,
{
    if n == 0 {
        Seq::empty()
    } else {
        enc_elems(s, (n - 1) as nat) + be_bytes32(s[n - 1])
    }
}

/// The encoding of a vector: its length, then its elements.
pub open spec fn enc_vec(s: Seq<int>) -> Seq<u8> {
    u64_be_bytes(s.len() as u64) + enc_elems(s, s.len())
}

/// The encodings of the first `n` rows, one after the other.
pub open spec fn enc_rows(m: Seq<Seq<int>>, n: nat) -> Seq<u8>
    decreases n,
{
    if n == 0 {
        Seq::empty()
    } else {
        enc_rows(m, (n - 1) as nat) + enc_vec(m[n - 1])
    }
}

/// The encoding of a matrix: the number of its rows, then its rows.
pub open spec fn enc_matrix(m: Seq<Seq<int>>) -> Seq<u8> {
    u64_be_bytes(m.len() as u64) + enc_rows(m, m.len())
}

/// The first `n` byte strings, one after the other.
pub open spec fn enc_raw(list: Seq<Seq<u8>>, n: nat) -> Seq<u8>
    decreases n,
{
    if n == 0 {
        Seq::empty()
    } else {
        enc_raw(list, (n - 1) as nat) + list[n - 1]
    }
}

/// The encoding of a list of digests or seeds: its length, then its entries.
pub open spec fn enc_digests(list: Seq<Seq<u8>>) -> Seq<u8> {
    u64_be_bytes(list.len() as u64) + enc_raw(list, list.len())
}

/// The encoding of a list of pairs: the first entries as a vector, then the
/// second entries as a vector.
pub open spec fn enc_pairs(s: Seq<(int, int)>) -> Seq<u8> {
    enc_vec(lefts(s)) + enc_vec(rights(s))
}

/// The bytes of a commitment and its proof.
pub open spec fn encoded(m: ArtifactModel) -> Seq<u8> {
    m.seed_comm + enc_matrix(m.witness_comm) + enc_matrix(m.correction) + enc_vec(m.u_hash)
        + enc_vec(m.v_hash) + be_bytes32(m.zkp.0) + be_bytes32(m.zkp.1) + enc_digests(
        m.seed_opens,
    ) + enc_digests(m.seed_proofs) + enc_pairs(m.public_inputs) + enc_pairs(m.public_outputs)
        + enc_matrix(m.s_matrix) + enc_vec(m.s_check)
}

/// The length at a position, if the bytes reach that far.
pub open spec fn len_at(b: Seq<u8>, pos: int) -> Option<u64> {
    if 0 <= pos && pos + 8 <= b.len() {
        Some(be_value(b.subrange(pos, pos + 8)) as u64)
    } else {
        None
    }
}

/// The element at a position: thirty-two bytes that spell a number below the
/// modulus.
pub open spec fn elem_at(b: Seq<u8>, pos: int) -> Option<int> {
    if 0 <= pos && pos + 32 <= b.len() && be_value(b.subrange(pos, pos + 32)) < bn254_modulus() {
        Some(be_value(b.subrange(pos, pos + 32)))
    } else {
        None
    }
}

/// The first `n` elements from a position on.
pub open spec fn elems_at(b: Seq<u8>, pos: int, n: nat) -> Option<Seq<int>>
    decreases n,
{
    if n == 0 {
        Some(Seq::empty())
    } else {
        match elems_at(b, pos, (n - 1) as nat) {
            None => None,
            Some(before) => match elem_at(b, pos + 32 * (n - 1)) {
                None => None,
                Some(x) => Some(before.push(x)),
            },
        }
    }
}

/// The vector at a position and the position behind it.
pub open spec fn vec_at(b: Seq<u8>, pos: int) -> Option<(Seq<int>, int)> {
    match len_at(b, pos) {
        None => None,
        Some(n) => match elems_at(b, pos + 8, n as nat) {
            None => None,
            Some(s) => Some((s, pos + 8 + 32 * n)),
        },
    }
}

/// The first `n` rows from a position on and the position behind them.
pub open spec fn rows_at(b: Seq<u8>, pos: int, n: nat) -> Option<(Seq<Seq<int>>, int)>
    decreases n,
{
    if n == 0 {
        Some((Seq::empty(), pos))
    } else {
        match rows_at(b, pos, (n - 1) as nat) {
            None => None,
            Some((before, p)) => match vec_at(b, p) {
                None => None,
                Some((row, after)) => Some((before.push(row), after)),
            },
        }
    }
}

/// The matrix at a position and the position behind it.
pub open spec fn matrix_at(b: Seq<u8>, pos: int) -> Option<(Seq<Seq<int>>, int)> {
    match len_at(b, pos) {
        None => None,
        Some(n) => rows_at(b, pos + 8, n as nat),
    }
}

/// The first `n` strings of thirty-two bytes from a position on.
pub open spec fn raw_at(b: Seq<u8>, pos: int, n: nat) -> Option<Seq<Seq<u8>>>
    decreases n,
{
    if n == 0 {
        Some(Seq::empty())
    } else {
        match raw_at(b, pos, (n - 1) as nat) {
            None => None,
            Some(before) => {
                let at = pos + 32 * (n - 1);
                if 0 <= at && at + 32 <= b.len() {
                    Some(before.push(b.subrange(at, at + 32)))
                } else {
                    None
                }
            },
        }
    }
}

/// The list of digests or seeds at a position and the position behind it.
pub open spec fn digests_at(b: Seq<u8>, pos: int) -> Option<(Seq<Seq<u8>>, int)> {
    match len_at(b, pos) {
        None => None,
        Some(n) => match raw_at(b, pos + 8, n as nat) {
            None => None,
            Some(list) => Some((list, pos + 8 + 32 * n)),
        },
    }
}

/// The list of pairs at a position and the position behind it: two vectors
/// of one length.
pub open spec fn pairs_at(b: Seq<u8>, pos: int) -> Option<(Seq<(int, int)>, int)> {
    match vec_at(b, pos) {
        None => None,
        Some((a, mid)) => match vec_at(b, mid) {
            None => None,
            Some((c, after)) => if a.len() == c.len() {
                Some((paired(a, c), after))
            } else {
                None
            },
        },
    }
}

/// What bytes hold, if they are the bytes of a commitment and its proof.
pub open spec fn decoded(b: Seq<u8>) -> Option<ArtifactModel> {
    if b.len() < 32 {
        None
    } else {
        match matrix_at(b, 32) {
            None => None,
            Some((witness_comm, p1)) => match matrix_at(b, p1) {
                None => None,
                Some((correction, p2)) => match vec_at(b, p2) {
                    None => None,
                    Some((u_hash, p3)) => match vec_at(b, p3) {
                        None => None,
                        Some((v_hash, p4)) => match (elem_at(b, p4), elem_at(b, p4 + 32)) {
                            (Some(a), Some(c)) => decoded_proof(
                                b,
                                p4 + 64,
                                witness_comm,
                                correction,
                                u_hash,
                                v_hash,
                                (a, c),
                            ),
                            _ => None,
                        },
                    },
                },
            },
        }
    }
}

/// What the bytes from the opened seeds on hold.
pub open spec fn decoded_proof(
    b: Seq<u8>,
    pos: int,
    witness_comm: Seq<Seq<int>>,
    correction: Seq<Seq<int>>,
    u_hash: Seq<int>,
    v_hash: Seq<int>,
    zkp: (int, int),
) -> Option<ArtifactModel> {
    match digests_at(b, pos) {
        None => None,
        Some((seed_opens, p1)) => match digests_at(b, p1) {
            None => None,
            Some((seed_proofs, p2)) => match pairs_at(b, p2) {
                None => None,
                Some((public_inputs, p3)) => match pairs_at(b, p3) {
                    None => None,
                    Some((public_outputs, p4)) => match matrix_at(b, p4) {
                        None => None,
                        Some((s_matrix, p5)) => match vec_at(b, p5) {
                            None => None,
                            Some((s_check, end)) => if end == b.len() {
                                Some(
                                    ArtifactModel {
                                        seed_comm: b.subrange(0, 32),
                                        witness_comm,
                                        correction,
                                        u_hash,
                                        v_hash,
                                        zkp,
                                        seed_opens,
                                        seed_proofs,
                                        public_inputs,
                                        public_outputs,
                                        s_matrix,
                                        s_check,
                                    },
                                )
                            } else {
                                None
                            },
                        },
                    },
                },
            },
        },
    }
}

/// Appends the encoding of a vector.
pub fn push_vec(out: &mut Vec<u8>, v: &FVec<Fr>)
    ensures
        final(out)@ == old(out)@ + enc_vec(v@),
{
    let ghost start: Seq<u8> = out@;
    push_u64_be(out, v.0.len() as u64);
    let ghost head: Seq<u8> = out@;
    let mut i: usize = 0;
    assert(out@ =~= head + enc_elems(v@, 0));
    while i < v.0.len()
        invariant
            i <= v.0@.len(),
            out@ == head + enc_elems(v@, i as nat),
        decreases v.0@.len() - i,
    {
        let bytes: Vec<u8> = v.0[i].to_u8s();
        out.extend_from_slice(bytes.as_slice());
        assert(out@ =~= head + enc_elems(v@, (i + 1) as nat));
        i += 1;
    }
    assert(out@ =~= start + enc_vec(v@));
}

/// Appends the encoding of a matrix.
pub fn push_matrix(out: &mut Vec<u8>, m: &FMatrix<Fr>)
    ensures
        final(out)@ == old(out)@ + enc_matrix(m@),
{
    let ghost start: Seq<u8> = out@;
    push_u64_be(out, m.0.len() as u64);
    let ghost head: Seq<u8> = out@;
    let mut i: usize = 0;
    assert(out@ =~= head + enc_rows(m@, 0));
    while i < m.0.len()
        invariant
            i <= m.0@.len(),
            out@ == head + enc_rows(m@, i as nat),
        decreases m.0@.len() - i,
    {
        push_vec(out, &m.0[i]);
        assert(out@ =~= head + enc_rows(m@, (i + 1) as nat));
        i += 1;
    }
    assert(out@ =~= start + enc_matrix(m@));
}

/// Appends the encoding of a list of digests or seeds.
pub fn push_digests(out: &mut Vec<u8>, list: &Vec<[u8; 32]>)
    ensures
        final(out)@ == old(out)@ + enc_digests(byte_strings(list@)),
{
    let ghost start: Seq<u8> = out@;
    push_u64_be(out, list.len() as u64);
    let ghost head: Seq<u8> = out@;
    let mut i: usize = 0;
    assert(out@ =~= head + enc_raw(byte_strings(list@), 0));
    while i < list.len()
        invariant
            i <= list@.len(),
            out@ == head + enc_raw(byte_strings(list@), i as nat),
        decreases list@.len() - i,
    {
        crate::hash::append_array(out, &list[i]);
        assert(out@ =~= head + enc_raw(byte_strings(list@), (i + 1) as nat));
        i += 1;
    }
    assert(out@ =~= start + enc_digests(byte_strings(list@)));
}

/// Appends the encoding of a list of pairs.
pub fn push_pairs(out: &mut Vec<u8>, pairs: &Vec<(Fr, Fr)>)
    ensures
        final(out)@ == old(out)@ + enc_pairs(pair_residues(pairs@)),
{
    let mut first: Vec<Fr> = Vec::with_capacity(pairs.len());
    let mut second: Vec<Fr> = Vec::with_capacity(pairs.len());
    let mut i: usize = 0;
    while i < pairs.len()
        invariant
            i <= pairs@.len(),
            first@.len() == i,
            second@.len() == i,
            forall|j: int| 0 <= j < i ==> first@[j] == pairs@[j].0 && second@[j] == pairs@[j].1,
        decreases pairs@.len() - i,
    {
        first.push(pairs[i].0);
        second.push(pairs[i].1);
        i += 1;
    }
    let a: FVec<Fr> = FVec(first);
    let b: FVec<Fr> = FVec(second);
    assert(a@ =~= lefts(pair_residues(pairs@)));
    assert(b@ =~= rights(pair_residues(pairs@)));
    let ghost start: Seq<u8> = out@;
    push_vec(out, &a);
    push_vec(out, &b);
    assert(out@ =~= start + enc_pairs(pair_residues(pairs@)));
}

impl CommitAndProof<Fr> {
    /// The bytes of this commitment and proof. They are read back as what
    /// was written.
    pub fn to_bytes(&self) -> (r: Vec<u8>)
        ensures
            r@ == encoded(self@),
            decoded(r@) == Some(self@),
    {
        let mut out: Vec<u8> = Vec::new();
        crate::hash::append_array(&mut out, &self.commitment.seed_comm);
        push_matrix(&mut out, &self.commitment.witness_comm);
        push_matrix(&mut out, &self.commitment.subspace_vole_correction);
        push_vec(&mut out, &self.commitment.consistency_check.0);
        push_vec(&mut out, &self.commitment.consistency_check.1);
        let a: Vec<u8> = self.proof.zkp.mul_proof.0.to_u8s();
        out.extend_from_slice(a.as_slice());
        let b: Vec<u8> = self.proof.zkp.mul_proof.1.to_u8s();
        out.extend_from_slice(b.as_slice());
        push_digests(&mut out, &self.proof.seed_openings.seed_opens);
        push_digests(&mut out, &self.proof.seed_openings.seed_proofs);
        push_pairs(&mut out, &self.proof.public_openings.public_inputs);
        push_pairs(&mut out, &self.proof.public_openings.public_outputs);
        push_matrix(&mut out, &self.proof.s_matrix);
        push_vec(&mut out, &self.proof.s_consistency_check);
        assert(out@ =~= encoded(self@));
        proof {
            lemma_read_back(self);
        }
        out
    }
}

/// The length at a position, if the bytes reach that far.
fn take_len(bytes: &[u8], pos: usize) -> (r: Option<u64>)
    ensures
        r == len_at(bytes@, pos as int),
        r is Some <==> pos + 8 <= bytes@.len(),
{
    if bytes.len() >= 8 && pos <= bytes.len() - 8 {
        Some(read_u64_be(bytes, pos))
    } else {
        None
    }
}

/// Once an element is missing or too large, it stays so for every larger
/// number of elements.
proof fn lemma_elems_stay_none(b: Seq<u8>, pos: int, n: nat, more: nat)
    requires
        n <= more,
        elems_at(b, pos, n) is None,
    ensures
        elems_at(b, pos, more) is None,
    decreases more,
{
    if more > n {
        lemma_elems_stay_none(b, pos, n, (more - 1) as nat);
    }
}

/// Reads the vector at a position.
fn take_vec(bytes: &[u8], pos: usize) -> (r: Option<(FVec<Fr>, usize)>)
    requires
        pos <= bytes@.len(),
    ensures
        match r {
            Some((v, end)) => vec_at(bytes@, pos as int) == Some((v@, end as int)) && end
                <= bytes@.len(),
            None => vec_at(bytes@, pos as int) is None,
        },
{
    let len: usize = bytes.len();
    let n: u64 = match take_len(bytes, pos) {
        Some(n) => n,
        None => {
            return None;
        },
    };
    let start: usize = pos + 8;
    let mut out: Vec<Fr> = Vec::new();
    let mut at: usize = start;
    let mut i: u64 = 0;
    assert(residues(out@) =~= Seq::<int>::empty());
    while i < n
        invariant
            i <= n,
            len == bytes@.len(),
            len_at(bytes@, pos as int) == Some(n),
            start == pos + 8,
            start <= at <= len,
            at == start + 32 * i,
            elems_at(bytes@, start as int, i as nat) == Some(residues(out@)),
        decreases n - i,
    {
        if len - at < 32 {
            proof {
                assert(elem_at(bytes@, at as int) is None);
                assert(elems_at(bytes@, start as int, (i + 1) as nat) is None);
                lemma_elems_stay_none(bytes@, start as int, (i + 1) as nat, n as nat);
            }
            return None;
        }
        let x: Fr = match Fr::from_be_bytes(bytes, at) {
            Some(x) => x,
            None => {
                proof {
                    assert(elem_at(bytes@, at as int) is None);
                    assert(elems_at(bytes@, start as int, (i + 1) as nat) is None);
                    lemma_elems_stay_none(bytes@, start as int, (i + 1) as nat, n as nat);
                }
                return None;
            },
        };
        let ghost before: Seq<int> = residues(out@);
        out.push(x);
        assert(residues(out@) =~= before.push(x.value()));
        at += 32;
        i += 1;
    }
    Some((FVec(out), at))
}

/// Once a row is missing, it stays so for every larger number of rows.
proof fn lemma_rows_stay_none(b: Seq<u8>, pos: int, n: nat, more: nat)
    requires
        n <= more,
        rows_at(b, pos, n) is None,
    ensures
        rows_at(b, pos, more) is None,
    decreases more,
{
    if more > n {
        lemma_rows_stay_none(b, pos, n, (more - 1) as nat);
    }
}

/// Reads the matrix at a position.
fn take_matrix(bytes: &[u8], pos: usize) -> (r: Option<(FMatrix<Fr>, usize)>)
    requires
        pos <= bytes@.len(),
    ensures
        match r {
            Some((m, end)) => matrix_at(bytes@, pos as int) == Some((m@, end as int)) && end
                <= bytes@.len(),
            None => matrix_at(bytes@, pos as int) is None,
        },
{
    let len: usize = bytes.len();
    let n: u64 = match take_len(bytes, pos) {
        Some(n) => n,
        None => {
            return None;
        },
    };
    let start: usize = pos + 8;
    let mut out: Vec<FVec<Fr>> = Vec::new();
    let mut at: usize = start;
    let mut i: u64 = 0;
    assert(FMatrix(out)@ =~= Seq::<Seq<int>>::empty());
    while i < n
        invariant
            i <= n,
            len == bytes@.len(),
            len_at(bytes@, pos as int) == Some(n),
            start == pos + 8,
            at <= len,
            rows_at(bytes@, start as int, i as nat) == Some((FMatrix(out)@, at as int)),
        decreases n - i,
    {
        let (row, after): (FVec<Fr>, usize) = match take_vec(bytes, at) {
            Some(x) => x,
            None => {
                proof {
                    assert(rows_at(bytes@, start as int, (i + 1) as nat) is None);
                    lemma_rows_stay_none(bytes@, start as int, (i + 1) as nat, n as nat);
                }
                return None;
            },
        };
        let ghost before: Seq<Seq<int>> = FMatrix(out)@;
        let ghost rv: Seq<int> = row@;
        out.push(row);
        assert(FMatrix(out)@ =~= before.push(rv));
        at = after;
        i += 1;
    }
    Some((FMatrix(out), at))
}

/// Once a digest is missing, it stays so for every larger number of digests.
proof fn lemma_raw_stay_none(b: Seq<u8>, pos: int, n: nat, more: nat)
    requires
        n <= more,
        raw_at(b, pos, n) is None,
    ensures
        raw_at(b, pos, more) is None,
    decreases more,
{
    if more > n {
        lemma_raw_stay_none(b, pos, n, (more - 1) as nat);
    }
}

/// Reads the list of digests or seeds at a position.
fn take_digests(bytes: &[u8], pos: usize) -> (r: Option<(Vec<[u8; 32]>, usize)>)
    requires
        pos <= bytes@.len(),
    ensures
        match r {
            Some((list, end)) => digests_at(bytes@, pos as int) == Some(
                (byte_strings(list@), end as int),
            ) && end <= bytes@.len(),
            None => digests_at(bytes@, pos as int) is None,
        },
{
    let len: usize = bytes.len();
    let n: u64 = match take_len(bytes, pos) {
        Some(n) => n,
        None => {
            return None;
        },
    };
    let start: usize = pos + 8;
    let mut out: Vec<[u8; 32]> = Vec::new();
    let mut at: usize = start;
    let mut i: u64 = 0;
    assert(byte_strings(out@) =~= Seq::<Seq<u8>>::empty());
    while i < n
        invariant
            i <= n,
            len == bytes@.len(),
            len_at(bytes@, pos as int) == Some(n),
            start == pos + 8,
            start <= at <= len,
            at == start + 32 * i,
            raw_at(bytes@, start as int, i as nat) == Some(byte_strings(out@)),
        decreases n - i,
    {
        if len - at < 32 {
            proof {
                assert(raw_at(bytes@, start as int, (i + 1) as nat) is None);
                lemma_raw_stay_none(bytes@, start as int, (i + 1) as nat, n as nat);
            }
            return None;
        }
        let mut digest: [u8; 32] = [0u8; 32];
        let mut k: usize = 0;
        while k < 32
            invariant
                k <= 32,
                len == bytes@.len(),
                at + 32 <= len,
                forall|j: int| 0 <= j < k ==> digest@[j] == bytes@[at + j],
            decreases 32 - k,
        {
            digest[k] = bytes[at + k];
            k += 1;
        }
        assert(digest@ =~= bytes@.subrange(at as int, at + 32));
        let ghost before: Seq<Seq<u8>> = byte_strings(out@);
        out.push(digest);
        assert(byte_strings(out@) =~= before.push(digest@));
        at += 32;
        i += 1;
    }
    Some((out, at))
}

/// Reads the list of pairs at a position.
fn take_pairs(bytes: &[u8], pos: usize) -> (r: Option<(Vec<(Fr, Fr)>, usize)>)
    requires
        pos <= bytes@.len(),
    ensures
        match r {
            Some((pairs, end)) => pairs_at(bytes@, pos as int) == Some(
                (pair_residues(pairs@), end as int),
            ) && end <= bytes@.len(),
            None => pairs_at(bytes@, pos as int) is None,
        },
{
    let (a, mid): (FVec<Fr>, usize) = match take_vec(bytes, pos) {
        Some(x) => x,
        None => {
            return None;
        },
    };
    let (b, end): (FVec<Fr>, usize) = match take_vec(bytes, mid) {
        Some(x) => x,
        None => {
            return None;
        },
    };
    if a.0.len() != b.0.len() {
        return None;
    }
    let mut out: Vec<(Fr, Fr)> = Vec::with_capacity(a.0.len());
    let mut i: usize = 0;
    while i < a.0.len()
        invariant
            i <= a.0@.len(),
            a.0@.len() == b.0@.len(),
            out@.len() == i,
            forall|j: int| 0 <= j < i ==> out@[j] == (a.0@[j], b.0@[j]),
        decreases a.0@.len() - i,
    {
        out.push((a.0[i], b.0[i]));
        i += 1;
    }
    assert(pair_residues(out@) =~= paired(a@, b@));
    Some((out, end))
}

impl CommitAndProof<Fr> {
    /// The commitment and proof that bytes hold; none where the bytes are not
    /// the bytes of one.
    pub fn from_bytes(bytes: &[u8]) -> (r: Option<CommitAndProof<Fr>>)
        ensures
            match r {
                Some(c) => decoded(bytes@) == Some(c@),
                None => decoded(bytes@) is None,
            },
    {
        let len: usize = bytes.len();
        if len < 32 {
            return None;
        }
        let mut seed_comm: [u8; 32] = [0u8; 32];
        let mut k: usize = 0;
        while k < 32
            invariant
                k <= 32,
                32 <= bytes@.len(),
                forall|j: int| 0 <= j < k ==> seed_comm@[j] == bytes@[j],
            decreases 32 - k,
        {
            seed_comm[k] = bytes[k];
            k += 1;
        }
        assert(seed_comm@ =~= bytes@.subrange(0, 32));
        let (witness_comm, p1): (FMatrix<Fr>, usize) = match take_matrix(bytes, 32) {
            Some(x) => x,
            None => {
                return None;
            },
        };
        let (correction, p2): (FMatrix<Fr>, usize) = match take_matrix(bytes, p1) {
            Some(x) => x,
            None => {
                return None;
            },
        };
        let (u_hash, p3): (FVec<Fr>, usize) = match take_vec(bytes, p2) {
            Some(x) => x,
            None => {
                return None;
            },
        };
        let (v_hash, p4): (FVec<Fr>, usize) = match take_vec(bytes, p3) {
            Some(x) => x,
            None => {
                return None;
            },
        };
        if len - p4 < 64 {
            return None;
        }
        let a: Fr = match Fr::from_be_bytes(bytes, p4) {
            Some(x) => x,
            None => {
                return None;
            },
        };
        let b: Fr = match Fr::from_be_bytes(bytes, p4 + 32) {
            Some(x) => x,
            None => {
                return None;
            },
        };
        let (seed_opens, p5): (Vec<[u8; 32]>, usize) = match take_digests(bytes, p4 + 64) {
            Some(x) => x,
            None => {
                return None;
            },
        };
        let (seed_proofs, p6): (Vec<[u8; 32]>, usize) = match take_digests(bytes, p5) {
            Some(x) => x,
            None => {
                return None;
            },
        };
        let (public_inputs, p7): (Vec<(Fr, Fr)>, usize) = match take_pairs(bytes, p6) {
            Some(x) => x,
            None => {
                return None;
            },
        };
        let (public_outputs, p8): (Vec<(Fr, Fr)>, usize) = match take_pairs(bytes, p7) {
            Some(x) => x,
            None => {
                return None;
            },
        };
        let (s_matrix, p9): (FMatrix<Fr>, usize) = match take_matrix(bytes, p8) {
            Some(x) => x,
            None => {
                return None;
            },
        };
        let (s_consistency_check, end): (FVec<Fr>, usize) = match take_vec(bytes, p9) {
            Some(x) => x,
            None => {
                return None;
            },
        };
        if end != len {
            return None;
        }
        Some(
            CommitAndProof {
                commitment: ProverCommitment {
                    seed_comm,
                    witness_comm,
                    subspace_vole_correction: correction,
                    consistency_check: (u_hash, v_hash),
                },
                proof: Proof {
                    zkp: ZKP { mul_proof: (a, b) },
                    seed_openings: SubspaceVOLEOpening { seed_opens, seed_proofs },
                    public_openings: PublicOpenings { public_inputs, public_outputs },
                    s_matrix,
                    s_consistency_check,
                },
            },
        )
    }
}

/// Whether every number of a matrix is a residue.
pub open spec fn residue_matrix(m: Seq<Seq<int>>) -> bool {
    forall|j: int| 0 <= j < m.len() ==> all_residues(#[trigger] m[j], bn254_modulus())
}

/// Whether every row of a matrix has a length that eight bytes can hold.
pub open spec fn short_rows(m: Seq<Seq<int>>) -> bool {
    forall|j: int| 0 <= j < m.len() ==> (#[trigger] m[j]).len() <= u64::MAX
}

/// Whether every string of a list has thirty-two bytes.
pub open spec fn digest_list(list: Seq<Seq<u8>>) -> bool {
    forall|j: int| 0 <= j < list.len() ==> (#[trigger] list[j]).len() == 32
}

/// Whether plain values are those of a commitment and a proof: the numbers
/// are residues, the seeds and digests have thirty-two bytes, and the
/// lengths are such as eight bytes can hold.
pub open spec fn well_formed(m: ArtifactModel) -> bool {
    let p = bn254_modulus();
    &&& m.seed_comm.len() == 32
    &&& m.witness_comm.len() <= u64::MAX && residue_matrix(m.witness_comm) && short_rows(
        m.witness_comm,
    )
    &&& m.correction.len() <= u64::MAX && residue_matrix(m.correction) && short_rows(m.correction)
    &&& m.u_hash.len() <= u64::MAX && all_residues(m.u_hash, p)
    &&& m.v_hash.len() <= u64::MAX && all_residues(m.v_hash, p)
    &&& 0 <= m.zkp.0 < p && 0 <= m.zkp.1 < p
    &&& m.seed_opens.len() <= u64::MAX && digest_list(m.seed_opens)
    &&& m.seed_proofs.len() <= u64::MAX && digest_list(m.seed_proofs)
    &&& m.public_inputs.len() <= u64::MAX && all_residues(lefts(m.public_inputs), p)
        && all_residues(rights(m.public_inputs), p)
    &&& m.public_outputs.len() <= u64::MAX && all_residues(lefts(m.public_outputs), p)
        && all_residues(rights(m.public_outputs), p)
    &&& m.s_matrix.len() <= u64::MAX && residue_matrix(m.s_matrix) && short_rows(m.s_matrix)
    &&& m.s_check.len() <= u64::MAX && all_residues(m.s_check, p)
}

/// A length is read back from its eight bytes.
proof fn lemma_len_framed(b: Seq<u8>, pos: int, n: u64)
    requires
        0 <= pos,
        pos + 8 <= b.len(),
        b.subrange(pos, pos + 8) == u64_be_bytes(n),
    ensures
        len_at(b, pos) == Some(n),
{
    lemma_u64_be_bytes_value(n);
}

/// The encodings of `n` elements take thirty-two bytes each.
proof fn lemma_enc_elems_len(s: Seq<int>, n: nat)
    ensures
        enc_elems(s, n).len() == 32 * n,
    decreases n,
{
    if n > 0 {
        lemma_enc_elems_len(s, (n - 1) as nat);
        lemma_be_bytes32_len(s[n - 1]);
    }
}

/// Elements are read back from their encodings.
proof fn lemma_elems_framed(b: Seq<u8>, pos: int, s: Seq<int>, n: nat)
    requires
        n <= s.len(),
        all_residues(s, bn254_modulus()),
        0 <= pos,
        pos + 32 * n <= b.len(),
        b.subrange(pos, pos + 32 * n) == enc_elems(s, n),
    ensures
        elems_at(b, pos, n) == Some(s.subrange(0, n as int)),
    decreases n,
{
    if n == 0 {
        assert(s.subrange(0, 0) =~= Seq::<int>::empty());
    } else {
        let p: nat = (n - 1) as nat;
        lemma_enc_elems_len(s, p);
        let whole: Seq<u8> = b.subrange(pos, pos + 32 * n);
        assert(b.subrange(pos, pos + 32 * p) =~= whole.subrange(0, 32 * (p as int)));
        assert(whole.subrange(0, 32 * (p as int)) =~= enc_elems(s, p));
        assert(b.subrange(pos + 32 * p, pos + 32 * n) =~= whole.subrange(32 * (p as int), 32 * (n as int)));
        assert(whole.subrange(32 * (p as int), 32 * (n as int)) =~= be_bytes32(s[p as int]));
        lemma_elems_framed(b, pos, s, p);
        lemma_be_bytes32_value(s[p as int]);
        assert(s.subrange(0, p as int).push(s[p as int]) =~= s.subrange(0, n as int));
    }
}

/// A vector is read back from its encoding.
proof fn lemma_vec_framed(b: Seq<u8>, pos: int, s: Seq<int>)
    requires
        s.len() <= u64::MAX,
        all_residues(s, bn254_modulus()),
        0 <= pos,
        pos + 8 + 32 * s.len() <= b.len(),
        b.subrange(pos, pos + 8 + 32 * s.len()) == enc_vec(s),
    ensures
        vec_at(b, pos) == Some((s, pos + 8 + 32 * s.len())),
{
    let n: nat = s.len();
    lemma_enc_elems_len(s, n);
    let whole: Seq<u8> = b.subrange(pos, pos + 8 + 32 * n);
    assert(b.subrange(pos, pos + 8) =~= whole.subrange(0, 8));
    assert(whole.subrange(0, 8) =~= u64_be_bytes(n as u64));
    lemma_len_framed(b, pos, n as u64);
    assert(b.subrange(pos + 8, pos + 8 + 32 * n) =~= whole.subrange(8, 8 + 32 * (n as int)));
    assert(whole.subrange(8, 8 + 32 * (n as int)) =~= enc_elems(s, n));
    lemma_elems_framed(b, pos + 8, s, n);
    assert(s.subrange(0, n as int) =~= s);
}

/// The length of the encoding of a vector.
proof fn lemma_enc_vec_len(s: Seq<int>)
    ensures
        enc_vec(s).len() == 8 + 32 * s.len(),
{
    lemma_enc_elems_len(s, s.len());
}

/// Rows are read back from their encodings.
proof fn lemma_rows_framed(b: Seq<u8>, pos: int, m: Seq<Seq<int>>, n: nat)
    requires
        n <= m.len(),
        residue_matrix(m),
        short_rows(m),
        0 <= pos,
        pos + enc_rows(m, n).len() <= b.len(),
        b.subrange(pos, pos + enc_rows(m, n).len()) == enc_rows(m, n),
    ensures
        rows_at(b, pos, n) == Some((m.subrange(0, n as int), pos + enc_rows(m, n).len())),
    decreases n,
{
    if n == 0 {
        assert(m.subrange(0, 0) =~= Seq::<Seq<int>>::empty());
    } else {
        let p: nat = (n - 1) as nat;
        let before: Seq<u8> = enc_rows(m, p);
        let row: Seq<int> = m[p as int];
        lemma_enc_vec_len(row);
        let whole: Seq<u8> = b.subrange(pos, pos + enc_rows(m, n).len());
        assert(b.subrange(pos, pos + before.len()) =~= whole.subrange(0, before.len() as int));
        assert(whole.subrange(0, before.len() as int) =~= before);
        lemma_rows_framed(b, pos, m, p);
        let at: int = pos + before.len();
        assert(b.subrange(at, at + 8 + 32 * row.len()) =~= whole.subrange(
            before.len() as int,
            before.len() as int + 8 + 32 * (row.len() as int),
        ));
        assert(whole.subrange(
            before.len() as int,
            before.len() as int + 8 + 32 * (row.len() as int),
        ) =~= enc_vec(
            row,
        ));
        assert(all_residues(row, bn254_modulus()));
        assert(row.len() <= u64::MAX);
        lemma_vec_framed(b, at, row);
        assert(m.subrange(0, p as int).push(row) =~= m.subrange(0, n as int));
    }
}

/// A matrix is read back from its encoding.
proof fn lemma_matrix_framed(b: Seq<u8>, pos: int, m: Seq<Seq<int>>)
    requires
        m.len() <= u64::MAX,
        residue_matrix(m),
        short_rows(m),
        0 <= pos,
        pos + enc_matrix(m).len() <= b.len(),
        b.subrange(pos, pos + enc_matrix(m).len()) == enc_matrix(m),
    ensures
        matrix_at(b, pos) == Some((m, pos + enc_matrix(m).len())),
{
    let n: nat = m.len();
    let rows: Seq<u8> = enc_rows(m, n);
    let whole: Seq<u8> = b.subrange(pos, pos + enc_matrix(m).len());
    assert(b.subrange(pos, pos + 8) =~= whole.subrange(0, 8));
    assert(whole.subrange(0, 8) =~= u64_be_bytes(n as u64));
    lemma_len_framed(b, pos, n as u64);
    assert(b.subrange(pos + 8, pos + 8 + rows.len()) =~= whole.subrange(8, 8 + rows.len() as int));
    assert(whole.subrange(8, 8 + rows.len() as int) =~= rows);
    lemma_rows_framed(b, pos + 8, m, n);
    assert(m.subrange(0, n as int) =~= m);
}

/// The strings of a list of digests take thirty-two bytes each.
proof fn lemma_enc_raw_len(list: Seq<Seq<u8>>, n: nat)
    requires
        n <= list.len(),
        digest_list(list),
    ensures
        enc_raw(list, n).len() == 32 * n,
    decreases n,
{
    if n > 0 {
        lemma_enc_raw_len(list, (n - 1) as nat);
        assert(list[n - 1].len() == 32);
    }
}

/// Digests are read back from their bytes.
proof fn lemma_raw_framed(b: Seq<u8>, pos: int, list: Seq<Seq<u8>>, n: nat)
    requires
        n <= list.len(),
        digest_list(list),
        0 <= pos,
        pos + 32 * n <= b.len(),
        b.subrange(pos, pos + 32 * n) == enc_raw(list, n),
    ensures
        raw_at(b, pos, n) == Some(list.subrange(0, n as int)),
    decreases n,
{
    if n == 0 {
        assert(list.subrange(0, 0) =~= Seq::<Seq<u8>>::empty());
    } else {
        let p: nat = (n - 1) as nat;
        lemma_enc_raw_len(list, p);
        assert(list[p as int].len() == 32);
        let whole: Seq<u8> = b.subrange(pos, pos + 32 * n);
        assert(b.subrange(pos, pos + 32 * p) =~= whole.subrange(0, 32 * (p as int)));
        assert(whole.subrange(0, 32 * (p as int)) =~= enc_raw(list, p));
        assert(b.subrange(pos + 32 * p, pos + 32 * n) =~= whole.subrange(32 * (p as int), 32 * (n as int)));
        assert(whole.subrange(32 * (p as int), 32 * (n as int)) =~= list[p as int]);
        lemma_raw_framed(b, pos, list, p);
        assert(list.subrange(0, p as int).push(list[p as int]) =~= list.subrange(0, n as int));
    }
}

/// A list of digests is read back from its encoding.
proof fn lemma_digests_framed(b: Seq<u8>, pos: int, list: Seq<Seq<u8>>)
    requires
        list.len() <= u64::MAX,
        digest_list(list),
        0 <= pos,
        pos + 8 + 32 * list.len() <= b.len(),
        b.subrange(pos, pos + 8 + 32 * list.len()) == enc_digests(list),
    ensures
        digests_at(b, pos) == Some((list, pos + 8 + 32 * list.len())),
{
    let n: nat = list.len();
    lemma_enc_raw_len(list, n);
    let whole: Seq<u8> = b.subrange(pos, pos + 8 + 32 * n);
    assert(b.subrange(pos, pos + 8) =~= whole.subrange(0, 8));
    assert(whole.subrange(0, 8) =~= u64_be_bytes(n as u64));
    lemma_len_framed(b, pos, n as u64);
    assert(b.subrange(pos + 8, pos + 8 + 32 * n) =~= whole.subrange(8, 8 + 32 * (n as int)));
    assert(whole.subrange(8, 8 + 32 * (n as int)) =~= enc_raw(list, n));
    lemma_raw_framed(b, pos + 8, list, n);
    assert(list.subrange(0, n as int) =~= list);
}

/// A list of pairs is read back from its encoding.
proof fn lemma_pairs_framed(b: Seq<u8>, pos: int, s: Seq<(int, int)>)
    requires
        s.len() <= u64::MAX,
        all_residues(lefts(s), bn254_modulus()),
        all_residues(rights(s), bn254_modulus()),
        0 <= pos,
        pos + 16 + 64 * s.len() <= b.len(),
        b.subrange(pos, pos + 16 + 64 * s.len()) == enc_pairs(s),
    ensures
        pairs_at(b, pos) == Some((s, pos + 16 + 64 * s.len())),
{
    let n: nat = s.len();
    lemma_enc_vec_len(lefts(s));
    lemma_enc_vec_len(rights(s));
    let whole: Seq<u8> = b.subrange(pos, pos + 16 + 64 * n);
    let half: int = 8 + 32 * (n as int);
    assert(b.subrange(pos, pos + half) =~= whole.subrange(0, half));
    assert(whole.subrange(0, half) =~= enc_vec(lefts(s)));
    lemma_vec_framed(b, pos, lefts(s));
    assert(b.subrange(pos + half, pos + half + half) =~= whole.subrange(half, half + half));
    assert(whole.subrange(half, half + half) =~= enc_vec(rights(s)));
    lemma_vec_framed(b, pos + half, rights(s));
    assert(paired(lefts(s), rights(s)) =~= s);
}

/// The part of an encoding up to a piece, for the pieces in their order: the
/// seed commitment is piece 0, the check of the S matrix piece 12.
pub open spec fn encoded_up_to(m: ArtifactModel, piece: int) -> Seq<u8>
    decreases piece,
{
    if piece <= 0 {
        m.seed_comm
    } else {
        encoded_up_to(m, piece - 1) + piece_of(m, piece)
    }
}

/// A piece of an encoding.
pub open spec fn piece_of(m: ArtifactModel, piece: int) -> Seq<u8> {
    if piece == 1 {
        enc_matrix(m.witness_comm)
    } else if piece == 2 {
        enc_matrix(m.correction)
    } else if piece == 3 {
        enc_vec(m.u_hash)
    } else if piece == 4 {
        enc_vec(m.v_hash)
    } else if piece == 5 {
        be_bytes32(m.zkp.0)
    } else if piece == 6 {
        be_bytes32(m.zkp.1)
    } else if piece == 7 {
        enc_digests(m.seed_opens)
    } else if piece == 8 {
        enc_digests(m.seed_proofs)
    } else if piece == 9 {
        enc_pairs(m.public_inputs)
    } else if piece == 10 {
        enc_pairs(m.public_outputs)
    } else if piece == 11 {
        enc_matrix(m.s_matrix)
    } else {
        enc_vec(m.s_check)
    }
}

/// An encoding is its pieces one after the other.
proof fn lemma_encoded_in_pieces(m: ArtifactModel)
    ensures
        encoded(m) == encoded_up_to(m, 12),
{
    reveal_with_fuel(encoded_up_to, 14);
}

/// Every piece of an encoding lies in the encoding behind the pieces before
/// it.
proof fn lemma_piece_in_place(m: ArtifactModel, piece: int, whole: int)
    requires
        1 <= piece <= whole <= 12,
    ensures
        encoded_up_to(m, piece).len() == encoded_up_to(m, piece - 1).len() + piece_of(
            m,
            piece,
        ).len(),
        encoded_up_to(m, piece).len() <= encoded_up_to(m, whole).len(),
        encoded_up_to(m, whole).subrange(0, encoded_up_to(m, piece).len() as int)
            == encoded_up_to(m, piece),
        encoded_up_to(m, whole).subrange(
            encoded_up_to(m, piece - 1).len() as int,
            encoded_up_to(m, piece).len() as int,
        ) == piece_of(m, piece),
    decreases whole - piece,
{
    let c: Seq<u8> = encoded_up_to(m, piece);
    let before: Seq<u8> = encoded_up_to(m, piece - 1);
    let e: Seq<u8> = piece_of(m, piece);
    assert(c == before + e);
    if piece == whole {
        assert(c.subrange(0, c.len() as int) =~= c);
        assert(c.subrange(before.len() as int, c.len() as int) =~= e);
    } else {
        lemma_piece_in_place(m, piece + 1, whole);
        let next: Seq<u8> = encoded_up_to(m, piece + 1);
        let w: Seq<u8> = encoded_up_to(m, whole);
        assert(w.subrange(0, next.len() as int) == next);
        assert(next == c + piece_of(m, piece + 1));
        assert(w.subrange(0, c.len() as int) =~= next.subrange(0, c.len() as int));
        assert(next.subrange(0, c.len() as int) =~= c);
        assert(w.subrange(before.len() as int, c.len() as int) =~= c.subrange(
            before.len() as int,
            c.len() as int,
        ));
        assert(c.subrange(before.len() as int, c.len() as int) =~= e);
    }
}

/// The witness commitment is read back from its place in the bytes.
proof fn lemma_piece_1_read_back(m: ArtifactModel)
    requires
        well_formed(m),
    ensures
        matrix_at(encoded_up_to(m, 12), encoded_up_to(m, 0).len() as int) == Some(
            (m.witness_comm, encoded_up_to(m, 1).len() as int),
        ),
{
    lemma_piece_in_place(m, 1, 12);
    assert(piece_of(m, 1) == enc_matrix(m.witness_comm));
    lemma_matrix_framed(encoded_up_to(m, 12), encoded_up_to(m, 0).len() as int, m.witness_comm);
}

/// The correction is read back from its place in the bytes.
proof fn lemma_piece_2_read_back(m: ArtifactModel)
    requires
        well_formed(m),
    ensures
        matrix_at(encoded_up_to(m, 12), encoded_up_to(m, 1).len() as int) == Some(
            (m.correction, encoded_up_to(m, 2).len() as int),
        ),
{
    lemma_piece_in_place(m, 2, 12);
    assert(piece_of(m, 2) == enc_matrix(m.correction));
    lemma_matrix_framed(encoded_up_to(m, 12), encoded_up_to(m, 1).len() as int, m.correction);
}

/// The hash of `u` is read back from its place in the bytes.
proof fn lemma_piece_3_read_back(m: ArtifactModel)
    requires
        well_formed(m),
    ensures
        vec_at(encoded_up_to(m, 12), encoded_up_to(m, 2).len() as int) == Some(
            (m.u_hash, encoded_up_to(m, 3).len() as int),
        ),
{
    lemma_piece_in_place(m, 3, 12);
    assert(piece_of(m, 3) == enc_vec(m.u_hash));
    lemma_enc_vec_len(m.u_hash);
    lemma_vec_framed(encoded_up_to(m, 12), encoded_up_to(m, 2).len() as int, m.u_hash);
}

/// The hash of `v` is read back from its place in the bytes.
proof fn lemma_piece_4_read_back(m: ArtifactModel)
    requires
        well_formed(m),
    ensures
        vec_at(encoded_up_to(m, 12), encoded_up_to(m, 3).len() as int) == Some(
            (m.v_hash, encoded_up_to(m, 4).len() as int),
        ),
{
    lemma_piece_in_place(m, 4, 12);
    assert(piece_of(m, 4) == enc_vec(m.v_hash));
    lemma_enc_vec_len(m.v_hash);
    lemma_vec_framed(encoded_up_to(m, 12), encoded_up_to(m, 3).len() as int, m.v_hash);
}

/// The opened seeds is read back from its place in the bytes.
proof fn lemma_piece_7_read_back(m: ArtifactModel)
    requires
        well_formed(m),
    ensures
        digests_at(encoded_up_to(m, 12), encoded_up_to(m, 6).len() as int) == Some(
            (m.seed_opens, encoded_up_to(m, 7).len() as int),
        ),
{
    lemma_piece_in_place(m, 7, 12);
    assert(piece_of(m, 7) == enc_digests(m.seed_opens));
    lemma_enc_raw_len(m.seed_opens, m.seed_opens.len());
    lemma_digests_framed(encoded_up_to(m, 12), encoded_up_to(m, 6).len() as int, m.seed_opens);
}

/// The proofs of the opened seeds is read back from its place in the bytes.
proof fn lemma_piece_8_read_back(m: ArtifactModel)
    requires
        well_formed(m),
    ensures
        digests_at(encoded_up_to(m, 12), encoded_up_to(m, 7).len() as int) == Some(
            (m.seed_proofs, encoded_up_to(m, 8).len() as int),
        ),
{
    lemma_piece_in_place(m, 8, 12);
    assert(piece_of(m, 8) == enc_digests(m.seed_proofs));
    lemma_enc_raw_len(m.seed_proofs, m.seed_proofs.len());
    lemma_digests_framed(encoded_up_to(m, 12), encoded_up_to(m, 7).len() as int, m.seed_proofs);
}

/// The public inputs is read back from its place in the bytes.
proof fn lemma_piece_9_read_back(m: ArtifactModel)
    requires
        well_formed(m),
    ensures
        pairs_at(encoded_up_to(m, 12), encoded_up_to(m, 8).len() as int) == Some(
            (m.public_inputs, encoded_up_to(m, 9).len() as int),
        ),
{
    lemma_piece_in_place(m, 9, 12);
    assert(piece_of(m, 9) == enc_pairs(m.public_inputs));
    lemma_enc_vec_len(lefts(m.public_inputs));
    lemma_enc_vec_len(rights(m.public_inputs));
    lemma_pairs_framed(encoded_up_to(m, 12), encoded_up_to(m, 8).len() as int, m.public_inputs);
}

/// The public outputs is read back from its place in the bytes.
proof fn lemma_piece_10_read_back(m: ArtifactModel)
    requires
        well_formed(m),
    ensures
        pairs_at(encoded_up_to(m, 12), encoded_up_to(m, 9).len() as int) == Some(
            (m.public_outputs, encoded_up_to(m, 10).len() as int),
        ),
{
    lemma_piece_in_place(m, 10, 12);
    assert(piece_of(m, 10) == enc_pairs(m.public_outputs));
    lemma_enc_vec_len(lefts(m.public_outputs));
    lemma_enc_vec_len(rights(m.public_outputs));
    lemma_pairs_framed(encoded_up_to(m, 12), encoded_up_to(m, 9).len() as int, m.public_outputs);
}

/// The S matrix is read back from its place in the bytes.
proof fn lemma_piece_11_read_back(m: ArtifactModel)
    requires
        well_formed(m),
    ensures
        matrix_at(encoded_up_to(m, 12), encoded_up_to(m, 10).len() as int) == Some(
            (m.s_matrix, encoded_up_to(m, 11).len() as int),
        ),
{
    lemma_piece_in_place(m, 11, 12);
    assert(piece_of(m, 11) == enc_matrix(m.s_matrix));
    lemma_matrix_framed(encoded_up_to(m, 12), encoded_up_to(m, 10).len() as int, m.s_matrix);
}

/// The check of the S matrix is read back from its place in the bytes.
proof fn lemma_piece_12_read_back(m: ArtifactModel)
    requires
        well_formed(m),
    ensures
        vec_at(encoded_up_to(m, 12), encoded_up_to(m, 11).len() as int) == Some(
            (m.s_check, encoded_up_to(m, 12).len() as int),
        ),
{
    lemma_piece_in_place(m, 12, 12);
    assert(piece_of(m, 12) == enc_vec(m.s_check));
    lemma_enc_vec_len(m.s_check);
    lemma_vec_framed(encoded_up_to(m, 12), encoded_up_to(m, 11).len() as int, m.s_check);
}

/// The two coefficients of the Quicksilver proof are read back from their
/// places in the bytes.
proof fn lemma_zkp_read_back(m: ArtifactModel)
    requires
        well_formed(m),
    ensures
        elem_at(encoded_up_to(m, 12), encoded_up_to(m, 4).len() as int) == Some(m.zkp.0),
        elem_at(encoded_up_to(m, 12), encoded_up_to(m, 4).len() as int + 32) == Some(m.zkp.1),
        encoded_up_to(m, 6).len() == encoded_up_to(m, 4).len() + 64,
{
    lemma_piece_in_place(m, 5, 12);
    lemma_piece_in_place(m, 6, 12);
    assert(piece_of(m, 5) == be_bytes32(m.zkp.0));
    assert(piece_of(m, 6) == be_bytes32(m.zkp.1));
    lemma_be_bytes32_value(m.zkp.0);
    lemma_be_bytes32_value(m.zkp.1);
}

/// The seed commitment is read back from the head of the bytes.
proof fn lemma_seed_commitment_read_back(m: ArtifactModel)
    requires
        well_formed(m),
    ensures
        encoded_up_to(m, 12).len() >= 32,
        encoded_up_to(m, 0).len() == 32,
        encoded_up_to(m, 12).subrange(0, 32) == m.seed_comm,
{
    lemma_piece_in_place(m, 1, 12);
    assert(encoded_up_to(m, 0) == m.seed_comm);
    assert(encoded_up_to(m, 12).subrange(0, 32) =~= encoded_up_to(m, 1).subrange(0, 32));
    assert(encoded_up_to(m, 1).subrange(0, 32) =~= m.seed_comm);
}

/// Round trip: the bytes of a commitment and a proof are read back as the
/// same commitment and proof.
pub proof fn lemma_decoded_encoded(m: ArtifactModel)
    requires
        well_formed(m),
    ensures
        decoded(encoded(m)) == Some(m),
{
    lemma_encoded_in_pieces(m);
    lemma_seed_commitment_read_back(m);
    lemma_piece_1_read_back(m);
    lemma_piece_2_read_back(m);
    lemma_piece_3_read_back(m);
    lemma_piece_4_read_back(m);
    lemma_zkp_read_back(m);
    let b: Seq<u8> = encoded_up_to(m, 12);
    let o7: int = encoded_up_to(m, 6).len() as int;
    assert(decoded(b) == decoded_proof(
        b,
        o7,
        m.witness_comm,
        m.correction,
        m.u_hash,
        m.v_hash,
        m.zkp,
    ));
    lemma_piece_7_read_back(m);
    lemma_piece_8_read_back(m);
    lemma_piece_9_read_back(m);
    lemma_piece_10_read_back(m);
    lemma_piece_11_read_back(m);
    lemma_piece_12_read_back(m);
}

/// What a commitment and a proof hold is well formed.
pub proof fn lemma_view_well_formed(c: &CommitAndProof<Fr>)
    ensures
        well_formed(c@),
{
    let p: int = bn254_modulus();
    let m: ArtifactModel = c@;
    assert(c.commitment.witness_comm.0.len() <= usize::MAX);
    assert(c.commitment.subspace_vole_correction.0.len() <= usize::MAX);
    assert(c.commitment.consistency_check.0.0.len() <= usize::MAX);
    assert(c.commitment.consistency_check.1.0.len() <= usize::MAX);
    assert(c.proof.seed_openings.seed_opens.len() <= usize::MAX);
    assert(c.proof.seed_openings.seed_proofs.len() <= usize::MAX);
    assert(c.proof.public_openings.public_inputs.len() <= usize::MAX);
    assert(c.proof.public_openings.public_outputs.len() <= usize::MAX);
    assert(c.proof.s_matrix.0.len() <= usize::MAX);
    assert(c.proof.s_consistency_check.0.len() <= usize::MAX);
    lemma_matrix_well_formed(&c.commitment.witness_comm);
    lemma_matrix_well_formed(&c.commitment.subspace_vole_correction);
    lemma_matrix_well_formed(&c.proof.s_matrix);
    lemma_vec_residues(&c.commitment.consistency_check.0);
    lemma_vec_residues(&c.commitment.consistency_check.1);
    lemma_vec_residues(&c.proof.s_consistency_check);
    c.proof.zkp.mul_proof.0.value_in_range();
    c.proof.zkp.mul_proof.1.value_in_range();
    lemma_pairs_residues(c.proof.public_openings.public_inputs@);
    lemma_pairs_residues(c.proof.public_openings.public_outputs@);
    assert(digest_list(m.seed_opens));
    assert(digest_list(m.seed_proofs));
}

/// The entries of a vector are residues.
proof fn lemma_vec_residues(v: &FVec<Fr>)
    ensures
        all_residues(v@, bn254_modulus()),
{
    assert forall|i: int| 0 <= i < v@.len() implies 0 <= #[trigger] v@[i] < bn254_modulus() by {
        v.0@[i].value_in_range();
    }
}

/// The entries of pairs are residues.
proof fn lemma_pairs_residues(s: Seq<(Fr, Fr)>)
    ensures
        all_residues(lefts(pair_residues(s)), bn254_modulus()),
        all_residues(rights(pair_residues(s)), bn254_modulus()),
{
    assert forall|i: int| 0 <= i < s.len() implies 0 <= #[trigger] lefts(pair_residues(s))[i]
        < bn254_modulus() by {
        s[i].0.value_in_range();
    }
    assert forall|i: int| 0 <= i < s.len() implies 0 <= #[trigger] rights(pair_residues(s))[i]
        < bn254_modulus() by {
        s[i].1.value_in_range();
    }
}

/// The rows of a matrix hold residues and are short enough to be written.
proof fn lemma_matrix_well_formed(mat: &FMatrix<Fr>)
    ensures
        residue_matrix(mat@),
        short_rows(mat@),
{
    assert forall|j: int| 0 <= j < mat@.len() implies all_residues(
        #[trigger] mat@[j],
        bn254_modulus(),
    ) && mat@[j].len() <= u64::MAX by {
        assert(mat.0@[j].0.len() <= usize::MAX);
        lemma_vec_residues(&mat.0@[j]);
    }
}

/// The encodings of elements only depend on their residues.
proof fn lemma_elements_bytes_by_value(s1: Seq<Fr>, s2: Seq<Fr>, n: nat)
    requires
        residues(s1) == residues(s2),
        n <= s1.len(),
    ensures
        elements_bytes(s1, n) == elements_bytes(s2, n),
    decreases n,
{
    if n > 0 {
        lemma_elements_bytes_by_value(s1, s2, (n - 1) as nat);
        assert(residues(s1).len() == s1.len() && residues(s2).len() == s2.len());
        assert(residues(s1)[n - 1] == s1[n - 1].value());
        assert(residues(s2)[n - 1] == s2[n - 1].value());
        assert(s1[n - 1].encoded() == be_bytes32(s1[n - 1].value()));
        assert(s2[n - 1].encoded() == be_bytes32(s2[n - 1].value()));
    }
}

/// The encodings of the rows of a matrix only depend on their residues.
proof fn lemma_matrix_bytes_by_value(m1: &FMatrix<Fr>, m2: &FMatrix<Fr>, n: nat)
    requires
        m1@ == m2@,
        n <= m1@.len(),
    ensures
        matrix_bytes(m1.elements(), n) == matrix_bytes(m2.elements(), n),
    decreases n,
{
    if n > 0 {
        lemma_matrix_bytes_by_value(m1, m2, (n - 1) as nat);
        let r1: Seq<Fr> = m1.elements()[n - 1];
        let r2: Seq<Fr> = m2.elements()[n - 1];
        assert(residues(r1) == m1@[n - 1]);
        assert(residues(r2) == m2@[n - 1]);
        assert(r1.len() == residues(r1).len());
        assert(r2.len() == residues(r2).len());
        lemma_elements_bytes_by_value(r1, r2, r1.len());
    }
}

/// The encodings of pairs only depend on their residues.
proof fn lemma_pairs_bytes_by_value(s1: Seq<(Fr, Fr)>, s2: Seq<(Fr, Fr)>, n: nat)
    requires
        pair_residues(s1) == pair_residues(s2),
        n <= s1.len(),
    ensures
        pairs_bytes(s1, n) == pairs_bytes(s2, n),
    decreases n,
{
    if n > 0 {
        lemma_pairs_bytes_by_value(s1, s2, (n - 1) as nat);
        assert(pair_residues(s1).len() == s1.len() && pair_residues(s2).len() == s2.len());
        assert(pair_residues(s1)[n - 1] == (s1[n - 1].0.value(), s1[n - 1].1.value()));
        assert(pair_residues(s2)[n - 1] == (s2[n - 1].0.value(), s2[n - 1].1.value()));
        assert(s1[n - 1].0.encoded() == be_bytes32(s1[n - 1].0.value()));
        assert(s2[n - 1].0.encoded() == be_bytes32(s2[n - 1].0.value()));
        assert(s1[n - 1].1.encoded() == be_bytes32(s1[n - 1].1.value()));
        assert(s2[n - 1].1.encoded() == be_bytes32(s2[n - 1].1.value()));
    }
}

/// The verifier's verdict only depends on what a commitment and a proof
/// hold: of two that hold the same, it rejects both for the same reason or
/// accepts both. So what is read back from the bytes of a commitment and a
/// proof is verified as they are.
pub proof fn lemma_verdict_by_view(
    verifier: &Verifier<Fr>,
    c1: &CommitAndProof<Fr>,
    c2: &CommitAndProof<Fr>,
)
    requires
        c1@ == c2@,
    ensures
        verifier.rejection(c1) == verifier.rejection(c2),
{
    let wc1: &FMatrix<Fr> = &c1.commitment.witness_comm;
    let wc2: &FMatrix<Fr> = &c2.commitment.witness_comm;
    assert(wc1@ == wc2@);
    assert(wc1.elements().len() == wc1@.len());
    assert(wc2.elements().len() == wc2@.len());
    lemma_matrix_bytes_by_value(wc1, wc2, wc1@.len());
    let in1: Seq<(Fr, Fr)> = c1.proof.public_openings.public_inputs@;
    let in2: Seq<(Fr, Fr)> = c2.proof.public_openings.public_inputs@;
    let out1: Seq<(Fr, Fr)> = c1.proof.public_openings.public_outputs@;
    let out2: Seq<(Fr, Fr)> = c2.proof.public_openings.public_outputs@;
    assert(pair_residues(in1) == pair_residues(in2));
    assert(pair_residues(out1) == pair_residues(out2));
    assert(in1.len() == pair_residues(in1).len() && in2.len() == pair_residues(in2).len());
    assert(out1.len() == pair_residues(out1).len() && out2.len() == pair_residues(out2).len());
    lemma_pairs_bytes_by_value(in1, in2, in1.len());
    lemma_pairs_bytes_by_value(out1, out2, out1.len());
    assert(c1.proof.zkp.mul_proof.0.value() == c2.proof.zkp.mul_proof.0.value());
    assert(c1.proof.zkp.mul_proof.1.value() == c2.proof.zkp.mul_proof.1.value());
    assert(verifier.transcript_of(c1) == verifier.transcript_of(c2));
    assert(quicksilver_preimage(c1.commitment.seed_comm@, wc1.elements()) == quicksilver_preimage(
        c2.commitment.seed_comm@,
        wc2.elements(),
    ));
    let opens1: Seq<[u8; 32]> = c1.proof.seed_openings.seed_opens@;
    let opens2: Seq<[u8; 32]> = c2.proof.seed_openings.seed_opens@;
    assert(byte_strings(opens1) == byte_strings(opens2));
    assert(opens1.len() == byte_strings(opens1).len() && opens2.len() == byte_strings(
        opens2,
    ).len());
    let proofs1: Seq<[u8; 32]> = c1.proof.seed_openings.seed_proofs@;
    let proofs2: Seq<[u8; 32]> = c2.proof.seed_openings.seed_proofs@;
    assert(byte_strings(proofs1) == byte_strings(proofs2));
    assert(proofs1.len() == byte_strings(proofs1).len() && proofs2.len() == byte_strings(
        proofs2,
    ).len());
    assert(verifier.well_shaped(c1) == verifier.well_shaped(c2));
    assert(verifier.seeds_committed(c1) == verifier.seeds_committed(c2));
    assert(verifier.q_rows_of(c1) == verifier.q_rows_of(c2));
    assert(verifier.consistent(c1) == verifier.consistent(c2));
    assert(verifier.s_matrix_holds(c1) == verifier.s_matrix_holds(c2));
    assert(verifier.keys_of(c1) == verifier.keys_of(c2));
    assert(verifier.constraints_hold(c1) == verifier.constraints_hold(c2));
    assert(verifier.openings_hold(c1) == verifier.openings_hold(c2));
}

/// Round trip of a commitment and a proof: the bytes of one are read back as
/// one that holds the same.
pub proof fn lemma_read_back(c: &CommitAndProof<Fr>)
    ensures
        decoded(encoded(c@)) == Some(c@),
{
    lemma_view_well_formed(c);
    lemma_decoded_encoded(c@);
}

} // verus!
