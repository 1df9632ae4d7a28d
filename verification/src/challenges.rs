//! The Fiat-Shamir challenges: every challenge is expanded from the hash of
//! what the prover has committed to before it.

use crate::actors::PublicOpenings;
use crate::bytes::{push_u64_be, u64_be_bytes};
use crate::field::PF;
use crate::hash::{append_array, blake3_digest, blake3_hash};
use crate::linalg::{FMatrix, FVec};
use crate::quicksilver::ZKP;
use crate::stream::{chacha20_fill, chacha20_keystream};
use crate::subspacevole::slice_of;
use crate::vecccom::{candidates_for, expand_stream, expansion, max_expansion};
use vstd::prelude::*;

verus! {

/// The challenges that are drawn once the proof of the constraints is fixed.
#[derive(Debug)]
pub struct Challenges<T: PF> {
    /// For every small VOLE which seed of its pair is opened: `0` or `1`.
    pub delta_choices: Vec<usize>,
    /// The global `delta` of the VOLE in the head.
    pub vith_delta: T,
    /// The challenge of the consistency check of the S matrix.
    pub s_challenge: FVec<T>,
}

/// The encodings of the first `n` of a list of elements, one after the other.
pub open spec fn elements_bytes<T: PF>(s: Seq<T>, n: nat) -> Seq<u8>
    decreases n,
{
    if n == 0 {
        Seq::empty()
    } else {
        elements_bytes(s, (n - 1) as nat) + s[n - 1].encoded()
    }
}

/// The encodings of the first `n` rows of a matrix, one after the other.
pub open spec fn matrix_bytes<T: PF>(rows: Seq<Seq<T>>, n: nat) -> Seq<u8>
    decreases n,
{
    if n == 0 {
        Seq::empty()
    } else {
        matrix_bytes(rows, (n - 1) as nat) + elements_bytes(rows[n - 1], rows[n - 1].len())
    }
}

/// The encodings of the first `n` of a list of pairs, one after the other.
pub open spec fn pairs_bytes<T: PF>(s: Seq<(T, T)>, n: nat) -> Seq<u8>
    decreases n,
{
    if n == 0 {
        Seq::empty()
    } else {
        pairs_bytes(s, (n - 1) as nat) + s[n - 1].0.encoded() + s[n - 1].1.encoded()
    }
}

/// The field elements that a preimage gives: its hash keys a ChaCha20 stream
/// from which `n` elements are sampled by rejection.
pub open spec fn challenge_vector<T: PF>(preimage: Seq<u8>, n: nat) -> Seq<int> {
    expansion::<T>(chacha20_keystream(blake3_digest(preimage), 32 * candidates_for(n)), n)
}

/// The bits that a preimage gives: the hash of its hash keys a ChaCha20
/// stream whose first `n` bytes give one bit each.
pub open spec fn challenge_bits(preimage: Seq<u8>, n: nat) -> Seq<usize> {
    let stream = chacha20_keystream(blake3_digest(blake3_digest(preimage)), n);
    Seq::new(n, |i: int| (stream[i] % 2) as usize)
}

/// What the challenge of the Quicksilver check is hashed from: the seed
/// commitment and the witness commitment.
pub open spec fn quicksilver_preimage<T: PF>(seed_comm: Seq<u8>, witness_comm: Seq<Seq<T>>) -> Seq<
    u8,
> {
    seed_comm + matrix_bytes(witness_comm, witness_comm.len())
}

/// What the last challenges are hashed from: the seed commitment, the witness
/// commitment, the proof of the constraints, the public openings, and the two
/// dimensions of the VOLE.
pub open spec fn transcript<T: PF>(
    seed_comm: Seq<u8>,
    witness_comm: Seq<Seq<T>>,
    zkp: (T, T),
    vole_length: usize,
    num_voles: usize,
    public_inputs: Seq<(T, T)>,
    public_outputs: Seq<(T, T)>,
) -> Seq<u8> {
    seed_comm + matrix_bytes(witness_comm, witness_comm.len()) + zkp.0.encoded()
        + zkp.1.encoded() + pairs_bytes(public_inputs, public_inputs.len()) + pairs_bytes(
        public_outputs,
        public_outputs.len(),
    ) + u64_be_bytes(vole_length as u64) + u64_be_bytes(num_voles as u64)
}

/// Appends the encoding of an element.
pub fn append_element<T: PF>(out: &mut Vec<u8>, x: &T)
    ensures
        final(out)@ == old(out)@ + x.encoded(),
{
    let bytes: Vec<u8> = x.to_u8s();
    out.extend_from_slice(bytes.as_slice());
}

/// Appends the encodings of the rows of a matrix.
pub fn append_matrix<T: PF>(out: &mut Vec<u8>, mat: &FMatrix<T>)
    ensures
        final(out)@ == old(out)@ + matrix_bytes(mat.elements(), mat.elements().len()),
{
    let mut i: usize = 0;
    assert(out@ =~= old(out)@ + matrix_bytes(mat.elements(), 0));
    while i < mat.0.len()
        invariant
            i <= mat.0@.len(),
            out@ == old(out)@ + matrix_bytes(mat.elements(), i as nat),
        decreases mat.0@.len() - i,
    {
        let row: &FVec<T> = &mat.0[i];
        let ghost start: Seq<u8> = out@;
        let mut j: usize = 0;
        assert(out@ =~= start + elements_bytes(row.0@, 0));
        while j < row.0.len()
            invariant
                j <= row.0@.len(),
                out@ == start + elements_bytes(row.0@, j as nat),
            decreases row.0@.len() - j,
        {
            let ghost before: Seq<u8> = out@;
            append_element(out, &row.0[j]);
            assert(out@ =~= start + elements_bytes(row.0@, (j + 1) as nat));
            j += 1;
        }
        assert(out@ =~= old(out)@ + matrix_bytes(mat.elements(), (i + 1) as nat));
        i += 1;
    }
}

/// Appends the encodings of a list of pairs.
pub fn append_pairs<T: PF>(out: &mut Vec<u8>, pairs: &Vec<(T, T)>)
    ensures
        final(out)@ == old(out)@ + pairs_bytes(pairs@, pairs@.len()),
{
    let mut i: usize = 0;
    assert(out@ =~= old(out)@ + pairs_bytes(pairs@, 0));
    while i < pairs.len()
        invariant
            i <= pairs@.len(),
            out@ == old(out)@ + pairs_bytes(pairs@, i as nat),
        decreases pairs@.len() - i,
    {
        append_element(out, &pairs[i].0);
        append_element(out, &pairs[i].1);
        assert(out@ =~= old(out)@ + pairs_bytes(pairs@, (i + 1) as nat));
        i += 1;
    }
}

/// The field elements that a hash preimage gives.
pub fn challenge_from_preimage<T: PF>(preimage: &[u8], length: usize) -> (r: FVec<T>)
    requires
        length <= max_expansion(),
    ensures
        r@ == challenge_vector::<T>(preimage@, length as nat),
        r@.len() == length,
{
    let digest: [u8; 32] = blake3_hash(preimage);
    let stream: Vec<u8> = chacha20_fill(&digest, 32 * (4 * length + 64));
    expand_stream(stream.as_slice(), length)
}

/// A challenge vector from a seed and a personalization: the elements that
/// the personalization followed by the seed gives.
pub fn challenge_from_seed<T: PF>(seed: &[u8], personalization: &[u8], length: usize) -> (r: FVec<
    T,
>)
    requires
        length <= max_expansion(),
    ensures
        r@ == challenge_vector::<T>(personalization@ + seed@, length as nat),
        r@.len() == length,
{
    let mut preimage: Vec<u8> = Vec::new();
    preimage.extend_from_slice(personalization);
    preimage.extend_from_slice(seed);
    assert(preimage@ =~= personalization@ + seed@);
    challenge_from_preimage(preimage.as_slice(), length)
}

/// The challenge of the Quicksilver check, drawn once the seeds and the
/// witness are committed to.
pub fn calc_quicksilver_challenge<T: PF>(seed_comm: &[u8; 32], witness_comm: &FMatrix<T>) -> (r: T)
    ensures
        r.value() == challenge_vector::<T>(
            quicksilver_preimage(seed_comm@, witness_comm.elements()),
            1,
        )[0],
{
    let mut preimage: Vec<u8> = Vec::new();
    append_array(&mut preimage, seed_comm);
    append_matrix(&mut preimage, witness_comm);
    assert(preimage@ =~= quicksilver_preimage(seed_comm@, witness_comm.elements()));
    let v: FVec<T> = challenge_from_preimage(preimage.as_slice(), 1);
    v.0[0]
}

/// The bits that a hash preimage gives.
pub fn bits_from_preimage(preimage: &[u8], n: usize) -> (r: Vec<usize>)
    ensures
        r@ == challenge_bits(preimage@, n as nat),
{
    let digest: [u8; 32] = blake3_hash(preimage);
    let seed: [u8; 32] = blake3_hash(digest.as_slice());
    let stream: Vec<u8> = chacha20_fill(&seed, n);
    let mut out: Vec<usize> = Vec::with_capacity(n);
    let mut i: usize = 0;
    while i < n
        invariant
            i <= n,
            stream@.len() == n,
            out@.len() == i,
            forall|j: int| 0 <= j < i ==> out@[j] == (stream@[j] % 2) as usize,
        decreases n - i,
    {
        out.push((stream[i] % 2) as usize);
        i += 1;
    }
    assert(out@ =~= challenge_bits(preimage@, n as nat));
    out
}

/// The challenges that are drawn once the proof of the constraints and the
/// public openings are fixed: the global `delta`, the challenge of the S
/// matrix check with half the VOLE length, and for every small VOLE the
/// choice of the seed to open.
pub fn calc_other_challenges<T: PF>(
    seed_comm: &[u8; 32],
    witness_comm: &FMatrix<T>,
    zkp: &ZKP<T>,
    vole_length: usize,
    num_voles: usize,
    public_openings: &PublicOpenings<T>,
) -> (r: Challenges<T>)
    requires
        vole_length / 2 < max_expansion(),
    ensures
        r.vith_delta.value() == challenge_vector::<T>(
            transcript(
                seed_comm@,
                witness_comm.elements(),
                zkp.mul_proof,
                vole_length,
                num_voles,
                public_openings.public_inputs@,
                public_openings.public_outputs@,
            ),
            (1 + vole_length / 2) as nat,
        )[0],
        r.s_challenge@ == challenge_vector::<T>(
            transcript(
                seed_comm@,
                witness_comm.elements(),
                zkp.mul_proof,
                vole_length,
                num_voles,
                public_openings.public_inputs@,
                public_openings.public_outputs@,
            ),
            (1 + vole_length / 2) as nat,
        ).subrange(1, 1 + vole_length / 2),
        r.delta_choices@ == challenge_bits(
            transcript(
                seed_comm@,
                witness_comm.elements(),
                zkp.mul_proof,
                vole_length,
                num_voles,
                public_openings.public_inputs@,
                public_openings.public_outputs@,
            ),
            num_voles as nat,
        ),
{
    let mut t: Vec<u8> = Vec::new();
    append_array(&mut t, seed_comm);
    append_matrix(&mut t, witness_comm);
    append_element(&mut t, &zkp.mul_proof.0);
    append_element(&mut t, &zkp.mul_proof.1);
    append_pairs(&mut t, &public_openings.public_inputs);
    append_pairs(&mut t, &public_openings.public_outputs);
    push_u64_be(&mut t, vole_length as u64);
    push_u64_be(&mut t, num_voles as u64);
    assert(t@ =~= transcript(
        seed_comm@,
        witness_comm.elements(),
        zkp.mul_proof,
        vole_length,
        num_voles,
        public_openings.public_inputs@,
        public_openings.public_outputs@,
    ));
    let half: usize = vole_length / 2;
    let elements: FVec<T> = challenge_from_preimage(t.as_slice(), 1 + half);
    let vith_delta: T = elements.0[0];
    let s_challenge: FVec<T> = slice_of(&elements, 1, 1 + half);
    let delta_choices: Vec<usize> = bits_from_preimage(t.as_slice(), num_voles);
    Challenges { delta_choices, vith_delta, s_challenge }
}

} // verus!
