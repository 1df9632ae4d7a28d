//! Seed expansion and the two-seed commitment with selective opening.
//!
//! A pair of seeds is committed to by the hash of the hashes of the two seeds.
//! To open one of them the committer shows it together with the hash of the
//! other.

use crate::field::PF;
use crate::hash::{append_array, blake3_digest, blake3_hash, same_bytes};
use crate::linalg::{residues, FVec};
use crate::stream::{chacha12_fill, chacha12_keystream, fresh_seed};
use vstd::prelude::*;

verus! {

/// How many thirty-two byte candidates are drawn to sample `n` elements by
/// rejection.
pub open spec fn candidates_for(n: nat) -> nat {
    4 * n + 64
}

/// The residues accepted, in order, among the first `k` candidates of a
/// stream.
pub open spec fn accepted<T: PF>(stream: Seq<u8>, k: nat) -> Seq<int>
    decreases k,
{
    if k == 0 {
        Seq::empty()
    } else {
        let before = accepted::<T>(stream, (k - 1) as nat);
        match T::sampled(stream.subrange(32 * (k - 1), 32 * (k as int))) {
            Some(v) => before.push(v),
            None => before,
        }
    }
}

/// The first `n` residues accepted among the candidates of a stream; should
/// fewer be accepted, zeros make up the length.
pub open spec fn expansion<T: PF>(stream: Seq<u8>, n: nat) -> Seq<int> {
    let all = accepted::<T>(stream, candidates_for(n));
    Seq::new(
        n,
        |i: int|
            if i < all.len() {
                all[i]
            } else {
                0
            },
    )
}

/// The `n` field elements that a seed expands to.
pub open spec fn expanded_seed<T: PF>(seed: Seq<u8>, n: nat) -> Seq<int> {
    expansion::<T>(chacha12_keystream(seed, 32 * candidates_for(n)), n)
}

/// The largest number of elements that one seed is expanded to: the bytes of
/// the candidates must fit the machine.
pub open spec fn max_expansion() -> nat {
    ((usize::MAX / 32 - 64) / 4) as nat
}

/// Samples `n` field elements by rejection from a stream of uniform bytes that
/// holds `4 * n + 64` candidates of thirty-two bytes each.
pub fn expand_stream<T: PF>(stream: &[u8], n: usize) -> (r: FVec<T>)
    requires
        stream@.len() == 32 * candidates_for(n as nat),
    ensures
        r@ == expansion::<T>(stream@, n as nat),
{
    let total: usize = stream.len() / 32;
    let mut out: Vec<T> = Vec::with_capacity(n);
    let mut k: usize = 0;
    while k < total
        invariant
            k <= total,
            total == candidates_for(n as nat),
            stream@.len() == 32 * total,
            stream@.len() <= usize::MAX,
            out@.len() <= n,
            out@.len() <= accepted::<T>(stream@, k as nat).len(),
            out@.len() < n ==> out@.len() == accepted::<T>(stream@, k as nat).len(),
            forall|i: int|
                0 <= i < out@.len() ==> (#[trigger] out@[i]).value() == accepted::<T>(
                    stream@,
                    k as nat,
                )[i],
        decreases total - k,
    {
        let c: Option<T> = T::sample(stream, 32 * k);
        if out.len() < n {
            match c {
                Some(x) => {
                    out.push(x);
                },
                None => {},
            }
        }
        k += 1;
    }
    let ghost all: Seq<int> = accepted::<T>(stream@, candidates_for(n as nat));
    let ghost got: nat = out@.len();
    while out.len() < n
        invariant
            got <= out@.len() <= n,
            got < n ==> got == all.len(),
            got <= all.len(),
            forall|i: int| 0 <= i < got ==> (#[trigger] out@[i]).value() == all[i],
            forall|i: int| got <= i < out@.len() ==> (#[trigger] out@[i]).value() == 0,
        decreases n - out.len(),
    {
        out.push(T::zero());
    }
    let r: FVec<T> = FVec(out);
    assert(r@ =~= expansion::<T>(stream@, n as nat));
    r
}

/// Expands a seed to `num_outputs` field elements: the seed keys a ChaCha12
/// stream, and the elements are sampled from it by rejection.
pub fn expand_seed_to_field_vec<T: PF>(seed: [u8; 32], num_outputs: usize) -> (r: FVec<T>)
    requires
        num_outputs <= max_expansion(),
    ensures
        r@ == expanded_seed::<T>(seed@, num_outputs as nat),
        r@.len() == num_outputs,
{
    let stream: Vec<u8> = chacha12_fill(&seed, 32 * (4 * num_outputs + 64));
    expand_stream(stream.as_slice(), num_outputs)
}

/// The commitment to a pair of seeds.
pub open spec fn seed_commitment(seed0: Seq<u8>, seed1: Seq<u8>) -> Seq<u8> {
    blake3_digest(blake3_digest(seed0) + blake3_digest(seed1))
}

/// The commitment that an opened seed and the hash of the hidden one give:
/// `revealed_seed_idx` tells whether the opened seed is the second of the
/// pair.
pub open spec fn reconstructed_commitment(
    revealed_seed: Seq<u8>,
    revealed_seed_idx: bool,
    proof: Seq<u8>,
) -> Seq<u8> {
    if revealed_seed_idx {
        blake3_digest(proof + blake3_digest(revealed_seed))
    } else {
        blake3_digest(blake3_digest(revealed_seed) + proof)
    }
}

/// The concatenation of the first `n` of a list of digests.
pub open spec fn concat_digests(comms: Seq<Seq<u8>>, n: nat) -> Seq<u8>
    decreases n,
{
    if n == 0 {
        Seq::empty()
    } else {
        concat_digests(comms, (n - 1) as nat) + comms[n - 1]
    }
}

/// The byte strings of a list of digests or seeds.
pub open spec fn byte_strings(list: Seq<[u8; 32]>) -> Seq<Seq<u8>> {
    Seq::new(list.len(), |i: int| list[i]@)
}

/// Commits to two seeds: the hash of the two seeds' hashes.
pub fn commit_seeds(seed0: &[u8], seed1: &[u8]) -> (r: [u8; 32])
    ensures
        r@ == seed_commitment(seed0@, seed1@),
{
    let h0: [u8; 32] = blake3_hash(seed0);
    let h1: [u8; 32] = blake3_hash(seed1);
    let mut both: Vec<u8> = Vec::with_capacity(64);
    append_array(&mut both, &h0);
    append_array(&mut both, &h1);
    assert(both@ =~= h0@ + h1@);
    blake3_hash(both.as_slice())
}

/// Makes one hash of many seed commitments: the hash of their concatenation.
pub fn commit_seed_commitments(comms: &Vec<[u8; 32]>) -> (r: [u8; 32])
    ensures
        r@ == blake3_digest(concat_digests(byte_strings(comms@), comms@.len())),
{
    let mut all: Vec<u8> = Vec::new();
    let mut i: usize = 0;
    while i < comms.len()
        invariant
            i <= comms.len(),
            all@ == concat_digests(byte_strings(comms@), i as nat),
        decreases comms.len() - i,
    {
        append_array(&mut all, &comms[i]);
        i += 1;
    }
    blake3_hash(all.as_slice())
}

/// The proof that goes with an opened seed: the hash of the seed that stays
/// hidden.
pub fn proof_for_revealed_seed(other_seed: &[u8; 32]) -> (r: [u8; 32])
    ensures
        r@ == blake3_digest(other_seed@),
{
    blake3_hash(other_seed.as_slice())
}

/// Reconstructs the commitment to a pair of seeds from one seed and the proof
/// for the other.
pub fn reconstruct_commitment(
    revealed_seed: &[u8; 32],
    revealed_seed_idx: bool,
    proof: &[u8; 32],
) -> (r: [u8; 32])
    ensures
        r@ == reconstructed_commitment(revealed_seed@, revealed_seed_idx, proof@),
{
    let digest_of_revealed: [u8; 32] = blake3_hash(revealed_seed.as_slice());
    let mut preimage: Vec<u8> = Vec::with_capacity(64);
    if revealed_seed_idx {
        append_array(&mut preimage, proof);
        append_array(&mut preimage, &digest_of_revealed);
        assert(preimage@ =~= proof@ + digest_of_revealed@);
    } else {
        append_array(&mut preimage, &digest_of_revealed);
        append_array(&mut preimage, proof);
        assert(preimage@ =~= digest_of_revealed@ + proof@);
    }
    blake3_hash(preimage.as_slice())
}

/// Whether an opened seed and its proof give the commitment.
pub fn verify_proof_of_revealed_seed(
    commitment: &[u8; 32],
    revealed_seed: &[u8; 32],
    revealed_seed_idx: bool,
    proof: &[u8; 32],
) -> (r: bool)
    ensures
        r == (reconstructed_commitment(revealed_seed@, revealed_seed_idx, proof@) == commitment@),
{
    let rec: [u8; 32] = reconstruct_commitment(revealed_seed, revealed_seed_idx, proof);
    same_bytes(&rec, commitment)
}

/// An honest opening reconstructs the commitment: either seed of a pair,
/// shown with the hash of the other, gives back the commitment to the pair.
pub proof fn lemma_opening_reconstructs(seed0: Seq<u8>, seed1: Seq<u8>)
    ensures
        reconstructed_commitment(seed0, false, blake3_digest(seed1)) == seed_commitment(
            seed0,
            seed1,
        ),
        reconstructed_commitment(seed1, true, blake3_digest(seed0)) == seed_commitment(
            seed0,
            seed1,
        ),
{
}

impl<T: PF> FVec<T> {
    /// A vector of `len` elements sampled from a fresh seed: whatever the
    /// seed, the vector is what that seed of thirty-two bytes expands to.
    pub fn random(len: usize) -> (r: Self)
        requires
            len <= max_expansion(),
        ensures
            r@.len() == len,
            exists|s: Seq<u8>| s.len() == 32 && r@ == #[trigger] expanded_seed::<T>(s, len as nat),
    {
        let seed: [u8; 32] = fresh_seed();
        let r: FVec<T> = expand_seed_to_field_vec(seed, len);
        assert(seed@.len() == 32 && r@ == expanded_seed::<T>(seed@, len as nat));
        r
    }
}

} // verus!
