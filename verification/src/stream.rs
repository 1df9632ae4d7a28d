//! Randomness: fresh seeds from the operating system, and the deterministic
//! streams that a seed is stretched into.

use rand::{Rng, RngCore, SeedableRng};
use rand_chacha::{ChaCha12Rng, ChaCha20Rng};
use vstd::prelude::*;

verus! {

/// The first `len` bytes of the ChaCha12 stream of a seed.
pub uninterp spec fn chacha12_keystream(seed: Seq<u8>, len: nat) -> Seq<u8>;

/// The first `len` bytes of the ChaCha20 stream of a seed.
pub uninterp spec fn chacha20_keystream(seed: Seq<u8>, len: nat) -> Seq<u8>;

/// The numbers that a ChaCha20 generator made from a seed draws when asked,
/// in turn, for a uniform number below `1`, below `2`, and so on up to below
/// `len`.
pub uninterp spec fn chacha20_draws(seed: Seq<u8>, len: u32) -> Seq<u32>;

/// Seeds `rand_chacha::ChaCha12Rng` with `from_seed` and fills a buffer with
/// `fill_bytes`. Trusted: the buffer holds the first `len` bytes of the
/// generator's output, which the seed alone decides.
#[verifier::external_body]
pub(crate) fn chacha12_fill(seed: &[u8; 32], len: usize) -> (out: Vec<u8>)
    ensures
        out@ == chacha12_keystream(seed@, len as nat),
        out@.len() == len,
{
    let mut rng = ChaCha12Rng::from_seed(*seed);
    let mut out = vec![0u8; len];
    rng.fill_bytes(&mut out);
    out
}

/// Seeds `rand_chacha::ChaCha20Rng` with `from_seed` and fills a buffer with
/// `fill_bytes`. Trusted: the buffer holds the first `len` bytes of the
/// generator's output, which the seed alone decides.
#[verifier::external_body]
pub(crate) fn chacha20_fill(seed: &[u8; 32], len: usize) -> (out: Vec<u8>)
    ensures
        out@ == chacha20_keystream(seed@, len as nat),
        out@.len() == len,
{
    let mut rng = ChaCha20Rng::from_seed(*seed);
    let mut out = vec![0u8; len];
    rng.fill_bytes(&mut out);
    out
}

/// Seeds `rand_chacha::ChaCha20Rng` with `from_seed` and calls
/// `rand::Rng::gen_range` on `0..i` for `i` from `1` to `len`. Trusted: the
/// draws are decided by the seed and `len` alone, there are `len` of them, and
/// the draw from `0..i` lies below `i`.
#[verifier::external_body]
pub(crate) fn chacha20_range_draws(seed: &[u8; 32], len: u32) -> (draws: Vec<u32>)
    ensures
        draws@ == chacha20_draws(seed@, len),
        draws@.len() == len,
        forall|i: int| 0 <= i < len ==> #[trigger] draws@[i] <= i,
{
    let mut rng = ChaCha20Rng::from_seed(*seed);
    (1..=len).map(|i| rng.gen_range(0..i)).collect()
}

/// Fills thirty-two bytes from `rand::thread_rng`. Trusted: nothing but the
/// length, which the type gives; the bytes differ from call to call.
#[verifier::external_body]
pub(crate) fn fresh_seed() -> (seed: [u8; 32]) {
    let mut seed = [0u8; 32];
    rand::thread_rng().fill_bytes(&mut seed);
    seed
}

} // verus!
