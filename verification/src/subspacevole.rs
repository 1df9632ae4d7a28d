//! The repeat-accumulate code that lifts many small VOLEs into one subspace
//! VOLE, and the corrections and checks of that lift.
//!
//! A codeword is made by repeating the message and then, three times over,
//! permuting the entries and replacing them by their running sums.

use crate::errors::Error;
use crate::field::PF;
use crate::hash::{blake3_digest, blake3_hash};
use crate::linalg::{
    dot, mat_sub, residues, rows_of_width, shorter, transposed, vec_add, vec_mat, vec_mul,
    vec_sub, FMatrix, FVec,
};
use crate::stream::{chacha20_draws, chacha20_range_draws, fresh_seed};
use vstd::prelude::*;
use vstd::string::StringSliceAdditionalSpecFns;

verus! {

/// `num_repeats` copies of a vector, one after the other.
pub open spec fn repeated(x: Seq<int>, num_repeats: nat) -> Seq<int> {
    Seq::new(x.len() * num_repeats, |i: int| x[i % (x.len() as int)])
}

/// The extended repetition: the vector is cut into `q` sections of equal
/// length, and the first section is added to every other one.
pub open spec fn extended_repeated(x: Seq<int>, q: nat, m: int) -> Seq<int> {
    let section = x.len() as int / q as int;
    Seq::new(
        x.len(),
        |j: int|
            if j < section {
                x[j]
            } else {
                (x[j % section] + x[j]) % m
            },
    )
}

/// The inverse of the extended repetition: the first section is taken off
/// every other one.
pub open spec fn extended_unrepeated(x: Seq<int>, q: nat, m: int) -> Seq<int> {
    let section = x.len() as int / q as int;
    Seq::new(
        x.len(),
        |j: int|
            if j < section {
                x[j]
            } else {
                (x[j] - x[j % section]) % m
            },
    )
}

/// Whether every entry of a list of positions lies below `n`.
pub open spec fn positions_below(perm: Seq<u32>, n: int) -> bool {
    forall|i: int| 0 <= i < perm.len() ==> #[trigger] perm[i] < n
}

/// A vector of zeros with the first `k` entries of `x` written to the
/// positions that `perm` names, in turn.
pub open spec fn scattered(x: Seq<int>, perm: Seq<u32>, k: nat) -> Seq<int>
    decreases k,
{
    if k == 0 {
        Seq::new(x.len(), |i: int| 0int)
    } else {
        scattered(x, perm, (k - 1) as nat).update(perm[k - 1] as int, x[k - 1])
    }
}

/// A vector with entry `i` moved to the position `perm[i]`.
pub open spec fn interleaved(x: Seq<int>, perm: Seq<u32>) -> Seq<int> {
    scattered(x, perm, x.len())
}

/// The sum of the first `n` entries, taken in the integers.
pub open spec fn prefix_sum(x: Seq<int>, n: nat) -> int
    decreases n,
{
    if n == 0 {
        0
    } else {
        prefix_sum(x, (n - 1) as nat) + x[n - 1]
    }
}

/// The running sums of a vector.
pub open spec fn accumulated(x: Seq<int>, m: int) -> Seq<int> {
    Seq::new(x.len(), |i: int| prefix_sum(x, (i + 1) as nat) % m)
}

/// The successive differences of a vector, the first entry kept.
pub open spec fn differenced(x: Seq<int>, m: int) -> Seq<int> {
    Seq::new(
        x.len(),
        |i: int|
            if i == 0 {
                x[0] % m
            } else {
                (x[i] - x[i - 1]) % m
            },
    )
}

/// A code made by repetition and three rounds of permuting and accumulating.
#[derive(Debug, PartialEq)]
pub struct RAAACode {
    /// For each round the permutation and its inverse, in the order in which
    /// the rounds are applied.
    pub permutations: [(Vec<u32>, Vec<u32>); 3],
    /// The number of repetitions: the codeword length over the dimension.
    pub q: usize,
}

impl RAAACode {
    /// `num_repeats` copies of the input, one after the other.
    pub fn repeat<T: PF>(input: &FVec<T>, num_repeats: usize) -> (r: FVec<T>)
        requires
            input@.len() * num_repeats <= usize::MAX,
        ensures
            r@ == repeated(input@, num_repeats as nat),
            r@.len() == input@.len() * num_repeats,
    {
        let n: usize = input.0.len();
        let mut out: Vec<T> = Vec::new();
        let mut rep: usize = 0;
        while rep < num_repeats
            invariant
                rep <= num_repeats,
                n == input.0@.len(),
                n * num_repeats <= usize::MAX,
                out@.len() == n * rep,
                forall|i: int|
                    0 <= i < out@.len() ==> (#[trigger] out@[i]).value() == input@[i % (n as int)],
            decreases num_repeats - rep,
        {
            let mut j: usize = 0;
            while j < n
                invariant
                    j <= n,
                    rep < num_repeats,
                    n == input.0@.len(),
                    n * num_repeats <= usize::MAX,
                    out@.len() == n * rep + j,
                    forall|i: int|
                        0 <= i < out@.len() ==> (#[trigger] out@[i]).value() == input@[i % (
                        n as int)],
                decreases n - j,
            {
                proof {
                    assert(n * rep == rep * n) by (nonlinear_arith);
                    vstd::arithmetic::div_mod::lemma_fundamental_div_mod_converse(
                        n * rep + j,
                        n as int,
                        rep as int,
                        j as int,
                    );
                }
                out.push(input.0[j]);
                j += 1;
            }
            assert(n * rep + n == n * (rep + 1)) by (nonlinear_arith);
            rep += 1;
        }
        let r: FVec<T> = FVec(out);
        assert(r@ =~= repeated(input@, num_repeats as nat));
        r
    }

    /// The extended repetition of the input: an invertible map whose value on
    /// a message followed by zeros is the repetition of the message.
    pub fn repeat_extended<T: PF>(input: &FVec<T>, q: usize) -> (r: FVec<T>)
        requires
            q > 0,
            input@.len() % (q as nat) == 0,
        ensures
            r@ == extended_repeated(input@, q as nat, T::modulus()),
            r@.len() == input@.len(),
    {
        let len: usize = input.0.len();
        let section_len: usize = len / q;
        let mut out: Vec<T> = Vec::with_capacity(len);
        let mut j: usize = 0;
        while j < len
            invariant
                j <= len,
                q > 0,
                len == input.0@.len(),
                section_len == len / q,
                len % q == 0,
                out@.len() == j,
                forall|i: int|
                    0 <= i < j ==> (#[trigger] out@[i]).value() == extended_repeated(
                        input@,
                        q as nat,
                        T::modulus(),
                    )[i],
            decreases len - j,
        {
            if j < section_len {
                out.push(input.0[j]);
            } else {
                assert(section_len > 0) by (nonlinear_arith)
                    requires
                        section_len == len / q,
                        len % q == 0,
                        q > 0,
                        j < len,
                ;
                out.push(input.0[j % section_len].add(&input.0[j]));
            }
            j += 1;
        }
        let r: FVec<T> = FVec(out);
        assert(r@ =~= extended_repeated(input@, q as nat, T::modulus()));
        r
    }

    /// The inverse of the extended repetition.
    pub fn repeat_extended_inverse<T: PF>(input: &FVec<T>, q: usize) -> (r: FVec<T>)
        requires
            q > 0,
            input@.len() % (q as nat) == 0,
        ensures
            r@ == extended_unrepeated(input@, q as nat, T::modulus()),
            r@.len() == input@.len(),
    {
        let len: usize = input.0.len();
        let section_len: usize = len / q;
        let mut out: Vec<T> = Vec::with_capacity(len);
        let mut j: usize = 0;
        while j < len
            invariant
                j <= len,
                q > 0,
                len == input.0@.len(),
                section_len == len / q,
                len % q == 0,
                out@.len() == j,
                forall|i: int|
                    0 <= i < j ==> (#[trigger] out@[i]).value() == extended_unrepeated(
                        input@,
                        q as nat,
                        T::modulus(),
                    )[i],
            decreases len - j,
        {
            if j < section_len {
                out.push(input.0[j]);
            } else {
                assert(section_len > 0) by (nonlinear_arith)
                    requires
                        section_len == len / q,
                        len % q == 0,
                        q > 0,
                        j < len,
                ;
                out.push(input.0[j].sub(&input.0[j % section_len]));
            }
            j += 1;
        }
        let r: FVec<T> = FVec(out);
        assert(r@ =~= extended_unrepeated(input@, q as nat, T::modulus()));
        r
    }

    /// Moves entry `i` of the input to the position `permutation[i]`. The
    /// positions are not checked to be a permutation: where two entries go to
    /// one position the later stays, and a position that none goes to holds
    /// zero.
    pub fn interleave<T: PF>(input: &FVec<T>, permutation: &Vec<u32>) -> (r: FVec<T>)
        requires
            input@.len() == permutation@.len(),
            positions_below(permutation@, input@.len() as int),
        ensures
            r@ == interleaved(input@, permutation@),
            r@.len() == input@.len(),
    {
        let len: usize = input.0.len();
        let mut out: Vec<T> = Vec::with_capacity(len);
        let mut i: usize = 0;
        while i < len
            invariant
                i <= len,
                out@.len() == i,
                forall|j: int| 0 <= j < i ==> (#[trigger] out@[j]).value() == 0,
            decreases len - i,
        {
            out.push(T::zero());
            i += 1;
        }
        assert(residues(out@) =~= scattered(input@, permutation@, 0));
        let mut k: usize = 0;
        while k < len
            invariant
                k <= len,
                len == input.0@.len(),
                len == permutation@.len(),
                out@.len() == len,
                positions_below(permutation@, len as int),
                residues(out@) == scattered(input@, permutation@, k as nat),
            decreases len - k,
        {
            let ghost before: Seq<T> = out@;
            let pos: usize = permutation[k] as usize;
            out.set(pos, input.0[k]);
            assert(residues(out@) =~= residues(before).update(pos as int, input@[k as int]));
            k += 1;
        }
        FVec(out)
    }

    /// The running sums of a vector that is not empty.
    pub fn accumulate<T: PF>(input: &FVec<T>) -> (r: FVec<T>)
        requires
            input@.len() > 0,
        ensures
            r@ == accumulated(input@, T::modulus()),
            r@.len() == input@.len(),
    {
        let l: usize = input.0.len();
        let mut out: Vec<T> = Vec::with_capacity(l);
        out.push(input.0[0]);
        proof {
            input.0@[0].value_in_range();
            vstd::arithmetic::div_mod::lemma_small_mod(
                input@[0] as nat,
                T::modulus() as nat,
            );
            assert(prefix_sum(input@, 1) == input@[0]) by {
                assert(prefix_sum(input@, 0) == 0);
            }
            T::modulus_exceeds_one();
        }
        let mut i: usize = 1;
        while i < l
            invariant
                1 <= i <= l,
                l == input.0@.len(),
                out@.len() == i,
                T::modulus() > 1,
                forall|j: int|
                    0 <= j < i ==> (#[trigger] out@[j]).value() == prefix_sum(
                        input@,
                        (j + 1) as nat,
                    ) % T::modulus(),
            decreases l - i,
        {
            let s: T = input.0[i].add(&out[i - 1]);
            proof {
                vstd::arithmetic::div_mod::lemma_add_mod_noop_right(
                    input@[i as int],
                    prefix_sum(input@, i as nat),
                    T::modulus(),
                );
            }
            out.push(s);
            i += 1;
        }
        let r: FVec<T> = FVec(out);
        assert(r@ =~= accumulated(input@, T::modulus()));
        r
    }

    /// The successive differences of a vector that is not empty: the inverse
    /// of the running sums.
    pub fn accumulate_inverse<T: PF>(input: &FVec<T>) -> (r: FVec<T>)
        requires
            input@.len() > 0,
        ensures
            r@ == differenced(input@, T::modulus()),
            r@.len() == input@.len(),
    {
        let l: usize = input.0.len();
        let mut out: Vec<T> = Vec::with_capacity(l);
        out.push(input.0[0]);
        proof {
            input.0@[0].value_in_range();
            vstd::arithmetic::div_mod::lemma_small_mod(
                input@[0] as nat,
                T::modulus() as nat,
            );
        }
        let mut i: usize = 1;
        while i < l
            invariant
                1 <= i <= l,
                l == input.0@.len(),
                out@.len() == i,
                forall|j: int|
                    0 <= j < i ==> (#[trigger] out@[j]).value() == differenced(
                        input@,
                        T::modulus(),
                    )[j],
            decreases l - i,
        {
            out.push(input.0[i].sub(&input.0[i - 1]));
            i += 1;
        }
        let r: FVec<T> = FVec(out);
        assert(r@ =~= differenced(input@, T::modulus()));
        r
    }
}

/// Whether `f` and `b` are permutations of the positions below `n`, each the
/// inverse of the other.
pub open spec fn inverse_pair(f: Seq<u32>, b: Seq<u32>, n: nat) -> bool {
    &&& f.len() == n
    &&& b.len() == n
    &&& forall|i: int| 0 <= i < n ==> #[trigger] f[i] < n && b[f[i] as int] == i
    &&& forall|j: int| 0 <= j < n ==> #[trigger] b[j] < n && f[b[j] as int] == j
}

/// The positions below `n` in their order.
pub open spec fn identity_order(n: nat) -> Seq<u32> {
    Seq::new(n, |i: int| i as u32)
}

/// The order in which positions leave `avail` when the draws are used from
/// the last to the first, each as the index of the position to take next.
pub open spec fn picked_order(avail: Seq<u32>, draws: Seq<u32>) -> Seq<u32>
    decreases draws.len(),
{
    if draws.len() == 0 {
        Seq::empty()
    } else {
        seq![avail[draws.last() as int]] + picked_order(
            avail.remove(draws.last() as int),
            draws.drop_last(),
        )
    }
}

/// Whether draw `i` is at most `i`, for every draw.
pub open spec fn draws_in_range(draws: Seq<u32>) -> bool {
    forall|i: int| 0 <= i < draws.len() ==> #[trigger] draws[i] <= i
}

/// Builds a permutation and its inverse from draws: the positions start out in
/// order, and each draw, from the last to the first, is the index among the
/// positions left of the one that comes next.
pub fn permutation_from_draws(draws: &Vec<u32>) -> (r: (Vec<u32>, Vec<u32>))
    requires
        draws@.len() <= u32::MAX,
        draws_in_range(draws@),
    ensures
        r.0@ == picked_order(identity_order(draws@.len()), draws@),
        inverse_pair(r.0@, r.1@, draws@.len()),
{
    let len: usize = draws.len();
    let mut forward: Vec<u32> = Vec::with_capacity(len);
    let mut backward: Vec<u32> = Vec::with_capacity(len);
    let mut avail: Vec<u32> = Vec::with_capacity(len);
    let mut c: usize = 0;
    while c < len
        invariant
            c <= len,
            len <= u32::MAX,
            backward@.len() == c,
            avail@ == identity_order(c as nat),
        decreases len - c,
    {
        backward.push(0);
        avail.push(c as u32);
        assert(avail@ =~= identity_order((c + 1) as nat));
        c += 1;
    }
    let mut i: usize = 0;
    assert(draws@.subrange(0, len as int) =~= draws@);
    assert forall|j: int| 0 <= j < len implies (exists|p: int|
        0 <= p < avail@.len() && avail@[p] == j) || (#[trigger] backward@[j] < 0
        && forward@[backward@[j] as int] == j) by {
        assert(avail@[j] == j);
    }
    while i < len
        invariant
            i <= len,
            len == draws@.len(),
            len <= u32::MAX,
            draws_in_range(draws@),
            avail@.len() == len - i,
            forward@.len() == i,
            backward@.len() == len,
            forall|p: int| 0 <= p < avail@.len() ==> #[trigger] avail@[p] < len,
            forall|p: int, r: int|
                0 <= p < r < avail@.len() ==> #[trigger] avail@[p] != #[trigger] avail@[r],
            forward@ + picked_order(avail@, draws@.subrange(0, len - i)) == picked_order(
                identity_order(len as nat),
                draws@,
            ),
            forall|e: int|
                0 <= e < i ==> #[trigger] forward@[e] < len && backward@[forward@[e] as int] == e,
            forall|e: int, p: int|
                0 <= e < i && 0 <= p < avail@.len() ==> #[trigger] forward@[e]
                    != #[trigger] avail@[p],
            forall|j: int|
                0 <= j < len ==> (exists|p: int| 0 <= p < avail@.len() && avail@[p] == j) || (
                #[trigger] backward@[j] < i && forward@[backward@[j] as int] == j),
        decreases len - i,
    {
        let ghost old_avail: Seq<u32> = avail@;
        let ghost old_forward: Seq<u32> = forward@;
        let ghost old_backward: Seq<u32> = backward@;
        let ghost rest: Seq<u32> = draws@.subrange(0, len - i);
        assert(draws@[len - 1 - i] <= len - 1 - i);
        let pick: usize = draws[len - 1 - i] as usize;
        let removed: u32 = avail.remove(pick);
        proof {
            assert(rest.last() == draws@[len - 1 - i]);
            assert(rest.drop_last() =~= draws@.subrange(0, len - (i + 1)));
            assert(old_forward.push(removed) + picked_order(
                avail@,
                draws@.subrange(0, len - (i + 1)),
            ) =~= old_forward + picked_order(old_avail, rest));
            assert(forall|p: int|
                0 <= p < avail@.len() ==> #[trigger] avail@[p] == old_avail[if p < pick {
                    p
                } else {
                    p + 1
                }]);
        }
        forward.push(removed);
        backward.set(removed as usize, i as u32);
        proof {
            assert forall|e: int| 0 <= e < i + 1 implies #[trigger] forward@[e] < len
                && backward@[forward@[e] as int] == e by {
                if e < i {
                    assert(old_forward[e] != old_avail[pick as int]);
                }
            }
            assert forall|e: int, p: int| 0 <= e < i + 1 && 0 <= p < avail@.len() implies
                #[trigger] forward@[e] != #[trigger] avail@[p] by {
                let op: int = if p < pick {
                    p
                } else {
                    p + 1
                };
                if e < i {
                    assert(old_forward[e] != old_avail[op]);
                } else {
                    assert(old_avail[pick as int] != old_avail[op]);
                }
            }
            assert forall|j: int| 0 <= j < len implies (exists|p: int|
                0 <= p < avail@.len() && avail@[p] == j) || (#[trigger] backward@[j] < i + 1
                && forward@[backward@[j] as int] == j) by {
                if j == removed {
                } else if old_backward[j] < i && old_forward[old_backward[j] as int] == j {
                } else {
                    let op: int = choose|p: int| 0 <= p < old_avail.len() && old_avail[p] == j;
                    assert(op != pick);
                    let np: int = if op < pick {
                        op
                    } else {
                        op - 1
                    };
                    assert(avail@[np] == j);
                }
            }
            assert forall|p: int, r: int| 0 <= p < r < avail@.len() implies #[trigger] avail@[p]
                != #[trigger] avail@[r] by {
                let op: int = if p < pick {
                    p
                } else {
                    p + 1
                };
                let or: int = if r < pick {
                    r
                } else {
                    r + 1
                };
                assert(old_avail[op] != old_avail[or]);
            }
        }
        i += 1;
    }
    proof {
        assert(draws@.subrange(0, 0) =~= Seq::<u32>::empty());
        assert(forward@ + Seq::<u32>::empty() =~= forward@);
        assert forall|j: int| 0 <= j < len implies #[trigger] backward@[j] < len
            && forward@[backward@[j] as int] == j by {
        }
    }
    (forward, backward)
}

/// The number of small VOLEs: the block length of the default code.
pub const NUM_VOLES: u32 = 1024;

/// The permutation of the positions below `len` that a seed gives: the order
/// picked by the draws of the ChaCha20 generator made from the seed.
pub open spec fn seeded_permutation(seed: Seq<u8>, len: u32) -> Seq<u32> {
    picked_order(identity_order(len as nat), chacha20_draws(seed, len))
}

impl RAAACode {
    /// A uniform permutation of the positions below `len` together with its
    /// inverse. With a seed the permutation is decided by the seed; without
    /// one it is drawn afresh, and is then the permutation of some seed of
    /// thirty-two bytes.
    pub fn random_interleave_permutations(len: u32, seed: Option<[u8; 32]>) -> (r: (
        Vec<u32>,
        Vec<u32>,
    ))
        ensures
            inverse_pair(r.0@, r.1@, len as nat),
            seed matches Some(s) ==> r.0@ == seeded_permutation(s@, len),
            exists|s: Seq<u8>| s.len() == 32 && r.0@ == #[trigger] seeded_permutation(s, len),
    {
        let s: [u8; 32] = match seed {
            Some(s) => s,
            None => fresh_seed(),
        };
        let draws: Vec<u32> = chacha20_range_draws(&s, len);
        let r: (Vec<u32>, Vec<u32>) = permutation_from_draws(&draws);
        assert(s@.len() == 32 && r.0@ == seeded_permutation(s@, len));
        r
    }

    /// A code with block length `block_size` and `q` repetitions whose
    /// permutations are drawn afresh. A block length under about 1024 may not
    /// give 128 bits of security.
    pub fn rand_with_parameters(block_size: u32, q: usize) -> (r: Self)
        ensures
            r.q == q,
            forall|round: int|
                0 <= round < 3 ==> inverse_pair(
                    (#[trigger] r.permutations[round]).0@,
                    r.permutations[round].1@,
                    block_size as nat,
                ),
            forall|round: int|
                0 <= round < 3 ==> exists|s: Seq<u8>|
                    s.len() == 32 && (#[trigger] r.permutations[round]).0@
                        == #[trigger] seeded_permutation(s, block_size),
    {
        let p0: (Vec<u32>, Vec<u32>) = RAAACode::random_interleave_permutations(block_size, None);
        let p1: (Vec<u32>, Vec<u32>) = RAAACode::random_interleave_permutations(block_size, None);
        let p2: (Vec<u32>, Vec<u32>) = RAAACode::random_interleave_permutations(block_size, None);
        let permutations: [(Vec<u32>, Vec<u32>); 3] = [p0, p1, p2];
        RAAACode { permutations, q }
    }
}

/// A vector of `n` zeros.
pub open spec fn zeros(n: nat) -> Seq<int> {
    Seq::new(n, |i: int| 0int)
}

/// Whether the rows of a list of vectors all have the length `width`.
pub open spec fn all_of_width<T: PF>(rows: Seq<FVec<T>>, width: nat) -> bool {
    forall|i: int| 0 <= i < rows.len() ==> (#[trigger] rows[i])@.len() == width
}

/// A linear code with an invertible extension of its encoder.
pub trait LinearCode {
    /// Whether the code's parameters fit together.
    spec fn wf(&self) -> bool;

    /// Whether the code has redundancy that a parity check can test.
    spec fn checkable(&self) -> bool;

    /// The dimension of the code: the length of a message.
    spec fn dimension(&self) -> nat;

    /// The block length of the code: the length of a codeword.
    spec fn length(&self) -> nat;

    /// The codeword of a message.
    spec fn codeword(&self, message: Seq<int>, m: int) -> Seq<int>;

    /// The value of the extended encoder on a vector of block length.
    spec fn extended_codeword(&self, v: Seq<int>, m: int) -> Seq<int>;

    /// The value of the inverse of the extended encoder.
    spec fn extended_message(&self, u: Seq<int>, m: int) -> Seq<int>;

    /// Whether a vector of block length is a codeword.
    spec fn in_code(&self, c: Seq<int>, m: int) -> bool;

    /// The dimension of the code.
    fn k(&self) -> (r: usize)
        requires
            self.wf(),
        ensures
            r == self.dimension(),
            r <= self.length(),
    ;

    /// The block length of the code.
    fn n(&self) -> (r: usize)
        ensures
            r == self.length(),
    ;

    /// Converts a message to its codeword.
    fn encode<T: PF>(&self, vec: &FVec<T>) -> (r: FVec<T>)
        requires
            self.wf(),
            vec@.len() == self.dimension(),
        ensures
            r@ == self.codeword(vec@, T::modulus()),
            r@.len() == self.length(),
    ;

    /// Multiplies a vector by the extended generator, which is invertible and
    /// agrees with the generator on a message followed by zeros.
    fn encode_extended<T: PF>(&self, vec: &FVec<T>) -> (r: FVec<T>)
        requires
            self.wf(),
            vec@.len() == self.length(),
        ensures
            r@ == self.extended_codeword(vec@, T::modulus()),
            r@.len() == self.length(),
    ;

    /// Whether a vector is a codeword; one of another length than the block
    /// length is none.
    fn check_parity<T: PF>(&self, putative_codeword: &FVec<T>) -> (b: bool)
        requires
            self.wf(),
            self.checkable(),
        ensures
            b == (putative_codeword@.len() == self.length() && self.in_code(
                putative_codeword@,
                T::modulus(),
            )),
    ;

    /// Multiplies a vector by the inverse of the extended generator.
    fn mul_vec_by_extended_inverse<T: PF>(&self, u: &FVec<T>) -> (r: FVec<T>)
        requires
            self.wf(),
            u@.len() == self.length(),
        ensures
            r@ == self.extended_message(u@, T::modulus()),
            r@.len() == self.length(),
    ;

    /// Checks every vector of a list: `Ok` if all are codewords, else a parity
    /// failure.
    fn check_parity_batch<T: PF>(&self, putative_codewords: &Vec<FVec<T>>) -> (r: Result<
        (),
        Error,
    >)
        requires
            self.wf(),
            self.checkable(),
        ensures
            r is Ok <==> forall|i: int|
                0 <= i < putative_codewords@.len() ==> (#[trigger] putative_codewords@[i])@.len()
                    == self.length() && self.in_code(putative_codewords@[i]@, T::modulus()),
            r is Err ==> r == Err::<(), Error>(Error::ParityCheck),
    {
        let mut i: usize = 0;
        while i < putative_codewords.len()
            invariant
                i <= putative_codewords@.len(),
                self.wf(),
                self.checkable(),
                forall|j: int|
                    0 <= j < i ==> (#[trigger] putative_codewords@[j])@.len() == self.length()
                        && self.in_code(putative_codewords@[j]@, T::modulus()),
            decreases putative_codewords@.len() - i,
        {
            if !self.check_parity(&putative_codewords[i]) {
                return Err(Error::ParityCheck);
            }
            i += 1;
        }
        Ok(())
    }

    /// Encodes every row.
    fn batch_encode<T: PF>(&self, matrix: &Vec<FVec<T>>) -> (r: Vec<FVec<T>>)
        requires
            self.wf(),
            all_of_width(matrix@, self.dimension()),
        ensures
            r@.len() == matrix@.len(),
            forall|i: int|
                0 <= i < r@.len() ==> (#[trigger] r@[i])@ == self.codeword(
                    matrix@[i]@,
                    T::modulus(),
                ),
            all_of_width(r@, self.length()),
    {
        let mut out: Vec<FVec<T>> = Vec::with_capacity(matrix.len());
        let mut i: usize = 0;
        while i < matrix.len()
            invariant
                i <= matrix@.len(),
                self.wf(),
                all_of_width(matrix@, self.dimension()),
                out@.len() == i,
                forall|j: int|
                    0 <= j < i ==> (#[trigger] out@[j])@ == self.codeword(
                        matrix@[j]@,
                        T::modulus(),
                    ) && out@[j]@.len() == self.length(),
            decreases matrix@.len() - i,
        {
            out.push(self.encode(&matrix[i]));
            i += 1;
        }
        out
    }

    /// Multiplies every row by the extended generator.
    fn batch_encode_extended<T: PF>(&self, matrix: &Vec<FVec<T>>) -> (r: Vec<FVec<T>>)
        requires
            self.wf(),
            all_of_width(matrix@, self.length()),
        ensures
            r@.len() == matrix@.len(),
            forall|i: int|
                0 <= i < r@.len() ==> (#[trigger] r@[i])@ == self.extended_codeword(
                    matrix@[i]@,
                    T::modulus(),
                ),
            all_of_width(r@, self.length()),
    {
        let mut out: Vec<FVec<T>> = Vec::with_capacity(matrix.len());
        let mut i: usize = 0;
        while i < matrix.len()
            invariant
                i <= matrix@.len(),
                self.wf(),
                all_of_width(matrix@, self.length()),
                out@.len() == i,
                forall|j: int|
                    0 <= j < i ==> (#[trigger] out@[j])@ == self.extended_codeword(
                        matrix@[j]@,
                        T::modulus(),
                    ) && out@[j]@.len() == self.length(),
            decreases matrix@.len() - i,
        {
            out.push(self.encode_extended(&matrix[i]));
            i += 1;
        }
        out
    }

    /// Multiplies every row of a matrix by the inverse of the extended
    /// generator.
    fn mul_matrix_by_extended_inverse<T: PF>(&self, old_us: &FMatrix<T>) -> (r: Vec<FVec<T>>)
        requires
            self.wf(),
            all_of_width(old_us.0@, self.length()),
        ensures
            r@.len() == old_us@.len(),
            forall|i: int|
                0 <= i < r@.len() ==> (#[trigger] r@[i])@ == self.extended_message(
                    old_us@[i],
                    T::modulus(),
                ),
            all_of_width(r@, self.length()),
    {
        let mut out: Vec<FVec<T>> = Vec::with_capacity(old_us.0.len());
        let mut i: usize = 0;
        while i < old_us.0.len()
            invariant
                i <= old_us.0@.len(),
                self.wf(),
                all_of_width(old_us.0@, self.length()),
                out@.len() == i,
                forall|j: int|
                    0 <= j < i ==> (#[trigger] out@[j])@ == self.extended_message(
                        old_us@[j],
                        T::modulus(),
                    ) && out@[j]@.len() == self.length(),
            decreases old_us.0@.len() - i,
        {
            out.push(self.mul_vec_by_extended_inverse(&old_us.0[i]));
            i += 1;
        }
        out
    }

    /// The prover's correction for the whole matrix of `u` rows: each row is
    /// multiplied by the inverse of the extended generator; its first `k`
    /// entries are the prover's new row, the rest go to the verifier.
    fn get_prover_correction<T: PF>(&self, old_us: &FMatrix<T>) -> (r: (FMatrix<T>, FMatrix<T>))
        requires
            self.wf(),
            all_of_width(old_us.0@, self.length()),
        ensures
            r.0@ == Seq::new(
                old_us@.len(),
                |i: int|
                    self.extended_message(old_us@[i], T::modulus()).subrange(
                        0,
                        self.dimension() as int,
                    ),
            ),
            r.1@ == Seq::new(
                old_us@.len(),
                |i: int|
                    self.extended_message(old_us@[i], T::modulus()).subrange(
                        self.dimension() as int,
                        self.length() as int,
                    ),
            ),
            rows_of_width(r.0@, self.dimension() as int),
            rows_of_width(r.1@, self.length() - self.dimension()),
    {
        let start_idx: usize = self.k();
        let full_size: Vec<FVec<T>> = self.mul_matrix_by_extended_inverse(old_us);
        let mut new_us: Vec<FVec<T>> = Vec::with_capacity(full_size.len());
        let mut correction: Vec<FVec<T>> = Vec::with_capacity(full_size.len());
        let mut i: usize = 0;
        while i < full_size.len()
            invariant
                i <= full_size@.len(),
                start_idx == self.dimension(),
                start_idx <= self.length(),
                all_of_width(full_size@, self.length()),
                new_us@.len() == i,
                correction@.len() == i,
                forall|j: int|
                    0 <= j < i ==> (#[trigger] new_us@[j])@ == full_size@[j]@.subrange(
                        0,
                        start_idx as int,
                    ),
                forall|j: int|
                    0 <= j < i ==> (#[trigger] correction@[j])@ == full_size@[j]@.subrange(
                        start_idx as int,
                        self.length() as int,
                    ),
            decreases full_size@.len() - i,
        {
            let row: &FVec<T> = &full_size[i];
            let len: usize = row.0.len();
            new_us.push(slice_of(row, 0, start_idx));
            correction.push(slice_of(row, start_idx, len));
            i += 1;
        }
        let u: FMatrix<T> = FMatrix(new_us);
        let c: FMatrix<T> = FMatrix(correction);
        assert(u@ =~= Seq::new(
            old_us@.len(),
            |i: int|
                self.extended_message(old_us@[i], T::modulus()).subrange(
                    0,
                    self.dimension() as int,
                ),
        ));
        assert(c@ =~= Seq::new(
            old_us@.len(),
            |i: int|
                self.extended_message(old_us@[i], T::modulus()).subrange(
                    self.dimension() as int,
                    self.length() as int,
                ),
        ));
        assert forall|j: int| 0 <= j < u@.len() implies (#[trigger] u@[j]).len()
            == self.dimension() by {
            assert(full_size@[j]@.len() == self.length());
        }
        assert forall|j: int| 0 <= j < c@.len() implies (#[trigger] c@[j]).len() == self.length()
            - self.dimension() by {
            assert(full_size@[j]@.len() == self.length());
        }
        (u, c)
    }

    /// Corrects the verifier's `q` rows with the prover's correction: each
    /// correction row is put behind zeros to block length, multiplied by the
    /// extended generator and, entry by entry, by the deltas, and taken off
    /// the `q` row.
    fn correct_verifier_qs<T: PF>(
        &self,
        old_qs: &FMatrix<T>,
        deltas: &FVec<T>,
        correction: &FMatrix<T>,
    ) -> (r: FMatrix<T>)
        requires
            self.wf(),
            old_qs@.len() > 0,
            old_qs@[0].len() == self.length(),
            correction@.len() >= old_qs@.len(),
            correction@[0].len() <= self.length(),
            forall|i: int|
                0 <= i < old_qs@.len() ==> (#[trigger] correction@[i]).len()
                    == correction@[0].len(),
        ensures
            r@ == Seq::new(
                old_qs@.len(),
                |i: int|
                    vec_sub(
                        old_qs@[i],
                        vec_mul(
                            self.extended_codeword(
                                zeros((self.length() - correction@[0].len()) as nat)
                                    + correction@[i],
                                T::modulus(),
                            ),
                            deltas@,
                            T::modulus(),
                        ),
                        T::modulus(),
                    ),
            ),
            forall|i: int|
                0 <= i < r@.len() ==> (#[trigger] r@[i]).len() == shorter(
                    old_qs@[i].len(),
                    shorter(self.length(), deltas@.len()),
                ),
    {
        let l: usize = old_qs.0[0].0.len();
        let correction_len: usize = correction.0[0].0.len();
        let zero_len: usize = l - correction_len;
        let rows: usize = old_qs.0.len();
        let mut out: Vec<FVec<T>> = Vec::with_capacity(rows);
        let mut i: usize = 0;
        while i < rows
            invariant
                i <= rows,
                rows == old_qs.0@.len(),
                self.wf(),
                l == self.length(),
                correction_len == correction@[0].len(),
                zero_len == l - correction_len,
                correction@.len() >= old_qs@.len(),
                forall|j: int|
                    0 <= j < old_qs@.len() ==> (#[trigger] correction@[j]).len()
                        == correction@[0].len(),
                out@.len() == i,
                forall|j: int|
                    0 <= j < i ==> (#[trigger] out@[j])@ == vec_sub(
                        old_qs@[j],
                        vec_mul(
                            self.extended_codeword(
                                zeros(zero_len as nat) + correction@[j],
                                T::modulus(),
                            ),
                            deltas@,
                            T::modulus(),
                        ),
                        T::modulus(),
                    ) && out@[j]@.len() == shorter(
                        old_qs@[j].len(),
                        shorter(self.length(), deltas@.len()),
                    ),
            decreases rows - i,
        {
            assert(correction@[i as int].len() == correction_len);
            let mut padded: FVec<T> = FVec(Vec::with_capacity(l));
            padded.zero_pad(zero_len);
            let c_row: &FVec<T> = &correction.0[i];
            let mut j: usize = 0;
            while j < correction_len
                invariant
                    j <= correction_len,
                    correction_len == c_row.0@.len(),
                    padded@ == zeros(zero_len as nat) + c_row@.subrange(0, j as int),
                decreases correction_len - j,
            {
                let ghost before: Seq<int> = padded@;
                padded.0.push(c_row.0[j]);
                assert(padded@ =~= before.push(c_row@[j as int]));
                assert(before.push(c_row@[j as int]) =~= zeros(zero_len as nat)
                    + c_row@.subrange(0, j + 1));
                j += 1;
            }
            assert(c_row@.subrange(0, correction_len as int) =~= c_row@);
            let times_extended_generator: FVec<T> = self.encode_extended(&padded);
            let times_deltas: FVec<T> = times_extended_generator.mul(deltas);
            out.push(old_qs.0[i].sub(&times_deltas));
            i += 1;
        }
        let r: FMatrix<T> = FMatrix(out);
        assert(r@ =~= Seq::new(
            old_qs@.len(),
            |i: int|
                vec_sub(
                    old_qs@[i],
                    vec_mul(
                        self.extended_codeword(
                            zeros((self.length() - correction@[0].len()) as nat) + correction@[i],
                            T::modulus(),
                        ),
                        deltas@,
                        T::modulus(),
                    ),
                    T::modulus(),
                ),
        ));
        r
    }

    /// The verifier's side of the consistency check of the subspace VOLE:
    /// `consistency_check` holds the prover's hashes of `u` and `v`;
    /// `challenge_hash` is the universal hash, `deltas` and `q_cols` are the
    /// verifier's. The check passes where the hash of `v` is the hash of `q`
    /// less the codeword of the hash of `u` times the deltas.
    fn verify_consistency_check<T: PF>(
        &self,
        challenge_hash: &FVec<T>,
        consistency_check: &(FVec<T>, FVec<T>),
        deltas: &FVec<T>,
        q_cols: &FMatrix<T>,
    ) -> (r: Result<(), Error>)
        requires
            self.wf(),
        ensures
            r is Ok <==> consistency_check.0@.len() == self.dimension() && consistency_check.1@
                == vec_sub(
                vec_mat(challenge_hash@, q_cols@, T::modulus()),
                vec_mul(
                    self.codeword(consistency_check.0@, T::modulus()),
                    deltas@,
                    T::modulus(),
                ),
                T::modulus(),
            ),
            r is Err ==> r == Err::<(), Error>(Error::ConsistencyCheck),
    {
        let u_hash: &FVec<T> = &consistency_check.0;
        let v_hash: &FVec<T> = &consistency_check.1;
        if u_hash.0.len() != self.k() {
            return Err(Error::ConsistencyCheck);
        }
        let q_hash: FVec<T> = challenge_hash.mul_matrix(q_cols);
        let u_hash_x_generator_x_diag_delta: FVec<T> = self.encode(u_hash).mul(deltas);
        let expected: FVec<T> = q_hash.sub(&u_hash_x_generator_x_diag_delta);
        if v_hash.equals(&expected) {
            Ok(())
        } else {
            Err(Error::ConsistencyCheck)
        }
    }
}

/// The entries of a vector from `from` up to `to`.
pub fn slice_of<T: PF>(v: &FVec<T>, from: usize, to: usize) -> (r: FVec<T>)
    requires
        from <= to <= v@.len(),
    ensures
        r@ == v@.subrange(from as int, to as int),
{
    let mut out: Vec<T> = Vec::with_capacity(to - from);
    let mut i: usize = from;
    while i < to
        invariant
            from <= i <= to,
            to <= v.0@.len(),
            out@.len() == i - from,
            forall|j: int| 0 <= j < i - from ==> out@[j] == v.0@[from + j],
        decreases to - i,
    {
        out.push(v.0[i]);
        i += 1;
    }
    let r: FVec<T> = FVec(out);
    assert(r@ =~= v@.subrange(from as int, to as int));
    r
}

/// The prover's side of the consistency check of the subspace VOLE: the
/// universal hash applied to `u` and to `v`, each given by its columns.
pub fn calc_consistency_check<T: PF>(
    challenge_hash: &FVec<T>,
    u_cols: &FMatrix<T>,
    v_cols: &FMatrix<T>,
) -> (r: (FVec<T>, FVec<T>))
    ensures
        r.0@ == vec_mat(challenge_hash@, u_cols@, T::modulus()),
        r.1@ == vec_mat(challenge_hash@, v_cols@, T::modulus()),
{
    (challenge_hash.mul_matrix(u_cols), challenge_hash.mul_matrix(v_cols))
}

/// One round of the encoder: permute, then take running sums.
pub open spec fn round(x: Seq<int>, perm: Seq<u32>, m: int) -> Seq<int> {
    accumulated(interleaved(x, perm), m)
}

/// The inverse of one round: take successive differences, then permute back.
pub open spec fn unround(y: Seq<int>, inverse_perm: Seq<u32>, m: int) -> Seq<int> {
    interleaved(differenced(y, m), inverse_perm)
}

/// Whether a vector repeats its first section `q` times.
pub open spec fn is_repetition(x: Seq<int>, q: nat) -> bool {
    let section = x.len() as int / q as int;
    forall|j: int| section <= j < x.len() ==> #[trigger] x[j] == x[j % section]
}

impl RAAACode {
    /// The permutation of a round.
    pub open spec fn forward(&self, round: int) -> Seq<u32> {
        self.permutations[round].0@
    }

    /// The inverse of the permutation of a round.
    pub open spec fn backward(&self, round: int) -> Seq<u32> {
        self.permutations[round].1@
    }

    /// A vector taken back through the three rounds.
    pub open spec fn unrounded(&self, c: Seq<int>, m: int) -> Seq<int> {
        unround(unround(unround(c, self.backward(2), m), self.backward(1), m), self.backward(0), m)
    }

    /// A vector taken through the three rounds.
    pub open spec fn rounded(&self, x: Seq<int>, m: int) -> Seq<int> {
        round(round(round(x, self.forward(0), m), self.forward(1), m), self.forward(2), m)
    }
}

impl LinearCode for RAAACode {
    /// At least one repetition, a block length that is not zero and that the
    /// number of repetitions divides, and for each round a permutation of the
    /// block with its inverse.
    open spec fn wf(&self) -> bool {
        &&& self.q >= 1
        &&& self.length() >= 1
        &&& self.length() % (self.q as nat) == 0
        &&& inverse_pair(self.forward(0), self.backward(0), self.length())
        &&& inverse_pair(self.forward(1), self.backward(1), self.length())
        &&& inverse_pair(self.forward(2), self.backward(2), self.length())
    }

    open spec fn checkable(&self) -> bool {
        self.q >= 2
    }

    open spec fn dimension(&self) -> nat {
        self.length() / (self.q as nat)
    }

    open spec fn length(&self) -> nat {
        self.forward(0).len()
    }

    open spec fn codeword(&self, message: Seq<int>, m: int) -> Seq<int> {
        self.rounded(repeated(message, self.q as nat), m)
    }

    open spec fn extended_codeword(&self, v: Seq<int>, m: int) -> Seq<int> {
        self.rounded(extended_repeated(v, self.q as nat, m), m)
    }

    open spec fn extended_message(&self, u: Seq<int>, m: int) -> Seq<int> {
        extended_unrepeated(self.unrounded(u, m), self.q as nat, m)
    }

    open spec fn in_code(&self, c: Seq<int>, m: int) -> bool {
        is_repetition(self.unrounded(c, m), self.q as nat)
    }

    fn k(&self) -> (r: usize) {
        proof {
            vstd::arithmetic::div_mod::lemma_div_is_ordered_by_denominator(
                self.length() as int,
                1,
                self.q as int,
            );
        }
        self.n() / self.q
    }

    fn n(&self) -> (r: usize) {
        self.permutations[0].0.len()
    }

    fn encode<T: PF>(&self, vec: &FVec<T>) -> (r: FVec<T>) {
        proof {
            vstd::arithmetic::div_mod::lemma_fundamental_div_mod(
                self.length() as int,
                self.q as int,
            );
            assert(vec@.len() * self.q == self.length()) by (nonlinear_arith)
                requires
                    self.length() == self.q * vec@.len(),
            ;
            assert(self.length() == self.permutations[0].0@.len());
        }
        let n: usize = self.n();
        assert(vec@.len() * self.q <= usize::MAX);
        let repeated: FVec<T> = Self::repeat(vec, self.q);
        let in0: FVec<T> = Self::interleave(&repeated, &self.permutations[0].0);
        let acc0: FVec<T> = Self::accumulate(&in0);
        let in1: FVec<T> = Self::interleave(&acc0, &self.permutations[1].0);
        let acc1: FVec<T> = Self::accumulate(&in1);
        let in2: FVec<T> = Self::interleave(&acc1, &self.permutations[2].0);
        let acc2: FVec<T> = Self::accumulate(&in2);
        acc2
    }

    fn encode_extended<T: PF>(&self, vec: &FVec<T>) -> (r: FVec<T>) {
        let repeated: FVec<T> = Self::repeat_extended(vec, self.q);
        let in0: FVec<T> = Self::interleave(&repeated, &self.permutations[0].0);
        let acc0: FVec<T> = Self::accumulate(&in0);
        let in1: FVec<T> = Self::interleave(&acc0, &self.permutations[1].0);
        let acc1: FVec<T> = Self::accumulate(&in1);
        let in2: FVec<T> = Self::interleave(&acc1, &self.permutations[2].0);
        let acc2: FVec<T> = Self::accumulate(&in2);
        acc2
    }

    fn mul_vec_by_extended_inverse<T: PF>(&self, u: &FVec<T>) -> (r: FVec<T>) {
        let acc2_inv: FVec<T> = Self::accumulate_inverse(u);
        let in2_inv: FVec<T> = Self::interleave(&acc2_inv, &self.permutations[2].1);
        let acc1_inv: FVec<T> = Self::accumulate_inverse(&in2_inv);
        let in1_inv: FVec<T> = Self::interleave(&acc1_inv, &self.permutations[1].1);
        let acc0_inv: FVec<T> = Self::accumulate_inverse(&in1_inv);
        let in0_inv: FVec<T> = Self::interleave(&acc0_inv, &self.permutations[0].1);
        let re_inv: FVec<T> = Self::repeat_extended_inverse(&in0_inv, self.q);
        re_inv
    }

    fn check_parity<T: PF>(&self, putative_codeword: &FVec<T>) -> (b: bool) {
        if putative_codeword.0.len() != self.n() {
            return false;
        }
        // Invert all the operations until the initial repetition code.
        let acc2_inv: FVec<T> = Self::accumulate_inverse(putative_codeword);
        let in2_inv: FVec<T> = Self::interleave(&acc2_inv, &self.permutations[2].1);
        let acc1_inv: FVec<T> = Self::accumulate_inverse(&in2_inv);
        let in1_inv: FVec<T> = Self::interleave(&acc1_inv, &self.permutations[1].1);
        let acc0_inv: FVec<T> = Self::accumulate_inverse(&in1_inv);
        let should_be_repeated: FVec<T> = Self::interleave(&acc0_inv, &self.permutations[0].1);
        // Check that the result is a codeword for the repetition code.
        let len: usize = should_be_repeated.0.len();
        let section_len: usize = len / self.q;
        let mut j: usize = section_len;
        while j < len
            invariant
                section_len <= j <= len,
                len == should_be_repeated.0@.len(),
                putative_codeword@.len() == self.length(),
                should_be_repeated@ == self.unrounded(putative_codeword@, T::modulus()),
                section_len == len / self.q,
                self.q >= 2,
                len % self.q == 0,
                len >= 1,
                forall|i: int|
                    section_len <= i < j ==> #[trigger] should_be_repeated@[i]
                        == should_be_repeated@[i % (section_len as int)],
            decreases len - j,
        {
            assert(section_len > 0) by (nonlinear_arith)
                requires
                    section_len == len / self.q,
                    len % self.q == 0,
                    self.q >= 2,
                    len >= 1,
            ;
            if !should_be_repeated.0[j].equals(&should_be_repeated.0[j % section_len]) {
                assert(should_be_repeated@[j as int] != should_be_repeated@[(j as int) % (
                section_len as int)]);
                return false;
            }
            j += 1;
        }
        true
    }
}

/// The label that the seed of a round's default permutation is hashed from.
pub open spec fn default_label(round: int) -> Seq<u8> {
    if round == 0 {
        "VOLE in the head RAAA code interleave 0".spec_bytes()
    } else if round == 1 {
        "VOLE in the head RAAA code interleave 1".spec_bytes()
    } else {
        "VOLE in the head RAAA code interleave 2".spec_bytes()
    }
}

/// The permutation of a round of the default code.
pub open spec fn default_permutation(round: int) -> Seq<u32> {
    picked_order(
        identity_order(NUM_VOLES as nat),
        chacha20_draws(blake3_digest(default_label(round)), NUM_VOLES),
    )
}

impl RAAACode {
    /// The code of the default parameters: block length 1024, two
    /// repetitions, and permutations drawn from fixed seeds, so that every
    /// prover and every verifier has the same code.
    pub fn rand_default() -> (r: RAAACode)
        ensures
            r.wf(),
            r.checkable(),
            r.q == 2,
            r.length() == NUM_VOLES,
            forall|round: int| 0 <= round < 3 ==> r.forward(round) == default_permutation(round),
    {
        let seed0: [u8; 32] = blake3_hash("VOLE in the head RAAA code interleave 0".as_bytes());
        let seed1: [u8; 32] = blake3_hash("VOLE in the head RAAA code interleave 1".as_bytes());
        let seed2: [u8; 32] = blake3_hash("VOLE in the head RAAA code interleave 2".as_bytes());
        let permutations: [(Vec<u32>, Vec<u32>); 3] = [
            RAAACode::random_interleave_permutations(NUM_VOLES, Some(seed0)),
            RAAACode::random_interleave_permutations(NUM_VOLES, Some(seed1)),
            RAAACode::random_interleave_permutations(NUM_VOLES, Some(seed2)),
        ];
        RAAACode { permutations, q: 2 }
    }
}

} // verus!
