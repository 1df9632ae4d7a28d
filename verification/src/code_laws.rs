//! What holds of the repeat-accumulate code: each step of the encoder is
//! undone by its inverse, the extended encoder extends the encoder, and every
//! codeword passes the parity check.

use crate::algebra::{
    column, cong, hashed, lemma_cong_add, lemma_cong_mod, lemma_cong_mul, lemma_cong_residues,
    lemma_hashed_entry,
};
use crate::linalg::{sum_products, vec_add, vec_sub};
use crate::smallvole::all_residues;
use crate::subspacevole::{
    accumulated, differenced, extended_repeated, extended_unrepeated, interleaved, inverse_pair,
    is_repetition, positions_below, prefix_sum, repeated, round, scattered, unround, zeros,
    LinearCode, RAAACode,
};
use vstd::arithmetic::div_mod::{
    lemma_add_mod_noop, lemma_fundamental_div_mod, lemma_fundamental_div_mod_converse,
    lemma_mod_multiples_vanish, lemma_small_mod, lemma_sub_mod_noop,
};
use vstd::prelude::*;

verus! {

/// Scattering keeps the length.
pub proof fn lemma_scattered_len(x: Seq<int>, perm: Seq<u32>, k: nat)
    requires
        k <= perm.len(),
        positions_below(perm, x.len() as int),
    ensures
        scattered(x, perm, k).len() == x.len(),
    decreases k,
{
    if k > 0 {
        lemma_scattered_len(x, perm, (k - 1) as nat);
    }
}

/// After `k` writes along a permutation, a position holds the entry that was
/// sent there if that entry is among the first `k`, and zero otherwise.
pub proof fn lemma_scattered_entry(x: Seq<int>, f: Seq<u32>, b: Seq<u32>, k: nat, j: int)
    requires
        inverse_pair(f, b, x.len()),
        k <= x.len(),
        0 <= j < x.len(),
    ensures
        scattered(x, f, k)[j] == if b[j] < k {
            x[b[j] as int]
        } else {
            0
        },
    decreases k,
{
    lemma_scattered_len(x, f, k);
    if k > 0 {
        lemma_scattered_entry(x, f, b, (k - 1) as nat, j);
        lemma_scattered_len(x, f, (k - 1) as nat);
        assert(f[k - 1] < x.len() && b[f[k - 1] as int] == k - 1);
        assert(b[j] < x.len() && f[b[j] as int] == j);
    }
}

/// Permuting moves entry `i` to position `f[i]`: position `j` then holds the
/// entry that the inverse permutation names.
pub proof fn lemma_interleaved_entries(x: Seq<int>, f: Seq<u32>, b: Seq<u32>)
    requires
        inverse_pair(f, b, x.len()),
    ensures
        interleaved(x, f) == Seq::new(x.len(), |j: int| x[b[j] as int]),
{
    lemma_scattered_len(x, f, x.len());
    assert forall|j: int| 0 <= j < x.len() implies interleaved(x, f)[j] == x[b[j] as int] by {
        lemma_scattered_entry(x, f, b, x.len(), j);
    }
    assert(interleaved(x, f) =~= Seq::new(x.len(), |j: int| x[b[j] as int]));
}

/// Permuting and then permuting by the inverse gives the vector back.
pub proof fn lemma_interleave_round_trip(x: Seq<int>, f: Seq<u32>, b: Seq<u32>)
    requires
        inverse_pair(f, b, x.len()),
    ensures
        interleaved(interleaved(x, f), b) == x,
        interleaved(x, f).len() == x.len(),
{
    lemma_interleaved_entries(x, f, b);
    let y: Seq<int> = interleaved(x, f);
    assert(inverse_pair(b, f, y.len()));
    lemma_interleaved_entries(y, b, f);
    assert forall|j: int| 0 <= j < x.len() implies interleaved(y, b)[j] == x[j] by {
        assert(f[j] < x.len() && b[f[j] as int] == j);
    }
    assert(interleaved(y, b) =~= x);
}

/// Permuting residues gives residues.
pub proof fn lemma_interleaved_residues(x: Seq<int>, f: Seq<u32>, b: Seq<u32>, m: int)
    requires
        inverse_pair(f, b, x.len()),
        all_residues(x, m),
    ensures
        all_residues(interleaved(x, f), m),
        interleaved(x, f).len() == x.len(),
{
    lemma_interleaved_entries(x, f, b);
    assert forall|j: int| 0 <= j < x.len() implies 0 <= #[trigger] interleaved(x, f)[j] < m by {
        assert(b[j] < x.len());
    }
}

/// Running sums and successive differences are residues.
pub proof fn lemma_sums_are_residues(x: Seq<int>, m: int)
    requires
        m > 0,
    ensures
        all_residues(accumulated(x, m), m),
        all_residues(differenced(x, m), m),
{
}

/// The successive differences of the running sums of residues are the
/// residues.
pub proof fn lemma_differenced_accumulated(x: Seq<int>, m: int)
    requires
        m > 0,
        all_residues(x, m),
    ensures
        differenced(accumulated(x, m), m) == x,
{
    let a: Seq<int> = accumulated(x, m);
    assert forall|i: int| 0 <= i < x.len() implies differenced(a, m)[i] == x[i] by {
        lemma_small_mod(x[i] as nat, m as nat);
        if i == 0 {
            assert(prefix_sum(x, 1) == prefix_sum(x, 0) + x[0]);
            assert(prefix_sum(x, 0) == 0);
            vstd::arithmetic::div_mod::lemma_mod_twice(x[0], m);
        } else {
            assert(prefix_sum(x, (i + 1) as nat) == prefix_sum(x, i as nat) + x[i]);
            lemma_sub_mod_noop(prefix_sum(x, (i + 1) as nat), prefix_sum(x, i as nat), m);
        }
    }
    assert(differenced(a, m) =~= x);
}

/// The sum of the first `n` successive differences is congruent to the entry
/// at `n - 1`.
proof fn lemma_prefix_sum_differenced(y: Seq<int>, m: int, n: nat)
    requires
        m > 0,
        1 <= n <= y.len(),
    ensures
        prefix_sum(differenced(y, m), n) % m == y[n - 1] % m,
    decreases n,
{
    let d: Seq<int> = differenced(y, m);
    if n == 1 {
        assert(prefix_sum(d, 1) == prefix_sum(d, 0) + d[0]);
        assert(prefix_sum(d, 0) == 0);
        vstd::arithmetic::div_mod::lemma_mod_twice(y[0], m);
    } else {
        lemma_prefix_sum_differenced(y, m, (n - 1) as nat);
        assert(prefix_sum(d, n) == prefix_sum(d, (n - 1) as nat) + d[n - 1]);
        lemma_add_mod_noop(prefix_sum(d, (n - 1) as nat), d[n - 1], m);
        vstd::arithmetic::div_mod::lemma_mod_twice(y[n - 1] - y[n - 2], m);
        lemma_add_mod_noop(y[n - 2], y[n - 1] - y[n - 2], m);
    }
}

/// The running sums of the successive differences of residues are the
/// residues.
pub proof fn lemma_accumulated_differenced(y: Seq<int>, m: int)
    requires
        m > 0,
        all_residues(y, m),
    ensures
        accumulated(differenced(y, m), m) == y,
{
    let d: Seq<int> = differenced(y, m);
    assert forall|i: int| 0 <= i < y.len() implies accumulated(d, m)[i] == y[i] by {
        lemma_prefix_sum_differenced(y, m, (i + 1) as nat);
        lemma_small_mod(y[i] as nat, m as nat);
    }
    assert(accumulated(d, m) =~= y);
}

/// A round and then its inverse gives the residues back.
pub proof fn lemma_unround_round(x: Seq<int>, f: Seq<u32>, b: Seq<u32>, m: int)
    requires
        m > 0,
        inverse_pair(f, b, x.len()),
        all_residues(x, m),
    ensures
        unround(round(x, f, m), b, m) == x,
        all_residues(round(x, f, m), m),
        round(x, f, m).len() == x.len(),
{
    lemma_interleaved_residues(x, f, b, m);
    lemma_differenced_accumulated(interleaved(x, f), m);
    lemma_interleave_round_trip(x, f, b);
    lemma_sums_are_residues(interleaved(x, f), m);
}

/// The inverse of a round and then the round gives the residues back.
pub proof fn lemma_round_unround(y: Seq<int>, f: Seq<u32>, b: Seq<u32>, m: int)
    requires
        m > 0,
        inverse_pair(f, b, y.len()),
        all_residues(y, m),
    ensures
        round(unround(y, b, m), f, m) == y,
        all_residues(unround(y, b, m), m),
        unround(y, b, m).len() == y.len(),
{
    let d: Seq<int> = differenced(y, m);
    lemma_sums_are_residues(y, m);
    assert(inverse_pair(b, f, d.len()));
    lemma_interleaved_residues(d, b, f, m);
    lemma_interleave_round_trip(d, b, f);
    lemma_accumulated_differenced(y, m);
}

/// The extended repetition and then its inverse gives the residues back.
pub proof fn lemma_extended_unrepeat_repeat(x: Seq<int>, q: nat, m: int)
    requires
        m > 0,
        q >= 1,
        x.len() % q == 0,
        all_residues(x, m),
    ensures
        extended_unrepeated(extended_repeated(x, q, m), q, m) == x,
        all_residues(extended_repeated(x, q, m), m),
{
    let section: int = x.len() as int / q as int;
    let y: Seq<int> = extended_repeated(x, q, m);
    assert forall|j: int| 0 <= j < x.len() implies extended_unrepeated(y, q, m)[j] == x[j] by {
        if j >= section {
            lemma_section_positive(x.len(), q, j);
            let h: int = j % section;
            assert(0 <= h < section);
            assert(y[h] == x[h]);
            lemma_small_mod(x[h] as nat, m as nat);
            lemma_small_mod(x[j] as nat, m as nat);
            lemma_sub_mod_noop(x[h] + x[j], x[h], m);
        }
    }
    assert(extended_unrepeated(y, q, m) =~= x);
    assert forall|j: int| 0 <= j < y.len() implies 0 <= #[trigger] y[j] < m by {
        if j >= section {
            lemma_section_positive(x.len(), q, j);
        }
    }
}

/// The inverse of the extended repetition and then the extended repetition
/// gives the residues back.
pub proof fn lemma_extended_repeat_unrepeat(x: Seq<int>, q: nat, m: int)
    requires
        m > 0,
        q >= 1,
        x.len() % q == 0,
        all_residues(x, m),
    ensures
        extended_repeated(extended_unrepeated(x, q, m), q, m) == x,
        all_residues(extended_unrepeated(x, q, m), m),
{
    let section: int = x.len() as int / q as int;
    let y: Seq<int> = extended_unrepeated(x, q, m);
    assert forall|j: int| 0 <= j < x.len() implies extended_repeated(y, q, m)[j] == x[j] by {
        if j >= section {
            lemma_section_positive(x.len(), q, j);
            let h: int = j % section;
            assert(0 <= h < section);
            assert(y[h] == x[h]);
            lemma_small_mod(x[h] as nat, m as nat);
            lemma_small_mod(x[j] as nat, m as nat);
            lemma_add_mod_noop(x[h], x[j] - x[h], m);
        }
    }
    assert(extended_repeated(y, q, m) =~= x);
    assert forall|j: int| 0 <= j < y.len() implies 0 <= #[trigger] y[j] < m by {
        if j >= section {
            lemma_section_positive(x.len(), q, j);
        }
    }
}

/// Where a position lies at or behind the first of `q` sections of a vector,
/// a section is not empty, and the sections make up the vector.
pub proof fn lemma_section_positive(len: nat, q: nat, j: int)
    requires
        q >= 1,
        len % q == 0,
        len as int / q as int <= j < len,
    ensures
        len as int / q as int > 0,
        0 <= j % (len as int / q as int) < len as int / q as int,
        len == q * (len / q),
{
    lemma_fundamental_div_mod(len as int, q as int);
    let section: int = len as int / q as int;
    if section <= 0 {
        assert(q * section <= 0) by (nonlinear_arith)
            requires
                q >= 1,
                section <= 0,
        ;
    }
}

/// The extended repetition of a message followed by zeros is the repetition
/// of the message.
pub proof fn lemma_extended_repeated_padded(x: Seq<int>, q: nat, m: int)
    requires
        m > 0,
        q >= 1,
        all_residues(x, m),
    ensures
        extended_repeated(x + zeros((x.len() * q - x.len()) as nat), q, m) == repeated(x, q),
{
    let k: int = x.len() as int;
    let n: int = k * q;
    assert(n >= k) by (nonlinear_arith)
        requires
            n == k * q,
            q >= 1,
            k >= 0,
    ;
    let padded: Seq<int> = x + zeros((n - k) as nat);
    assert(padded.len() == n);
    vstd::arithmetic::div_mod::lemma_div_multiples_vanish(k, q as int);
    assert(n / (q as int) == k) by {
        assert(n == (q as int) * k) by (nonlinear_arith)
            requires
                n == k * q,
        ;
    }
    assert forall|j: int| 0 <= j < n implies extended_repeated(padded, q, m)[j] == repeated(
        x,
        q,
    )[j] by {
        if j < k {
            lemma_small_mod(j as nat, k as nat);
        } else {
            let h: int = j % k;
            assert(0 <= h < k);
            assert(padded[j] == 0);
            assert(padded[h] == x[h]);
            lemma_small_mod(x[h] as nat, m as nat);
        }
    }
    assert(extended_repeated(padded, q, m) =~= repeated(x, q));
}

impl RAAACode {
    /// The three rounds and then their inverses give the residues back.
    pub proof fn lemma_unrounded_rounded(&self, x: Seq<int>, m: int)
        requires
            self.wf(),
            m > 0,
            x.len() == self.length(),
            all_residues(x, m),
        ensures
            self.unrounded(self.rounded(x, m), m) == x,
            all_residues(self.rounded(x, m), m),
            self.rounded(x, m).len() == self.length(),
    {
        let r0: Seq<int> = round(x, self.forward(0), m);
        lemma_unround_round(x, self.forward(0), self.backward(0), m);
        let r1: Seq<int> = round(r0, self.forward(1), m);
        lemma_unround_round(r0, self.forward(1), self.backward(1), m);
        lemma_unround_round(r1, self.forward(2), self.backward(2), m);
    }

    /// The inverses of the three rounds and then the rounds give the residues
    /// back.
    pub proof fn lemma_rounded_unrounded(&self, y: Seq<int>, m: int)
        requires
            self.wf(),
            m > 0,
            y.len() == self.length(),
            all_residues(y, m),
        ensures
            self.rounded(self.unrounded(y, m), m) == y,
            all_residues(self.unrounded(y, m), m),
            self.unrounded(y, m).len() == self.length(),
    {
        let u2: Seq<int> = unround(y, self.backward(2), m);
        lemma_round_unround(y, self.forward(2), self.backward(2), m);
        let u1: Seq<int> = unround(u2, self.backward(1), m);
        lemma_round_unround(u2, self.forward(1), self.backward(1), m);
        lemma_round_unround(u1, self.forward(0), self.backward(0), m);
    }

    /// The extended encoder is inverted by the extended inverse: encoding a
    /// vector of residues and multiplying by the inverse gives the vector
    /// back.
    pub proof fn lemma_inverse_of_extended_codeword(&self, v: Seq<int>, m: int)
        requires
            self.wf(),
            m > 0,
            v.len() == self.length(),
            all_residues(v, m),
        ensures
            self.extended_message(self.extended_codeword(v, m), m) == v,
            all_residues(self.extended_codeword(v, m), m),
            self.extended_codeword(v, m).len() == self.length(),
    {
        lemma_extended_unrepeat_repeat(v, self.q as nat, m);
        self.lemma_unrounded_rounded(extended_repeated(v, self.q as nat, m), m);
    }

    /// The extended inverse is inverted by the extended encoder.
    pub proof fn lemma_extended_codeword_of_inverse(&self, u: Seq<int>, m: int)
        requires
            self.wf(),
            m > 0,
            u.len() == self.length(),
            all_residues(u, m),
        ensures
            self.extended_codeword(self.extended_message(u, m), m) == u,
            all_residues(self.extended_message(u, m), m),
            self.extended_message(u, m).len() == self.length(),
    {
        self.lemma_rounded_unrounded(u, m);
        lemma_extended_repeat_unrepeat(self.unrounded(u, m), self.q as nat, m);
    }

    /// The extended encoder extends the encoder: on a message followed by
    /// zeros it gives the codeword of the message, so that the extended
    /// inverse of a codeword is the message followed by zeros.
    pub proof fn lemma_extended_encoder_extends(&self, x: Seq<int>, m: int)
        requires
            self.wf(),
            m > 0,
            x.len() == self.dimension(),
            all_residues(x, m),
        ensures
            self.extended_codeword(x + zeros((self.length() - self.dimension()) as nat), m)
                == self.codeword(x, m),
            self.extended_message(self.codeword(x, m), m) == x + zeros(
                (self.length() - self.dimension()) as nat,
            ),
    {
        lemma_fundamental_div_mod(self.length() as int, self.q as int);
        assert(x.len() * self.q == self.length()) by (nonlinear_arith)
            requires
                self.length() == self.q * x.len(),
        ;
        lemma_extended_repeated_padded(x, self.q as nat, m);
        let padded: Seq<int> = x + zeros((self.length() - self.dimension()) as nat);
        assert(padded.len() == self.length()) by {
            assert(self.length() >= self.dimension()) by (nonlinear_arith)
                requires
                    self.length() == self.q * self.dimension(),
                    self.q >= 1,
            ;
        }
        assert(all_residues(padded, m));
        self.lemma_inverse_of_extended_codeword(padded, m);
    }

    /// Every codeword passes the parity check.
    pub proof fn lemma_codeword_in_code(&self, x: Seq<int>, m: int)
        requires
            self.wf(),
            m > 0,
            x.len() == self.dimension(),
            all_residues(x, m),
        ensures
            self.codeword(x, m).len() == self.length(),
            self.in_code(self.codeword(x, m), m),
    {
        lemma_fundamental_div_mod(self.length() as int, self.q as int);
        assert(x.len() * self.q == self.length()) by (nonlinear_arith)
            requires
                self.length() == self.q * x.len(),
        ;
        let rep: Seq<int> = repeated(x, self.q as nat);
        let k: int = x.len() as int;
        assert(rep.len() == self.length());
        assert(k > 0) by (nonlinear_arith)
            requires
                self.length() == self.q * k,
                self.length() >= 1,
        ;
        assert forall|j: int| 0 <= j < rep.len() implies 0 <= #[trigger] rep[j] < m by {
            assert(0 <= j % k < k);
        }
        self.lemma_unrounded_rounded(rep, m);
        assert forall|j: int| k <= j < rep.len() implies #[trigger] rep[j] == rep[j % k] by {
            assert(0 <= j % k < k);
            lemma_small_mod((j % k) as nat, k as nat);
        }
    }
}

/// Successive differences are taken sum by sum and difference by difference.
pub proof fn lemma_differenced_additive(a: Seq<int>, b: Seq<int>, m: int)
    requires
        m > 0,
        a.len() == b.len(),
    ensures
        differenced(vec_add(a, b, m), m) == vec_add(differenced(a, m), differenced(b, m), m),
        differenced(vec_sub(a, b, m), m) == vec_sub(differenced(a, m), differenced(b, m), m),
{
    let s: Seq<int> = vec_add(a, b, m);
    let d: Seq<int> = vec_sub(a, b, m);
    assert forall|i: int| 0 <= i < a.len() implies differenced(s, m)[i] == vec_add(
        differenced(a, m),
        differenced(b, m),
        m,
    )[i] && differenced(d, m)[i] == vec_sub(differenced(a, m), differenced(b, m), m)[i] by {
        if i == 0 {
            vstd::arithmetic::div_mod::lemma_mod_twice(a[0] + b[0], m);
            vstd::arithmetic::div_mod::lemma_mod_twice(a[0] - b[0], m);
            lemma_add_mod_noop(a[0], b[0], m);
            lemma_sub_mod_noop(a[0], b[0], m);
        } else {
            lemma_sub_mod_noop(a[i] + b[i], a[i - 1] + b[i - 1], m);
            lemma_add_mod_noop(a[i] - a[i - 1], b[i] - b[i - 1], m);
            lemma_sub_mod_noop(a[i] - b[i], a[i - 1] - b[i - 1], m);
            lemma_sub_mod_noop(a[i] - a[i - 1], b[i] - b[i - 1], m);
        }
    }
    assert(differenced(s, m) =~= vec_add(differenced(a, m), differenced(b, m), m));
    assert(differenced(d, m) =~= vec_sub(differenced(a, m), differenced(b, m), m));
}

/// A permutation moves sums to sums and differences to differences.
pub proof fn lemma_interleaved_additive(
    a: Seq<int>,
    b: Seq<int>,
    f: Seq<u32>,
    inverse: Seq<u32>,
    m: int,
)
    requires
        a.len() == b.len(),
        inverse_pair(f, inverse, a.len()),
    ensures
        interleaved(vec_add(a, b, m), f) == vec_add(interleaved(a, f), interleaved(b, f), m),
        interleaved(vec_sub(a, b, m), f) == vec_sub(interleaved(a, f), interleaved(b, f), m),
{
    lemma_interleaved_entries(a, f, inverse);
    lemma_interleaved_entries(b, f, inverse);
    lemma_interleaved_entries(vec_add(a, b, m), f, inverse);
    lemma_interleaved_entries(vec_sub(a, b, m), f, inverse);
    assert forall|j: int| 0 <= j < a.len() implies interleaved(vec_add(a, b, m), f)[j] == vec_add(
        interleaved(a, f),
        interleaved(b, f),
        m,
    )[j] && interleaved(vec_sub(a, b, m), f)[j] == vec_sub(
        interleaved(a, f),
        interleaved(b, f),
        m,
    )[j] by {
        assert(inverse[j] < a.len());
    }
    assert(interleaved(vec_add(a, b, m), f) =~= vec_add(
        interleaved(a, f),
        interleaved(b, f),
        m,
    ));
    assert(interleaved(vec_sub(a, b, m), f) =~= vec_sub(
        interleaved(a, f),
        interleaved(b, f),
        m,
    ));
}

/// The inverse of a round takes sums to sums and differences to differences.
pub proof fn lemma_unround_additive(
    a: Seq<int>,
    b: Seq<int>,
    f: Seq<u32>,
    inverse: Seq<u32>,
    m: int,
)
    requires
        m > 0,
        a.len() == b.len(),
        inverse_pair(f, inverse, a.len()),
    ensures
        unround(vec_add(a, b, m), inverse, m) == vec_add(
            unround(a, inverse, m),
            unround(b, inverse, m),
            m,
        ),
        unround(vec_sub(a, b, m), inverse, m) == vec_sub(
            unround(a, inverse, m),
            unround(b, inverse, m),
            m,
        ),
        unround(a, inverse, m).len() == a.len(),
        unround(b, inverse, m).len() == a.len(),
{
    lemma_differenced_additive(a, b, m);
    assert(inverse_pair(inverse, f, a.len()));
    lemma_interleaved_additive(differenced(a, m), differenced(b, m), inverse, f, m);
    lemma_interleaved_entries(differenced(a, m), inverse, f);
    lemma_interleaved_entries(differenced(b, m), inverse, f);
}

/// Sums and differences of repetitions are repetitions.
pub proof fn lemma_repetition_additive(a: Seq<int>, b: Seq<int>, q: nat, m: int)
    requires
        q >= 1,
        a.len() == b.len(),
        a.len() % q == 0,
        is_repetition(a, q),
        is_repetition(b, q),
    ensures
        is_repetition(vec_add(a, b, m), q),
        is_repetition(vec_sub(a, b, m), q),
{
    let section: int = a.len() as int / q as int;
    let s: Seq<int> = vec_add(a, b, m);
    let d: Seq<int> = vec_sub(a, b, m);
    assert forall|j: int| section <= j < s.len() implies #[trigger] s[j] == s[j % section] by {
        lemma_section_positive(a.len(), q, j);
        assert(a[j] == a[j % section]);
        assert(b[j] == b[j % section]);
    }
    assert forall|j: int| section <= j < d.len() implies #[trigger] d[j] == d[j % section] by {
        lemma_section_positive(a.len(), q, j);
        assert(a[j] == a[j % section]);
        assert(b[j] == b[j % section]);
    }
}

impl RAAACode {
    /// Taking vectors back through the three rounds takes sums to sums and
    /// differences to differences.
    pub proof fn lemma_unrounded_additive(&self, a: Seq<int>, b: Seq<int>, m: int)
        requires
            self.wf(),
            m > 0,
            a.len() == self.length(),
            b.len() == self.length(),
        ensures
            self.unrounded(vec_add(a, b, m), m) == vec_add(
                self.unrounded(a, m),
                self.unrounded(b, m),
                m,
            ),
            self.unrounded(vec_sub(a, b, m), m) == vec_sub(
                self.unrounded(a, m),
                self.unrounded(b, m),
                m,
            ),
            self.unrounded(a, m).len() == self.length(),
            self.unrounded(b, m).len() == self.length(),
    {
        lemma_unround_additive(a, b, self.forward(2), self.backward(2), m);
        let a2: Seq<int> = unround(a, self.backward(2), m);
        let b2: Seq<int> = unround(b, self.backward(2), m);
        lemma_unround_additive(a2, b2, self.forward(1), self.backward(1), m);
        let a1: Seq<int> = unround(a2, self.backward(1), m);
        let b1: Seq<int> = unround(b2, self.backward(1), m);
        lemma_unround_additive(a1, b1, self.forward(0), self.backward(0), m);
    }

    /// Changing a codeword changes the outcome of the parity check exactly
    /// where the change itself is no codeword: for a codeword `y` and any
    /// vector `z` of residues of block length, `z` passes the parity check if
    /// and only if `z - y` does. So a codeword with one entry changed fails
    /// the parity check unless the vector that is zero but for the change at
    /// that entry is itself a codeword.
    pub proof fn lemma_parity_of_altered_codeword(&self, y: Seq<int>, z: Seq<int>, m: int)
        requires
            self.wf(),
            m > 0,
            y.len() == self.length(),
            z.len() == self.length(),
            all_residues(y, m),
            all_residues(z, m),
            self.in_code(y, m),
        ensures
            self.in_code(z, m) == self.in_code(vec_sub(z, y, m), m),
    {
        let d: Seq<int> = vec_sub(z, y, m);
        self.lemma_unrounded_additive(z, y, m);
        if self.in_code(z, m) {
            lemma_repetition_additive(
                self.unrounded(z, m),
                self.unrounded(y, m),
                self.q as nat,
                m,
            );
        }
        if self.in_code(d, m) {
            assert forall|i: int| 0 <= i < z.len() implies vec_add(y, d, m)[i] == z[i] by {
                lemma_add_mod_noop(y[i], z[i] - y[i], m);
                vstd::arithmetic::div_mod::lemma_mod_twice(z[i] - y[i], m);
                lemma_small_mod(y[i] as nat, m as nat);
                lemma_small_mod(z[i] as nat, m as nat);
            }
            assert(vec_add(y, d, m) =~= z);
            self.lemma_unrounded_additive(y, d, m);
            lemma_repetition_additive(
                self.unrounded(y, m),
                self.unrounded(d, m),
                self.q as nat,
                m,
            );
        }
    }

    /// A codeword with one entry changed fails the parity check, unless the
    /// vector that is zero but for the change at that entry is a codeword.
    pub proof fn lemma_altered_entry_fails_parity(&self, y: Seq<int>, i: int, v: int, m: int)
        requires
            self.wf(),
            m > 0,
            y.len() == self.length(),
            all_residues(y, m),
            self.in_code(y, m),
            0 <= i < y.len(),
            0 <= v < m,
            v != y[i],
            !self.in_code(zeros(y.len()).update(i, (v - y[i]) % m), m),
        ensures
            !self.in_code(y.update(i, v), m),
    {
        let z: Seq<int> = y.update(i, v);
        self.lemma_parity_of_altered_codeword(y, z, m);
        assert forall|j: int| 0 <= j < y.len() implies vec_sub(z, y, m)[j] == zeros(
            y.len(),
        ).update(i, (v - y[i]) % m)[j] by {
            if j != i {
                lemma_small_mod(0, m as nat);
            }
        }
        assert(vec_sub(z, y, m) =~= zeros(y.len()).update(i, (v - y[i]) % m));
    }
}

/// Whether a vector is, entry by entry and up to congruence, `c` times one
/// vector plus `d` times another.
pub open spec fn combines(z: Seq<int>, a: Seq<int>, b: Seq<int>, c: int, d: int, m: int) -> bool {
    &&& z.len() == a.len()
    &&& z.len() == b.len()
    &&& forall|j: int| 0 <= j < z.len() ==> cong(#[trigger] z[j], c * a[j] + d * b[j], m)
}

/// Sums of entries keep a combination.
proof fn lemma_prefix_sum_combines(
    z: Seq<int>,
    a: Seq<int>,
    b: Seq<int>,
    c: int,
    d: int,
    m: int,
    n: nat,
)
    requires
        m > 0,
        combines(z, a, b, c, d, m),
        n <= z.len(),
    ensures
        cong(prefix_sum(z, n), c * prefix_sum(a, n) + d * prefix_sum(b, n), m),
    decreases n,
{
    if n == 0 {
        assert(c * 0 + d * 0 == 0) by (nonlinear_arith);
    } else {
        let p: nat = (n - 1) as nat;
        lemma_prefix_sum_combines(z, a, b, c, d, m, p);
        assert(cong(z[p as int], c * a[p as int] + d * b[p as int], m));
        lemma_cong_add(
            prefix_sum(z, p),
            c * prefix_sum(a, p) + d * prefix_sum(b, p),
            z[p as int],
            c * a[p as int] + d * b[p as int],
            m,
        );
        let sa: int = prefix_sum(a, p);
        let sb: int = prefix_sum(b, p);
        let ap: int = a[p as int];
        let bp: int = b[p as int];
        assert(c * (sa + ap) == c * sa + c * ap) by (nonlinear_arith);
        assert(d * (sb + bp) == d * sb + d * bp) by (nonlinear_arith);
    }
}

/// Running sums keep a combination.
pub proof fn lemma_accumulated_combines(
    z: Seq<int>,
    a: Seq<int>,
    b: Seq<int>,
    c: int,
    d: int,
    m: int,
)
    requires
        m > 0,
        combines(z, a, b, c, d, m),
    ensures
        combines(accumulated(z, m), accumulated(a, m), accumulated(b, m), c, d, m),
{
    assert forall|j: int| 0 <= j < z.len() implies cong(
        #[trigger] accumulated(z, m)[j],
        c * accumulated(a, m)[j] + d * accumulated(b, m)[j],
        m,
    ) by {
        let n: nat = (j + 1) as nat;
        lemma_prefix_sum_combines(z, a, b, c, d, m, n);
        lemma_cong_mod(prefix_sum(z, n), m);
        lemma_cong_mod(prefix_sum(a, n), m);
        lemma_cong_mod(prefix_sum(b, n), m);
        lemma_cong_mul(c, c, prefix_sum(a, n) % m, prefix_sum(a, n), m);
        lemma_cong_mul(d, d, prefix_sum(b, n) % m, prefix_sum(b, n), m);
        lemma_cong_add(
            c * (prefix_sum(a, n) % m),
            c * prefix_sum(a, n),
            d * (prefix_sum(b, n) % m),
            d * prefix_sum(b, n),
            m,
        );
    }
}

/// A permutation keeps a combination.
pub proof fn lemma_interleaved_combines(
    z: Seq<int>,
    a: Seq<int>,
    b: Seq<int>,
    c: int,
    d: int,
    m: int,
    f: Seq<u32>,
    inverse: Seq<u32>,
)
    requires
        combines(z, a, b, c, d, m),
        inverse_pair(f, inverse, z.len()),
    ensures
        combines(interleaved(z, f), interleaved(a, f), interleaved(b, f), c, d, m),
        interleaved(z, f).len() == z.len(),
{
    lemma_interleaved_entries(z, f, inverse);
    lemma_interleaved_entries(a, f, inverse);
    lemma_interleaved_entries(b, f, inverse);
    assert forall|j: int| 0 <= j < z.len() implies cong(
        #[trigger] interleaved(z, f)[j],
        c * interleaved(a, f)[j] + d * interleaved(b, f)[j],
        m,
    ) by {
        assert(inverse[j] < z.len());
        assert(cong(z[inverse[j] as int], c * a[inverse[j] as int] + d * b[inverse[j] as int], m));
    }
}

/// A round keeps a combination.
pub proof fn lemma_round_combines(
    z: Seq<int>,
    a: Seq<int>,
    b: Seq<int>,
    c: int,
    d: int,
    m: int,
    f: Seq<u32>,
    inverse: Seq<u32>,
)
    requires
        m > 0,
        combines(z, a, b, c, d, m),
        inverse_pair(f, inverse, z.len()),
    ensures
        combines(round(z, f, m), round(a, f, m), round(b, f, m), c, d, m),
        round(z, f, m).len() == z.len(),
{
    lemma_interleaved_combines(z, a, b, c, d, m, f, inverse);
    lemma_accumulated_combines(
        interleaved(z, f),
        interleaved(a, f),
        interleaved(b, f),
        c,
        d,
        m,
    );
}

/// Repetition keeps a combination.
pub proof fn lemma_repeated_combines(
    z: Seq<int>,
    a: Seq<int>,
    b: Seq<int>,
    c: int,
    d: int,
    m: int,
    q: nat,
)
    requires
        combines(z, a, b, c, d, m),
    ensures
        combines(repeated(z, q), repeated(a, q), repeated(b, q), c, d, m),
{
    let k: int = z.len() as int;
    assert forall|j: int| 0 <= j < repeated(z, q).len() implies cong(
        #[trigger] repeated(z, q)[j],
        c * repeated(a, q)[j] + d * repeated(b, q)[j],
        m,
    ) by {
        if k == 0 {
            assert(z.len() * q == 0) by (nonlinear_arith)
                requires
                    z.len() == 0,
            ;
        } else {
            assert(0 <= j % k < k);
            assert(cong(z[j % k], c * a[j % k] + d * b[j % k], m));
        }
    }
}

/// The extended repetition keeps a combination.
pub proof fn lemma_extended_repeated_combines(
    z: Seq<int>,
    a: Seq<int>,
    b: Seq<int>,
    c: int,
    d: int,
    m: int,
    q: nat,
)
    requires
        m > 0,
        q >= 1,
        z.len() % q == 0,
        combines(z, a, b, c, d, m),
    ensures
        combines(
            extended_repeated(z, q, m),
            extended_repeated(a, q, m),
            extended_repeated(b, q, m),
            c,
            d,
            m,
        ),
{
    let section: int = z.len() as int / q as int;
    assert forall|j: int| 0 <= j < z.len() implies cong(
        #[trigger] extended_repeated(z, q, m)[j],
        c * extended_repeated(a, q, m)[j] + d * extended_repeated(b, q, m)[j],
        m,
    ) by {
        assert(cong(z[j], c * a[j] + d * b[j], m));
        if j >= section {
            lemma_section_positive(z.len(), q, j);
            let h: int = j % section;
            assert(cong(z[h], c * a[h] + d * b[h], m));
            lemma_cong_add(z[h], c * a[h] + d * b[h], z[j], c * a[j] + d * b[j], m);
            lemma_cong_mod(z[h] + z[j], m);
            lemma_cong_mod(a[h] + a[j], m);
            lemma_cong_mod(b[h] + b[j], m);
            lemma_cong_mul(c, c, (a[h] + a[j]) % m, a[h] + a[j], m);
            lemma_cong_mul(d, d, (b[h] + b[j]) % m, b[h] + b[j], m);
            lemma_cong_add(
                c * ((a[h] + a[j]) % m),
                c * (a[h] + a[j]),
                d * ((b[h] + b[j]) % m),
                d * (b[h] + b[j]),
                m,
            );
            let ah: int = a[h];
            let aj: int = a[j];
            let bh: int = b[h];
            let bj: int = b[j];
            assert(c * (ah + aj) == c * ah + c * aj) by (nonlinear_arith);
            assert(d * (bh + bj) == d * bh + d * bj) by (nonlinear_arith);
        }
    }
}

impl RAAACode {
    /// The three rounds keep a combination.
    pub proof fn lemma_rounded_combines(
        &self,
        z: Seq<int>,
        a: Seq<int>,
        b: Seq<int>,
        c: int,
        d: int,
        m: int,
    )
        requires
            self.wf(),
            m > 0,
            z.len() == self.length(),
            combines(z, a, b, c, d, m),
        ensures
            combines(self.rounded(z, m), self.rounded(a, m), self.rounded(b, m), c, d, m),
            self.rounded(z, m).len() == self.length(),
            all_residues(self.rounded(z, m), m),
    {
        lemma_round_combines(z, a, b, c, d, m, self.forward(0), self.backward(0));
        lemma_round_combines(
            round(z, self.forward(0), m),
            round(a, self.forward(0), m),
            round(b, self.forward(0), m),
            c,
            d,
            m,
            self.forward(1),
            self.backward(1),
        );
        lemma_round_combines(
            round(round(z, self.forward(0), m), self.forward(1), m),
            round(round(a, self.forward(0), m), self.forward(1), m),
            round(round(b, self.forward(0), m), self.forward(1), m),
            c,
            d,
            m,
            self.forward(2),
            self.backward(2),
        );
    }

    /// The encoder is linear: it keeps a combination of messages.
    pub proof fn lemma_codeword_combines(
        &self,
        z: Seq<int>,
        a: Seq<int>,
        b: Seq<int>,
        c: int,
        d: int,
        m: int,
    )
        requires
            self.wf(),
            m > 0,
            z.len() == self.dimension(),
            combines(z, a, b, c, d, m),
        ensures
            combines(self.codeword(z, m), self.codeword(a, m), self.codeword(b, m), c, d, m),
            self.codeword(z, m).len() == self.length(),
            all_residues(self.codeword(z, m), m),
    {
        lemma_fundamental_div_mod(self.length() as int, self.q as int);
        assert(z.len() * self.q == self.length()) by (nonlinear_arith)
            requires
                self.length() == self.q * z.len(),
        ;
        lemma_repeated_combines(z, a, b, c, d, m, self.q as nat);
        self.lemma_rounded_combines(
            repeated(z, self.q as nat),
            repeated(a, self.q as nat),
            repeated(b, self.q as nat),
            c,
            d,
            m,
        );
    }

    /// The extended encoder is linear: it keeps a combination of vectors.
    pub proof fn lemma_extended_codeword_combines(
        &self,
        z: Seq<int>,
        a: Seq<int>,
        b: Seq<int>,
        c: int,
        d: int,
        m: int,
    )
        requires
            self.wf(),
            m > 0,
            z.len() == self.length(),
            combines(z, a, b, c, d, m),
        ensures
            combines(
                self.extended_codeword(z, m),
                self.extended_codeword(a, m),
                self.extended_codeword(b, m),
                c,
                d,
                m,
            ),
            self.extended_codeword(z, m).len() == self.length(),
            all_residues(self.extended_codeword(z, m), m),
    {
        lemma_extended_repeated_combines(z, a, b, c, d, m, self.q as nat);
        self.lemma_rounded_combines(
            extended_repeated(z, self.q as nat, m),
            extended_repeated(a, self.q as nat, m),
            extended_repeated(b, self.q as nat, m),
            c,
            d,
            m,
        );
    }
}

} // verus!
