//! Completeness: what an honest prover makes, the verifier accepts.

use crate::actors::{
    batch_commitment, consistency_challenge, corrected_q_rows, corrected_u_rows, correction_rows,
    encoded_s_rows, hidden_seed_hashes, inverted_rows, opened_seeds, opened_wires,
    pair_commitments, prover_u_cols, prover_v_cols, reconstructed_commitments, s_check_of,
    s_matrix_of, verifier_deltas, verifier_q_cols, CommitAndProof, Prover, SubspaceVOLESecrets,
    Verifier,
};
use crate::algebra::{
    column, cong, hashed, lemma_cong_add, lemma_cong_mod, lemma_cong_mul, lemma_cong_residues,
    lemma_cong_sub, lemma_hashed_entry, lemma_hashed_linear, lemma_sum_products_cong,
    lemma_sum_products_linear,
};
use crate::code_laws::combines;
use crate::field::PF;
use crate::linalg::{
    mat_add, mat_scale, mat_sub, rows_of_width, sum_products, transposed, vec_add, vec_mat,
    vec_mul, vec_scale, vec_sub,
};
use crate::smallvole::{
    all_residues, bit_value, lemma_expanded_residues, lemma_small_vole_correct, small_vole_q,
    small_vole_u, small_vole_v,
};
use crate::linalg::{indices_below, sparse_dot, sum_sparse_products, vec_sparse_mat};
use crate::quicksilver::{
    aggregate, constant_terms, flattened, key_terms, linear_terms, openings_agree, power,
    weighted_sum,
};
use crate::subspacevole::{zeros, LinearCode, RAAACode};
use crate::challenges::{challenge_bits, challenge_vector, quicksilver_preimage, transcript};
use crate::hash::blake3_digest;
use crate::quicksilver::pair_residues;
use crate::vecccom::{
    byte_strings, concat_digests, lemma_opening_reconstructs, reconstructed_commitment,
    seed_commitment,
};
use crate::zkp::{columns_below, satisfies, wires_below, R1CSWithMetadata, R1CS};
use vstd::prelude::*;

verus! {

/// The hash of the first `n` rows of a matrix: for every column the residue
/// of the sum of the products of the challenge with the column's first `n`
/// entries.
pub open spec fn partial_hash(h: Seq<int>, mat: Seq<Seq<int>>, width: nat, n: nat, m: int) -> Seq<
    int,
> {
    Seq::new(width, |c: int| sum_products(h, column(mat, c), n) % m)
}

/// The codewords of the rows of a matrix.
pub open spec fn codewords(code: &RAAACode, rows: Seq<Seq<int>>, m: int) -> Seq<Seq<int>> {
    Seq::new(rows.len(), |j: int| code.codeword(rows[j], m))
}

/// The codeword of the hash of the first `n` rows is, up to congruence, the
/// hash of the first `n` codewords.
proof fn lemma_codeword_of_partial_hash(
    code: &RAAACode,
    h: Seq<int>,
    rows: Seq<Seq<int>>,
    n: nat,
    m: int,
)
    requires
        code.wf(),
        m > 0,
        n <= rows.len(),
        rows_of_width(rows, code.dimension() as int),
    ensures
        code.codeword(partial_hash(h, rows, code.dimension(), n, m), m).len() == code.length(),
        forall|i: int|
            0 <= i < code.length() ==> cong(
                #[trigger] code.codeword(partial_hash(h, rows, code.dimension(), n, m), m)[i],
                sum_products(h, column(codewords(code, rows, m), i), n),
                m,
            ),
    decreases n,
{
    let k: nat = code.dimension();
    let ph: Seq<int> = partial_hash(h, rows, k, n, m);
    if n == 0 {
        assert(combines(ph, ph, ph, 0, 0, m)) by {
            assert forall|c: int| 0 <= c < ph.len() implies cong(
                #[trigger] ph[c],
                0 * ph[c] + 0 * ph[c],
                m,
            ) by {
                assert(sum_products(h, column(rows, c), 0) == 0);
                vstd::arithmetic::div_mod::lemma_small_mod(0, m as nat);
                assert(0 * ph[c] + 0 * ph[c] == 0) by (nonlinear_arith);
            }
        }
        code.lemma_codeword_combines(ph, ph, ph, 0, 0, m);
        assert forall|i: int| 0 <= i < code.length() implies cong(
            #[trigger] code.codeword(ph, m)[i],
            sum_products(h, column(codewords(code, rows, m), i), 0),
            m,
        ) by {
            let x: int = code.codeword(ph, m)[i];
            assert(cong(x, 0 * x + 0 * x, m));
            assert(0 * x + 0 * x == 0) by (nonlinear_arith);
        }
    } else {
        let p: nat = (n - 1) as nat;
        let prev: Seq<int> = partial_hash(h, rows, k, p, m);
        let row: Seq<int> = rows[p as int];
        lemma_codeword_of_partial_hash(code, h, rows, p, m);
        assert(row.len() == k);
        assert(combines(ph, prev, row, 1, h[p as int], m)) by {
            assert forall|c: int| 0 <= c < ph.len() implies cong(
                #[trigger] ph[c],
                1 * prev[c] + h[p as int] * row[c],
                m,
            ) by {
                let col: Seq<int> = column(rows, c);
                assert(sum_products(h, col, n) == sum_products(h, col, p) + h[p as int]
                    * col[p as int]);
                assert(col[p as int] == row[c]);
                lemma_cong_mod(sum_products(h, col, n), m);
                lemma_cong_mod(sum_products(h, col, p), m);
                lemma_cong_add(
                    sum_products(h, col, p) % m,
                    sum_products(h, col, p),
                    h[p as int] * row[c],
                    h[p as int] * row[c],
                    m,
                );
            }
        }
        code.lemma_codeword_combines(ph, prev, row, 1, h[p as int], m);
        assert forall|i: int| 0 <= i < code.length() implies cong(
            #[trigger] code.codeword(ph, m)[i],
            sum_products(h, column(codewords(code, rows, m), i), n),
            m,
        ) by {
            let col: Seq<int> = column(codewords(code, rows, m), i);
            assert(sum_products(h, col, n) == sum_products(h, col, p) + h[p as int] * col[p as int]);
            assert(col[p as int] == code.codeword(row, m)[i]);
            assert(cong(
                code.codeword(ph, m)[i],
                1 * code.codeword(prev, m)[i] + h[p as int] * code.codeword(row, m)[i],
                m,
            ));
            assert(cong(code.codeword(prev, m)[i], sum_products(h, col, p), m));
            lemma_cong_add(
                code.codeword(prev, m)[i],
                sum_products(h, col, p),
                h[p as int] * code.codeword(row, m)[i],
                h[p as int] * code.codeword(row, m)[i],
                m,
            );
        }
    }
}

/// The encoder commutes with hashing: the codeword of the hash of a matrix
/// is the hash of the codewords of its rows.
pub proof fn lemma_codeword_of_hash(code: &RAAACode, h: Seq<int>, rows: Seq<Seq<int>>, m: int)
    requires
        code.wf(),
        m > 0,
        h.len() == rows.len(),
        rows_of_width(rows, code.dimension() as int),
    ensures
        code.codeword(hashed(h, rows, code.dimension(), m), m) == hashed(
            h,
            codewords(code, rows, m),
            code.length(),
            m,
        ),
        hashed(h, rows, code.dimension(), m).len() == code.dimension(),
{
    let k: nat = code.dimension();
    let n: nat = code.length();
    let hu: Seq<int> = hashed(h, rows, k, m);
    let ph: Seq<int> = partial_hash(h, rows, k, rows.len(), m);
    assert(hu =~= ph) by {
        assert forall|c: int| 0 <= c < k implies hu[c] == ph[c] by {
            lemma_hashed_entry(h, rows, k, m, c);
        }
    }
    lemma_codeword_of_partial_hash(code, h, rows, rows.len(), m);
    let cws: Seq<Seq<int>> = codewords(code, rows, m);
    let lhs: Seq<int> = code.codeword(hu, m);
    let rhs: Seq<int> = hashed(h, cws, n, m);
    assert(combines(hu, hu, hu, 1, 0, m)) by {
        assert forall|c: int| 0 <= c < hu.len() implies cong(
            #[trigger] hu[c],
            1 * hu[c] + 0 * hu[c],
            m,
        ) by {
            assert(1 * hu[c] + 0 * hu[c] == hu[c]) by (nonlinear_arith);
        }
    }
    code.lemma_codeword_combines(hu, hu, hu, 1, 0, m);
    assert forall|i: int| 0 <= i < n implies lhs[i] == rhs[i] by {
        lemma_hashed_entry(h, cws, n, m, i);
        lemma_cong_mod(sum_products(h, column(cws, i), h.len()), m);
        lemma_cong_residues(lhs[i], rhs[i], m);
    }
    assert(lhs =~= rhs);
}

/// The columns of the prover's small VOLEs hold residues and have the length
/// of the VOLE.
pub proof fn lemma_prover_cols<T: PF>(pairs: Seq<(Seq<u8>, Seq<u8>)>, len: nat, i: int)
    requires
        0 <= i < pairs.len(),
    ensures
        prover_u_cols::<T>(pairs, len)[i].len() == len,
        prover_v_cols::<T>(pairs, len)[i].len() == len,
        all_residues(prover_u_cols::<T>(pairs, len)[i], T::modulus()),
        all_residues(prover_v_cols::<T>(pairs, len)[i], T::modulus()),
{
    T::modulus_exceeds_one();
    lemma_expanded_residues::<T>(pairs[i].0, len);
    lemma_expanded_residues::<T>(pairs[i].1, len);
}

/// A row of the prover's `u` before the correction is the extended codeword
/// of its inverted row, which is the corrected row followed by the
/// correction.
pub proof fn lemma_inverted_row<T: PF>(
    code: &RAAACode,
    pairs: Seq<(Seq<u8>, Seq<u8>)>,
    len: nat,
    j: int,
)
    requires
        code.wf(),
        pairs.len() == code.length(),
        0 <= j < len,
    ensures
        ({
            let m = T::modulus();
            let row = transposed(prover_u_cols::<T>(pairs, len), len)[j];
            let inv = inverted_rows::<T>(code, pairs, len)[j];
            let u = corrected_u_rows::<T>(code, pairs, len)[j];
            let c = correction_rows::<T>(code, pairs, len)[j];
            &&& row.len() == code.length()
            &&& all_residues(row, m)
            &&& inv.len() == code.length()
            &&& all_residues(inv, m)
            &&& code.extended_codeword(inv, m) == row
            &&& u.len() == code.dimension()
            &&& all_residues(u, m)
            &&& c.len() == code.length() - code.dimension()
            &&& all_residues(c, m)
            &&& inv == u + c
        }),
{
    let m: int = T::modulus();
    T::modulus_exceeds_one();
    crate::actors::lemma_dimension_positive(code);
    let cols: Seq<Seq<int>> = prover_u_cols::<T>(pairs, len);
    let row: Seq<int> = transposed(cols, len)[j];
    assert forall|i: int| 0 <= i < row.len() implies 0 <= #[trigger] row[i] < m by {
        lemma_prover_cols::<T>(pairs, len, i);
        assert(row[i] == cols[i][j]);
    }
    code.lemma_extended_codeword_of_inverse(row, m);
    let inv: Seq<int> = inverted_rows::<T>(code, pairs, len)[j];
    let u: Seq<int> = corrected_u_rows::<T>(code, pairs, len)[j];
    let c: Seq<int> = correction_rows::<T>(code, pairs, len)[j];
    assert(inv =~= u + c);
}

/// The verifier's small VOLE of the seed that a choice opens satisfies, entry
/// by entry, the relation of the small VOLE with the prover's outputs.
pub proof fn lemma_verifier_col<T: PF>(
    pairs: Seq<(Seq<u8>, Seq<u8>)>,
    choices: Seq<usize>,
    len: nat,
    i: int,
    j: int,
)
    requires
        choices.len() == pairs.len(),
        0 <= i < pairs.len(),
        0 <= j < len,
    ensures
        verifier_q_cols::<T>(opened_seeds(pairs, choices), choices, len)[i].len() == len,
        cong(
            verifier_q_cols::<T>(opened_seeds(pairs, choices), choices, len)[i][j],
            prover_u_cols::<T>(pairs, len)[i][j] * verifier_deltas(choices)[i] + prover_v_cols::<T>(
                pairs,
                len,
            )[i][j],
            T::modulus(),
        ),
{
    let m: int = T::modulus();
    T::modulus_exceeds_one();
    let delta: bool = choices[i] != 0;
    lemma_small_vole_correct::<T>(pairs[i].0, pairs[i].1, len, delta);
    lemma_prover_cols::<T>(pairs, len, i);
    let u: Seq<int> = small_vole_u::<T>(pairs[i].0, pairs[i].1, len);
    let v: Seq<int> = small_vole_v::<T>(pairs[i].0, len);
    let q: Seq<int> = verifier_q_cols::<T>(opened_seeds(pairs, choices), choices, len)[i];
    assert(q == vec_add(vec_scale(u, bit_value(delta), m), v, m));
    lemma_cong_mod((u[j] * bit_value(delta)) % m + v[j], m);
    lemma_cong_mod(u[j] * bit_value(delta), m);
    lemma_cong_add((u[j] * bit_value(delta)) % m, u[j] * bit_value(delta), v[j], v[j], m);
}

/// The subspace VOLE is correct: after the correction, a row of the
/// verifier's `q` is, entry by entry, the codeword of the prover's corrected
/// row of `u` times the deltas plus the prover's row of `v`.
pub proof fn lemma_subspace_vole_row<T: PF>(
    code: &RAAACode,
    pairs: Seq<(Seq<u8>, Seq<u8>)>,
    choices: Seq<usize>,
    len: nat,
    j: int,
)
    requires
        code.wf(),
        pairs.len() == code.length(),
        choices.len() == pairs.len(),
        0 <= j < len,
    ensures
        ({
            let m = T::modulus();
            let q = corrected_q_rows(
                code,
                transposed(
                    verifier_q_cols::<T>(opened_seeds(pairs, choices), choices, len),
                    len,
                ),
                verifier_deltas(choices),
                correction_rows::<T>(code, pairs, len),
                m,
            )[j];
            let u = corrected_u_rows::<T>(code, pairs, len)[j];
            let v = transposed(prover_v_cols::<T>(pairs, len), len)[j];
            &&& q.len() == code.length()
            &&& all_residues(q, m)
            &&& v.len() == code.length()
            &&& all_residues(v, m)
            &&& u.len() == code.dimension()
            &&& all_residues(u, m)
            &&& code.codeword(u, m).len() == code.length()
            &&& all_residues(code.codeword(u, m), m)
            &&& forall|i: int|
                0 <= i < code.length() ==> cong(
                    #[trigger] q[i],
                    verifier_deltas(choices)[i] * code.codeword(u, m)[i] + 1 * v[i],
                    m,
                )
        }),
{
    let m: int = T::modulus();
    T::modulus_exceeds_one();
    crate::actors::lemma_dimension_positive(code);
    let n: nat = code.length();
    let k: nat = code.dimension();
    let deltas: Seq<int> = verifier_deltas(choices);
    let corr_rows: Seq<Seq<int>> = correction_rows::<T>(code, pairs, len);
    let q_cols: Seq<Seq<int>> = verifier_q_cols::<T>(opened_seeds(pairs, choices), choices, len);
    let q_rows: Seq<Seq<int>> = transposed(q_cols, len);
    let q: Seq<int> = corrected_q_rows(code, q_rows, deltas, corr_rows, m)[j];
    let u: Seq<int> = corrected_u_rows::<T>(code, pairs, len)[j];
    let c: Seq<int> = corr_rows[j];
    let v_cols: Seq<Seq<int>> = prover_v_cols::<T>(pairs, len);
    let v: Seq<int> = transposed(v_cols, len)[j];
    let u_cols: Seq<Seq<int>> = prover_u_cols::<T>(pairs, len);
    let row: Seq<int> = transposed(u_cols, len)[j];
    let inv: Seq<int> = inverted_rows::<T>(code, pairs, len)[j];
    lemma_inverted_row::<T>(code, pairs, len, j);
    lemma_inverted_row::<T>(code, pairs, len, 0);
    assert(corr_rows[0].len() == n - k);
    let head: Seq<int> = u + zeros((n - k) as nat);
    let tail: Seq<int> = zeros(k) + c;
    assert(combines(inv, head, tail, 1, 1, m)) by {
        assert forall|i: int| 0 <= i < inv.len() implies cong(
            #[trigger] inv[i],
            1 * head[i] + 1 * tail[i],
            m,
        ) by {
            if i < k {
                assert(inv[i] == u[i] && head[i] == u[i] && tail[i] == 0);
            } else {
                assert(inv[i] == c[i - k] && head[i] == 0 && tail[i] == c[i - k]);
            }
        }
    }
    code.lemma_extended_codeword_combines(inv, head, tail, 1, 1, m);
    code.lemma_extended_encoder_extends(u, m);
    let cw: Seq<int> = code.codeword(u, m);
    let e: Seq<int> = code.extended_codeword(tail, m);
    assert(code.extended_codeword(head, m) == cw);
    assert(combines(tail, tail, tail, 1, 0, m)) by {
        assert forall|i: int| 0 <= i < tail.len() implies cong(
            #[trigger] tail[i],
            1 * tail[i] + 0 * tail[i],
            m,
        ) by {
            assert(1 * tail[i] + 0 * tail[i] == tail[i]) by (nonlinear_arith);
        }
    }
    code.lemma_extended_codeword_combines(tail, tail, tail, 1, 0, m);
    assert(e.len() == n);
    assert(q_rows[j].len() == n);
    assert(q == vec_sub(q_rows[j], vec_mul(e, deltas, m), m));
    assert(q.len() == n);
    assert forall|i: int| 0 <= i < n implies 0 <= #[trigger] v[i] < m by {
        lemma_prover_cols::<T>(pairs, len, i);
        assert(v[i] == v_cols[i][j]);
    }
    assert forall|i: int| 0 <= i < n implies cong(
        #[trigger] q[i],
        deltas[i] * cw[i] + 1 * v[i],
        m,
    ) by {
        lemma_verifier_col::<T>(pairs, choices, len, i, j);
        let d: int = deltas[i];
        let qi: int = q_rows[j][i];
        assert(qi == q_cols[i][j]);
        assert(row[i] == u_cols[i][j]);
        assert(v[i] == v_cols[i][j]);
        // row = cw + e, up to congruence
        assert(cong(row[i], 1 * cw[i] + 1 * e[i], m));
        lemma_cong_mul(row[i], 1 * cw[i] + 1 * e[i], d, d, m);
        lemma_cong_add(row[i] * d, (1 * cw[i] + 1 * e[i]) * d, v[i], v[i], m);
        // q = (qi - (e * d) % m) % m
        lemma_cong_mod(e[i] * d, m);
        lemma_cong_sub(qi, (1 * cw[i] + 1 * e[i]) * d + v[i], (e[i] * d) % m, e[i] * d, m);
        lemma_cong_mod(qi - (e[i] * d) % m, m);
        let cwi: int = cw[i];
        let ei: int = e[i];
        let vi: int = v[i];
        assert((1 * cwi + 1 * ei) * d + vi - ei * d == d * cwi + 1 * vi) by (nonlinear_arith);
    }
}

/// A vector of `n` ones.
pub open spec fn ones(n: nat) -> Seq<int> {
    Seq::new(n, |i: int| 1int)
}

/// The verifier's corrected rows of `q` for honest seeds and a correction.
pub open spec fn honest_q_rows<T: PF>(
    code: &RAAACode,
    pairs: Seq<(Seq<u8>, Seq<u8>)>,
    choices: Seq<usize>,
    len: nat,
) -> Seq<Seq<int>> {
    corrected_q_rows(
        code,
        transposed(verifier_q_cols::<T>(opened_seeds(pairs, choices), choices, len), len),
        verifier_deltas(choices),
        correction_rows::<T>(code, pairs, len),
        T::modulus(),
    )
}

/// The consistency check of the subspace VOLE holds of what an honest prover
/// sends: under any challenge, the hash of the prover's `v` is the hash of
/// the verifier's corrected `q` less the codeword of the hash of the
/// prover's corrected `u` times the deltas.
pub proof fn lemma_consistency_check_holds<T: PF>(
    code: &RAAACode,
    pairs: Seq<(Seq<u8>, Seq<u8>)>,
    choices: Seq<usize>,
    len: nat,
    h: Seq<int>,
)
    requires
        code.wf(),
        pairs.len() == code.length(),
        choices.len() == pairs.len(),
        h.len() == len,
    ensures
        ({
            let m = T::modulus();
            let us = corrected_u_rows::<T>(code, pairs, len);
            let q = honest_q_rows::<T>(code, pairs, choices, len);
            let u_hash = vec_mat(h, transposed(us, code.dimension()), m);
            &&& u_hash.len() == code.dimension()
            &&& vec_mat(h, prover_v_cols::<T>(pairs, len), m) == vec_sub(
                vec_mat(h, transposed(q, code.length()), m),
                vec_mul(code.codeword(u_hash, m), verifier_deltas(choices), m),
                m,
            )
        }),
{
    let m: int = T::modulus();
    T::modulus_exceeds_one();
    let n: nat = code.length();
    let k: nat = code.dimension();
    let us: Seq<Seq<int>> = corrected_u_rows::<T>(code, pairs, len);
    let v_cols: Seq<Seq<int>> = prover_v_cols::<T>(pairs, len);
    let vs: Seq<Seq<int>> = transposed(v_cols, len);
    let q: Seq<Seq<int>> = honest_q_rows::<T>(code, pairs, choices, len);
    let deltas: Seq<int> = verifier_deltas(choices);
    let cws: Seq<Seq<int>> = codewords(code, us, m);
    let u_hash: Seq<int> = hashed(h, us, k, m);
    assert forall|j: int| 0 <= j < len implies (#[trigger] us[j]).len() == k by {
        lemma_subspace_vole_row::<T>(code, pairs, choices, len, j);
    }
    lemma_codeword_of_hash(code, h, us, m);
    let cw_hash: Seq<int> = code.codeword(u_hash, m);
    assert(cw_hash.len() == n);
    let lhs: Seq<int> = vec_mat(h, v_cols, m);
    let hq: Seq<int> = hashed(h, q, n, m);
    let rhs: Seq<int> = vec_sub(hq, vec_mul(cw_hash, deltas, m), m);
    assert(lhs.len() == rhs.len());
    assert forall|i: int| 0 <= i < n implies lhs[i] == rhs[i] by {
        assert forall|j: int| 0 <= j < h.len() implies cong(
            #[trigger] q[j][i],
            deltas[i] * cws[j][i] + ones(n)[i] * vs[j][i],
            m,
        ) by {
            lemma_subspace_vole_row::<T>(code, pairs, choices, len, j);
        }
        lemma_hashed_linear(h, q, cws, vs, deltas, ones(n), n, m, i);
        lemma_hashed_entry(h, vs, n, m, i);
        lemma_hashed_entry(h, q, n, m, i);
        lemma_prover_cols::<T>(pairs, len, i);
        assert(column(vs, i) =~= v_cols[i]);
        let hv: int = hashed(h, vs, n, m)[i];
        assert(lhs[i] == hv);
        let hc: int = hashed(h, cws, n, m)[i];
        assert(cw_hash[i] == hc);
        let d: int = deltas[i];
        // hq ≡ d * hc + hv, so hv ≡ hq - hc * d.
        lemma_cong_mod(hc * d, m);
        lemma_cong_sub(hq[i], d * hc + 1 * hv, (hc * d) % m, hc * d, m);
        assert(d * hc + 1 * hv - hc * d == hv) by (nonlinear_arith);
        lemma_cong_mod(hq[i] - (hc * d) % m, m);
        lemma_cong_mod(sum_products(h, column(vs, i), h.len()), m);
        lemma_cong_residues(lhs[i], rhs[i], m);
    }
    assert(lhs =~= rhs);
}

/// The check of the S matrix holds of what an honest prover sends: under any
/// global `delta` and any challenge, the hash of the first half of the
/// verifier's `q` times `delta` plus the second half is the hash of the same
/// combination of the prover's `v` plus the hash of the encoded rows of the S
/// matrix times the deltas.
pub proof fn lemma_s_matrix_check_holds<T: PF>(
    code: &RAAACode,
    pairs: Seq<(Seq<u8>, Seq<u8>)>,
    choices: Seq<usize>,
    len: nat,
    delta: int,
    chi: Seq<int>,
)
    requires
        code.wf(),
        pairs.len() == code.length(),
        choices.len() == pairs.len(),
        len % 2 == 0,
        chi.len() == len / 2,
    ensures
        ({
            let m = T::modulus();
            let half = (len / 2) as int;
            let us = corrected_u_rows::<T>(code, pairs, len);
            let vs = transposed(prover_v_cols::<T>(pairs, len), len);
            let q = honest_q_rows::<T>(code, pairs, choices, len);
            vec_mat(
                chi,
                transposed(
                    mat_add(
                        mat_scale(q.subrange(0, half), delta, m),
                        q.subrange(half, len as int),
                        m,
                    ),
                    code.length(),
                ),
                m,
            ) == vec_add(
                s_check_of(
                    vs.subrange(0, half),
                    vs.subrange(half, len as int),
                    delta,
                    chi,
                    code.length(),
                    m,
                ),
                vec_mat(
                    chi,
                    transposed(
                        encoded_s_rows(
                            code,
                            s_matrix_of(
                                us.subrange(0, half),
                                us.subrange(half, len as int),
                                delta,
                                m,
                            ),
                            verifier_deltas(choices),
                            m,
                        ),
                        code.length(),
                    ),
                    m,
                ),
                m,
            )
        }),
{
    let m: int = T::modulus();
    T::modulus_exceeds_one();
    let n: nat = code.length();
    let k: nat = code.dimension();
    let half: int = (len / 2) as int;
    let us: Seq<Seq<int>> = corrected_u_rows::<T>(code, pairs, len);
    let vs: Seq<Seq<int>> = transposed(prover_v_cols::<T>(pairs, len), len);
    let q: Seq<Seq<int>> = honest_q_rows::<T>(code, pairs, choices, len);
    let deltas: Seq<int> = verifier_deltas(choices);
    let u1: Seq<Seq<int>> = us.subrange(0, half);
    let u2: Seq<Seq<int>> = us.subrange(half, len as int);
    let v1: Seq<Seq<int>> = vs.subrange(0, half);
    let v2: Seq<Seq<int>> = vs.subrange(half, len as int);
    let q1: Seq<Seq<int>> = q.subrange(0, half);
    let q2: Seq<Seq<int>> = q.subrange(half, len as int);
    let z: Seq<Seq<int>> = mat_add(mat_scale(q1, delta, m), q2, m);
    let vsum: Seq<Seq<int>> = mat_add(mat_scale(v1, delta, m), v2, m);
    let s: Seq<Seq<int>> = s_matrix_of(u1, u2, delta, m);
    let es: Seq<Seq<int>> = encoded_s_rows(code, s, deltas, m);
    let lhs: Seq<int> = hashed(chi, z, n, m);
    let hes: Seq<int> = hashed(chi, es, n, m);
    let hvs: Seq<int> = hashed(chi, vsum, n, m);
    let rhs: Seq<int> = vec_add(hvs, hes, m);
    assert(s_check_of(v1, v2, delta, chi, n, m) == hvs);
    assert(lhs.len() == rhs.len());
    assert forall|i: int| 0 <= i < n implies lhs[i] == rhs[i] by {
        assert forall|j: int| 0 <= j < chi.len() implies cong(
            #[trigger] z[j][i],
            ones(n)[i] * es[j][i] + ones(n)[i] * vsum[j][i],
            m,
        ) by {
            lemma_subspace_vole_row::<T>(code, pairs, choices, len, j);
            lemma_subspace_vole_row::<T>(code, pairs, choices, len, half + j);
            let a: Seq<int> = u1[j];
            let b: Seq<int> = u2[j];
            assert(a == us[j] && b == us[half + j]);
            assert(q1[j] == q[j] && q2[j] == q[half + j]);
            assert(v1[j] == vs[j] && v2[j] == vs[half + j]);
            let sj: Seq<int> = s[j];
            assert(sj == vec_add(vec_scale(a, delta, m), b, m));
            assert(combines(sj, a, b, delta, 1, m)) by {
                assert forall|c: int| 0 <= c < sj.len() implies cong(
                    #[trigger] sj[c],
                    delta * a[c] + 1 * b[c],
                    m,
                ) by {
                    lemma_cong_mod((a[c] * delta) % m + b[c], m);
                    lemma_cong_mod(a[c] * delta, m);
                    lemma_cong_add((a[c] * delta) % m, a[c] * delta, b[c], b[c], m);
                    let ac: int = a[c];
                    let bc: int = b[c];
                    assert(ac * delta + bc == delta * ac + 1 * bc) by (nonlinear_arith);
                }
            }
            code.lemma_codeword_combines(sj, a, b, delta, 1, m);
            let c1: int = code.codeword(a, m)[i];
            let c2: int = code.codeword(b, m)[i];
            let cs: int = code.codeword(sj, m)[i];
            let d: int = deltas[i];
            let x1: int = v1[j][i];
            let x2: int = v2[j][i];
            let y1: int = q1[j][i];
            let y2: int = q2[j][i];
            assert(cong(cs, delta * c1 + 1 * c2, m));
            assert(cong(y1, d * c1 + 1 * x1, m));
            assert(cong(y2, d * c2 + 1 * x2, m));
            // z = ((y1 * delta) % m + y2) % m
            assert(z[j][i] == ((y1 * delta) % m + y2) % m);
            lemma_cong_mul(y1, d * c1 + 1 * x1, delta, delta, m);
            lemma_cong_mod(y1 * delta, m);
            lemma_cong_add((y1 * delta) % m, (d * c1 + 1 * x1) * delta, y2, d * c2 + 1 * x2, m);
            lemma_cong_mod((y1 * delta) % m + y2, m);
            // es = (cs * d) % m
            assert(es[j][i] == (cs * d) % m);
            lemma_cong_mul(cs, delta * c1 + 1 * c2, d, d, m);
            lemma_cong_mod(cs * d, m);
            // vsum = ((x1 * delta) % m + x2) % m
            assert(vsum[j][i] == ((x1 * delta) % m + x2) % m);
            lemma_cong_mod(x1 * delta, m);
            lemma_cong_add((x1 * delta) % m, x1 * delta, x2, x2, m);
            lemma_cong_mod((x1 * delta) % m + x2, m);
            lemma_cong_add(
                es[j][i],
                (delta * c1 + 1 * c2) * d,
                vsum[j][i],
                x1 * delta + x2,
                m,
            );
            assert((d * c1 + 1 * x1) * delta + (d * c2 + 1 * x2) == (delta * c1 + 1 * c2) * d
                + (x1 * delta + x2)) by (nonlinear_arith);
            assert(ones(n)[i] * es[j][i] + ones(n)[i] * vsum[j][i] == es[j][i] + vsum[j][i])
                by (nonlinear_arith)
                requires
                    ones(n)[i] == 1,
            ;
        }
        lemma_hashed_linear(chi, z, es, vsum, ones(n), ones(n), n, m, i);
        lemma_hashed_entry(chi, z, n, m, i);
        lemma_hashed_entry(chi, es, n, m, i);
        lemma_hashed_entry(chi, vsum, n, m, i);
        lemma_cong_mod(sum_products(chi, column(z, i), chi.len()), m);
        lemma_cong_mod(hvs[i] + hes[i], m);
        assert(ones(n)[i] * hes[i] + ones(n)[i] * hvs[i] == hvs[i] + hes[i]) by (nonlinear_arith)
            requires
                ones(n)[i] == 1,
        ;
        lemma_cong_residues(lhs[i], rhs[i], m);
    }
    assert(lhs =~= rhs);
}

/// Rows put one after the other keep a combination that holds row by row.
pub proof fn lemma_flattened_combines(
    z: Seq<Seq<int>>,
    a: Seq<Seq<int>>,
    b: Seq<Seq<int>>,
    c: int,
    d: int,
    n: nat,
    m: int,
)
    requires
        n <= z.len(),
        n <= a.len(),
        n <= b.len(),
        forall|j: int| 0 <= j < n ==> combines(#[trigger] z[j], a[j], b[j], c, d, m),
    ensures
        combines(flattened(z, n), flattened(a, n), flattened(b, n), c, d, m),
    decreases n,
{
    if n > 0 {
        let p: nat = (n - 1) as nat;
        lemma_flattened_combines(z, a, b, c, d, p, m);
        assert(combines(z[p as int], a[p as int], b[p as int], c, d, m));
        let fz: Seq<int> = flattened(z, n);
        let fa: Seq<int> = flattened(a, n);
        let fb: Seq<int> = flattened(b, n);
        let pz: Seq<int> = flattened(z, p);
        let pa: Seq<int> = flattened(a, p);
        let pb: Seq<int> = flattened(b, p);
        assert forall|t: int| 0 <= t < fz.len() implies cong(
            #[trigger] fz[t],
            c * fa[t] + d * fb[t],
            m,
        ) by {
            if t < pz.len() {
                assert(cong(pz[t], c * pa[t] + d * pb[t], m));
            } else {
                let r: int = t - pz.len();
                assert(cong(z[p as int][r], c * a[p as int][r] + d * b[p as int][r], m));
            }
        }
    }
}

/// A sum of sparse products of a combination is the combination of the sums.
pub proof fn lemma_sum_sparse_products_combines(
    z: Seq<int>,
    a: Seq<int>,
    b: Seq<int>,
    c: int,
    d: int,
    row: Seq<(int, int)>,
    n: nat,
    m: int,
)
    requires
        m > 0,
        combines(z, a, b, c, d, m),
        indices_below(row, z.len() as int),
        n <= row.len(),
    ensures
        cong(
            sum_sparse_products(z, row, n),
            c * sum_sparse_products(a, row, n) + d * sum_sparse_products(b, row, n),
            m,
        ),
    decreases n,
{
    if n == 0 {
        assert(c * 0 + d * 0 == 0) by (nonlinear_arith);
    } else {
        let p: nat = (n - 1) as nat;
        lemma_sum_sparse_products_combines(z, a, b, c, d, row, p, m);
        let idx: int = row[p as int].0;
        let val: int = row[p as int].1;
        assert(0 <= idx < z.len());
        assert(cong(z[idx], c * a[idx] + d * b[idx], m));
        lemma_cong_mul(z[idx], c * a[idx] + d * b[idx], val, val, m);
        lemma_cong_add(
            sum_sparse_products(z, row, p),
            c * sum_sparse_products(a, row, p) + d * sum_sparse_products(b, row, p),
            z[idx] * val,
            (c * a[idx] + d * b[idx]) * val,
            m,
        );
        let sa: int = sum_sparse_products(a, row, p);
        let sb: int = sum_sparse_products(b, row, p);
        let ai: int = a[idx];
        let bi: int = b[idx];
        assert((c * ai + d * bi) * val == c * (ai * val) + d * (bi * val)) by (nonlinear_arith);
        assert(c * (sa + ai * val) == c * sa + c * (ai * val)) by (nonlinear_arith);
        assert(d * (sb + bi * val) == d * sb + d * (bi * val)) by (nonlinear_arith);
    }
}

/// A dot product with a sparse vector keeps a combination.
pub proof fn lemma_sparse_dot_combines(
    z: Seq<int>,
    a: Seq<int>,
    b: Seq<int>,
    c: int,
    d: int,
    row: Seq<(int, int)>,
    m: int,
)
    requires
        m > 0,
        combines(z, a, b, c, d, m),
        indices_below(row, z.len() as int),
    ensures
        cong(sparse_dot(z, row, m), c * sparse_dot(a, row, m) + d * sparse_dot(b, row, m), m),
{
    lemma_sum_sparse_products_combines(z, a, b, c, d, row, row.len(), m);
    let sz: int = sum_sparse_products(z, row, row.len());
    let sa: int = sum_sparse_products(a, row, row.len());
    let sb: int = sum_sparse_products(b, row, row.len());
    lemma_cong_mod(sz, m);
    lemma_cong_mod(sa, m);
    lemma_cong_mod(sb, m);
    lemma_cong_mul(c, c, sa % m, sa, m);
    lemma_cong_mul(d, d, sb % m, sb, m);
    lemma_cong_add(c * (sa % m), c * sa, d * (sb % m), d * sb, m);
}

/// A weighted sum keeps a combination.
pub proof fn lemma_weighted_sum_combines(
    z: Seq<int>,
    a: Seq<int>,
    b: Seq<int>,
    c: int,
    d: int,
    gamma: int,
    n: nat,
    m: int,
)
    requires
        m > 0,
        combines(z, a, b, c, d, m),
        n <= z.len(),
    ensures
        cong(
            weighted_sum(z, gamma, n),
            c * weighted_sum(a, gamma, n) + d * weighted_sum(b, gamma, n),
            m,
        ),
    decreases n,
{
    if n == 0 {
        assert(c * 0 + d * 0 == 0) by (nonlinear_arith);
    } else {
        let p: nat = (n - 1) as nat;
        lemma_weighted_sum_combines(z, a, b, c, d, gamma, p, m);
        let w: int = power(gamma, p);
        assert(cong(z[p as int], c * a[p as int] + d * b[p as int], m));
        lemma_cong_mul(w, w, z[p as int], c * a[p as int] + d * b[p as int], m);
        lemma_cong_add(
            weighted_sum(z, gamma, p),
            c * weighted_sum(a, gamma, p) + d * weighted_sum(b, gamma, p),
            w * z[p as int],
            w * (c * a[p as int] + d * b[p as int]),
            m,
        );
        let sa: int = weighted_sum(a, gamma, p);
        let sb: int = weighted_sum(b, gamma, p);
        let ap: int = a[p as int];
        let bp: int = b[p as int];
        assert(w * (c * ap + d * bp) == c * (w * ap) + d * (w * bp)) by (nonlinear_arith);
        assert(c * (sa + w * ap) == c * sa + c * (w * ap)) by (nonlinear_arith);
        assert(d * (sb + w * bp) == d * sb + d * (w * bp)) by (nonlinear_arith);
    }
}

/// For a gate that the values satisfy, what the verifier computes from its
/// keys is `delta` times the coefficient that the prover sends plus the
/// constant that it sends.
proof fn lemma_gate(
    ka: int,
    kb: int,
    kc: int,
    xa: int,
    xb: int,
    xc: int,
    ma: int,
    mb: int,
    mc: int,
    delta: int,
    m: int,
)
    requires
        m > 0,
        cong(ka, delta * xa + 1 * ma, m),
        cong(kb, delta * xb + 1 * mb, m),
        cong(kc, delta * xc + 1 * mc, m),
        (xa * xb) % m == xc,
        0 <= mc < m,
    ensures
        cong(
            ((ka * kb) % m - (kc * delta) % m) % m,
            delta * ((((xa * mb) % m + (xb * ma) % m) % m - mc) % m) + 1 * ((ma * mb) % m),
            m,
        ),
{
    // Left side.
    lemma_cong_mul(ka, delta * xa + 1 * ma, kb, delta * xb + 1 * mb, m);
    lemma_cong_mul(kc, delta * xc + 1 * mc, delta, delta, m);
    lemma_cong_mod(ka * kb, m);
    lemma_cong_mod(kc * delta, m);
    lemma_cong_sub(
        (ka * kb) % m,
        (delta * xa + 1 * ma) * (delta * xb + 1 * mb),
        (kc * delta) % m,
        (delta * xc + 1 * mc) * delta,
        m,
    );
    lemma_cong_mod((ka * kb) % m - (kc * delta) % m, m);
    // Right side.
    let lin_int: int = xa * mb + xb * ma - mc;
    lemma_cong_mod(xa * mb, m);
    lemma_cong_mod(xb * ma, m);
    lemma_cong_add((xa * mb) % m, xa * mb, (xb * ma) % m, xb * ma, m);
    lemma_cong_mod((xa * mb) % m + (xb * ma) % m, m);
    lemma_cong_sub(((xa * mb) % m + (xb * ma) % m) % m, xa * mb + xb * ma, mc, mc, m);
    let lin: int = (((xa * mb) % m + (xb * ma) % m) % m - mc) % m;
    lemma_cong_mod(((xa * mb) % m + (xb * ma) % m) % m - mc, m);
    assert(cong(lin, lin_int, m));
    lemma_cong_mul(delta, delta, lin, lin_int, m);
    lemma_cong_mod(ma * mb, m);
    lemma_cong_add(delta * lin, delta * lin_int, 1 * ((ma * mb) % m), ma * mb, m);
    // The satisfied gate: xa * xb is congruent to xc.
    lemma_cong_mod(xa * xb, m);
    assert(cong(xc, xa * xb, m));
    lemma_cong_mul(delta * delta, delta * delta, xc, xa * xb, m);
    let square: int = delta * delta;
    lemma_cong_add(
        square * xc,
        square * (xa * xb),
        delta * lin_int + ma * mb - square * xc,
        delta * lin_int + ma * mb - square * xc,
        m,
    );
    let p1: int = xa * mb;
    let p2: int = xb * ma;
    let p3: int = xa * xb;
    let p4: int = ma * mb;
    let da: int = delta * xa;
    let db: int = delta * xb;
    assert((da + ma) * (db + mb) == da * db + da * mb + ma * db + ma * mb) by (nonlinear_arith);
    assert(da * db == square * p3) by (nonlinear_arith)
        requires
            da == delta * xa,
            db == delta * xb,
            square == delta * delta,
            p3 == xa * xb,
    ;
    assert(da * mb == delta * p1) by (nonlinear_arith)
        requires
            da == delta * xa,
            p1 == xa * mb,
    ;
    assert(ma * db == delta * p2) by (nonlinear_arith)
        requires
            db == delta * xb,
            p2 == xb * ma,
    ;
    assert((delta * xc + mc) * delta == square * xc + delta * mc) by (nonlinear_arith)
        requires
            square == delta * delta,
    ;
    assert(delta * (p1 + p2 - mc) == delta * p1 + delta * p2 - delta * mc) by (nonlinear_arith);
    assert(1 * ma == ma && 1 * mb == mb && 1 * mc == mc);
    assert((delta * xa + 1 * ma) * (delta * xb + 1 * mb) - (delta * xc + 1 * mc) * delta == square
        * (xa * xb) + (delta * lin_int + ma * mb - square * xc));
    assert(square * xc + (delta * lin_int + ma * mb - square * xc) == delta * lin_int + ma * mb);
}

/// The Quicksilver check is complete: where the keys are `delta` times the
/// values plus the masks, the values satisfy every gate, and the key of the
/// hiding pair is `delta` times its first entry plus its second, what the
/// verifier computes is the prover's first coefficient times `delta` plus
/// the second.
pub proof fn lemma_quicksilver_complete<T: PF>(
    r1cs: &R1CS<T>,
    x: Seq<int>,
    v: Seq<int>,
    q: Seq<int>,
    delta: int,
    gamma: int,
    mask: (int, int),
    mask_key: int,
)
    requires
        combines(q, x, v, delta, 1, T::modulus()),
        r1cs.wf(x.len() as int),
        r1cs.satisfied_by(x),
        cong(mask_key, delta * mask.0 + 1 * mask.1, T::modulus()),
    ensures
        aggregate(key_terms(q, delta, r1cs), gamma, mask_key, T::modulus()) == (aggregate(
            linear_terms(x, v, r1cs),
            gamma,
            mask.0,
            T::modulus(),
        ) * delta + aggregate(constant_terms(v, r1cs), gamma, mask.1, T::modulus()))
            % T::modulus(),
{
    let m: int = T::modulus();
    T::modulus_exceeds_one();
    let a: Seq<Seq<(int, int)>> = r1cs.a_rows@;
    let b: Seq<Seq<(int, int)>> = r1cs.b_rows@;
    let c: Seq<Seq<(int, int)>> = r1cs.c_rows@;
    let g: nat = a.len();
    let kt: Seq<int> = key_terms(q, delta, r1cs);
    let lt: Seq<int> = linear_terms(x, v, r1cs);
    let ct: Seq<int> = constant_terms(v, r1cs);
    assert(kt.len() == g && lt.len() == g && ct.len() == g);
    assert(combines(v, v, v, 1, 0, m)) by {
        assert forall|t: int| 0 <= t < v.len() implies cong(#[trigger] v[t], 1 * v[t] + 0 * v[t], m) by {
            assert(1 * v[t] + 0 * v[t] == v[t]) by (nonlinear_arith);
        }
    }
    assert(combines(kt, lt, ct, delta, 1, m)) by {
        assert forall|j: int| 0 <= j < g implies cong(
            #[trigger] kt[j],
            delta * lt[j] + 1 * ct[j],
            m,
        ) by {
            assert(indices_below(a[j], x.len() as int));
            assert(indices_below(b[j], x.len() as int));
            assert(indices_below(c[j], x.len() as int));
            lemma_sparse_dot_combines(q, x, v, delta, 1, a[j], m);
            lemma_sparse_dot_combines(q, x, v, delta, 1, b[j], m);
            lemma_sparse_dot_combines(q, x, v, delta, 1, c[j], m);
            let xa: int = sparse_dot(x, a[j], m);
            let xb: int = sparse_dot(x, b[j], m);
            let xc: int = sparse_dot(x, c[j], m);
            assert((xa * xb) % m == xc);
            lemma_gate(
                sparse_dot(q, a[j], m),
                sparse_dot(q, b[j], m),
                sparse_dot(q, c[j], m),
                xa,
                xb,
                xc,
                sparse_dot(v, a[j], m),
                sparse_dot(v, b[j], m),
                sparse_dot(v, c[j], m),
                delta,
                m,
            );
        }
    }
    lemma_weighted_sum_combines(kt, lt, ct, delta, 1, gamma, g, m);
    let wk: int = weighted_sum(kt, gamma, g);
    let wl: int = weighted_sum(lt, gamma, g);
    let wc: int = weighted_sum(ct, gamma, g);
    let big_a: int = (wl + mask.0) % m;
    let big_b: int = (wc + mask.1) % m;
    lemma_cong_add(wk, delta * wl + 1 * wc, mask_key, delta * mask.0 + 1 * mask.1, m);
    lemma_cong_mod(wl + mask.0, m);
    lemma_cong_mod(wc + mask.1, m);
    lemma_cong_mul(big_a, wl + mask.0, delta, delta, m);
    lemma_cong_add(big_a * delta, (wl + mask.0) * delta, big_b, wc + mask.1, m);
    let m0: int = mask.0;
    let m1: int = mask.1;
    assert((delta * wl + 1 * wc) + (delta * m0 + 1 * m1) == (wl + m0) * delta + (wc + m1))
        by (nonlinear_arith);
}

/// Rows of residues put one after the other are residues.
pub proof fn lemma_flattened_residues(mat: Seq<Seq<int>>, n: nat, m: int)
    requires
        n <= mat.len(),
        forall|j: int| 0 <= j < n ==> all_residues(#[trigger] mat[j], m),
    ensures
        all_residues(flattened(mat, n), m),
    decreases n,
{
    if n > 0 {
        let p: nat = (n - 1) as nat;
        lemma_flattened_residues(mat, p, m);
        assert(all_residues(mat[p as int], m));
        let f: Seq<int> = flattened(mat, n);
        let before: Seq<int> = flattened(mat, p);
        assert forall|t: int| 0 <= t < f.len() implies 0 <= #[trigger] f[t] < m by {
            if t < before.len() {
                assert(f[t] == before[t]);
            } else {
                assert(f[t] == mat[p as int][t - before.len()]);
            }
        }
    }
}

/// The keys that the verifier makes from the S matrix and the witness
/// commitment of an honest prover are the global `delta` times the witness
/// plus the second half of the prover's `u`; and the key of the hiding pair
/// is `delta` times the entry of the first half behind the witness plus
/// that of the second half.
pub proof fn lemma_honest_keys<T: PF>(
    code: &RAAACode,
    pairs: Seq<(Seq<u8>, Seq<u8>)>,
    len: nat,
    witness: Seq<Seq<int>>,
    delta: int,
)
    requires
        code.wf(),
        pairs.len() == code.length(),
        len % 2 == 0,
        len >= 2,
        witness.len() == len / 2 - 1,
        rows_of_width(witness, code.dimension() as int),
    ensures
        ({
            let m = T::modulus();
            let half = (len / 2) as int;
            let rows = witness.len();
            let us = corrected_u_rows::<T>(code, pairs, len);
            let u1 = us.subrange(0, half);
            let u2 = us.subrange(half, len as int);
            let s = s_matrix_of(u1, u2, delta, m);
            let wc = mat_sub(witness, us, m);
            let keys = flattened(mat_add(s, mat_scale(wc, delta, m), m), rows);
            &&& s.len() == half
            &&& rows_of_width(s, code.dimension() as int)
            &&& wc.len() == rows
            &&& rows_of_width(wc, code.dimension() as int)
            &&& combines(keys, flattened(witness, rows), flattened(u2, rows), delta, 1, m)
            &&& all_residues(keys, m)
            &&& keys.len() == rows * code.dimension()
            &&& cong(s[rows as int][0], delta * u1[rows as int][0] + 1 * u2[rows as int][0], m)
        }),
{
    let m: int = T::modulus();
    T::modulus_exceeds_one();
    crate::actors::lemma_dimension_positive(code);
    let k: nat = code.dimension();
    let half: int = (len / 2) as int;
    let rows: nat = witness.len();
    let us: Seq<Seq<int>> = corrected_u_rows::<T>(code, pairs, len);
    let u1: Seq<Seq<int>> = us.subrange(0, half);
    let u2: Seq<Seq<int>> = us.subrange(half, len as int);
    let s: Seq<Seq<int>> = s_matrix_of(u1, u2, delta, m);
    let wc: Seq<Seq<int>> = mat_sub(witness, us, m);
    let key_rows: Seq<Seq<int>> = mat_add(s, mat_scale(wc, delta, m), m);
    let keys: Seq<int> = flattened(key_rows, rows);
    assert forall|j: int| 0 <= j < len implies (#[trigger] us[j]).len() == k by {
        lemma_inverted_row::<T>(code, pairs, len, j);
    }
    assert forall|j: int| 0 <= j < s.len() implies (#[trigger] s[j]).len() == k by {
        assert(u1[j] == us[j] && u2[j] == us[half + j]);
    }
    assert forall|j: int| 0 <= j < wc.len() implies (#[trigger] wc[j]).len() == k by {
        assert(witness[j].len() == k);
    }
    assert forall|j: int| 0 <= j < rows implies combines(
        #[trigger] key_rows[j],
        witness[j],
        u2[j],
        delta,
        1,
        m,
    ) && all_residues(key_rows[j], m) by {
        assert(u1[j] == us[j] && u2[j] == us[half + j]);
        assert(witness[j].len() == k);
        let kr: Seq<int> = key_rows[j];
        assert(kr == vec_add(s[j], vec_scale(wc[j], delta, m), m));
        assert forall|c: int| 0 <= c < kr.len() implies cong(
            #[trigger] kr[c],
            delta * witness[j][c] + 1 * u2[j][c],
            m,
        ) by {
            let a: int = u1[j][c];
            let b: int = u2[j][c];
            let w: int = witness[j][c];
            let sc: int = s[j][c];
            let wcc: int = wc[j][c];
            assert(sc == ((a * delta) % m + b) % m);
            assert(wcc == (w - a) % m);
            lemma_cong_mod(a * delta, m);
            lemma_cong_add((a * delta) % m, a * delta, b, b, m);
            lemma_cong_mod((a * delta) % m + b, m);
            lemma_cong_mod(w - a, m);
            lemma_cong_mul(wcc, w - a, delta, delta, m);
            lemma_cong_mod(wcc * delta, m);
            lemma_cong_add(sc, a * delta + b, (wcc * delta) % m, (w - a) * delta, m);
            lemma_cong_mod(sc + (wcc * delta) % m, m);
            assert(a * delta + b + (w - a) * delta == delta * w + 1 * b) by (nonlinear_arith);
        }
    }
    lemma_flattened_combines(key_rows, witness, u2, delta, 1, rows, m);
    lemma_flattened_residues(key_rows, rows, m);
    assert(rows_of_width(key_rows, k as int)) by {
        assert forall|j: int| 0 <= j < key_rows.len() implies (#[trigger] key_rows[j]).len()
            == k by {
            assert(s[j].len() == k);
            assert(wc[j].len() == k);
        }
    }
    crate::actors::lemma_flattened_len(key_rows, rows, k);
    // The key of the hiding pair.
    let r: int = rows as int;
    assert(u1[r] == us[r] && u2[r] == us[half + r]);
    let a: int = u1[r][0];
    let b: int = u2[r][0];
    assert(s[r][0] == ((a * delta) % m + b) % m);
    lemma_cong_mod(a * delta, m);
    lemma_cong_add((a * delta) % m, a * delta, b, b, m);
    lemma_cong_mod((a * delta) % m + b, m);
    assert(a * delta + b == delta * a + 1 * b) by (nonlinear_arith);
}

/// Openings of the values and masks agree with keys that are `delta` times
/// the values plus the masks.
pub proof fn lemma_openings_agree(
    keys: Seq<int>,
    values: Seq<int>,
    masks: Seq<int>,
    delta: int,
    indices: Seq<usize>,
    m: int,
)
    requires
        m > 0,
        combines(keys, values, masks, delta, 1, m),
        all_residues(keys, m),
        wires_below(indices, keys.len() as int),
    ensures
        openings_agree(keys, delta, indices, opened_wires(values, masks, indices), m),
{
    let openings: Seq<(int, int)> = opened_wires(values, masks, indices);
    assert forall|i: int| 0 <= i < indices.len() implies (#[trigger] openings[i].0 * delta
        + openings[i].1) % m == keys[indices[i] as int] by {
        let idx: int = indices[i] as int;
        assert(0 <= idx < keys.len());
        assert(cong(keys[idx], delta * values[idx] + 1 * masks[idx], m));
        let x: int = values[idx];
        let v: int = masks[idx];
        assert(x * delta + v == delta * x + 1 * v) by (nonlinear_arith);
        lemma_cong_mod(x * delta + v, m);
        lemma_cong_residues((x * delta + v) % m, keys[idx], m);
    }
}

/// Whether two codes have the same number of repetitions and the same
/// permutations.
pub open spec fn same_code(a: &RAAACode, b: &RAAACode) -> bool {
    &&& a.q == b.q
    &&& forall|round: int|
        0 <= round < 3 ==> #[trigger] a.forward(round) == b.forward(round) && a.backward(round)
            == b.backward(round)
}

/// Whether two circuits have the same constraints, the same public wires and
/// the same number of wires.
pub open spec fn same_circuit<T: PF>(a: &R1CSWithMetadata<T>, b: &R1CSWithMetadata<T>) -> bool {
    &&& a.r1cs.a_rows@ == b.r1cs.a_rows@
    &&& a.r1cs.b_rows@ == b.r1cs.b_rows@
    &&& a.r1cs.c_rows@ == b.r1cs.c_rows@
    &&& a.public_inputs_indices@ == b.public_inputs_indices@
    &&& a.public_outputs_indices@ == b.public_outputs_indices@
    &&& a.unpadded_wtns_len == b.unpadded_wtns_len
}

/// Codes with the same repetitions and permutations encode alike.
pub proof fn lemma_same_code(a: &RAAACode, b: &RAAACode, x: Seq<int>, m: int)
    requires
        same_code(a, b),
    ensures
        a.length() == b.length(),
        a.dimension() == b.dimension(),
        a.wf() == b.wf(),
        a.codeword(x, m) == b.codeword(x, m),
        a.extended_codeword(x, m) == b.extended_codeword(x, m),
        a.extended_message(x, m) == b.extended_message(x, m),
{
    assert(a.forward(0) == b.forward(0) && a.backward(0) == b.backward(0));
    assert(a.forward(1) == b.forward(1) && a.backward(1) == b.backward(1));
    assert(a.forward(2) == b.forward(2) && a.backward(2) == b.backward(2));
}

/// The commitments that honest openings reconstruct are the commitments to
/// the seed pairs.
pub proof fn lemma_honest_openings(pairs: Seq<(Seq<u8>, Seq<u8>)>, choices: Seq<usize>)
    requires
        choices.len() == pairs.len(),
    ensures
        reconstructed_commitments(
            opened_seeds(pairs, choices),
            choices,
            hidden_seed_hashes(pairs, choices),
        ) == pair_commitments(pairs),
{
    let rec: Seq<Seq<u8>> = reconstructed_commitments(
        opened_seeds(pairs, choices),
        choices,
        hidden_seed_hashes(pairs, choices),
    );
    assert forall|i: int| 0 <= i < pairs.len() implies rec[i] == pair_commitments(pairs)[i] by {
        lemma_opening_reconstructs(pairs[i].0, pairs[i].1);
    }
    assert(rec =~= pair_commitments(pairs));
}

/// An honest transcript: a prover and a verifier for the same circuit, code
/// and dimensions; a commitment and a proof that the prover makes from the
/// secrets of a VOLE; and a witness that satisfies the circuit.
pub open spec fn honest_transcript<T: PF>(
    prover: &Prover<T>,
    s: SubspaceVOLESecrets<T>,
    cnp: &CommitAndProof<T>,
    verifier: &Verifier<T>,
) -> bool {
    &&& prover.wf()
    &&& verifier.wf()
    &&& same_code(&verifier.code, &prover.code)
    &&& verifier.num_voles == prover.num_voles
    &&& verifier.vole_length == prover.vole_length
    &&& same_circuit(&verifier.circuit, &prover.circuit)
    &&& prover.commits(s, cnp.commitment)
    &&& prover.proves(
        s,
        cnp.commitment.seed_comm@,
        cnp.commitment.witness_comm.elements(),
        cnp.proof,
    )
    &&& prover.circuit.r1cs.satisfied_by(flattened(prover.witness@, prover.witness@.len()))
}

/// The verifier draws the challenges that the prover drew.
proof fn lemma_same_challenges<T: PF>(
    prover: &Prover<T>,
    s: SubspaceVOLESecrets<T>,
    cnp: &CommitAndProof<T>,
    verifier: &Verifier<T>,
)
    requires
        honest_transcript(prover, s, cnp, verifier),
    ensures
        verifier.choices_of(cnp).len() == prover.num_voles,
        verifier.s_challenge_of(cnp).len() == prover.vole_length / 2,
        consistency_challenge::<T>(cnp.commitment.seed_comm@, prover.vole_length as nat).len()
            == prover.vole_length,
        byte_strings(cnp.proof.seed_openings.seed_opens@) == opened_seeds(
            s.seeds(),
            verifier.choices_of(cnp),
        ),
        byte_strings(cnp.proof.seed_openings.seed_proofs@) == hidden_seed_hashes(
            s.seeds(),
            verifier.choices_of(cnp),
        ),
        cnp.proof.s_matrix@ == s_matrix_of(
            s.u1(),
            s.u2(),
            verifier.vith_delta_of(cnp),
            T::modulus(),
        ),
        cnp.proof.s_consistency_check@ == s_check_of(
            s.v1(),
            s.v2(),
            verifier.vith_delta_of(cnp),
            verifier.s_challenge_of(cnp),
            prover.num_voles as nat,
            T::modulus(),
        ),
        verifier.code.length() == prover.code.length(),
        verifier.code.dimension() == prover.code.dimension(),
{
    lemma_same_code(&verifier.code, &prover.code, Seq::empty(), T::modulus());
}

/// Every part of an honest transcript has the size that the verifier asks
/// for.
proof fn lemma_honest_shape<T: PF>(
    prover: &Prover<T>,
    s: SubspaceVOLESecrets<T>,
    cnp: &CommitAndProof<T>,
    verifier: &Verifier<T>,
)
    requires
        honest_transcript(prover, s, cnp, verifier),
    ensures
        verifier.well_shaped(cnp),
{
    let m: int = T::modulus();
    let code: &RAAACode = &prover.code;
    let len: nat = prover.vole_length as nat;
    let pairs: Seq<(Seq<u8>, Seq<u8>)> = s.seeds();
    lemma_same_challenges(prover, s, cnp, verifier);
    lemma_honest_keys::<T>(code, pairs, len, prover.witness@, verifier.vith_delta_of(cnp));
    let corr: Seq<Seq<int>> = correction_rows::<T>(code, pairs, len);
    assert forall|j: int| 0 <= j < corr.len() implies (#[trigger] corr[j]).len() == code.length()
        - code.dimension() by {
        lemma_inverted_row::<T>(code, pairs, len, j);
    }
    assert(byte_strings(cnp.proof.seed_openings.seed_opens@).len()
        == cnp.proof.seed_openings.seed_opens@.len());
    assert(byte_strings(cnp.proof.seed_openings.seed_proofs@).len()
        == cnp.proof.seed_openings.seed_proofs@.len());
}

/// The openings of an honest transcript give the seed commitment.
proof fn lemma_honest_seeds<T: PF>(
    prover: &Prover<T>,
    s: SubspaceVOLESecrets<T>,
    cnp: &CommitAndProof<T>,
    verifier: &Verifier<T>,
)
    requires
        honest_transcript(prover, s, cnp, verifier),
    ensures
        verifier.seeds_committed(cnp),
{
    lemma_same_challenges(prover, s, cnp, verifier);
    lemma_honest_openings(s.seeds(), verifier.choices_of(cnp));
}

/// The verifier's corrected rows of `q` in an honest transcript.
proof fn lemma_honest_q<T: PF>(
    prover: &Prover<T>,
    s: SubspaceVOLESecrets<T>,
    cnp: &CommitAndProof<T>,
    verifier: &Verifier<T>,
)
    requires
        honest_transcript(prover, s, cnp, verifier),
    ensures
        verifier.q_rows_of(cnp) == honest_q_rows::<T>(
            &prover.code,
            s.seeds(),
            verifier.choices_of(cnp),
            prover.vole_length as nat,
        ),
{
    let m: int = T::modulus();
    lemma_same_challenges(prover, s, cnp, verifier);
    let len: nat = prover.vole_length as nat;
    let pairs: Seq<(Seq<u8>, Seq<u8>)> = s.seeds();
    let choices: Seq<usize> = verifier.choices_of(cnp);
    let q_rows: Seq<Seq<int>> = transposed(
        verifier_q_cols::<T>(opened_seeds(pairs, choices), choices, len),
        len,
    );
    let corr: Seq<Seq<int>> = correction_rows::<T>(&prover.code, pairs, len);
    let a: Seq<Seq<int>> = corrected_q_rows(
        &verifier.code,
        q_rows,
        verifier_deltas(choices),
        corr,
        m,
    );
    let b: Seq<Seq<int>> = corrected_q_rows(&prover.code, q_rows, verifier_deltas(choices), corr, m);
    assert forall|i: int| 0 <= i < a.len() implies a[i] == b[i] by {
        lemma_same_code(
            &verifier.code,
            &prover.code,
            zeros((prover.code.length() - corr[0].len()) as nat) + corr[i],
            m,
        );
    }
    assert(a =~= b);
}

/// The consistency check of the subspace VOLE holds of an honest transcript.
proof fn lemma_honest_consistency<T: PF>(
    prover: &Prover<T>,
    s: SubspaceVOLESecrets<T>,
    cnp: &CommitAndProof<T>,
    verifier: &Verifier<T>,
)
    requires
        honest_transcript(prover, s, cnp, verifier),
    ensures
        verifier.consistent(cnp),
{
    let m: int = T::modulus();
    lemma_same_challenges(prover, s, cnp, verifier);
    lemma_honest_q(prover, s, cnp, verifier);
    let len: nat = prover.vole_length as nat;
    let h: Seq<int> = consistency_challenge::<T>(cnp.commitment.seed_comm@, len);
    lemma_consistency_check_holds::<T>(&prover.code, s.seeds(), verifier.choices_of(cnp), len, h);
    lemma_same_code(&verifier.code, &prover.code, cnp.commitment.consistency_check.0@, m);
}

/// The check of the S matrix holds of an honest transcript.
proof fn lemma_honest_s_matrix<T: PF>(
    prover: &Prover<T>,
    s: SubspaceVOLESecrets<T>,
    cnp: &CommitAndProof<T>,
    verifier: &Verifier<T>,
)
    requires
        honest_transcript(prover, s, cnp, verifier),
    ensures
        verifier.s_matrix_holds(cnp),
{
    let m: int = T::modulus();
    lemma_same_challenges(prover, s, cnp, verifier);
    lemma_honest_q(prover, s, cnp, verifier);
    let len: nat = prover.vole_length as nat;
    let choices: Seq<usize> = verifier.choices_of(cnp);
    lemma_s_matrix_check_holds::<T>(
        &prover.code,
        s.seeds(),
        choices,
        len,
        verifier.vith_delta_of(cnp),
        verifier.s_challenge_of(cnp),
    );
    let sm: Seq<Seq<int>> = cnp.proof.s_matrix@;
    let a: Seq<Seq<int>> = encoded_s_rows(&verifier.code, sm, verifier_deltas(choices), m);
    let b: Seq<Seq<int>> = encoded_s_rows(&prover.code, sm, verifier_deltas(choices), m);
    assert forall|i: int| 0 <= i < a.len() implies a[i] == b[i] by {
        lemma_same_code(&verifier.code, &prover.code, sm[i], m);
    }
    assert(a =~= b);
}

/// The Quicksilver check and the public openings hold of an honest
/// transcript.
proof fn lemma_honest_constraints<T: PF>(
    prover: &Prover<T>,
    s: SubspaceVOLESecrets<T>,
    cnp: &CommitAndProof<T>,
    verifier: &Verifier<T>,
)
    requires
        honest_transcript(prover, s, cnp, verifier),
    ensures
        verifier.constraints_hold(cnp),
        verifier.openings_hold(cnp),
{
    let m: int = T::modulus();
    T::modulus_exceeds_one();
    lemma_same_challenges(prover, s, cnp, verifier);
    let code: &RAAACode = &prover.code;
    let len: nat = prover.vole_length as nat;
    let pairs: Seq<(Seq<u8>, Seq<u8>)> = s.seeds();
    let delta: int = verifier.vith_delta_of(cnp);
    let rows: nat = prover.witness@.len();
    let k: nat = code.dimension();
    lemma_honest_keys::<T>(code, pairs, len, prover.witness@, delta);
    let values: Seq<int> = flattened(prover.witness@, rows);
    let masks: Seq<int> = flattened(s.u2(), rows);
    let keys: Seq<int> = verifier.keys_of(cnp);
    assert(cnp.commitment.witness_comm@.len() == rows);
    crate::actors::lemma_flattened_len(prover.witness@, rows, k);
    let wires: int = (rows * k) as int;
    crate::actors::lemma_columns_below_more(
        prover.circuit.r1cs.a_rows@,
        prover.circuit.unpadded_wtns_len as int,
        wires,
    );
    crate::actors::lemma_columns_below_more(
        prover.circuit.r1cs.b_rows@,
        prover.circuit.unpadded_wtns_len as int,
        wires,
    );
    crate::actors::lemma_columns_below_more(
        prover.circuit.r1cs.c_rows@,
        prover.circuit.unpadded_wtns_len as int,
        wires,
    );
    let gamma: int = challenge_vector::<T>(
        quicksilver_preimage(cnp.commitment.seed_comm@, cnp.commitment.witness_comm.elements()),
        1,
    )[0];
    lemma_quicksilver_complete::<T>(
        &prover.circuit.r1cs,
        values,
        masks,
        keys,
        delta,
        gamma,
        (s.u1()[rows as int][0], s.u2()[rows as int][0]),
        cnp.proof.s_matrix@[rows as int][0],
    );
    assert(key_terms(keys, delta, &verifier.circuit.r1cs) == key_terms(
        keys,
        delta,
        &prover.circuit.r1cs,
    ));
    assert forall|i: int| 0 <= i < prover.circuit.public_inputs_indices@.len() implies
        #[trigger] prover.circuit.public_inputs_indices@[i] < wires by {
    }
    assert forall|i: int| 0 <= i < prover.circuit.public_outputs_indices@.len() implies
        #[trigger] prover.circuit.public_outputs_indices@[i] < wires by {
    }
    lemma_openings_agree(keys, values, masks, delta, prover.circuit.public_inputs_indices@, m);
    lemma_openings_agree(keys, values, masks, delta, prover.circuit.public_outputs_indices@, m);
}

/// Completeness: the verifier accepts every honest transcript. Whatever the
/// seeds of the VOLE, a commitment and a proof that a prover makes for a
/// witness that satisfies the circuit pass every check of a verifier for the
/// same circuit, code and dimensions.
pub proof fn lemma_honest_transcript_is_accepted<T: PF>(
    prover: &Prover<T>,
    s: SubspaceVOLESecrets<T>,
    cnp: &CommitAndProof<T>,
    verifier: &Verifier<T>,
)
    requires
        honest_transcript(prover, s, cnp, verifier),
    ensures
        verifier.rejection(cnp) is None,
{
    lemma_honest_shape(prover, s, cnp, verifier);
    lemma_honest_seeds(prover, s, cnp, verifier);
    lemma_honest_consistency(prover, s, cnp, verifier);
    lemma_honest_s_matrix(prover, s, cnp, verifier);
    lemma_honest_constraints(prover, s, cnp, verifier);
}

/// A permutation has one inverse.
pub proof fn lemma_inverse_unique(f: Seq<u32>, b1: Seq<u32>, b2: Seq<u32>, n: nat)
    requires
        crate::subspacevole::inverse_pair(f, b1, n),
        crate::subspacevole::inverse_pair(f, b2, n),
    ensures
        b1 == b2,
{
    assert forall|j: int| 0 <= j < n implies b1[j] == b2[j] by {
        assert(b2[j] < n && f[b2[j] as int] == j);
        assert(f[b2[j] as int] < n && b1[f[b2[j] as int] as int] == b2[j]);
    }
    assert(b1 =~= b2);
}

/// Well-formed codes with the same repetitions and the same permutations
/// have the same inverse permutations, and so are the same code.
pub proof fn lemma_codes_agree(a: &RAAACode, b: &RAAACode)
    requires
        a.wf(),
        b.wf(),
        a.q == b.q,
        forall|round: int| 0 <= round < 3 ==> #[trigger] a.forward(round) == b.forward(round),
    ensures
        same_code(a, b),
{
    assert(a.forward(0) == b.forward(0));
    assert(a.forward(1) == b.forward(1));
    assert(a.forward(2) == b.forward(2));
    lemma_inverse_unique(a.forward(0), a.backward(0), b.backward(0), a.length());
    lemma_inverse_unique(a.forward(1), a.backward(1), b.backward(1), a.length());
    lemma_inverse_unique(a.forward(2), a.backward(2), b.backward(2), a.length());
}

/// A sum of sparse products only depends on the dense entries that the
/// sparse vector names.
pub proof fn lemma_sum_sparse_products_agree(
    d1: Seq<int>,
    d2: Seq<int>,
    row: Seq<(int, int)>,
    bound: int,
    n: nat,
)
    requires
        indices_below(row, bound),
        n <= row.len(),
        forall|t: int| 0 <= t < bound ==> d1[t] == d2[t],
    ensures
        sum_sparse_products(d1, row, n) == sum_sparse_products(d2, row, n),
    decreases n,
{
    if n > 0 {
        lemma_sum_sparse_products_agree(d1, d2, row, bound, (n - 1) as nat);
        assert(0 <= row[n - 1].0 < bound);
    }
}

/// Whether a witness satisfies a circuit only depends on its entries at the
/// wires of the circuit.
pub proof fn lemma_satisfies_agree<T: PF>(
    r1cs: &R1CS<T>,
    d1: Seq<int>,
    d2: Seq<int>,
    wires: int,
)
    requires
        r1cs.wf(wires),
        forall|t: int| 0 <= t < wires ==> d1[t] == d2[t],
    ensures
        r1cs.satisfied_by(d1) == r1cs.satisfied_by(d2),
{
    let m: int = T::modulus();
    let a: Seq<Seq<(int, int)>> = r1cs.a_rows@;
    let b: Seq<Seq<(int, int)>> = r1cs.b_rows@;
    let c: Seq<Seq<(int, int)>> = r1cs.c_rows@;
    assert forall|j: int| 0 <= j < a.len() implies sparse_dot(d1, a[j], m) == sparse_dot(
        d2,
        a[j],
        m,
    ) && sparse_dot(d1, b[j], m) == sparse_dot(d2, b[j], m) && sparse_dot(d1, c[j], m)
        == sparse_dot(d2, c[j], m) by {
        assert(indices_below(a[j], wires));
        assert(indices_below(b[j], wires));
        assert(indices_below(c[j], wires));
        lemma_sum_sparse_products_agree(d1, d2, a[j], wires, a[j].len());
        lemma_sum_sparse_products_agree(d1, d2, b[j], wires, b[j].len());
        lemma_sum_sparse_products_agree(d1, d2, c[j], wires, c[j].len());
    }
    if r1cs.satisfied_by(d1) {
        assert forall|j: int| 0 <= j < a.len() implies (#[trigger] sparse_dot(d2, a[j], m)
            * sparse_dot(d2, b[j], m)) % m == sparse_dot(d2, c[j], m) by {
            assert((sparse_dot(d1, a[j], m) * sparse_dot(d1, b[j], m)) % m == sparse_dot(
                d1,
                c[j],
                m,
            ));
        }
    }
    if r1cs.satisfied_by(d2) {
        assert forall|j: int| 0 <= j < a.len() implies (#[trigger] sparse_dot(d1, a[j], m)
            * sparse_dot(d1, b[j], m)) % m == sparse_dot(d1, c[j], m) by {
            assert((sparse_dot(d2, a[j], m) * sparse_dot(d2, b[j], m)) % m == sparse_dot(
                d2,
                c[j],
                m,
            ));
        }
    }
}

/// A vector cut into rows and put together again is the vector up to the
/// end of the last row.
pub proof fn lemma_flattened_rows(v: Seq<int>, rows: nat, k: nat, n: nat)
    requires
        n <= rows,
        rows * k <= v.len(),
    ensures
        flattened(crate::actors::in_rows(v, rows, k), n) == v.subrange(0, (n * k) as int),
        n * k <= rows * k,
    decreases n,
{
    assert(n * k <= rows * k) by (nonlinear_arith)
        requires
            n <= rows,
    ;
    if n == 0 {
        assert(0 * k == 0);
        assert(flattened(crate::actors::in_rows(v, rows, k), 0) =~= v.subrange(0, 0));
    } else {
        let p: nat = (n - 1) as nat;
        lemma_flattened_rows(v, rows, k, p);
        assert(p * k + k == n * k) by (nonlinear_arith)
            requires
                p + 1 == n,
        ;
        assert((p + 1) * k == n * k);
        let row: Seq<int> = crate::actors::in_rows(v, rows, k)[p as int];
        assert(row == v.subrange((p * k) as int, ((p + 1) * k) as int));
        assert(v.subrange(0, (p * k) as int) + v.subrange((p * k) as int, (n * k) as int) =~= v.subrange(
            0,
            (n * k) as int,
        ));
    }
}

/// A prover made for a witness that satisfies its circuit is accepted: what
/// it makes passes every check of a verifier for the same circuit, code and
/// dimensions, and the public openings hold the witness at the public wires.
pub proof fn lemma_fresh_prover_is_accepted<T: PF>(
    prover: &Prover<T>,
    witness: Seq<int>,
    cnp: &CommitAndProof<T>,
    verifier: &Verifier<T>,
)
    requires
        prover.wf(),
        verifier.wf(),
        same_code(&verifier.code, &prover.code),
        verifier.num_voles == prover.num_voles,
        verifier.vole_length == prover.vole_length,
        same_circuit(&verifier.circuit, &prover.circuit),
        prover.makes(*cnp),
        witness.len() >= prover.circuit.unpadded_wtns_len,
        exists|pad: nat|
            #[trigger] crate::actors::in_rows(
                witness + zeros(pad),
                prover.witness@.len(),
                prover.code.dimension(),
            ) == prover.witness@ && (witness + zeros(pad)).len() >= prover.witness@.len()
                * prover.code.dimension(),
        prover.circuit.r1cs.satisfied_by(witness),
    ensures
        verifier.rejection(cnp) is None,
        crate::linalg::residues(
            crate::actors::firsts(cnp.proof.public_openings.public_inputs@),
        ) == crate::actors::wire_values(witness, prover.circuit.public_inputs_indices@),
        crate::linalg::residues(
            crate::actors::firsts(cnp.proof.public_openings.public_outputs@),
        ) == crate::actors::wire_values(witness, prover.circuit.public_outputs_indices@),
{
    let rows: nat = prover.witness@.len();
    let k: nat = prover.code.dimension();
    let pad: nat = choose|pad: nat|
        #[trigger] crate::actors::in_rows(witness + zeros(pad), rows, k) == prover.witness@ && (
        witness + zeros(pad)).len() >= rows * k;
    let padded: Seq<int> = witness + zeros(pad);
    lemma_flattened_rows(padded, rows, k, rows);
    let flat: Seq<int> = flattened(prover.witness@, rows);
    let wires: int = prover.circuit.unpadded_wtns_len as int;
    assert(wires <= rows * k);
    lemma_satisfies_agree(&prover.circuit.r1cs, witness, flat, wires);
    let s: SubspaceVOLESecrets<T> = choose|s: SubspaceVOLESecrets<T>|
        {
            &&& #[trigger] prover.commits(s, cnp.commitment)
            &&& prover.proves(
                s,
                cnp.commitment.seed_comm@,
                cnp.commitment.witness_comm.elements(),
                cnp.proof,
            )
        };
    lemma_honest_transcript_is_accepted(prover, s, cnp, verifier);
    let masks: Seq<int> = flattened(s.u2(), rows);
    let ins: Seq<(int, int)> = pair_residues(cnp.proof.public_openings.public_inputs@);
    let outs: Seq<(int, int)> = pair_residues(cnp.proof.public_openings.public_outputs@);
    let in_idx: Seq<usize> = prover.circuit.public_inputs_indices@;
    let out_idx: Seq<usize> = prover.circuit.public_outputs_indices@;
    assert(ins == opened_wires(flat, masks, in_idx));
    assert(outs == opened_wires(flat, masks, out_idx));
    let got_in: Seq<int> = crate::linalg::residues(
        crate::actors::firsts(cnp.proof.public_openings.public_inputs@),
    );
    let got_out: Seq<int> = crate::linalg::residues(
        crate::actors::firsts(cnp.proof.public_openings.public_outputs@),
    );
    assert(got_in.len() == ins.len());
    assert(got_out.len() == outs.len());
    assert forall|i: int| 0 <= i < in_idx.len() implies got_in[i] == witness[in_idx[i] as int] by {
        assert(ins[i].0 == flat[in_idx[i] as int]);
        assert(in_idx[i] < wires);
    }
    assert forall|i: int| 0 <= i < out_idx.len() implies got_out[i] == witness[out_idx[i]
        as int] by {
        assert(outs[i].0 == flat[out_idx[i] as int]);
        assert(out_idx[i] < wires);
    }
    assert(got_in =~= crate::actors::wire_values(witness, in_idx));
    assert(got_out =~= crate::actors::wire_values(witness, out_idx));
}

} // verus!
