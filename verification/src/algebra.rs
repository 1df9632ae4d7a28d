//! Congruences, and sums of products up to congruence.

use crate::linalg::{dot, shorter, sum_products, transposed, vec_mat};
use crate::smallvole::all_residues;
use vstd::arithmetic::div_mod::{
    lemma_add_mod_noop, lemma_mod_twice, lemma_mul_mod_noop_general, lemma_small_mod,
    lemma_sub_mod_noop,
};
use vstd::prelude::*;

verus! {

/// Whether two numbers leave the same residue.
pub open spec fn cong(a: int, b: int, m: int) -> bool {
    a % m == b % m
}

/// A number is congruent to its residue.
pub proof fn lemma_cong_mod(a: int, m: int)
    requires
        m > 0,
    ensures
        cong(a % m, a, m),
        0 <= a % m < m,
{
    lemma_mod_twice(a, m);
}

/// Sums of congruent numbers are congruent.
pub proof fn lemma_cong_add(a: int, a2: int, b: int, b2: int, m: int)
    requires
        m > 0,
        cong(a, a2, m),
        cong(b, b2, m),
    ensures
        cong(a + b, a2 + b2, m),
{
    lemma_add_mod_noop(a, b, m);
    lemma_add_mod_noop(a2, b2, m);
}

/// Differences of congruent numbers are congruent.
pub proof fn lemma_cong_sub(a: int, a2: int, b: int, b2: int, m: int)
    requires
        m > 0,
        cong(a, a2, m),
        cong(b, b2, m),
    ensures
        cong(a - b, a2 - b2, m),
{
    lemma_sub_mod_noop(a, b, m);
    lemma_sub_mod_noop(a2, b2, m);
}

/// Products of congruent numbers are congruent.
pub proof fn lemma_cong_mul(a: int, a2: int, b: int, b2: int, m: int)
    requires
        m > 0,
        cong(a, a2, m),
        cong(b, b2, m),
    ensures
        cong(a * b, a2 * b2, m),
{
    lemma_mul_mod_noop_general(a, b, m);
    lemma_mul_mod_noop_general(a2, b2, m);
}

/// Congruent residues are equal.
pub proof fn lemma_cong_residues(a: int, b: int, m: int)
    requires
        0 <= a < m,
        0 <= b < m,
        cong(a, b, m),
    ensures
        a == b,
{
    lemma_small_mod(a as nat, m as nat);
    lemma_small_mod(b as nat, m as nat);
}

/// A sum of products whose second factors are, up to congruence, a linear
/// combination of two sequences is, up to congruence, the same combination
/// of the two sums of products.
pub proof fn lemma_sum_products_linear(
    h: Seq<int>,
    z: Seq<int>,
    a: Seq<int>,
    b: Seq<int>,
    c: int,
    d: int,
    n: nat,
    m: int,
)
    requires
        m > 0,
        forall|j: int| 0 <= j < n ==> cong(#[trigger] z[j], c * a[j] + d * b[j], m),
    ensures
        cong(sum_products(h, z, n), c * sum_products(h, a, n) + d * sum_products(h, b, n), m),
    decreases n,
{
    if n == 0 {
        assert(c * 0 + d * 0 == 0) by (nonlinear_arith);
    } else {
        let p: nat = (n - 1) as nat;
        lemma_sum_products_linear(h, z, a, b, c, d, p, m);
        let hz: int = h[p as int] * z[p as int];
        let lin: int = c * a[p as int] + d * b[p as int];
        assert(cong(z[p as int], lin, m));
        lemma_cong_mul(h[p as int], h[p as int], z[p as int], lin, m);
        lemma_cong_add(
            sum_products(h, z, p),
            c * sum_products(h, a, p) + d * sum_products(h, b, p),
            hz,
            h[p as int] * lin,
            m,
        );
        let sa: int = sum_products(h, a, p);
        let sb: int = sum_products(h, b, p);
        let hp: int = h[p as int];
        let ap: int = a[p as int];
        let bp: int = b[p as int];
        assert(hp * (c * ap + d * bp) == hp * (c * ap) + hp * (d * bp)) by (nonlinear_arith);
        assert(hp * (c * ap) == c * (hp * ap)) by (nonlinear_arith);
        assert(hp * (d * bp) == d * (hp * bp)) by (nonlinear_arith);
        assert(c * (sa + hp * ap) == c * sa + c * (hp * ap)) by (nonlinear_arith);
        assert(d * (sb + hp * bp) == d * sb + d * (hp * bp)) by (nonlinear_arith);
    }
}

/// Sums of products of congruent sequences are congruent.
pub proof fn lemma_sum_products_cong(
    h: Seq<int>,
    h2: Seq<int>,
    z: Seq<int>,
    z2: Seq<int>,
    n: nat,
    m: int,
)
    requires
        m > 0,
        forall|j: int| 0 <= j < n ==> cong(#[trigger] h[j], h2[j], m),
        forall|j: int| 0 <= j < n ==> cong(#[trigger] z[j], z2[j], m),
    ensures
        cong(sum_products(h, z, n), sum_products(h2, z2, n), m),
    decreases n,
{
    if n > 0 {
        let p: nat = (n - 1) as nat;
        lemma_sum_products_cong(h, h2, z, z2, p, m);
        assert(cong(h[p as int], h2[p as int], m));
        assert(cong(z[p as int], z2[p as int], m));
        lemma_cong_mul(h[p as int], h2[p as int], z[p as int], z2[p as int], m);
        lemma_cong_add(
            sum_products(h, z, p),
            sum_products(h2, z2, p),
            h[p as int] * z[p as int],
            h2[p as int] * z2[p as int],
            m,
        );
    }
}

/// The column of a matrix at a position.
pub open spec fn column(mat: Seq<Seq<int>>, i: int) -> Seq<int> {
    Seq::new(mat.len(), |j: int| mat[j][i])
}

/// The hash of a matrix under a challenge: for every column the dot product
/// of the challenge with it.
pub open spec fn hashed(h: Seq<int>, mat: Seq<Seq<int>>, width: nat, m: int) -> Seq<int> {
    vec_mat(h, transposed(mat, width), m)
}

/// An entry of the hash of a matrix with as many rows as the challenge has
/// entries is the residue of the sum of products with the column.
pub proof fn lemma_hashed_entry(h: Seq<int>, mat: Seq<Seq<int>>, width: nat, m: int, i: int)
    requires
        h.len() == mat.len(),
        0 <= i < width,
    ensures
        hashed(h, mat, width, m).len() == width,
        hashed(h, mat, width, m)[i] == sum_products(h, column(mat, i), h.len()) % m,
{
    assert(transposed(mat, width)[i] =~= column(mat, i));
}

/// Where the rows of a matrix are, entry by entry and up to congruence, a
/// combination of the rows of two matrices with coefficients that may depend
/// on the column, its hash is the same combination of the two hashes.
pub proof fn lemma_hashed_linear(
    h: Seq<int>,
    z: Seq<Seq<int>>,
    a: Seq<Seq<int>>,
    b: Seq<Seq<int>>,
    c: Seq<int>,
    d: Seq<int>,
    width: nat,
    m: int,
    i: int,
)
    requires
        m > 0,
        h.len() == z.len(),
        h.len() == a.len(),
        h.len() == b.len(),
        0 <= i < width,
        forall|j: int| 0 <= j < h.len() ==> cong(#[trigger] z[j][i], c[i] * a[j][i] + d[i] * b[j][i], m),
    ensures
        cong(
            hashed(h, z, width, m)[i],
            c[i] * hashed(h, a, width, m)[i] + d[i] * hashed(h, b, width, m)[i],
            m,
        ),
{
    let n: nat = h.len();
    lemma_hashed_entry(h, z, width, m, i);
    lemma_hashed_entry(h, a, width, m, i);
    lemma_hashed_entry(h, b, width, m, i);
    let zc: Seq<int> = column(z, i);
    let ac: Seq<int> = column(a, i);
    let bc: Seq<int> = column(b, i);
    assert forall|j: int| 0 <= j < n implies cong(#[trigger] zc[j], c[i] * ac[j] + d[i] * bc[j], m) by {
        assert(cong(z[j][i], c[i] * a[j][i] + d[i] * b[j][i], m));
    }
    lemma_sum_products_linear(h, zc, ac, bc, c[i], d[i], n, m);
    let sz: int = sum_products(h, zc, n);
    let sa: int = sum_products(h, ac, n);
    let sb: int = sum_products(h, bc, n);
    lemma_cong_mod(sz, m);
    lemma_cong_mod(sa, m);
    lemma_cong_mod(sb, m);
    lemma_cong_mul(c[i], c[i], sa % m, sa, m);
    lemma_cong_mul(d[i], d[i], sb % m, sb, m);
    lemma_cong_add(c[i] * (sa % m), c[i] * sa, d[i] * (sb % m), d[i] * sb, m);
}

} // verus!
