//! Rank-1 constraint systems: the circuits that proofs are about.
//!
//! A system has one constraint per row of three sparse matrices `A`, `B` and
//! `C`; a witness `w` satisfies it if, row by row, the dot product of `w`
//! with the row of `A` times that with the row of `B` is that with the row
//! of `C`.

use crate::field::PF;
use crate::linalg::{indices_below, indices_distinct, sparse_dot, SparseFMatrix, SparseVec};
use vstd::prelude::*;

verus! {

/// The three sparse matrices of a rank-1 constraint system.
#[derive(Debug)]
pub struct R1CS<T: PF> {
    pub a_rows: SparseFMatrix<T>,
    pub b_rows: SparseFMatrix<T>,
    pub c_rows: SparseFMatrix<T>,
}

/// A rank-1 constraint system with the wires that are public and the number
/// of wires.
#[derive(Debug)]
pub struct R1CSWithMetadata<T: PF> {
    pub r1cs: R1CS<T>,
    pub public_inputs_indices: Vec<usize>,
    pub public_outputs_indices: Vec<usize>,
    pub unpadded_wtns_len: usize,
}

/// How far a witness is padded so that it fills whole rows of a given width.
#[derive(Clone, Copy, Debug, PartialEq, Eq, Structural)]
pub struct PadParams {
    pub orig_wtns_len: usize,
    pub padded_wtns_len: usize,
    pub num_padded_wtns_rows: usize,
    pub pad_len: usize,
}

/// Whether every row of a sparse matrix only names columns below `len`.
pub open spec fn columns_below(mat: Seq<Seq<(int, int)>>, len: int) -> bool {
    forall|j: int| 0 <= j < mat.len() ==> indices_below(#[trigger] mat[j], len)
}

/// Whether no row of a sparse matrix names a column twice.
pub open spec fn columns_distinct(mat: Seq<Seq<(int, int)>>) -> bool {
    forall|j: int| 0 <= j < mat.len() ==> indices_distinct(#[trigger] mat[j])
}

/// Whether every index of a list lies below `len`.
pub open spec fn wires_below(indices: Seq<usize>, len: int) -> bool {
    forall|i: int| 0 <= i < indices.len() ==> #[trigger] indices[i] < len
}

/// Whether a witness satisfies the first `n` constraints of a system.
pub open spec fn satisfies(
    w: Seq<int>,
    a: Seq<Seq<(int, int)>>,
    b: Seq<Seq<(int, int)>>,
    c: Seq<Seq<(int, int)>>,
    m: int,
) -> bool {
    forall|j: int|
        0 <= j < a.len() ==> (#[trigger] sparse_dot(w, a[j], m) * sparse_dot(w, b[j], m)) % m
            == sparse_dot(w, c[j], m)
}

impl<T: PF> R1CS<T> {
    /// The three matrices have one row per constraint, and no row names a
    /// column at or beyond `wires` or names a column twice.
    pub open spec fn wf(&self, wires: int) -> bool {
        &&& self.a_rows@.len() == self.b_rows@.len()
        &&& self.a_rows@.len() == self.c_rows@.len()
        &&& columns_below(self.a_rows@, wires)
        &&& columns_below(self.b_rows@, wires)
        &&& columns_below(self.c_rows@, wires)
        &&& columns_distinct(self.a_rows@)
        &&& columns_distinct(self.b_rows@)
        &&& columns_distinct(self.c_rows@)
    }

    /// Whether a witness satisfies every constraint.
    pub open spec fn satisfied_by(&self, w: Seq<int>) -> bool {
        satisfies(w, self.a_rows@, self.b_rows@, self.c_rows@, T::modulus())
    }
}

impl<T: PF> R1CSWithMetadata<T> {
    /// The system is well formed for its number of wires, and every public
    /// wire is a wire.
    pub open spec fn wf(&self) -> bool {
        &&& self.r1cs.wf(self.unpadded_wtns_len as int)
        &&& wires_below(self.public_inputs_indices@, self.unpadded_wtns_len as int)
        &&& wires_below(self.public_outputs_indices@, self.unpadded_wtns_len as int)
    }

    /// The padding that brings the witness to a whole number of rows of width
    /// `k`; `None` where the padded length does not fit the machine.
    pub fn calc_padding_needed(&self, k: usize) -> (r: Option<PadParams>)
        requires
            k > 0,
        ensures
            r is Some <==> padded_len(self.unpadded_wtns_len as int, k as int) <= usize::MAX,
            r matches Some(pp) ==> pp.orig_wtns_len == self.unpadded_wtns_len && pp.padded_wtns_len
                == padded_len(self.unpadded_wtns_len as int, k as int) && pp.pad_len
                == pp.padded_wtns_len - pp.orig_wtns_len && pp.num_padded_wtns_rows * k
                == pp.padded_wtns_len && pp.pad_len < k,
    {
        let rem: usize = self.unpadded_wtns_len % k;
        let pad_len: usize = (k - rem) % k;
        proof {
            let len: int = self.unpadded_wtns_len as int;
            vstd::arithmetic::div_mod::lemma_fundamental_div_mod(len, k as int);
            if rem == 0 {
                vstd::arithmetic::div_mod::lemma_mod_self_0(k as int);
            } else {
                vstd::arithmetic::div_mod::lemma_small_mod((k - rem) as nat, k as nat);
                assert(k * (len / (k as int)) + k == k * (len / (k as int) + 1))
                    by (nonlinear_arith);
                vstd::arithmetic::div_mod::lemma_fundamental_div_mod_converse(
                    len + pad_len,
                    k as int,
                    len / (k as int) + 1,
                    0,
                );
            }
        }
        match self.unpadded_wtns_len.checked_add(pad_len) {
            Some(padded) => {
                proof {
                    vstd::arithmetic::div_mod::lemma_fundamental_div_mod(
                        padded as int,
                        k as int,
                    );
                    assert((padded / k) * k == k * (padded / k)) by (nonlinear_arith);
                }
                Some(
                    PadParams {
                        orig_wtns_len: self.unpadded_wtns_len,
                        padded_wtns_len: padded,
                        num_padded_wtns_rows: padded / k,
                        pad_len,
                    },
                )
            },
            None => None,
        }
    }
}

/// The least multiple of `k` that is at least `len`.
pub open spec fn padded_len(len: int, k: int) -> int {
    len + (k - len % k) % k
}

impl<T: PF> Clone for SparseVec<T> {
    fn clone(&self) -> (r: Self)
        ensures
            r@ == self@,
    {
        let mut out: Vec<(usize, T)> = Vec::with_capacity(self.0.len());
        let mut i: usize = 0;
        while i < self.0.len()
            invariant
                i <= self.0.len(),
                out@ == self.0@.subrange(0, i as int),
            decreases self.0.len() - i,
        {
            out.push((self.0[i].0, self.0[i].1));
            i += 1;
        }
        assert(out@ =~= self.0@);
        SparseVec(out)
    }
}

impl<T: PF> Clone for SparseFMatrix<T> {
    fn clone(&self) -> (r: Self)
        ensures
            r@ == self@,
    {
        let mut out: Vec<SparseVec<T>> = Vec::with_capacity(self.0.len());
        let mut i: usize = 0;
        while i < self.0.len()
            invariant
                i <= self.0.len(),
                out@.len() == i,
                forall|j: int| 0 <= j < i ==> (#[trigger] out@[j])@ == self.0@[j]@,
            decreases self.0.len() - i,
        {
            out.push(self.0[i].clone());
            i += 1;
        }
        let r: SparseFMatrix<T> = SparseFMatrix(out);
        assert(r@ =~= self@);
        r
    }
}

impl<T: PF> Clone for R1CS<T> {
    fn clone(&self) -> (r: Self)
        ensures
            r.a_rows@ == self.a_rows@,
            r.b_rows@ == self.b_rows@,
            r.c_rows@ == self.c_rows@,
    {
        R1CS {
            a_rows: self.a_rows.clone(),
            b_rows: self.b_rows.clone(),
            c_rows: self.c_rows.clone(),
        }
    }
}

/// A copy of a list of indices.
pub fn copy_indices(v: &Vec<usize>) -> (r: Vec<usize>)
    ensures
        r@ == v@,
{
    let mut out: Vec<usize> = Vec::with_capacity(v.len());
    let mut i: usize = 0;
    while i < v.len()
        invariant
            i <= v.len(),
            out@ == v@.subrange(0, i as int),
        decreases v.len() - i,
    {
        out.push(v[i]);
        i += 1;
    }
    assert(out@ =~= v@);
    out
}

impl<T: PF> Clone for R1CSWithMetadata<T> {
    fn clone(&self) -> (r: Self)
        ensures
            r.r1cs.a_rows@ == self.r1cs.a_rows@,
            r.r1cs.b_rows@ == self.r1cs.b_rows@,
            r.r1cs.c_rows@ == self.r1cs.c_rows@,
            r.public_inputs_indices@ == self.public_inputs_indices@,
            r.public_outputs_indices@ == self.public_outputs_indices@,
            r.unpadded_wtns_len == self.unpadded_wtns_len,
    {
        R1CSWithMetadata {
            r1cs: self.r1cs.clone(),
            public_inputs_indices: copy_indices(&self.public_inputs_indices),
            public_outputs_indices: copy_indices(&self.public_outputs_indices),
            unpadded_wtns_len: self.unpadded_wtns_len,
        }
    }
}

/// Whether every row of a sparse matrix only names columns below `len`.
pub fn names_columns_below<T: PF>(mat: &SparseFMatrix<T>, len: usize) -> (b: bool)
    ensures
        b == columns_below(mat@, len as int),
{
    let mut j: usize = 0;
    while j < mat.0.len()
        invariant
            j <= mat.0@.len(),
            forall|r: int| 0 <= r < j ==> indices_below(#[trigger] mat@[r], len as int),
        decreases mat.0@.len() - j,
    {
        let row: &SparseVec<T> = &mat.0[j];
        let mut k: usize = 0;
        while k < row.0.len()
            invariant
                k <= row.0@.len(),
                j < mat.0@.len(),
                row@ == mat@[j as int],
                forall|e: int| 0 <= e < k ==> 0 <= #[trigger] row@[e].0 < len,
            decreases row.0@.len() - k,
        {
            if row.0[k].0 >= len {
                assert(row@[k as int].0 >= len);
                assert(!indices_below(mat@[j as int], len as int));
                return false;
            }
            k += 1;
        }
        assert(mat@[j as int] == row@);
        j += 1;
    }
    true
}

/// Whether no row of a sparse matrix names a column twice. Every column is
/// stamped with the number of the last row that named it.
pub fn names_columns_once<T: PF>(mat: &SparseFMatrix<T>, len: usize) -> (b: bool)
    requires
        columns_below(mat@, len as int),
    ensures
        b == columns_distinct(mat@),
{
    let mut stamp: Vec<usize> = Vec::with_capacity(len);
    let mut c: usize = 0;
    while c < len
        invariant
            c <= len,
            stamp@.len() == c,
            forall|x: int| 0 <= x < c ==> #[trigger] stamp@[x] == 0,
        decreases len - c,
    {
        stamp.push(0);
        c += 1;
    }
    let rows: usize = mat.0.len();
    let mut j: usize = 0;
    while j < rows
        invariant
            j <= rows,
            rows == mat.0@.len(),
            stamp@.len() == len,
            columns_below(mat@, len as int),
            forall|x: int| 0 <= x < len ==> #[trigger] stamp@[x] <= j,
            forall|r: int| 0 <= r < j ==> indices_distinct(#[trigger] mat@[r]),
        decreases rows - j,
    {
        let row: &SparseVec<T> = &mat.0[j];
        let ghost mut who: Seq<int> = Seq::new(len as nat, |x: int| 0int);
        let mut k: usize = 0;
        assert(row@ == mat@[j as int]);
        assert(indices_below(row@, len as int));
        while k < row.0.len()
            invariant
                k <= row.0@.len(),
                j < rows,
                rows == mat.0@.len(),
                row@ == mat@[j as int],
                indices_below(row@, len as int),
                stamp@.len() == len,
                who.len() == len,
                forall|x: int| 0 <= x < len ==> #[trigger] stamp@[x] <= j + 1,
                forall|x: int|
                    0 <= x < len && #[trigger] stamp@[x] == j + 1 ==> 0 <= who[x] < k
                        && row@[who[x]].0 == x,
                forall|e: int| 0 <= e < k ==> stamp@[(#[trigger] row@[e]).0] == j + 1,
                forall|e1: int, e2: int|
                    0 <= e1 < e2 < k ==> (#[trigger] row@[e1]).0 != (#[trigger] row@[e2]).0,
            decreases row.0@.len() - k,
        {
            let idx: usize = row.0[k].0;
            assert(row@[k as int].0 == idx);
            if stamp[idx] == j + 1 {
                assert(row@[who[idx as int]].0 == row@[k as int].0);
                assert(!indices_distinct(mat@[j as int]));
                return false;
            }
            stamp.set(idx, j + 1);
            proof {
                who = who.update(idx as int, k as int);
            }
            k += 1;
        }
        assert(indices_distinct(row@));
        j += 1;
    }
    true
}

/// Whether every index of a list lies below `len`.
pub fn names_wires_below(indices: &Vec<usize>, len: usize) -> (b: bool)
    ensures
        b == wires_below(indices@, len as int),
{
    let mut i: usize = 0;
    while i < indices.len()
        invariant
            i <= indices@.len(),
            forall|j: int| 0 <= j < i ==> #[trigger] indices@[j] < len,
        decreases indices@.len() - i,
    {
        if indices[i] >= len {
            return false;
        }
        i += 1;
    }
    true
}

impl<T: PF> R1CSWithMetadata<T> {
    /// Whether the circuit is well formed: the three matrices have one row
    /// for every constraint, no row names a column that is no wire or names a
    /// column twice, and every public wire is a wire.
    pub fn is_well_formed(&self) -> (b: bool)
        ensures
            b == self.wf(),
    {
        let wires: usize = self.unpadded_wtns_len;
        self.r1cs.a_rows.0.len() == self.r1cs.b_rows.0.len() && self.r1cs.a_rows.0.len()
            == self.r1cs.c_rows.0.len() && names_columns_below(&self.r1cs.a_rows, wires)
            && names_columns_below(&self.r1cs.b_rows, wires) && names_columns_below(
            &self.r1cs.c_rows,
            wires,
        ) && names_columns_once(&self.r1cs.a_rows, wires) && names_columns_once(
            &self.r1cs.b_rows,
            wires,
        ) && names_columns_once(&self.r1cs.c_rows, wires) && names_wires_below(
            &self.public_inputs_indices,
            wires,
        ) && names_wires_below(&self.public_outputs_indices, wires)
    }

    /// Whether the circuit fits a VOLE over the default code.
    pub fn fits_default_code(&self) -> (b: bool)
        ensures
            b == crate::actors::fits_default_code(self.unpadded_wtns_len as int),
    {
        match self.calc_padding_needed(512) {
            None => false,
            Some(pp) => {
                assert(pp.num_padded_wtns_rows == pp.padded_wtns_len / 512) by {
                    vstd::arithmetic::div_mod::lemma_div_multiples_vanish(
                        pp.num_padded_wtns_rows as int,
                        512,
                    );
                }
                let limit: usize = (usize::MAX / 32 - 64) / 4;
                pp.num_padded_wtns_rows <= limit / 2 - 1
            },
        }
    }
}

} // verus!
