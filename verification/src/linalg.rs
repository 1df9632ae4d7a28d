//! Dense and sparse vectors and matrices over a prime field.
//!
//! Every container is seen in contracts through its view: a sequence of
//! residues for a vector, a sequence of such sequences for a matrix. The
//! operations are stated over those sequences and the field's modulus.

use crate::field::PF;
use vstd::prelude::*;
use vstd::std_specs::cmp::PartialEqSpecImpl;

verus! {

/// A vector of field elements.
#[derive(Debug)]
pub struct FVec<T: PF>(pub Vec<T>);

/// A vector given by its entries that are not zero: pairs of an index and a
/// value.
#[derive(Debug)]
pub struct SparseVec<T: PF>(pub Vec<(usize, T)>);

/// A matrix as a vector of its rows (or, where a caller says so, of its
/// columns).
#[derive(Debug)]
pub struct FMatrix<T: PF>(pub Vec<FVec<T>>);

/// A matrix as a vector of sparse rows.
#[derive(Debug)]
pub struct SparseFMatrix<T: PF>(pub Vec<SparseVec<T>>);

/// The residues of a sequence of elements.
pub open spec fn residues<T: PF>(s: Seq<T>) -> Seq<int> {
    Seq::new(s.len(), |i: int| s[i].value())
}

impl<T: PF> View for FVec<T> {
    type V = Seq<int>;

    open spec fn view(&self) -> Seq<int> {
        residues(self.0@)
    }
}

impl<T: PF> View for SparseVec<T> {
    type V = Seq<(int, int)>;

    open spec fn view(&self) -> Seq<(int, int)> {
        Seq::new(self.0@.len(), |i: int| (self.0@[i].0 as int, self.0@[i].1.value()))
    }
}

impl<T: PF> View for FMatrix<T> {
    type V = Seq<Seq<int>>;

    open spec fn view(&self) -> Seq<Seq<int>> {
        Seq::new(self.0@.len(), |i: int| self.0@[i]@)
    }
}

impl<T: PF> View for SparseFMatrix<T> {
    type V = Seq<Seq<(int, int)>>;

    open spec fn view(&self) -> Seq<Seq<(int, int)>> {
        Seq::new(self.0@.len(), |i: int| self.0@[i]@)
    }
}

/// The shorter of two lengths.
pub open spec fn shorter(a: nat, b: nat) -> nat {
    if a <= b {
        a
    } else {
        b
    }
}

/// The entrywise sum of two vectors, as long as the shorter of them.
pub open spec fn vec_add(a: Seq<int>, b: Seq<int>, m: int) -> Seq<int> {
    Seq::new(shorter(a.len(), b.len()), |i: int| (a[i] + b[i]) % m)
}

/// The entrywise difference of two vectors, as long as the shorter of them.
pub open spec fn vec_sub(a: Seq<int>, b: Seq<int>, m: int) -> Seq<int> {
    Seq::new(shorter(a.len(), b.len()), |i: int| (a[i] - b[i]) % m)
}

/// The entrywise product of two vectors, as long as the shorter of them.
pub open spec fn vec_mul(a: Seq<int>, b: Seq<int>, m: int) -> Seq<int> {
    Seq::new(shorter(a.len(), b.len()), |i: int| (a[i] * b[i]) % m)
}

/// The entrywise negation of a vector.
pub open spec fn vec_neg(a: Seq<int>, m: int) -> Seq<int> {
    Seq::new(a.len(), |i: int| (-a[i]) % m)
}

/// A vector with every entry multiplied by a scalar.
pub open spec fn vec_scale(a: Seq<int>, c: int, m: int) -> Seq<int> {
    Seq::new(a.len(), |i: int| (a[i] * c) % m)
}

/// The sum of the products of the first `n` entries of two vectors, taken in
/// the integers.
pub open spec fn sum_products(a: Seq<int>, b: Seq<int>, n: nat) -> int
    decreases n,
{
    if n == 0 {
        0
    } else {
        sum_products(a, b, (n - 1) as nat) + a[n - 1] * b[n - 1]
    }
}

/// The dot product of two vectors over the entries that both have.
pub open spec fn dot(a: Seq<int>, b: Seq<int>, m: int) -> int {
    sum_products(a, b, shorter(a.len(), b.len())) % m
}

/// The sum, taken in the integers, of each of the first `n` sparse entries
/// times the dense entry at its index.
pub open spec fn sum_sparse_products(d: Seq<int>, s: Seq<(int, int)>, n: nat) -> int
    decreases n,
{
    if n == 0 {
        0
    } else {
        sum_sparse_products(d, s, (n - 1) as nat) + d[s[n - 1].0] * s[n - 1].1
    }
}

/// The dot product of a dense vector with a sparse one.
pub open spec fn sparse_dot(d: Seq<int>, s: Seq<(int, int)>, m: int) -> int {
    sum_sparse_products(d, s, s.len()) % m
}

/// Whether every index of a sparse vector lies below `len`.
pub open spec fn indices_below(s: Seq<(int, int)>, len: int) -> bool {
    forall|k: int| 0 <= k < s.len() ==> 0 <= #[trigger] s[k].0 < len
}

/// Whether no index occurs twice in a sparse vector.
pub open spec fn indices_distinct(s: Seq<(int, int)>) -> bool {
    forall|i: int, j: int| 0 <= i < j < s.len() ==> (#[trigger] s[i]).0 != (#[trigger] s[j]).0
}

/// The dense vector of length `len` that the first `n` sparse entries give:
/// zero everywhere, then each entry written at its index in turn.
pub open spec fn densify(s: Seq<(int, int)>, len: nat, n: nat) -> Seq<int>
    decreases n,
{
    if n == 0 {
        Seq::new(len, |i: int| 0int)
    } else {
        densify(s, len, (n - 1) as nat).update(s[n - 1].0, s[n - 1].1)
    }
}

/// A dense vector times a matrix given by its columns: the dot product with
/// each of them.
pub open spec fn vec_mat(v: Seq<int>, mat: Seq<Seq<int>>, m: int) -> Seq<int> {
    Seq::new(mat.len(), |j: int| dot(v, mat[j], m))
}

/// A dense vector times a sparse matrix: the dot product with each sparse row.
pub open spec fn vec_sparse_mat(v: Seq<int>, mat: Seq<Seq<(int, int)>>, m: int) -> Seq<int> {
    Seq::new(mat.len(), |j: int| sparse_dot(v, mat[j], m))
}

/// Whether the rows of a matrix all have the length `width`.
pub open spec fn rows_of_width(mat: Seq<Seq<int>>, width: int) -> bool {
    forall|j: int| 0 <= j < mat.len() ==> (#[trigger] mat[j]).len() == width
}

/// The transpose of a matrix whose rows have the length `width`.
pub open spec fn transposed(mat: Seq<Seq<int>>, width: nat) -> Seq<Seq<int>> {
    Seq::new(width, |i: int| Seq::new(mat.len(), |j: int| mat[j][i]))
}

/// A matrix with every entry multiplied by a scalar.
pub open spec fn mat_scale(mat: Seq<Seq<int>>, c: int, m: int) -> Seq<Seq<int>> {
    Seq::new(mat.len(), |j: int| vec_scale(mat[j], c, m))
}

/// The sum of two matrices, row by row, over the rows that both have.
pub open spec fn mat_add(a: Seq<Seq<int>>, b: Seq<Seq<int>>, m: int) -> Seq<Seq<int>> {
    Seq::new(shorter(a.len(), b.len()), |j: int| vec_add(a[j], b[j], m))
}

/// The difference of two matrices, row by row, over the rows that both have.
pub open spec fn mat_sub(a: Seq<Seq<int>>, b: Seq<Seq<int>>, m: int) -> Seq<Seq<int>> {
    Seq::new(shorter(a.len(), b.len()), |j: int| vec_sub(a[j], b[j], m))
}

impl<T: PF> Clone for FVec<T> {
    fn clone(&self) -> (r: Self)
        ensures
            r.0@ == self.0@,
    {
        let mut out: Vec<T> = Vec::with_capacity(self.0.len());
        let mut i: usize = 0;
        while i < self.0.len()
            invariant
                i <= self.0.len(),
                out@ == self.0@.subrange(0, i as int),
            decreases self.0.len() - i,
        {
            out.push(self.0[i]);
            i += 1;
        }
        assert(out@ =~= self.0@);
        FVec(out)
    }
}

impl<T: PF> FVec<T> {
    /// The entrywise sum with another vector.
    pub fn add(&self, rhs: &FVec<T>) -> (r: FVec<T>)
        ensures
            r@ == vec_add(self@, rhs@, T::modulus()),
    {
        let n: usize = if self.0.len() <= rhs.0.len() {
            self.0.len()
        } else {
            rhs.0.len()
        };
        let mut out: Vec<T> = Vec::with_capacity(n);
        let mut i: usize = 0;
        while i < n
            invariant
                i <= n,
                n == shorter(self.0@.len(), rhs.0@.len()),
                out@.len() == i,
                forall|j: int|
                    0 <= j < i ==> (#[trigger] out@[j]).value() == (self.0@[j].value()
                        + rhs.0@[j].value()) % T::modulus(),
            decreases n - i,
        {
            out.push(self.0[i].add(&rhs.0[i]));
            i += 1;
        }
        let r: FVec<T> = FVec(out);
        assert(r@ =~= vec_add(self@, rhs@, T::modulus()));
        r
    }

    /// The entrywise difference with another vector.
    pub fn sub(&self, rhs: &FVec<T>) -> (r: FVec<T>)
        ensures
            r@ == vec_sub(self@, rhs@, T::modulus()),
    {
        let n: usize = if self.0.len() <= rhs.0.len() {
            self.0.len()
        } else {
            rhs.0.len()
        };
        let mut out: Vec<T> = Vec::with_capacity(n);
        let mut i: usize = 0;
        while i < n
            invariant
                i <= n,
                n == shorter(self.0@.len(), rhs.0@.len()),
                out@.len() == i,
                forall|j: int|
                    0 <= j < i ==> (#[trigger] out@[j]).value() == (self.0@[j].value()
                        - rhs.0@[j].value()) % T::modulus(),
            decreases n - i,
        {
            out.push(self.0[i].sub(&rhs.0[i]));
            i += 1;
        }
        let r: FVec<T> = FVec(out);
        assert(r@ =~= vec_sub(self@, rhs@, T::modulus()));
        r
    }

    /// The entrywise product with another vector.
    pub fn mul(&self, rhs: &FVec<T>) -> (r: FVec<T>)
        ensures
            r@ == vec_mul(self@, rhs@, T::modulus()),
    {
        let n: usize = if self.0.len() <= rhs.0.len() {
            self.0.len()
        } else {
            rhs.0.len()
        };
        let mut out: Vec<T> = Vec::with_capacity(n);
        let mut i: usize = 0;
        while i < n
            invariant
                i <= n,
                n == shorter(self.0@.len(), rhs.0@.len()),
                out@.len() == i,
                forall|j: int|
                    0 <= j < i ==> (#[trigger] out@[j]).value() == (self.0@[j].value()
                        * rhs.0@[j].value()) % T::modulus(),
            decreases n - i,
        {
            out.push(self.0[i].mul(&rhs.0[i]));
            i += 1;
        }
        let r: FVec<T> = FVec(out);
        assert(r@ =~= vec_mul(self@, rhs@, T::modulus()));
        r
    }

    /// The entrywise negation.
    pub fn neg(&self) -> (r: FVec<T>)
        ensures
            r@ == vec_neg(self@, T::modulus()),
    {
        let n: usize = self.0.len();
        let mut out: Vec<T> = Vec::with_capacity(n);
        let mut i: usize = 0;
        while i < n
            invariant
                i <= n,
                n == self.0@.len(),
                out@.len() == i,
                forall|j: int|
                    0 <= j < i ==> (#[trigger] out@[j]).value() == (-self.0@[j].value())
                        % T::modulus(),
            decreases n - i,
        {
            out.push(self.0[i].neg());
            i += 1;
        }
        let r: FVec<T> = FVec(out);
        assert(r@ =~= vec_neg(self@, T::modulus()));
        r
    }

    /// Every entry multiplied by a scalar.
    pub fn scalar_mul(&self, rhs: T) -> (r: FVec<T>)
        ensures
            r@ == vec_scale(self@, rhs.value(), T::modulus()),
    {
        let n: usize = self.0.len();
        let mut out: Vec<T> = Vec::with_capacity(n);
        let mut i: usize = 0;
        while i < n
            invariant
                i <= n,
                n == self.0@.len(),
                out@.len() == i,
                forall|j: int|
                    0 <= j < i ==> (#[trigger] out@[j]).value() == (self.0@[j].value()
                        * rhs.value()) % T::modulus(),
            decreases n - i,
        {
            out.push(self.0[i].mul(&rhs));
            i += 1;
        }
        let r: FVec<T> = FVec(out);
        assert(r@ =~= vec_scale(self@, rhs.value(), T::modulus()));
        r
    }

    /// Takes another vector off this one, entry by entry, over the entries
    /// that both have.
    pub fn sub_assign(&mut self, rhs: &FVec<T>)
        ensures
            final(self)@.len() == old(self)@.len(),
            forall|j: int|
                0 <= j < old(self)@.len() ==> final(self)@[j] == if j < rhs@.len() {
                    (old(self)@[j] - rhs@[j]) % T::modulus()
                } else {
                    old(self)@[j]
                },
    {
        let n: usize = if self.0.len() <= rhs.0.len() {
            self.0.len()
        } else {
            rhs.0.len()
        };
        let mut i: usize = 0;
        while i < n
            invariant
                i <= n,
                n == shorter(old(self).0@.len(), rhs.0@.len()),
                self.0@.len() == old(self).0@.len(),
                forall|j: int|
                    0 <= j < i ==> (#[trigger] self.0@[j]).value() == (old(self).0@[j].value()
                        - rhs.0@[j].value()) % T::modulus(),
                forall|j: int| i <= j < self.0@.len() ==> self.0@[j] == old(self).0@[j],
            decreases n - i,
        {
            let d: T = self.0[i].sub(&rhs.0[i]);
            self.0.set(i, d);
            i += 1;
        }
    }

    /// Appends `len` zeroes.
    pub fn zero_pad(&mut self, len: usize)
        ensures
            final(self)@ == old(self)@ + Seq::new(len as nat, |i: int| 0int),
    {
        let mut i: usize = 0;
        while i < len
            invariant
                i <= len,
                self.0@.len() == old(self).0@.len() + i,
                forall|j: int| 0 <= j < old(self).0@.len() ==> self.0@[j] == old(self).0@[j],
                forall|j: int|
                    old(self).0@.len() <= j < self.0@.len() ==> (#[trigger] self.0@[j]).value()
                        == 0,
            decreases len - i,
        {
            self.0.push(T::zero());
            i += 1;
        }
        assert(self@ =~= old(self)@ + Seq::new(len as nat, |i: int| 0int));
    }

    /// Whether two vectors have the same length and the same entries.
    pub fn equals(&self, rhs: &FVec<T>) -> (b: bool)
        ensures
            b == (self@ == rhs@),
    {
        if self.0.len() != rhs.0.len() {
            assert(self@.len() != rhs@.len());
            return false;
        }
        let mut i: usize = 0;
        while i < self.0.len()
            invariant
                i <= self.0.len(),
                self.0@.len() == rhs.0@.len(),
                forall|j: int| 0 <= j < i ==> self@[j] == rhs@[j],
            decreases self.0.len() - i,
        {
            if !self.0[i].equals(&rhs.0[i]) {
                assert(self@[i as int] != rhs@[i as int]);
                return false;
            }
            i += 1;
        }
        assert(self@ =~= rhs@);
        true
    }
}

/// Dot products of a dense vector, with another dense vector and with a
/// sparse one.
pub trait DotProduct<T: PF> {
    /// The type of a dot product.
    type Inner;

    /// The residue of a dot product.
    spec fn inner_value(x: Self::Inner) -> int;

    /// The dot product with a dense vector.
    spec fn dot_of(&self, rhs: &Self) -> int;

    /// Whether a sparse vector only names entries that this vector has.
    spec fn fits(&self, rhs: &SparseVec<T>) -> bool;

    /// The dot product with a sparse vector.
    spec fn sparse_dot_of(&self, rhs: &SparseVec<T>) -> int;

    /// Computes the dot product with a dense vector, over the entries that
    /// both have.
    fn dot(&self, rhs: &Self) -> (r: Self::Inner)
        ensures
            Self::inner_value(r) == self.dot_of(rhs),
    ;

    /// Computes the dot product with a sparse vector, touching only the
    /// entries that the sparse vector names.
    fn sparse_dot(&self, rhs: &SparseVec<T>) -> (r: Self::Inner)
        requires
            self.fits(rhs),
        ensures
            Self::inner_value(r) == self.sparse_dot_of(rhs),
    ;
}

impl<T: PF> DotProduct<T> for FVec<T> {
    type Inner = T;

    open spec fn inner_value(x: T) -> int {
        x.value()
    }

    open spec fn dot_of(&self, rhs: &Self) -> int {
        dot(self@, rhs@, T::modulus())
    }

    open spec fn fits(&self, rhs: &SparseVec<T>) -> bool {
        indices_below(rhs@, self@.len() as int)
    }

    open spec fn sparse_dot_of(&self, rhs: &SparseVec<T>) -> int {
        sparse_dot(self@, rhs@, T::modulus())
    }

    fn dot(&self, rhs: &Self) -> (r: T) {
        let n: usize = if self.0.len() <= rhs.0.len() {
            self.0.len()
        } else {
            rhs.0.len()
        };
        let mut acc: T = T::zero();
        let mut i: usize = 0;
        proof {
            T::modulus_exceeds_one();
            vstd::arithmetic::div_mod::lemma_small_mod(0, T::modulus() as nat);
        }
        while i < n
            invariant
                i <= n,
                n == shorter(self.0@.len(), rhs.0@.len()),
                T::modulus() > 1,
                acc.value() == sum_products(self@, rhs@, i as nat) % T::modulus(),
            decreases n - i,
        {
            let p: T = self.0[i].mul(&rhs.0[i]);
            proof {
                vstd::arithmetic::div_mod::lemma_add_mod_noop(
                    sum_products(self@, rhs@, i as nat),
                    self@[i as int] * rhs@[i as int],
                    T::modulus(),
                );
            }
            acc = acc.add(&p);
            i += 1;
        }
        assert(acc.value() == sum_products(self@, rhs@, n as nat) % T::modulus());
        assert(n as nat == shorter(self@.len(), rhs@.len()));
        assert(acc.value() == dot(self@, rhs@, T::modulus()));
        assert(Self::inner_value(acc) == acc.value());
        assert(self.dot_of(rhs) == dot(self@, rhs@, T::modulus()));
        acc
    }

    fn sparse_dot(&self, rhs: &SparseVec<T>) -> (r: T) {
        let n: usize = rhs.0.len();
        let mut acc: T = T::zero();
        let mut i: usize = 0;
        proof {
            T::modulus_exceeds_one();
            vstd::arithmetic::div_mod::lemma_small_mod(0, T::modulus() as nat);
        }
        while i < n
            invariant
                i <= n,
                n == rhs.0@.len(),
                T::modulus() > 1,
                indices_below(rhs@, self@.len() as int),
                acc.value() == sum_sparse_products(self@, rhs@, i as nat) % T::modulus(),
            decreases n - i,
        {
            let idx: usize = rhs.0[i].0;
            let val: T = rhs.0[i].1;
            assert(rhs@[i as int].0 == idx);
            let p: T = self.0[idx].mul(&val);
            proof {
                vstd::arithmetic::div_mod::lemma_add_mod_noop(
                    sum_sparse_products(self@, rhs@, i as nat),
                    self@[idx as int] * rhs@[i as int].1,
                    T::modulus(),
                );
            }
            acc = acc.add(&p);
            i += 1;
        }
        acc
    }
}

impl<T: PF> FVec<T> {
    /// This vector times a matrix given by its columns.
    pub fn mul_matrix(&self, rhs: &FMatrix<T>) -> (r: FVec<T>)
        ensures
            r@ == vec_mat(self@, rhs@, T::modulus()),
    {
        let n: usize = rhs.0.len();
        let mut out: Vec<T> = Vec::with_capacity(n);
        let mut j: usize = 0;
        while j < n
            invariant
                j <= n,
                n == rhs.0@.len(),
                out@.len() == j,
                forall|k: int|
                    0 <= k < j ==> (#[trigger] out@[k]).value() == dot(
                        self@,
                        rhs@[k],
                        T::modulus(),
                    ),
            decreases n - j,
        {
            out.push(self.dot(&rhs.0[j]));
            j += 1;
        }
        let r: FVec<T> = FVec(out);
        assert(r@ =~= vec_mat(self@, rhs@, T::modulus()));
        r
    }

    /// This vector times a sparse matrix, touching only the entries that the
    /// sparse rows name.
    pub fn mul_sparse_matrix(&self, rhs: &SparseFMatrix<T>) -> (r: FVec<T>)
        requires
            forall|j: int|
                0 <= j < rhs@.len() ==> indices_below(#[trigger] rhs@[j], self@.len() as int),
        ensures
            r@ == vec_sparse_mat(self@, rhs@, T::modulus()),
    {
        let n: usize = rhs.0.len();
        let mut out: Vec<T> = Vec::with_capacity(n);
        let mut j: usize = 0;
        while j < n
            invariant
                j <= n,
                n == rhs.0@.len(),
                out@.len() == j,
                forall|k: int|
                    0 <= k < rhs@.len() ==> indices_below(#[trigger] rhs@[k], self@.len() as int),
                forall|k: int|
                    0 <= k < j ==> (#[trigger] out@[k]).value() == sparse_dot(
                        self@,
                        rhs@[k],
                        T::modulus(),
                    ),
            decreases n - j,
        {
            assert(indices_below(rhs@[j as int], self@.len() as int));
            out.push(self.sparse_dot(&rhs.0[j]));
            j += 1;
        }
        let r: FVec<T> = FVec(out);
        assert(r@ =~= vec_sparse_mat(self@, rhs@, T::modulus()));
        r
    }
}

impl<T: PF> SparseVec<T> {
    /// The dense vector of length `len` with these entries: where an index
    /// comes twice, the later entry stays.
    pub fn to_fvec(&self, len: usize) -> (r: FVec<T>)
        requires
            indices_below(self@, len as int),
        ensures
            r@ == densify(self@, len as nat, self@.len()),
    {
        let mut out: Vec<T> = Vec::with_capacity(len);
        let mut i: usize = 0;
        while i < len
            invariant
                i <= len,
                out@.len() == i,
                forall|j: int| 0 <= j < i ==> (#[trigger] out@[j]).value() == 0,
            decreases len - i,
        {
            out.push(T::zero());
            i += 1;
        }
        assert(residues(out@) =~= densify(self@, len as nat, 0));
        let mut k: usize = 0;
        while k < self.0.len()
            invariant
                k <= self.0.len(),
                out@.len() == len,
                indices_below(self@, len as int),
                residues(out@) == densify(self@, len as nat, k as nat),
            decreases self.0.len() - k,
        {
            let idx: usize = self.0[k].0;
            let val: T = self.0[k].1;
            assert(self@[k as int].0 == idx);
            let ghost before: Seq<T> = out@;
            out.set(idx, val);
            assert(residues(out@) =~= residues(before).update(idx as int, val.value()));
            k += 1;
        }
        FVec(out)
    }
}

impl<T: PF> Clone for FMatrix<T> {
    fn clone(&self) -> (r: Self)
        ensures
            r@ == self@,
            r.elements() == self.elements(),
    {
        let mut out: Vec<FVec<T>> = Vec::with_capacity(self.0.len());
        let mut i: usize = 0;
        while i < self.0.len()
            invariant
                i <= self.0.len(),
                out@.len() == i,
                forall|j: int| 0 <= j < i ==> (#[trigger] out@[j]).0@ == self.0@[j].0@,
            decreases self.0.len() - i,
        {
            out.push(self.0[i].clone());
            i += 1;
        }
        let r: FMatrix<T> = FMatrix(out);
        assert(r@ =~= self@);
        assert(r.elements() =~= self.elements());
        r
    }
}

impl<T: PF> FMatrix<T> {
    /// The elements of the matrix, row by row.
    pub open spec fn elements(&self) -> Seq<Seq<T>> {
        Seq::new(self.0@.len(), |i: int| self.0@[i].0@)
    }
}

impl<T: PF> FMatrix<T> {
    /// The transpose of a matrix with at least one row, none of them shorter
    /// than the first.
    pub fn transpose(&self) -> (r: FMatrix<T>)
        requires
            self@.len() > 0,
            forall|j: int| 0 <= j < self@.len() ==> (#[trigger] self@[j]).len() >= self@[0].len(),
        ensures
            r@ == transposed(self@, self@[0].len()),
    {
        let outer_len: usize = self.0.len();
        let inner_len: usize = self.0[0].0.len();
        let mut res: Vec<FVec<T>> = Vec::with_capacity(inner_len);
        let mut i: usize = 0;
        while i < inner_len
            invariant
                i <= inner_len,
                outer_len == self.0@.len(),
                inner_len == self@[0].len(),
                forall|j: int|
                    0 <= j < self@.len() ==> (#[trigger] self@[j]).len() >= self@[0].len(),
                res@.len() == i,
                forall|k: int|
                    0 <= k < i ==> (#[trigger] res@[k])@ == Seq::new(
                        self@.len(),
                        |j: int| self@[j][k],
                    ),
            decreases inner_len - i,
        {
            let mut new: Vec<T> = Vec::with_capacity(outer_len);
            let mut j: usize = 0;
            while j < outer_len
                invariant
                    j <= outer_len,
                    i < inner_len,
                    outer_len == self.0@.len(),
                    inner_len == self@[0].len(),
                    forall|j: int|
                        0 <= j < self@.len() ==> (#[trigger] self@[j]).len() >= self@[0].len(),
                    new@.len() == j,
                    forall|l: int| 0 <= l < j ==> (#[trigger] new@[l]).value() == self@[l][i as int],
                decreases outer_len - j,
            {
                assert(self@[j as int].len() >= self@[0].len());
                new.push(self.0[j].0[i]);
                j += 1;
            }
            let row: FVec<T> = FVec(new);
            assert(row@ =~= Seq::new(self@.len(), |j: int| self@[j][i as int]));
            res.push(row);
            i += 1;
        }
        let r: FMatrix<T> = FMatrix(res);
        assert(r@ =~= transposed(self@, self@[0].len()));
        r
    }

    /// Every entry multiplied by a scalar.
    pub fn scalar_mul(&self, rhs: T) -> (r: FMatrix<T>)
        ensures
            r@ == mat_scale(self@, rhs.value(), T::modulus()),
    {
        let n: usize = self.0.len();
        let mut out: Vec<FVec<T>> = Vec::with_capacity(n);
        let mut i: usize = 0;
        while i < n
            invariant
                i <= n,
                n == self.0@.len(),
                out@.len() == i,
                forall|j: int|
                    0 <= j < i ==> (#[trigger] out@[j])@ == vec_scale(
                        self@[j],
                        rhs.value(),
                        T::modulus(),
                    ),
            decreases n - i,
        {
            out.push(self.0[i].scalar_mul(rhs));
            i += 1;
        }
        let r: FMatrix<T> = FMatrix(out);
        assert(r@ =~= mat_scale(self@, rhs.value(), T::modulus()));
        r
    }

    /// The length of the first row, then the number of rows.
    pub fn dim(&self) -> (r: (usize, usize))
        requires
            self@.len() > 0,
        ensures
            r.0 == self@[0].len(),
            r.1 == self@.len(),
    {
        (self.0[0].0.len(), self.0.len())
    }

    /// The sum with another matrix, row by row.
    pub fn add(&self, rhs: &FMatrix<T>) -> (r: FMatrix<T>)
        ensures
            r@ == mat_add(self@, rhs@, T::modulus()),
    {
        let n: usize = if self.0.len() <= rhs.0.len() {
            self.0.len()
        } else {
            rhs.0.len()
        };
        let mut out: Vec<FVec<T>> = Vec::with_capacity(n);
        let mut i: usize = 0;
        while i < n
            invariant
                i <= n,
                n == shorter(self.0@.len(), rhs.0@.len()),
                out@.len() == i,
                forall|j: int|
                    0 <= j < i ==> (#[trigger] out@[j])@ == vec_add(
                        self@[j],
                        rhs@[j],
                        T::modulus(),
                    ),
            decreases n - i,
        {
            out.push(self.0[i].add(&rhs.0[i]));
            i += 1;
        }
        let r: FMatrix<T> = FMatrix(out);
        assert(r@ =~= mat_add(self@, rhs@, T::modulus()));
        r
    }

    /// The difference with another matrix, row by row.
    pub fn sub(&self, rhs: &FMatrix<T>) -> (r: FMatrix<T>)
        ensures
            r@ == mat_sub(self@, rhs@, T::modulus()),
    {
        let n: usize = if self.0.len() <= rhs.0.len() {
            self.0.len()
        } else {
            rhs.0.len()
        };
        let mut out: Vec<FVec<T>> = Vec::with_capacity(n);
        let mut i: usize = 0;
        while i < n
            invariant
                i <= n,
                n == shorter(self.0@.len(), rhs.0@.len()),
                out@.len() == i,
                forall|j: int|
                    0 <= j < i ==> (#[trigger] out@[j])@ == vec_sub(
                        self@[j],
                        rhs@[j],
                        T::modulus(),
                    ),
            decreases n - i,
        {
            out.push(self.0[i].sub(&rhs.0[i]));
            i += 1;
        }
        let r: FMatrix<T> = FMatrix(out);
        assert(r@ =~= mat_sub(self@, rhs@, T::modulus()));
        r
    }

    /// Whether two matrices have the same rows.
    pub fn equals(&self, rhs: &FMatrix<T>) -> (b: bool)
        ensures
            b == (self@ == rhs@),
    {
        if self.0.len() != rhs.0.len() {
            assert(self@.len() != rhs@.len());
            return false;
        }
        let mut i: usize = 0;
        while i < self.0.len()
            invariant
                i <= self.0.len(),
                self.0@.len() == rhs.0@.len(),
                forall|j: int| 0 <= j < i ==> self@[j] == rhs@[j],
            decreases self.0.len() - i,
        {
            if !self.0[i].equals(&rhs.0[i]) {
                assert(self@[i as int] != rhs@[i as int]);
                return false;
            }
            i += 1;
        }
        assert(self@ =~= rhs@);
        true
    }
}

impl<T: PF> SparseFMatrix<T> {
    /// The dense matrix with rows of length `len`.
    pub fn to_fmatrix(&self, len: usize) -> (r: FMatrix<T>)
        requires
            forall|j: int| 0 <= j < self@.len() ==> indices_below(#[trigger] self@[j], len as int),
        ensures
            r@ == Seq::new(
                self@.len(),
                |j: int| densify(self@[j], len as nat, self@[j].len()),
            ),
    {
        let n: usize = self.0.len();
        let mut out: Vec<FVec<T>> = Vec::with_capacity(n);
        let mut i: usize = 0;
        while i < n
            invariant
                i <= n,
                n == self.0@.len(),
                out@.len() == i,
                forall|j: int|
                    0 <= j < self@.len() ==> indices_below(#[trigger] self@[j], len as int),
                forall|j: int|
                    0 <= j < i ==> (#[trigger] out@[j])@ == densify(
                        self@[j],
                        len as nat,
                        self@[j].len(),
                    ),
            decreases n - i,
        {
            assert(indices_below(self@[i as int], len as int));
            out.push(self.0[i].to_fvec(len));
            i += 1;
        }
        let r: FMatrix<T> = FMatrix(out);
        assert(r@ =~= Seq::new(
            self@.len(),
            |j: int| densify(self@[j], len as nat, self@[j].len()),
        ));
        r
    }
}

impl<T: PF> PartialEq for FVec<T> {
    fn eq(&self, other: &Self) -> (r: bool) {
        self.equals(other)
    }
}

impl<T: PF> PartialEqSpecImpl for FVec<T> {
    open spec fn obeys_eq_spec() -> bool {
        true
    }

    open spec fn eq_spec(&self, other: &Self) -> bool {
        self@ == other@
    }
}

impl<T: PF> PartialEq for FMatrix<T> {
    fn eq(&self, other: &Self) -> (r: bool) {
        self.equals(other)
    }
}

impl<T: PF> PartialEqSpecImpl for FMatrix<T> {
    open spec fn obeys_eq_spec() -> bool {
        true
    }

    open spec fn eq_spec(&self, other: &Self) -> bool {
        self@ == other@
    }
}

/// The size of a value's data in memory.
pub trait DataSize {
    /// The number of bytes that the data takes.
    spec fn byte_size(&self) -> nat;

    /// The number of bytes that the data takes, or the largest number that
    /// the machine can hold where that is less.
    fn size_in_bytes(&self) -> (r: usize)
        ensures
            r == if self.byte_size() <= usize::MAX {
                self.byte_size()
            } else {
                usize::MAX as nat
            },
    ;
}

/// The sum of the sizes of the first `n` rows of a matrix.
pub open spec fn rows_byte_size<T: PF>(rows: Seq<FVec<T>>, n: nat) -> nat
    decreases n,
{
    if n == 0 {
        0
    } else {
        rows_byte_size(rows, (n - 1) as nat) + rows[n - 1].byte_size()
    }
}

impl<T: PF> DataSize for FVec<T> {
    /// Thirty-two bytes for every element.
    open spec fn byte_size(&self) -> nat {
        32 * self.0@.len()
    }

    fn size_in_bytes(&self) -> (r: usize) {
        match self.0.len().checked_mul(32) {
            Some(size) => size,
            None => usize::MAX,
        }
    }
}

impl<T: PF> DataSize for FMatrix<T> {
    /// The sizes of the rows together.
    open spec fn byte_size(&self) -> nat {
        rows_byte_size(self.0@, self.0@.len())
    }

    fn size_in_bytes(&self) -> (r: usize) {
        let mut total: usize = 0;
        let mut i: usize = 0;
        while i < self.0.len()
            invariant
                i <= self.0@.len(),
                total == if rows_byte_size(self.0@, i as nat) <= usize::MAX {
                    rows_byte_size(self.0@, i as nat)
                } else {
                    usize::MAX as nat
                },
            decreases self.0@.len() - i,
        {
            let row: usize = self.0[i].size_in_bytes();
            total = match total.checked_add(row) {
                Some(sum) => sum,
                None => usize::MAX,
            };
            i += 1;
        }
        total
    }
}

} // verus!
