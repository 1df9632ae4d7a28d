use volonym::{DataSize, DotProduct, FMatrix, FVec, Fr, SparseFMatrix, SparseVec, PF};

fn f(x: u64) -> Fr {
    Fr::from_u64(x)
}

fn fv(xs: &[u64]) -> FVec<Fr> {
    FVec(xs.iter().map(|x| Fr::from_u64(*x)).collect())
}

#[test]
fn test_transpose() {
    let x = FMatrix(vec![
        FVec(vec![Fr::from_u64(1u64), Fr::from_u64(2u64), Fr::from_u64(3u64)]),
        FVec(vec![Fr::from_u64(4u64), Fr::from_u64(5u64), Fr::from_u64(6u64)]),
        FVec(vec![Fr::from_u64(7u64), Fr::from_u64(8u64), Fr::from_u64(9u64)]),
    ]);
    let x_t = FMatrix(vec![
        FVec(vec![Fr::from_u64(1u64), Fr::from_u64(4u64), Fr::from_u64(7u64)]),
        FVec(vec![Fr::from_u64(2u64), Fr::from_u64(5u64), Fr::from_u64(8u64)]),
        FVec(vec![Fr::from_u64(3u64), Fr::from_u64(6u64), Fr::from_u64(9u64)]),
    ]);
    assert_eq!(x.transpose(), x_t);
}

// Could cover more edge cases
#[test]
fn test_sparse_vec() {
    let a = FVec(vec![Fr::zero(), Fr::zero(), Fr::zero(), Fr::from_u128(69)]);
    let b = SparseVec(vec![(3, Fr::from_u128(100)), (2, Fr::from_u128(5))]);
    assert!(a.sparse_dot(&b) == Fr::from_u128(6900));
}

#[test]
fn transpose_of_a_wide_matrix() {
    let x = FMatrix(vec![fv(&[1, 2, 3]), fv(&[4, 5, 6])]);
    let x_t = FMatrix(vec![fv(&[1, 4]), fv(&[2, 5]), fv(&[3, 6])]);
    assert_eq!(x.transpose(), x_t);
    assert_eq!(x.transpose().transpose(), x);
    assert_eq!(x.dim(), (3, 2));
}

#[test]
fn vector_arithmetic_is_entrywise() {
    let a = fv(&[1, 2, 3]);
    let b = fv(&[10, 20, 30]);
    assert_eq!(a.add(&b), fv(&[11, 22, 33]));
    assert_eq!(b.sub(&a), fv(&[9, 18, 27]));
    assert_eq!(a.mul(&b), fv(&[10, 40, 90]));
    assert_eq!(a.scalar_mul(f(7)), fv(&[7, 14, 21]));
    assert_eq!(a.neg().add(&a), fv(&[0, 0, 0]));
    assert_eq!(a.dot(&b), f(140));
}

#[test]
fn vector_arithmetic_stops_at_the_shorter_vector() {
    let a = fv(&[1, 2, 3]);
    let b = fv(&[10, 20]);
    assert_eq!(a.add(&b), fv(&[11, 22]));
    assert_eq!(a.dot(&b), f(50));
}

#[test]
fn vectors_of_different_length_differ() {
    assert!(fv(&[1, 2]) != fv(&[1, 2, 3]));
    assert!(fv(&[1, 2, 3]) == fv(&[1, 2, 3]));
    assert!(fv(&[1, 2, 4]) != fv(&[1, 2, 3]));
}

#[test]
fn sub_assign_and_zero_pad() {
    let mut a = fv(&[10, 20, 30]);
    a.sub_assign(&fv(&[1, 2]));
    assert_eq!(a, fv(&[9, 18, 30]));
    a.zero_pad(2);
    assert_eq!(a, fv(&[9, 18, 30, 0, 0]));
}

#[test]
fn sparse_vector_to_dense() {
    let s = SparseVec(vec![(3, f(100)), (1, f(5))]);
    assert_eq!(s.to_fvec(5), fv(&[0, 5, 0, 100, 0]));
    let m = SparseFMatrix(vec![s.clone(), SparseVec(vec![(0, f(1))])]);
    assert_eq!(m.to_fmatrix(4), FMatrix(vec![fv(&[0, 5, 0, 100]), fv(&[1, 0, 0, 0])]));
}

#[test]
fn vector_times_matrices() {
    let v = fv(&[1, 2, 3]);
    let cols = FMatrix(vec![fv(&[1, 0, 0]), fv(&[1, 1, 1]), fv(&[0, 0, 2])]);
    assert_eq!(v.mul_matrix(&cols), fv(&[1, 6, 6]));
    let sparse = SparseFMatrix(vec![
        SparseVec(vec![(0, f(1))]),
        SparseVec(vec![(0, f(1)), (1, f(1)), (2, f(1))]),
        SparseVec(vec![]),
    ]);
    assert_eq!(v.mul_sparse_matrix(&sparse), fv(&[1, 6, 0]));
}

#[test]
fn matrix_arithmetic() {
    let a = FMatrix(vec![fv(&[1, 2]), fv(&[3, 4])]);
    let b = FMatrix(vec![fv(&[10, 20]), fv(&[30, 40])]);
    assert_eq!(a.add(&b), FMatrix(vec![fv(&[11, 22]), fv(&[33, 44])]));
    assert_eq!(b.sub(&a), FMatrix(vec![fv(&[9, 18]), fv(&[27, 36])]));
    assert_eq!(a.scalar_mul(f(3)), FMatrix(vec![fv(&[3, 6]), fv(&[9, 12])]));
}

#[test]
fn data_sizes() {
    assert_eq!(fv(&[1, 2, 3]).size_in_bytes(), 96);
    assert_eq!(FMatrix(vec![fv(&[1, 2]), fv(&[3])]).size_in_bytes(), 96);
}
