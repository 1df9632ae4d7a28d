use volonym::zkp::{
    copy_indices, names_columns_below, names_columns_once, names_wires_below, PadParams,
    R1CSWithMetadata, R1CS,
};
use volonym::{Fr, SparseFMatrix, SparseVec};

fn matrix(rows: &[&[(usize, u64)]]) -> SparseFMatrix<Fr> {
    SparseFMatrix(
        rows.iter()
            .map(|row| SparseVec(row.iter().map(|(i, v)| (*i, Fr::from_u64(*v))).collect()))
            .collect(),
    )
}

fn circuit_with(wires: usize) -> R1CSWithMetadata<Fr> {
    R1CSWithMetadata {
        r1cs: R1CS {
            a_rows: matrix(&[&[(0, 1), (1, 1)], &[(2, 1)]]),
            b_rows: matrix(&[&[(1, 2)], &[(0, 2)]]),
            c_rows: matrix(&[&[(2, 1)], &[(3, 1)]]),
        },
        public_inputs_indices: vec![1],
        public_outputs_indices: vec![3],
        unpadded_wtns_len: wires,
    }
}

#[test]
fn padding_fills_the_last_row() {
    assert_eq!(
        circuit_with(4).calc_padding_needed(512),
        Some(PadParams {
            orig_wtns_len: 4,
            padded_wtns_len: 512,
            num_padded_wtns_rows: 1,
            pad_len: 508,
        })
    );
    assert_eq!(
        circuit_with(513).calc_padding_needed(512),
        Some(PadParams {
            orig_wtns_len: 513,
            padded_wtns_len: 1024,
            num_padded_wtns_rows: 2,
            pad_len: 511,
        })
    );
}

#[test]
fn whole_rows_need_no_padding() {
    assert_eq!(
        circuit_with(1024).calc_padding_needed(512),
        Some(PadParams {
            orig_wtns_len: 1024,
            padded_wtns_len: 1024,
            num_padded_wtns_rows: 2,
            pad_len: 0,
        })
    );
    assert_eq!(
        circuit_with(0).calc_padding_needed(7),
        Some(PadParams { orig_wtns_len: 0, padded_wtns_len: 0, num_padded_wtns_rows: 0, pad_len: 0 })
    );
}

#[test]
fn padding_beyond_the_machine_is_refused() {
    assert_eq!(circuit_with(usize::MAX).calc_padding_needed(512), None);
    assert_eq!(
        circuit_with(usize::MAX).calc_padding_needed(1),
        Some(PadParams {
            orig_wtns_len: usize::MAX,
            padded_wtns_len: usize::MAX,
            num_padded_wtns_rows: usize::MAX,
            pad_len: 0,
        })
    );
}

#[test]
fn well_formed_circuits_name_existing_wires() {
    assert!(circuit_with(4).is_well_formed());
    assert!(circuit_with(5).is_well_formed());
    // The last constraint names the wire 3.
    assert!(!circuit_with(3).is_well_formed());

    let mut uneven = circuit_with(4);
    uneven.r1cs.c_rows.0.pop();
    assert!(!uneven.is_well_formed());

    let mut bad_input = circuit_with(4);
    bad_input.public_inputs_indices = vec![4];
    assert!(!bad_input.is_well_formed());

    let mut bad_output = circuit_with(4);
    bad_output.public_outputs_indices = vec![1, 7];
    assert!(!bad_output.is_well_formed());
}

#[test]
fn column_and_wire_bounds() {
    let m = matrix(&[&[(0, 1), (5, 1)], &[], &[(2, 1)]]);
    assert!(names_columns_below(&m, 6));
    assert!(!names_columns_below(&m, 5));
    assert!(names_columns_below(&matrix(&[]), 0));
    assert!(names_wires_below(&vec![0, 3, 2], 4));
    assert!(!names_wires_below(&vec![0, 4], 4));
    assert!(names_wires_below(&vec![], 0));
    assert_eq!(copy_indices(&vec![4, 1, 1]), vec![4, 1, 1]);
}

#[test]
fn circuits_that_fit_the_default_code() {
    assert!(circuit_with(0).fits_default_code());
    assert!(circuit_with(4).fits_default_code());
    assert!(circuit_with(1 << 24).fits_default_code());
    // The padded witness must fit the machine.
    assert!(circuit_with(usize::MAX - 511).fits_default_code());
    assert!(!circuit_with(usize::MAX - 510).fits_default_code());
    assert!(!circuit_with(usize::MAX).fits_default_code());
}

#[test]
fn rows_that_name_a_column_twice_are_not_well_formed() {
    let mut twice = circuit_with(4);
    twice.r1cs.a_rows = matrix(&[&[(0, 1), (1, 1), (0, 5)], &[(2, 1)]]);
    assert!(!twice.is_well_formed());

    let mut twice = circuit_with(4);
    twice.r1cs.b_rows = matrix(&[&[(1, 2)], &[(3, 2), (3, 2)]]);
    assert!(!twice.is_well_formed());

    let mut twice = circuit_with(4);
    twice.r1cs.c_rows = matrix(&[&[(2, 1), (1, 0), (2, 0)], &[(3, 1)]]);
    assert!(!twice.is_well_formed());

    // The same column in two rows is in order, whatever the order in a row.
    let mut fine = circuit_with(4);
    fine.r1cs.a_rows = matrix(&[&[(3, 1), (0, 1), (2, 1)], &[(2, 1), (3, 1), (0, 1)]]);
    assert!(fine.is_well_formed());
}

#[test]
fn columns_named_once() {
    assert!(names_columns_once(&matrix(&[]), 0));
    assert!(names_columns_once(&matrix(&[&[], &[]]), 0));
    assert!(names_columns_once(&matrix(&[&[(4, 1), (0, 1)], &[(0, 1), (4, 1)], &[(4, 2)]]), 5));
    assert!(!names_columns_once(&matrix(&[&[(4, 1), (0, 1)], &[(0, 1), (4, 1), (0, 1)]]), 5));
    assert!(!names_columns_once(&matrix(&[&[(2, 1), (2, 1)]]), 3));
    assert!(!names_columns_once(&matrix(&[&[(0, 1)], &[(1, 1), (2, 3), (1, 1), (2, 3)]]), 3));
}
