use volonym::circom::{Constraints, Header, R1CSFile};
use volonym::pretty::{constraint_line, element_text, factor_leading_sign, number_text};
use volonym::{FMatrix, FVec, Fr, SparseFMatrix, SparseVec, PF};

const HALF: &str = "10944121435919637611123202872628637544274182200208017171849102093287904247808";
const PRIME: &str = "21888242871839275222246405745257275088548364400416034343698204186575808495617";

fn signed(x: i64) -> Fr {
    if x < 0 {
        Fr::from_u64(x.unsigned_abs()).neg()
    } else {
        Fr::from_u64(x as u64)
    }
}

fn combination(terms: &[(usize, i64)]) -> SparseVec<Fr> {
    SparseVec(terms.iter().map(|(i, c)| (*i, signed(*c))).collect())
}

fn factored(terms: &[(usize, i64)]) -> (i32, String) {
    factor_leading_sign(&combination(terms))
}

fn line(i: usize, a: &[(usize, i64)], b: &[(usize, i64)], c: &[(usize, i64)]) -> String {
    constraint_line(i, &combination(a), &combination(b), &combination(c))
}

#[test]
fn numbers_are_shown_in_decimal() {
    assert_eq!(number_text(0), "0");
    assert_eq!(number_text(7), "7");
    assert_eq!(number_text(10), "10");
    assert_eq!(number_text(1203), "1203");
    assert_eq!(number_text(u64::MAX), "18446744073709551615");
}

#[test]
fn elements_are_shown_by_their_signed_norm() {
    assert_eq!(element_text(&Fr::zero()), "0");
    assert_eq!(element_text(&Fr::one()), "1");
    assert_eq!(element_text(&Fr::from_u64(280)), "280");
    assert_eq!(element_text(&signed(-1)), "-1");
    assert_eq!(element_text(&signed(-3000)), "-3000");
    assert_eq!(element_text(&Fr::half_prime()), HALF);
    assert_eq!(element_text(&Fr::half_prime().add(&Fr::one())), format!("-{HALF}"));
}

#[test]
fn empty_combination_is_zero_without_a_sign() {
    assert_eq!(factored(&[]), (0, "0".to_string()));
}

#[test]
fn single_terms() {
    assert_eq!(factored(&[(0, 1)]), (1, "1".to_string()));
    assert_eq!(factored(&[(0, 5)]), (1, "5".to_string()));
    assert_eq!(factored(&[(2, 1)]), (1, "x2".to_string()));
    assert_eq!(factored(&[(2, 3)]), (1, "3*x2".to_string()));
    assert_eq!(factored(&[(0, 0)]), (1, "0".to_string()));
    assert_eq!(factored(&[(1, 0)]), (1, "0*x1".to_string()));
    assert_eq!(factored(&[(12, -1)]), (-1, "x12".to_string()));
    assert_eq!(factored(&[(0, -9)]), (-1, "9".to_string()));
}

#[test]
fn leading_sign_is_taken_out_of_every_term() {
    assert_eq!(factored(&[(1, -1), (2, 1), (0, 4)]), (-1, "x1 - x2 - 4".to_string()));
    assert_eq!(factored(&[(1, -2), (2, -3)]), (-1, "2*x1 + 3*x2".to_string()));
    assert_eq!(factored(&[(1, 2), (2, -3)]), (1, "2*x1 - 3*x2".to_string()));
}

#[test]
fn later_terms_start_with_their_sign() {
    assert_eq!(
        factored(&[(0, 2), (3, 7), (4, -2), (0, 1), (5, 1), (6, -1), (0, -4)]),
        (1, "2 + 7*x3 - 2*x4 + 1 + x5 - x6 - 4".to_string())
    );
    // A coefficient of zero counts as not positive.
    assert_eq!(factored(&[(1, 1), (6, 0), (0, 0)]), (1, "x1 - 0*x6 - 0".to_string()));
}

#[test]
fn constraint_lines() {
    assert_eq!(
        line(0, &[(0, 1), (1, 1)], &[(1, 2)], &[(2, 1)]),
        "  Constraint 0: (1 + x1) * 2*x1 = x2\n"
    );
    assert_eq!(
        line(17, &[(2, 1)], &[(0, 2), (1, -1)], &[(3, 1)]),
        "  Constraint 17: x2 * (2 - x1) = x3\n"
    );
}

#[test]
fn constraint_lines_carry_the_sign_to_the_right() {
    assert_eq!(
        line(1, &[(1, -1)], &[(2, 1)], &[(3, 1), (0, -2)]),
        "  Constraint 1: x1 * x2 = -(x3 - 2)\n"
    );
    assert_eq!(line(1, &[(1, -1)], &[(2, 1)], &[(3, 1)]), "  Constraint 1: x1 * x2 = -x3\n");
    assert_eq!(line(1, &[(1, -1)], &[(2, -1)], &[(3, 1)]), "  Constraint 1: x1 * x2 = x3\n");
    assert_eq!(line(1, &[(1, 1)], &[(2, 1)], &[(3, -1)]), "  Constraint 1: x1 * x2 = -x3\n");
    // Zero is not negated, and an empty right-hand side has no sign.
    assert_eq!(line(1, &[(1, -1)], &[(2, 1)], &[(0, 0)]), "  Constraint 1: x1 * x2 = 0\n");
    assert_eq!(line(1, &[(1, -1)], &[(2, 1)], &[]), "  Constraint 1: x1 * x2 = 0\n");
}

#[test]
fn constraint_lines_with_a_zero_factor() {
    assert_eq!(line(2, &[], &[(2, 1)], &[(3, 1), (1, -1)]), "  Constraint 2: x3 - x1 = 0\n");
    assert_eq!(line(2, &[(2, 1)], &[(0, 0)], &[(3, -1)]), "  Constraint 2: x3 = 0\n");
}

#[test]
fn vectors_and_matrices_as_text() {
    let v = FVec(vec![signed(1), signed(-2), signed(3)]);
    assert_eq!(v.to_text(), "[ 1, -2, 3 ]");
    assert_eq!(FVec::<Fr>(vec![]).to_text(), "[  ]");
    assert_eq!(FVec(vec![signed(-7)]).to_text(), "[ -7 ]");
    let m = FMatrix(vec![FVec(vec![signed(1), signed(2)]), FVec(vec![signed(-3)])]);
    assert_eq!(m.to_text(), "Matrix in row major order:\n[\n\t[ 1, 2 ]\n\t[ -3 ]\n]");
    assert_eq!(FMatrix::<Fr>(vec![]).to_text(), "Matrix in row major order:\n[\n\t\n]");
}

fn some_file() -> R1CSFile {
    let mut prime_le = Fr::prime();
    prime_le.reverse();
    R1CSFile {
        version: 1,
        header: Header {
            field_size: 32,
            prime_size: prime_le,
            n_wires: 4,
            n_pub_out: 1,
            n_pub_in: 1,
            n_prv_in: 1,
            n_labels: 9,
            n_constraints: 2,
        },
        constraints: Constraints {
            a_rows: SparseFMatrix(vec![combination(&[(0, 1), (1, 1)]), combination(&[(2, -1)])]),
            b_rows: SparseFMatrix(vec![combination(&[(1, 2)]), combination(&[(0, 2)])]),
            c_rows: SparseFMatrix(vec![combination(&[(2, 1)]), combination(&[(3, 1)])]),
        },
        wire_mapping: vec![0, 1, 2, 3],
    }
}

#[test]
fn constraints_as_text() {
    assert_eq!(
        some_file().constraints.to_text(),
        "  Constraint 0: (1 + x1) * 2*x1 = x2\n  Constraint 1: x2 * 2 = -x3\n"
    );
    let none = Constraints {
        a_rows: SparseFMatrix(vec![]),
        b_rows: SparseFMatrix(vec![]),
        c_rows: SparseFMatrix(vec![]),
    };
    assert_eq!(none.to_text(), "");
}

#[test]
fn file_as_text() {
    let expected = [
        "=== R1CS Binary Format Parser ===\n",
        "\n",
        "Version: 1\n",
        "Number of sections: 3\n",
        "\n",
        "=== Header Details ===\n",
        "\n",
        "  Field size: 32 bytes\n",
        &format!("  Prime (field modulus): {PRIME}\n"),
        "  Number of wires: 4\n",
        "  Number of public outputs: 1\n",
        "  Number of public inputs: 1\n",
        "  Number of private inputs: 1\n",
        "  Number of labels: 9\n",
        "  Number of constraints: 2\n",
        "\n",
        "=== Constraints Section ===\n",
        "\n",
        "  Constraint 0: (1 + x1) * 2*x1 = x2\n",
        "  Constraint 1: x2 * 2 = -x3\n",
    ]
    .concat();
    assert_eq!(some_file().to_text(), expected);
}
