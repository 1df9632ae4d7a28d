use volonym::errors::Error;
use volonym::quicksilver::{flatten, weighted_accumulate, Prover, Verifier, ZKP};
use volonym::actors::PublicOpenings;
use volonym::zkp::{R1CSWithMetadata, R1CS};
use volonym::{FMatrix, FVec, Fr, SparseFMatrix, SparseVec, PF};

fn sparse_rows(rows: &[&[(usize, u64)]]) -> SparseFMatrix<Fr> {
    SparseFMatrix(
        rows.iter()
            .map(|row| SparseVec(row.iter().map(|(i, v)| (*i, Fr::from_u64(*v))).collect()))
            .collect(),
    )
}

fn elements(values: &[u64]) -> FVec<Fr> {
    FVec(values.iter().map(|x| Fr::from_u64(*x)).collect())
}

/// `(w0 + w1) * (2 * w1) = w2` and `w2 * (2 * w0) = w3`.
fn two_gates() -> R1CS<Fr> {
    R1CS {
        a_rows: sparse_rows(&[&[(0, 1), (1, 1)], &[(2, 1)]]),
        b_rows: sparse_rows(&[&[(1, 2)], &[(0, 2)]]),
        c_rows: sparse_rows(&[&[(2, 1)], &[(3, 1)]]),
    }
}

fn small_prover() -> Prover<Fr> {
    Prover {
        u: elements(&[5, 2, 28, 280]),
        v: elements(&[1, 2, 3, 4]),
        mask: (Fr::from_u64(7), Fr::from_u64(11)),
    }
}

/// The keys for `delta = 10`: every wire's value times ten plus its mask.
fn small_verifier() -> Verifier<Fr> {
    Verifier {
        q: elements(&[51, 22, 283, 2804]),
        delta: Fr::from_u64(10),
        mask_key: Fr::from_u64(81),
    }
}

#[test]
fn flatten_joins_the_leading_rows() {
    let mat = FMatrix(vec![elements(&[1, 2]), elements(&[3]), elements(&[4, 5])]);
    assert_eq!(flatten(&mat, 0), elements(&[]));
    assert_eq!(flatten(&mat, 2), elements(&[1, 2, 3]));
    assert_eq!(flatten(&mat, 3), elements(&[1, 2, 3, 4, 5]));
}

#[test]
fn weighted_accumulate_weighs_by_powers() {
    // 4 + 5 * 3 + 6 * 9
    assert_eq!(weighted_accumulate(&elements(&[4, 5, 6]), &Fr::from_u64(3)), Fr::from_u64(73));
    assert_eq!(weighted_accumulate(&elements(&[]), &Fr::from_u64(3)), Fr::zero());
    assert_eq!(weighted_accumulate(&elements(&[9]), &Fr::zero()), Fr::from_u64(9));
}

#[test]
fn quicksilver_proof_has_the_expected_coefficients() {
    // Gate 0: 7 * 4 + 4 * 3 - 3 = 37 and 3 * 4 = 12.
    // Gate 1: 28 * 2 + 10 * 3 - 4 = 82 and 3 * 2 = 6.
    // With the challenge 3: 37 + 3 * 82 + 7 = 290 and 12 + 3 * 6 + 11 = 41.
    let proof = small_prover().prove(&two_gates(), &Fr::from_u64(3));
    assert_eq!(proof.mul_proof.0, Fr::from_u64(290));
    assert_eq!(proof.mul_proof.1, Fr::from_u64(41));
}

#[test]
fn quicksilver_verifier_accepts_the_honest_proof() {
    let gamma = Fr::from_u64(3);
    let proof = small_prover().prove(&two_gates(), &gamma);
    assert_eq!(small_verifier().verify(&two_gates(), &gamma, &proof), Ok(()));
}

#[test]
fn quicksilver_verifier_rejects_other_proofs() {
    let gamma = Fr::from_u64(3);
    let verifier = small_verifier();
    let altered = ZKP { mul_proof: (Fr::from_u64(291), Fr::from_u64(41)) };
    assert_eq!(verifier.verify(&two_gates(), &gamma, &altered), Err(Error::Quicksilver));
    let altered = ZKP { mul_proof: (Fr::from_u64(290), Fr::from_u64(40)) };
    assert_eq!(verifier.verify(&two_gates(), &gamma, &altered), Err(Error::Quicksilver));
    // A proof made for another challenge does not pass either.
    let other = small_prover().prove(&two_gates(), &Fr::from_u64(4));
    assert_eq!(verifier.verify(&two_gates(), &gamma, &other), Err(Error::Quicksilver));
}

#[test]
fn quicksilver_verifier_rejects_an_unsatisfied_gate() {
    let gamma = Fr::from_u64(3);
    let mut prover = small_prover();
    prover.u.0[3] = Fr::from_u64(281);
    let mut verifier = small_verifier();
    verifier.q.0[3] = Fr::from_u64(2814);
    let proof = prover.prove(&two_gates(), &gamma);
    assert_eq!(verifier.verify(&two_gates(), &gamma, &proof), Err(Error::Quicksilver));
}

#[test]
fn quicksilver_parties_from_the_halves_of_a_vole() {
    let witness = FMatrix(vec![elements(&[5, 2]), elements(&[28, 280])]);
    let u1 = FMatrix(vec![elements(&[5, 2]), elements(&[28, 280]), elements(&[7, 100])]);
    let u2 = FMatrix(vec![elements(&[1, 2]), elements(&[3, 4]), elements(&[11, 200])]);
    let prover = Prover::from_vith(&u1, &u2, &witness);
    assert_eq!(prover.u, elements(&[5, 2, 28, 280]));
    assert_eq!(prover.v, elements(&[1, 2, 3, 4]));
    assert_eq!(prover.mask, (Fr::from_u64(7), Fr::from_u64(11)));

    // The S matrix holds the masks and, behind them, the key of the hiding
    // pair; the witness commitment here is the witness itself.
    let s_matrix = FMatrix(vec![elements(&[1, 2]), elements(&[3, 4]), elements(&[81, 0])]);
    let verifier = Verifier::from_vith(&s_matrix, Fr::from_u64(10), &witness);
    assert_eq!(verifier.q, elements(&[51, 22, 283, 2804]));
    assert_eq!(verifier.delta, Fr::from_u64(10));
    assert_eq!(verifier.mask_key, Fr::from_u64(81));
}

#[test]
fn quicksilver_public_openings() {
    let prover = small_prover();
    let verifier = small_verifier();
    let indices = vec![1usize, 3];
    let openings = prover.open_public(&indices);
    assert_eq!(
        openings,
        vec![(Fr::from_u64(2), Fr::from_u64(2)), (Fr::from_u64(280), Fr::from_u64(4))]
    );
    assert!(verifier.openings_hold(&indices, &openings));
    let mut altered = openings.clone();
    altered[1].0 = Fr::from_u64(279);
    assert!(!verifier.openings_hold(&indices, &altered));
    assert!(!verifier.openings_hold(&indices, &openings[..1].to_vec()));
    assert!(!verifier.openings_hold(&vec![3usize, 1], &openings));
}

#[test]
fn quicksilver_public_openings_of_a_circuit() {
    let circuit = R1CSWithMetadata {
        r1cs: two_gates(),
        public_inputs_indices: vec![1],
        public_outputs_indices: vec![3],
        unpadded_wtns_len: 4,
    };
    let prover = small_prover();
    let verifier = small_verifier();
    let honest = PublicOpenings {
        public_inputs: prover.open_public(&circuit.public_inputs_indices),
        public_outputs: prover.open_public(&circuit.public_outputs_indices),
    };
    assert_eq!(verifier.verify_public(&circuit, &honest), Ok(()));

    let mut wrong_value = honest.clone();
    wrong_value.public_outputs[0].0 = Fr::from_u64(281);
    assert_eq!(verifier.verify_public(&circuit, &wrong_value), Err(Error::PublicOpening));

    let mut wrong_mask = honest.clone();
    wrong_mask.public_inputs[0].1 = Fr::from_u64(3);
    assert_eq!(verifier.verify_public(&circuit, &wrong_mask), Err(Error::PublicOpening));

    let mut missing = honest.clone();
    missing.public_inputs.clear();
    assert_eq!(verifier.verify_public(&circuit, &missing), Err(Error::PublicOpening));
}
