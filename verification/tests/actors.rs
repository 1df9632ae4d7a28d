use volonym::actors::{e2e_test, CommitAndProof, Prover, Verifier};
use volonym::errors::Error;
use volonym::zkp::{R1CSWithMetadata, R1CS};
use volonym::{FVec, Fr, SparseFMatrix, SparseVec, ToU8s, PF};

fn sparse(rows: &[&[(usize, u64)]]) -> SparseFMatrix<Fr> {
    SparseFMatrix(
        rows.iter()
            .map(|row| SparseVec(row.iter().map(|(i, v)| (*i, Fr::from_u64(*v))).collect()))
            .collect(),
    )
}

fn witness_of(values: &[u128]) -> FVec<Fr> {
    FVec::<Fr>(values.iter().map(|x| Fr::from_u128(*x)).collect())
}

/// Two constraints over the wires `[w0, w1, w2, w3]`:
/// `(w0 + w1) * (2 * w1) = w2` and `w2 * (2 * w0) = w3`.
/// The wire `w1` is a public input, the wire `w3` a public output.
fn tiny_circuit() -> R1CSWithMetadata<Fr> {
    R1CSWithMetadata {
        r1cs: R1CS {
            a_rows: sparse(&[&[(0, 1), (1, 1)], &[(2, 1)]]),
            b_rows: sparse(&[&[(1, 2)], &[(0, 2)]]),
            c_rows: sparse(&[&[(2, 1)], &[(3, 1)]]),
        },
        public_inputs_indices: vec![1],
        public_outputs_indices: vec![3],
        unpadded_wtns_len: 4,
    }
}

/// `out = in * in * in` over the wires `[1, in, in * in, out]`.
fn cube_circuit() -> R1CSWithMetadata<Fr> {
    R1CSWithMetadata {
        r1cs: R1CS {
            a_rows: sparse(&[&[(0, 1)], &[(1, 1)], &[(2, 1)]]),
            b_rows: sparse(&[&[(0, 1)], &[(1, 1)], &[(1, 1)]]),
            c_rows: sparse(&[&[(0, 1)], &[(2, 1)], &[(3, 1)]]),
        },
        public_inputs_indices: vec![1],
        public_outputs_indices: vec![3],
        unpadded_wtns_len: 4,
    }
}

fn honest_proof() -> (Verifier<Fr>, CommitAndProof<Fr>) {
    let circuit = tiny_circuit();
    let mut prover =
        Prover::from_witness_and_circuit_unpadded(witness_of(&[5, 2, 28, 280]), circuit.clone());
    let cnp = prover.commit_and_prove().unwrap();
    (Verifier::from_circuit(circuit), cnp)
}

#[test]
fn prover_verifier_full_integration_tiny_circuit() {
    let circuit = tiny_circuit();
    let correct_witness = witness_of(&[5, 2, 28, 280]);
    let len = correct_witness.0.len();

    assert!(e2e_test(correct_witness.clone(), circuit.clone()).is_ok());

    // Test every value in this small witness is accounted for (assuming it is constrained)
    for i in 0..len {
        let mut incorrect_witness = correct_witness.clone();
        incorrect_witness.0[i] = incorrect_witness.0[i].add(&Fr::one());
        assert!(e2e_test(incorrect_witness, circuit.clone()).is_err());
    }
}

#[test]
fn public_values() {
    let circuit = tiny_circuit();
    let witness = witness_of(&[5, 2, 28, 280]);

    let mut prover = Prover::from_witness_and_circuit_unpadded(witness.clone(), circuit.clone());
    let vole_comm = prover.mkvole().unwrap();
    let correct_proof = prover.prove().unwrap();

    let verifier = Verifier::from_circuit(circuit);
    assert!(verifier
        .verify(&CommitAndProof { commitment: vole_comm.clone(), proof: correct_proof.clone() })
        .is_ok());

    // Test every value in this small array of public values is accounted for (assuming it is constrained)
    for i in 0..correct_proof.public_openings.public_inputs.len() {
        let mut incorrect_proof = correct_proof.clone();

        incorrect_proof.public_openings.public_inputs[i].0 =
            incorrect_proof.public_openings.public_inputs[i].0.add(&Fr::one());
        assert!(verifier
            .verify(&CommitAndProof {
                commitment: vole_comm.clone(),
                proof: incorrect_proof.clone()
            })
            .is_err());

        incorrect_proof = correct_proof.clone();

        incorrect_proof.public_openings.public_inputs[i].1 =
            incorrect_proof.public_openings.public_inputs[i].1.add(&Fr::one());
        assert!(verifier
            .verify(&CommitAndProof {
                commitment: vole_comm.clone(),
                proof: incorrect_proof.clone()
            })
            .is_err());
    }
    // Test every value in this small array of public values is accounted for (assuming it is constrained)
    for i in 0..correct_proof.public_openings.public_outputs.len() {
        let mut incorrect_proof = correct_proof.clone();

        incorrect_proof.public_openings.public_outputs[i].0 =
            incorrect_proof.public_openings.public_outputs[i].0.add(&Fr::one());
        assert!(verifier
            .verify(&CommitAndProof {
                commitment: vole_comm.clone(),
                proof: incorrect_proof.clone()
            })
            .is_err());

        incorrect_proof = correct_proof.clone();

        incorrect_proof.public_openings.public_outputs[i].0 =
            incorrect_proof.public_openings.public_outputs[i].0.add(&Fr::one());
        assert!(verifier
            .verify(&CommitAndProof {
                commitment: vole_comm.clone(),
                proof: incorrect_proof.clone()
            })
            .is_err());
    }
}

#[test]
fn honest_proof_opens_the_public_values() {
    let (verifier, cnp) = honest_proof();
    let opened = verifier.verify(&cnp).unwrap();
    assert_eq!(opened.public_inputs, vec![Fr::from_u64(2)]);
    assert_eq!(opened.public_outputs, vec![Fr::from_u64(280)]);
    assert_eq!(verifier.vole_length, 4);
    assert_eq!(verifier.num_voles, 1024);
}

#[test]
fn cube_circuit_verifies_and_rejects_altered_witnesses() {
    let witness = witness_of(&[1, 2, 4, 8]);
    let opened = e2e_test(witness.clone(), cube_circuit()).unwrap();
    assert_eq!(opened.public_inputs, vec![Fr::from_u64(2)]);
    assert_eq!(opened.public_outputs, vec![Fr::from_u64(8)]);
    for i in 0..4 {
        let mut altered = witness.clone();
        altered.0[i] = altered.0[i].add(&Fr::one());
        assert_eq!(e2e_test(altered, cube_circuit()).err(), Some(Error::Quicksilver));
    }
}

#[test]
fn altered_public_opening_mask_is_rejected() {
    let (verifier, mut cnp) = honest_proof();
    cnp.proof.public_openings.public_outputs[0].1 =
        cnp.proof.public_openings.public_outputs[0].1.add(&Fr::one());
    assert!(verifier.verify(&cnp).is_err());
}

#[test]
fn altered_consistency_check_is_rejected() {
    let (verifier, honest) = honest_proof();
    let mut cnp = honest.clone();
    cnp.commitment.consistency_check.0 .0[3] =
        cnp.commitment.consistency_check.0 .0[3].add(&Fr::one());
    assert_eq!(verifier.verify(&cnp).err(), Some(Error::ConsistencyCheck));
    let mut cnp = honest.clone();
    cnp.commitment.consistency_check.1 .0[1000] =
        cnp.commitment.consistency_check.1 .0[1000].add(&Fr::one());
    assert_eq!(verifier.verify(&cnp).err(), Some(Error::ConsistencyCheck));
    // One byte of the encoding of an element flipped.
    let mut cnp = honest.clone();
    let mut bytes = cnp.commitment.consistency_check.0 .0[0].to_u8s();
    bytes[31] ^= 0xff;
    cnp.commitment.consistency_check.0 .0[0] = Fr::from_be_bytes(&bytes, 0).unwrap();
    assert_eq!(verifier.verify(&cnp).err(), Some(Error::ConsistencyCheck));
}

#[test]
fn altered_s_matrix_is_rejected() {
    let (verifier, mut cnp) = honest_proof();
    cnp.proof.s_matrix.0[0].0[1] = cnp.proof.s_matrix.0[0].0[1].add(&Fr::one());
    assert_eq!(verifier.verify(&cnp).err(), Some(Error::SMatrix));
}

#[test]
fn altered_s_consistency_check_is_rejected() {
    let (verifier, mut cnp) = honest_proof();
    cnp.proof.s_consistency_check.0[5] = cnp.proof.s_consistency_check.0[5].add(&Fr::one());
    assert_eq!(verifier.verify(&cnp).err(), Some(Error::SMatrix));
}

#[test]
fn s_consistency_check_of_another_length_is_rejected() {
    let (verifier, honest) = honest_proof();
    assert_eq!(honest.proof.s_consistency_check.0.len(), 1024);
    // An honest check with one element appended.
    let mut cnp = honest.clone();
    cnp.proof.s_consistency_check.0.push(Fr::zero());
    assert_eq!(verifier.verify(&cnp).err(), Some(Error::Malformed));
    let mut cnp = honest.clone();
    cnp.proof.s_consistency_check.0.push(Fr::from_u64(7));
    assert_eq!(verifier.verify(&cnp).err(), Some(Error::Malformed));
    // One element short, and emptied.
    let mut cnp = honest.clone();
    cnp.proof.s_consistency_check.0.pop();
    assert_eq!(verifier.verify(&cnp).err(), Some(Error::Malformed));
    let mut cnp = honest.clone();
    cnp.proof.s_consistency_check.0.clear();
    assert_eq!(verifier.verify(&cnp).err(), Some(Error::Malformed));
    assert!(verifier.verify(&honest).is_ok());
}

#[test]
fn replaced_seed_opening_is_rejected() {
    let (verifier, mut cnp) = honest_proof();
    cnp.proof.seed_openings.seed_opens[17] = [9u8; 32];
    assert_eq!(verifier.verify(&cnp).err(), Some(Error::SeedCommitment));
}

#[test]
fn altered_seed_proof_is_rejected() {
    let (verifier, mut cnp) = honest_proof();
    cnp.proof.seed_openings.seed_proofs[0][0] ^= 1;
    assert_eq!(verifier.verify(&cnp).err(), Some(Error::SeedCommitment));
}

#[test]
fn altered_quicksilver_proof_is_rejected() {
    let (verifier, honest) = honest_proof();
    let mut cnp = honest.clone();
    cnp.proof.zkp.mul_proof.0 = cnp.proof.zkp.mul_proof.0.add(&Fr::one());
    assert!(verifier.verify(&cnp).is_err());
    let mut cnp = honest.clone();
    cnp.proof.zkp.mul_proof.1 = cnp.proof.zkp.mul_proof.1.add(&Fr::one());
    assert!(verifier.verify(&cnp).is_err());
}

#[test]
fn altered_witness_commitment_is_rejected() {
    let (verifier, mut cnp) = honest_proof();
    cnp.commitment.witness_comm.0[0].0[0] = cnp.commitment.witness_comm.0[0].0[0].add(&Fr::one());
    assert!(verifier.verify(&cnp).is_err());
}

#[test]
fn altered_correction_is_rejected() {
    let (verifier, mut cnp) = honest_proof();
    cnp.commitment.subspace_vole_correction.0[2].0[9] =
        cnp.commitment.subspace_vole_correction.0[2].0[9].add(&Fr::one());
    assert!(verifier.verify(&cnp).is_err());
}

#[test]
fn misshapen_proofs_are_rejected() {
    let (verifier, honest) = honest_proof();
    let mut cnp = honest.clone();
    cnp.proof.seed_openings.seed_opens.pop();
    assert_eq!(verifier.verify(&cnp).err(), Some(Error::Malformed));
    let mut cnp = honest.clone();
    cnp.proof.s_matrix.0.pop();
    assert_eq!(verifier.verify(&cnp).err(), Some(Error::Malformed));
    let mut cnp = honest.clone();
    cnp.commitment.subspace_vole_correction.0[1].0.push(Fr::zero());
    assert_eq!(verifier.verify(&cnp).err(), Some(Error::Malformed));
    let mut cnp = honest.clone();
    cnp.commitment.witness_comm.0.push(FVec(vec![Fr::zero(); 512]));
    assert_eq!(verifier.verify(&cnp).err(), Some(Error::Malformed));
    let mut cnp = honest.clone();
    cnp.commitment.consistency_check.0 .0.pop();
    assert_eq!(verifier.verify(&cnp).err(), Some(Error::ConsistencyCheck));
}

#[test]
fn prove_before_mkvole_fails() {
    let mut prover =
        Prover::from_witness_and_circuit_unpadded(witness_of(&[5, 2, 28, 280]), tiny_circuit());
    assert_eq!(prover.prove().err(), Some(Error::VoleNotCompleted));
    assert_eq!(
        prover.prove().unwrap_err().message(),
        "VOLE must be completed before this step"
    );
    assert!(prover.subspace_vole_secrets.is_none());
    assert!(prover.mkvole().is_ok());
    assert!(prover.subspace_vole_secrets.is_some());
    assert!(prover.prove().is_ok());
    // The secrets are dropped once the proof is made.
    assert!(prover.subspace_vole_secrets.is_none());
    assert_eq!(prover.prove().err(), Some(Error::VoleNotCompleted));
}

#[test]
fn prover_pads_the_witness_to_whole_rows() {
    let prover =
        Prover::from_witness_and_circuit_unpadded(witness_of(&[5, 2, 28, 280]), tiny_circuit());
    assert_eq!(prover.witness.0.len(), 1);
    assert_eq!(prover.witness.0[0].0.len(), 512);
    assert_eq!(prover.witness.0[0].0[3], Fr::from_u64(280));
    assert_eq!(prover.witness.0[0].0[4], Fr::zero());
    assert_eq!(prover.vole_length, 4);
    assert_eq!(prover.num_voles, 1024);
    assert!(!prover.below_recommended_size());
}

#[test]
fn proofs_with_given_seeds_commit_to_those_seeds() {
    let circuit = tiny_circuit();
    let seeds: Vec<([u8; 32], [u8; 32])> =
        (0..1024u32).map(|i| ([i as u8; 32], [(i >> 8) as u8 + 200; 32])).collect();
    let mut first =
        Prover::from_witness_and_circuit_unpadded(witness_of(&[5, 2, 28, 280]), circuit.clone());
    let mut second =
        Prover::from_witness_and_circuit_unpadded(witness_of(&[5, 2, 28, 280]), circuit.clone());
    let a = first.mkvole_with_seeds(seeds.clone()).unwrap();
    let b = second.mkvole_with_seeds(seeds.clone()).unwrap();
    assert_eq!(a.seed_comm, b.seed_comm);
    assert_eq!(a.witness_comm, b.witness_comm);
    assert_eq!(a.subspace_vole_correction, b.subspace_vole_correction);
    let comms: Vec<[u8; 32]> =
        seeds.iter().map(|(s0, s1)| volonym::vecccom::commit_seeds(s0, s1)).collect();
    assert_eq!(a.seed_comm, volonym::vecccom::commit_seed_commitments(&comms));
    let proof = first.prove().unwrap();
    let verifier = Verifier::from_circuit(circuit);
    assert!(verifier.verify(&CommitAndProof { commitment: a, proof }).is_ok());
}

#[test]
fn every_error_has_its_message() {
    assert_eq!(Error::ParityCheck.message(), "Parity check failure");
    assert_eq!(Error::ConsistencyCheck.message(), "Consistency check fail!");
    assert_eq!(Error::VoleNotCompleted.message(), "VOLE must be completed before this step");
    assert_eq!(
        Error::SeedCommitment.message(),
        "Seed commitment is not a commitment to the seeds"
    );
    assert_eq!(Error::SMatrix.message(), "failed to verify S matrix");
    assert_eq!(Error::Quicksilver.message(), "Proof verification failure");
    assert_eq!(Error::PublicOpening.message(), "Public opening does not match");
    assert_eq!(Error::Malformed.message(), "A part of the proof has the wrong shape");
}
