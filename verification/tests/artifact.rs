use volonym::actors::{
    CommitAndProof, Proof, Prover, ProverCommitment, PublicOpenings, SubspaceVOLEOpening, Verifier,
};
use volonym::quicksilver::ZKP;
use volonym::zkp::{R1CSWithMetadata, R1CS};
use volonym::{FMatrix, FVec, Fr, SparseFMatrix, SparseVec, PF};

fn fr_row(values: &[u64]) -> FVec<Fr> {
    FVec(values.iter().map(|x| Fr::from_u64(*x)).collect())
}

fn fr_word(x: u64) -> Vec<u8> {
    let mut out = vec![0u8; 32];
    out[24..].copy_from_slice(&x.to_be_bytes());
    out
}

fn count(n: u64) -> Vec<u8> {
    n.to_be_bytes().to_vec()
}

fn sparse_matrix(rows: &[&[(usize, u64)]]) -> SparseFMatrix<Fr> {
    SparseFMatrix(
        rows.iter()
            .map(|row| SparseVec(row.iter().map(|(i, v)| (*i, Fr::from_u64(*v))).collect()))
            .collect(),
    )
}

fn small_circuit() -> R1CSWithMetadata<Fr> {
    R1CSWithMetadata {
        r1cs: R1CS {
            a_rows: sparse_matrix(&[&[(0, 1), (1, 1)], &[(2, 1)]]),
            b_rows: sparse_matrix(&[&[(1, 2)], &[(0, 2)]]),
            c_rows: sparse_matrix(&[&[(2, 1)], &[(3, 1)]]),
        },
        public_inputs_indices: vec![1],
        public_outputs_indices: vec![3],
        unpadded_wtns_len: 4,
    }
}

fn made_proof() -> (Verifier<Fr>, CommitAndProof<Fr>) {
    let circuit = small_circuit();
    let witness = FVec(vec![
        Fr::from_u64(5),
        Fr::from_u64(2),
        Fr::from_u64(28),
        Fr::from_u64(280),
    ]);
    let mut prover = Prover::from_witness_and_circuit_unpadded(witness, circuit.clone());
    let cnp = prover.commit_and_prove().unwrap();
    (Verifier::from_circuit(circuit), cnp)
}

fn hand_made() -> CommitAndProof<Fr> {
    CommitAndProof {
        commitment: ProverCommitment {
            seed_comm: [7u8; 32],
            witness_comm: FMatrix(vec![fr_row(&[1, 2])]),
            subspace_vole_correction: FMatrix(vec![fr_row(&[3]), fr_row(&[])]),
            consistency_check: (fr_row(&[4]), fr_row(&[5, 6])),
        },
        proof: Proof {
            zkp: ZKP { mul_proof: (Fr::from_u64(7), Fr::from_u64(8)) },
            seed_openings: SubspaceVOLEOpening {
                seed_opens: vec![[0x11u8; 32], [0x22u8; 32]],
                seed_proofs: vec![[0x33u8; 32]],
            },
            public_openings: PublicOpenings {
                public_inputs: vec![(Fr::from_u64(9), Fr::from_u64(10))],
                public_outputs: vec![],
            },
            s_matrix: FMatrix(vec![]),
            s_consistency_check: fr_row(&[11]),
        },
    }
}

fn hand_made_bytes() -> Vec<u8> {
    [
        vec![7u8; 32],
        // the witness commitment: one row of two
        count(1),
        count(2),
        fr_word(1),
        fr_word(2),
        // the correction: a row of one and an empty row
        count(2),
        count(1),
        fr_word(3),
        count(0),
        // the consistency check
        count(1),
        fr_word(4),
        count(2),
        fr_word(5),
        fr_word(6),
        // the two coefficients
        fr_word(7),
        fr_word(8),
        // the opened seeds and the hashes of the hidden ones
        count(2),
        vec![0x11u8; 32],
        vec![0x22u8; 32],
        count(1),
        vec![0x33u8; 32],
        // the public inputs: the values, then the masks
        count(1),
        fr_word(9),
        count(1),
        fr_word(10),
        // the public outputs
        count(0),
        count(0),
        // the S matrix and its check
        count(0),
        count(1),
        fr_word(11),
    ]
    .concat()
}

#[test]
fn artifact_bytes_are_laid_out_field_by_field() {
    assert_eq!(hand_made().to_bytes(), hand_made_bytes());
}

#[test]
fn artifact_is_read_back_from_its_bytes() {
    let back = CommitAndProof::<Fr>::from_bytes(&hand_made_bytes()).unwrap();
    let made = hand_made();
    assert_eq!(back.commitment.seed_comm, made.commitment.seed_comm);
    assert_eq!(back.commitment.witness_comm, made.commitment.witness_comm);
    assert_eq!(back.commitment.subspace_vole_correction, made.commitment.subspace_vole_correction);
    assert_eq!(back.commitment.consistency_check, made.commitment.consistency_check);
    assert_eq!(back.proof.zkp.mul_proof, made.proof.zkp.mul_proof);
    assert_eq!(back.proof.seed_openings.seed_opens, made.proof.seed_openings.seed_opens);
    assert_eq!(back.proof.seed_openings.seed_proofs, made.proof.seed_openings.seed_proofs);
    assert_eq!(
        back.proof.public_openings.public_inputs,
        made.proof.public_openings.public_inputs
    );
    assert_eq!(
        back.proof.public_openings.public_outputs,
        made.proof.public_openings.public_outputs
    );
    assert_eq!(back.proof.s_matrix, made.proof.s_matrix);
    assert_eq!(back.proof.s_consistency_check, made.proof.s_consistency_check);
    assert_eq!(back.to_bytes(), hand_made_bytes());
}

#[test]
fn artifact_bytes_that_end_early_or_late_are_refused() {
    let bytes = hand_made_bytes();
    for cut in 0..bytes.len() {
        assert!(CommitAndProof::<Fr>::from_bytes(&bytes[..cut]).is_none(), "cut at {cut}");
    }
    let mut longer = bytes.clone();
    longer.push(0);
    assert!(CommitAndProof::<Fr>::from_bytes(&longer).is_none());
    assert!(CommitAndProof::<Fr>::from_bytes(&[]).is_none());
}

#[test]
fn artifact_elements_at_or_above_the_modulus_are_refused() {
    let mut bytes = hand_made_bytes();
    // The first element of the witness commitment follows the seed
    // commitment and two counts.
    bytes[48..80].copy_from_slice(&Fr::prime());
    assert!(CommitAndProof::<Fr>::from_bytes(&bytes).is_none());
    bytes[48..80].copy_from_slice(&[0xffu8; 32]);
    assert!(CommitAndProof::<Fr>::from_bytes(&bytes).is_none());
    // One below the modulus is an element.
    let mut below = Fr::prime();
    below[31] -= 1;
    bytes[48..80].copy_from_slice(&below);
    let back = CommitAndProof::<Fr>::from_bytes(&bytes).unwrap();
    assert_eq!(back.commitment.witness_comm.0[0].0[0], Fr::zero().sub(&Fr::one()));
}

#[test]
fn artifact_counts_beyond_the_bytes_are_refused() {
    let mut bytes = hand_made_bytes();
    // The number of rows of the witness commitment.
    bytes[32..40].copy_from_slice(&u64::MAX.to_be_bytes());
    assert!(CommitAndProof::<Fr>::from_bytes(&bytes).is_none());
    let mut bytes = hand_made_bytes();
    // The length of its first row.
    bytes[40..48].copy_from_slice(&(1u64 << 60).to_be_bytes());
    assert!(CommitAndProof::<Fr>::from_bytes(&bytes).is_none());
}

#[test]
fn artifact_pairs_of_uneven_halves_are_refused() {
    let made = hand_made();
    let bytes = made.to_bytes();
    let marker: Vec<u8> = [count(1), fr_word(9), count(1), fr_word(10)].concat();
    let at = bytes.windows(marker.len()).position(|w| w == &marker[..]).unwrap();
    // One value beside two masks.
    let uneven: Vec<u8> = [
        bytes[..at].to_vec(),
        count(1),
        fr_word(9),
        count(2),
        fr_word(10),
        fr_word(10),
        bytes[at + marker.len()..].to_vec(),
    ]
    .concat();
    assert!(CommitAndProof::<Fr>::from_bytes(&uneven).is_none());
}

#[test]
fn honest_proof_survives_the_round_trip() {
    let (verifier, cnp) = made_proof();
    let bytes = cnp.to_bytes();
    let back = CommitAndProof::<Fr>::from_bytes(&bytes).unwrap();
    assert_eq!(back.to_bytes(), bytes);
    assert_eq!(back.commitment.seed_comm, cnp.commitment.seed_comm);
    assert_eq!(back.proof.s_matrix, cnp.proof.s_matrix);
    let direct = verifier.verify(&cnp).unwrap();
    let again = verifier.verify(&back).unwrap();
    assert_eq!(direct.public_inputs, again.public_inputs);
    assert_eq!(direct.public_outputs, again.public_outputs);
    assert_eq!(again.public_inputs, vec![Fr::from_u64(2)]);
    assert_eq!(again.public_outputs, vec![Fr::from_u64(280)]);
}

#[test]
fn tampered_proof_is_rejected_alike_after_the_round_trip() {
    let (verifier, mut cnp) = made_proof();
    cnp.proof.public_openings.public_outputs[0].0 = Fr::from_u64(281);
    let back = CommitAndProof::<Fr>::from_bytes(&cnp.to_bytes()).unwrap();
    assert_eq!(verifier.verify(&cnp).err(), verifier.verify(&back).err());
    assert!(verifier.verify(&back).is_err());
}
