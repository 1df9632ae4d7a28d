use volonym::vecccom::{
    commit_seed_commitments, commit_seeds, expand_seed_to_field_vec, expand_stream,
    proof_for_revealed_seed, reconstruct_commitment, verify_proof_of_revealed_seed,
};
use volonym::{FVec, Fr, PF};

#[test]
fn test_seed_expansion_len() {
    let seed = [0u8; 32];
    assert_eq!(expand_seed_to_field_vec::<Fr>(seed.clone(), 1).0.len(), 1);
    assert_eq!(expand_seed_to_field_vec::<Fr>(seed.clone(), 2).0.len(), 2);
    assert_eq!(expand_seed_to_field_vec::<Fr>(seed.clone(), 4).0.len(), 4);
    assert_eq!(expand_seed_to_field_vec::<Fr>(seed.clone(), 1000).0.len(), 1000);
}

#[test]
fn test_seed_commit_prove() {
    let seed0 = [5u8; 32];
    let seed1 = [6u8; 32];
    let commitment = commit_seeds(&seed0, &seed1);

    let proof0 = proof_for_revealed_seed(&seed1);
    let proof1 = proof_for_revealed_seed(&seed0);

    assert!(verify_proof_of_revealed_seed(&commitment, &seed0, false, &proof0));
    assert!(!verify_proof_of_revealed_seed(&commitment, &seed0, true, &proof0));

    assert!(verify_proof_of_revealed_seed(&commitment, &seed1, true, &proof1));
    assert!(!verify_proof_of_revealed_seed(&commitment, &seed1, false, &proof1));

    assert!(!verify_proof_of_revealed_seed(&commitment, &seed0, true, &proof1));
    assert!(!verify_proof_of_revealed_seed(&commitment, &seed0, false, &proof1));
}

#[test]
fn seed_expansion_is_decided_by_the_seed() {
    let a: FVec<Fr> = expand_seed_to_field_vec([1u8; 32], 50);
    let b: FVec<Fr> = expand_seed_to_field_vec([1u8; 32], 50);
    let c: FVec<Fr> = expand_seed_to_field_vec([2u8; 32], 50);
    assert_eq!(a, b);
    assert!(a != c);
    assert!(a.0.iter().any(|x| !x.equals(&Fr::zero())));
}

#[test]
fn stream_expansion_rejects_large_candidates() {
    // One element from 68 candidates: the first is all ones and is rejected,
    // the second spells the number seven.
    let mut stream = vec![0u8; 32 * 68];
    for byte in stream.iter_mut().take(32) {
        *byte = 0xff;
    }
    stream[32] = 7;
    let out: FVec<Fr> = expand_stream(&stream, 1);
    assert_eq!(out, FVec(vec![Fr::from_u64(7)]));
}

#[test]
fn stream_expansion_pads_with_zero_when_nothing_is_accepted() {
    let stream = vec![0xffu8; 32 * 72];
    let out: FVec<Fr> = expand_stream(&stream, 2);
    assert_eq!(out, FVec(vec![Fr::zero(), Fr::zero()]));
}

#[test]
fn commitment_is_the_hash_of_the_hashes() {
    let seed0 = [5u8; 32];
    let seed1 = [6u8; 32];
    let mut both = Vec::new();
    both.extend_from_slice(blake3::hash(&seed0).as_bytes());
    both.extend_from_slice(blake3::hash(&seed1).as_bytes());
    assert_eq!(commit_seeds(&seed0, &seed1), *blake3::hash(&both).as_bytes());
    assert_eq!(proof_for_revealed_seed(&seed1), *blake3::hash(&seed1).as_bytes());
    assert_eq!(
        reconstruct_commitment(&seed1, true, &proof_for_revealed_seed(&seed0)),
        commit_seeds(&seed0, &seed1)
    );
}

#[test]
fn batch_commitment_hashes_the_concatenation() {
    let comms = vec![[1u8; 32], [2u8; 32], [3u8; 32]];
    let mut all = Vec::new();
    for c in comms.iter() {
        all.extend_from_slice(c);
    }
    assert_eq!(commit_seed_commitments(&comms), *blake3::hash(&all).as_bytes());
    assert_eq!(commit_seed_commitments(&Vec::new()), *blake3::hash(&[]).as_bytes());
}
