use rand::RngCore;
use rand::SeedableRng;
use rand_chacha::{ChaCha12Rng, ChaCha20Rng};
use volonym::actors::PublicOpenings;
use volonym::challenges::{
    append_element, append_matrix, append_pairs, bits_from_preimage, calc_other_challenges,
    calc_quicksilver_challenge, challenge_from_preimage, challenge_from_seed,
};
use volonym::quicksilver::ZKP;
use volonym::vecccom::{expand_seed_to_field_vec, expand_stream};
use volonym::{FMatrix, FVec, Fr, ToU8s, PF};

fn row(values: &[u64]) -> FVec<Fr> {
    FVec(values.iter().map(|x| Fr::from_u64(*x)).collect())
}

fn word(x: u64) -> Vec<u8> {
    let mut out = vec![0u8; 32];
    out[24..].copy_from_slice(&x.to_be_bytes());
    out
}

fn some_openings() -> PublicOpenings<Fr> {
    PublicOpenings {
        public_inputs: vec![(Fr::from_u64(2), Fr::from_u64(9))],
        public_outputs: vec![(Fr::from_u64(280), Fr::from_u64(8))],
    }
}

fn some_proof() -> ZKP<Fr> {
    ZKP { mul_proof: (Fr::from_u64(290), Fr::from_u64(41)) }
}

#[test]
fn elements_are_appended_as_32_big_endian_bytes() {
    let mut out = vec![0xaau8];
    append_element(&mut out, &Fr::from_u64(0x0102));
    let mut expected = vec![0xaau8];
    expected.extend_from_slice(&word(0x0102));
    assert_eq!(out, expected);
    assert_eq!(Fr::from_u64(0x0102).to_u8s(), word(0x0102));
}

#[test]
fn matrices_and_pairs_are_appended_entry_by_entry() {
    let mat = FMatrix(vec![row(&[1, 2]), row(&[]), row(&[3])]);
    let mut out = Vec::new();
    append_matrix(&mut out, &mat);
    let expected: Vec<u8> = [word(1), word(2), word(3)].concat();
    assert_eq!(out, expected);

    let mut out = Vec::new();
    append_pairs(&mut out, &vec![(Fr::from_u64(4), Fr::from_u64(5)), (Fr::one(), Fr::zero())]);
    let expected: Vec<u8> = [word(4), word(5), word(1), word(0)].concat();
    assert_eq!(out, expected);
}

#[test]
fn challenge_vector_is_expanded_from_the_hash_of_the_preimage() {
    let preimage = b"some transcript";
    let got: FVec<Fr> = challenge_from_preimage(preimage, 5);
    let mut rng = ChaCha20Rng::from_seed(*blake3::hash(preimage).as_bytes());
    let mut stream = vec![0u8; 32 * (4 * 5 + 64)];
    rng.fill_bytes(&mut stream);
    assert_eq!(got, expand_stream::<Fr>(&stream, 5));
    assert_eq!(got.0.len(), 5);
    assert!(got.0.iter().any(|x| !x.equals(&Fr::zero())));
}

#[test]
fn seed_expansion_is_the_chacha12_stream_of_the_seed() {
    let seed = [3u8; 32];
    let got: FVec<Fr> = expand_seed_to_field_vec(seed, 7);
    let mut rng = ChaCha12Rng::from_seed(seed);
    let mut stream = vec![0u8; 32 * (4 * 7 + 64)];
    rng.fill_bytes(&mut stream);
    assert_eq!(got, expand_stream::<Fr>(&stream, 7));
    assert!(stream[..32] != seed);
}

#[test]
fn challenge_from_seed_puts_the_personalization_first() {
    let a: FVec<Fr> = challenge_from_seed(b"seed", b"label", 3);
    let b: FVec<Fr> = challenge_from_preimage(b"labelseed", 3);
    let c: FVec<Fr> = challenge_from_preimage(b"seedlabel", 3);
    assert_eq!(a, b);
    assert!(a != c);
}

#[test]
fn challenge_bits_come_from_the_hash_of_the_hash() {
    let preimage = b"some transcript";
    let bits = bits_from_preimage(preimage, 200);
    let digest = blake3::hash(preimage);
    let seed = blake3::hash(digest.as_bytes());
    let mut rng = ChaCha20Rng::from_seed(*seed.as_bytes());
    let mut stream = vec![0u8; 200];
    rng.fill_bytes(&mut stream);
    let expected: Vec<usize> = stream.iter().map(|b| (b % 2) as usize).collect();
    assert_eq!(bits, expected);
    assert!(bits.iter().any(|b| *b == 0) && bits.iter().any(|b| *b == 1));
    assert!(bits_from_preimage(preimage, 0).is_empty());
}

#[test]
fn quicksilver_challenge_hashes_the_commitments() {
    let seed_comm = [9u8; 32];
    let witness_comm = FMatrix(vec![row(&[1, 2]), row(&[3, 4])]);
    let got: Fr = calc_quicksilver_challenge(&seed_comm, &witness_comm);
    let preimage: Vec<u8> = [seed_comm.to_vec(), word(1), word(2), word(3), word(4)].concat();
    let expected: FVec<Fr> = challenge_from_preimage(&preimage, 1);
    assert_eq!(got, expected.0[0]);

    let other = FMatrix(vec![row(&[1, 2]), row(&[3, 5])]);
    assert!(got != calc_quicksilver_challenge(&seed_comm, &other));
    assert!(got != calc_quicksilver_challenge(&[8u8; 32], &witness_comm));
}

#[test]
fn other_challenges_hash_the_whole_transcript() {
    let seed_comm = [9u8; 32];
    let witness_comm = FMatrix(vec![row(&[1, 2])]);
    let got = calc_other_challenges(&seed_comm, &witness_comm, &some_proof(), 6, 16, &some_openings());

    let mut preimage: Vec<u8> = [
        seed_comm.to_vec(),
        word(1),
        word(2),
        word(290),
        word(41),
        word(2),
        word(9),
        word(280),
        word(8),
    ]
    .concat();
    preimage.extend_from_slice(&6u64.to_be_bytes());
    preimage.extend_from_slice(&16u64.to_be_bytes());
    let elements: FVec<Fr> = challenge_from_preimage(&preimage, 4);
    assert_eq!(got.vith_delta, elements.0[0]);
    assert_eq!(got.s_challenge, FVec(elements.0[1..].to_vec()));
    assert_eq!(got.s_challenge.0.len(), 3);
    assert_eq!(got.delta_choices, bits_from_preimage(&preimage, 16));
    assert_eq!(got.delta_choices.len(), 16);
    assert!(got.delta_choices.iter().all(|b| *b < 2));
}

#[test]
fn other_challenges_are_decided_by_their_inputs() {
    let seed_comm = [9u8; 32];
    let witness_comm = FMatrix(vec![row(&[1, 2])]);
    let a = calc_other_challenges(&seed_comm, &witness_comm, &some_proof(), 6, 16, &some_openings());
    let b = calc_other_challenges(&seed_comm, &witness_comm, &some_proof(), 6, 16, &some_openings());
    assert_eq!(a.vith_delta, b.vith_delta);
    assert_eq!(a.s_challenge, b.s_challenge);
    assert_eq!(a.delta_choices, b.delta_choices);

    let altered = ZKP { mul_proof: (Fr::from_u64(290), Fr::from_u64(42)) };
    let c = calc_other_challenges(&seed_comm, &witness_comm, &altered, 6, 16, &some_openings());
    assert!(a.vith_delta != c.vith_delta);
    let d = calc_other_challenges(&seed_comm, &witness_comm, &some_proof(), 6, 17, &some_openings());
    assert!(a.vith_delta != d.vith_delta);
}

#[test]
fn random_vectors_differ_between_calls() {
    let a = FVec::<Fr>::random(8);
    let b = FVec::<Fr>::random(8);
    assert_eq!(a.0.len(), 8);
    assert_eq!(b.0.len(), 8);
    assert!(a != b);
}
