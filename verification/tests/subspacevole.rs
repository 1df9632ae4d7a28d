use rand::{Rng, SeedableRng};
use rand_chacha::ChaCha20Rng;
use volonym::errors::Error;
use volonym::smallvole::{prover_outputs, verifier_outputs};
use volonym::subspacevole::{calc_consistency_check, permutation_from_draws, LinearCode, RAAACode};
use volonym::vecccom::expand_seed_to_field_vec;
use volonym::{FMatrix, FVec, Fr, PF};

fn code_vec(xs: &[u128]) -> FVec<Fr> {
    FVec(xs.iter().map(|x| Fr::from_u128(*x)).collect())
}

#[test]
fn test_permutation_and_inverse() {
    let (forward, backward) = RAAACode::random_interleave_permutations(5, None);
    let input = FVec::<Fr>::random(5);
    let permuted = RAAACode::interleave(&input, &forward);
    let inverse_permuted = RAAACode::interleave(&permuted, &backward);
    assert_eq!(input, inverse_permuted);
}

#[test]
fn test_accumulate_and_inverse() {
    let test0 = FVec::<Fr>(vec![Fr::zero(); 5]);
    let test1 = FVec::<Fr>(vec![Fr::one(); 5]);
    let test2 = FVec::<Fr>(vec![Fr::zero(), Fr::one(), Fr::from_u128(2), Fr::from_u128(3)]);
    let test3 = FVec::<Fr>(vec![Fr::zero(), Fr::from_u128(2), Fr::one(), Fr::from_u128(3)]);

    assert_eq!(RAAACode::accumulate(&test0).0, vec![Fr::zero(); 5]);
    assert_eq!(
        RAAACode::accumulate(&test1).0,
        vec![
            Fr::one(),
            Fr::from_u128(2),
            Fr::from_u128(3),
            Fr::from_u128(4),
            Fr::from_u128(5)
        ]
    );
    assert_eq!(
        RAAACode::accumulate(&test2).0,
        vec![Fr::zero(), Fr::one(), Fr::from_u128(3), Fr::from_u128(6),]
    );
    assert_eq!(
        RAAACode::accumulate(&test3).0,
        vec![Fr::zero(), Fr::from_u128(2), Fr::from_u128(3), Fr::from_u128(6)]
    );
    vec![test0, test1, test2, test3].iter().for_each(|test| {
        let should_be_test = RAAACode::accumulate_inverse(&RAAACode::accumulate(test));
        assert_eq!(test.0, should_be_test.0);
    })
}

#[test]
fn test_repeat() {
    let test0 = FVec::<Fr>(vec![Fr::zero()]);
    let test1 = FVec::<Fr>(vec![Fr::one()]);
    let test2 = FVec::<Fr>(vec![Fr::from_u128(10), Fr::from_u128(11), Fr::from_u128(123456)]);
    assert_eq!(RAAACode::repeat(&test0, 2).0, vec![Fr::zero(), Fr::zero()]);
    assert_eq!(RAAACode::repeat(&test0, 3).0, vec![Fr::zero(), Fr::zero(), Fr::zero()]);
    assert_eq!(RAAACode::repeat(&test1, 2).0, vec![Fr::one(), Fr::one()]);
    assert_eq!(RAAACode::repeat(&test1, 3).0, vec![Fr::one(), Fr::one(), Fr::one()]);
    assert_eq!(
        RAAACode::repeat(&test2, 2).0,
        vec![
            Fr::from_u128(10),
            Fr::from_u128(11),
            Fr::from_u128(123456),
            Fr::from_u128(10),
            Fr::from_u128(11),
            Fr::from_u128(123456)
        ]
    );
}

/// Tests the extended repetition matrix and its inverse
#[test]
fn test_repeat_extend_and_inverse() {
    let in0 = vec![
        Fr::from_u128(0),
        Fr::from_u128(1),
        Fr::from_u128(2),
        Fr::from_u128(3),
        Fr::from_u128(4),
        Fr::from_u128(5),
    ];
    let in1 = vec![
        Fr::from_u128(5),
        Fr::from_u128(10),
        Fr::from_u128(15),
        Fr::from_u128(20),
        Fr::from_u128(25),
        Fr::from_u128(30),
    ];

    let out0 = RAAACode::repeat_extended(&FVec::<Fr>(in0.clone()), 2);
    let out1 = RAAACode::repeat_extended(&FVec::<Fr>(in1.clone()), 3);

    let inverted0 = RAAACode::repeat_extended_inverse(&out0, 2);
    let inverted1 = RAAACode::repeat_extended_inverse(&out1, 3);

    assert_eq!(in0, inverted0.0);
    assert_eq!(in1, inverted1.0);
}

#[test]
fn test_extended_encode() {
    let input = vec![Fr::from_u128(1), Fr::from_u128(5), Fr::from_u128(10), Fr::from_u128(0)];
    let code = RAAACode::rand_with_parameters(4, 2);
    let codeword = code.encode_extended(&FVec::<Fr>(input.clone()));
    let inverse = code.mul_vec_by_extended_inverse(&codeword);
    assert_eq!(input, inverse.0);
}

#[test]
fn test_prover_correction() {
    // Sixteen rows over 1024 small VOLEs, each with its own pair of seeds
    // and its own bit.
    let mut prover = Vec::new();
    let mut verifier = Vec::new();
    for i in 0..1024u32 {
        let mut label = [123u8; 32];
        label[0..4].copy_from_slice(&i.to_le_bytes());
        let seed0 = *blake3::hash(&label).as_bytes();
        label[4] = 1;
        let seed1 = *blake3::hash(&label).as_bytes();
        let delta = seed0[0] % 2 == 1;
        prover.push(prover_outputs::<Fr>(&seed0, &seed1, 16));
        verifier.push(verifier_outputs::<Fr>(if delta { &seed1 } else { &seed0 }, delta, 16));
    }
    // Check (at least one of the) VOLEs (and therefore likely all of them) was successful
    assert!(prover[7]
        .u
        .0
        .iter()
        .zip(prover[7].v.0.iter())
        .zip(verifier[7].q.0.iter())
        .all(|((u, v), q)| u.mul(&verifier[7].delta).add(v) == q.clone()));

    let u_cols = FMatrix::<Fr>(prover.iter().map(|o| o.u.clone()).collect::<Vec<FVec<Fr>>>());
    let v_cols = FMatrix::<Fr>(prover.iter().map(|o| o.v.clone()).collect::<Vec<FVec<Fr>>>());
    let q_cols = FMatrix::<Fr>(verifier.iter().map(|o| o.q.clone()).collect::<Vec<FVec<Fr>>>());
    let deltas = FVec::<Fr>(verifier.iter().map(|o| o.delta.clone()).collect());

    let u_rows = u_cols.transpose();
    let v_rows = v_cols.transpose();
    let q_rows = q_cols.transpose();

    let code = RAAACode::rand_default();

    let (new_us, correction) = code.get_prover_correction(&u_rows);

    let new_qs = code.correct_verifier_qs(&q_rows, &deltas, &correction);

    // check that (at least one of the) subspace VOLEs (and therefore likely all of them) is a successful subspace VOLE:
    assert!(code.encode(&new_us.0[15]).mul(&deltas).add(&v_rows.0[15].clone()) == new_qs.0[15]);
}

#[test]
fn check_parity() {
    let code = RAAACode {
        permutations: [
            RAAACode::random_interleave_permutations(6, None),
            RAAACode::random_interleave_permutations(6, None),
            RAAACode::random_interleave_permutations(6, None),
        ],
        q: 2,
    };
    let input = FVec::<Fr>::random(3);
    let codeword = code.encode(&input);
    let mut invalid_codeword = codeword.clone();
    invalid_codeword.0[2] = FVec::<Fr>::random(1).0[0];
    let mut invalid_length = codeword.clone();
    invalid_length.0.push(FVec::<Fr>::random(1).0[0]);
    assert!(code.check_parity(&codeword));
    assert!(!code.check_parity(&invalid_codeword));
    assert!(!code.check_parity(&invalid_length));
}

#[test]
fn check_parity_batch() {
    let code = RAAACode::rand_default();
    let input: Vec<FVec<Fr>> = (0..10).map(|_| FVec::<Fr>::random(512)).collect();
    let mut codewords: Vec<FVec<Fr>> = input.iter().map(|x| code.encode(x)).collect();
    assert!(code.check_parity_batch(&codewords).is_ok());
    codewords[2].0[7] = FVec::<Fr>::random(1).0[0];
    assert!(code.check_parity_batch(&codewords).is_err())
}

#[test]
fn parity_check_of_a_batch_names_its_error() {
    let code = RAAACode::rand_default();
    let input: Vec<FVec<Fr>> =
        (0..3u64).map(|j| FVec((0..512u64).map(|i| Fr::from_u64(i * 3 + j)).collect())).collect();
    let mut codewords: Vec<FVec<Fr>> = input.iter().map(|x| code.encode(x)).collect();
    assert_eq!(code.check_parity_batch(&codewords), Ok(()));
    codewords[1].0[7] = codewords[1].0[7].add(&Fr::one());
    assert_eq!(code.check_parity_batch(&codewords), Err(Error::ParityCheck));
    // A vector of another length is no codeword either.
    let short: Vec<FVec<Fr>> = vec![FVec(vec![Fr::zero(); 1023])];
    assert_eq!(code.check_parity_batch(&short), Err(Error::ParityCheck));
    assert_eq!(code.check_parity_batch::<Fr>(&vec![]), Ok(()));
}

#[test]
fn permutation_from_known_draws() {
    // Draws are used from the last to the first: index 2 of [0, 1, 2], then
    // index 0 of [0, 1], then index 0 of [1].
    let (forward, backward) = permutation_from_draws(&vec![0, 0, 2]);
    assert_eq!(forward, vec![2, 0, 1]);
    assert_eq!(backward, vec![1, 2, 0]);
    let (forward, backward) = permutation_from_draws(&vec![]);
    assert!(forward.is_empty() && backward.is_empty());
}

#[test]
fn seeded_permutations_are_decided_by_the_seed() {
    let a = RAAACode::random_interleave_permutations(64, Some([7u8; 32]));
    let b = RAAACode::random_interleave_permutations(64, Some([7u8; 32]));
    let c = RAAACode::random_interleave_permutations(64, Some([8u8; 32]));
    assert_eq!(a, b);
    assert!(a != c);
    let mut seen = vec![false; 64];
    for (i, p) in a.0.iter().enumerate() {
        assert!(!seen[*p as usize]);
        seen[*p as usize] = true;
        assert_eq!(a.1[*p as usize], i as u32);
    }
    assert_eq!(RAAACode::rand_default(), RAAACode::rand_default());
}

#[test]
fn seeded_permutation_follows_the_draws_of_the_generator() {
    let seed = [7u8; 32];
    let mut rng = ChaCha20Rng::from_seed(seed);
    let draws: Vec<u32> = (1..=64u32).map(|i| rng.gen_range(0..i)).collect();
    assert_eq!(
        RAAACode::random_interleave_permutations(64, Some(seed)),
        permutation_from_draws(&draws)
    );
    assert!(draws != (0..64u32).collect::<Vec<u32>>());
}

#[test]
fn interleave_moves_entries_to_their_positions() {
    let input = code_vec(&[10, 20, 30]);
    assert_eq!(RAAACode::interleave(&input, &vec![2, 0, 1]), code_vec(&[20, 30, 10]));
    // Positions need not be a permutation: the later entry stays, and a
    // position that nothing goes to holds zero.
    assert_eq!(RAAACode::interleave(&input, &vec![1, 1, 1]), code_vec(&[0, 30, 0]));
}

#[test]
fn accumulate_inverse_takes_differences() {
    assert_eq!(RAAACode::accumulate_inverse(&code_vec(&[1, 3, 6, 6])), code_vec(&[1, 2, 3, 0]));
    assert_eq!(
        RAAACode::accumulate(&RAAACode::accumulate_inverse(&code_vec(&[9, 3, 6]))),
        code_vec(&[9, 3, 6])
    );
}

#[test]
fn repeat_extended_adds_the_first_section() {
    assert_eq!(
        RAAACode::repeat_extended(&code_vec(&[1, 2, 10, 20, 100, 200]), 3),
        code_vec(&[1, 2, 11, 22, 101, 202])
    );
    assert_eq!(
        RAAACode::repeat_extended_inverse(&code_vec(&[1, 2, 11, 22, 101, 202]), 3),
        code_vec(&[1, 2, 10, 20, 100, 200])
    );
}

#[test]
fn encode_of_a_known_code() {
    let code = RAAACode {
        permutations: [
            (vec![1, 0, 3, 2], vec![1, 0, 3, 2]),
            (vec![0, 1, 2, 3], vec![0, 1, 2, 3]),
            (vec![3, 2, 1, 0], vec![3, 2, 1, 0]),
        ],
        q: 2,
    };
    assert_eq!(code.k(), 2);
    assert_eq!(code.n(), 4);
    // repeat: [1, 2, 1, 2]; swap pairs: [2, 1, 2, 1]; sums: [2, 3, 5, 6];
    // identity, sums: [2, 5, 10, 16]; reverse: [16, 10, 5, 2]; sums: [16, 26, 31, 33].
    let codeword = code.encode(&code_vec(&[1, 2]));
    assert_eq!(codeword, code_vec(&[16, 26, 31, 33]));
    assert!(code.check_parity(&codeword));
    assert_eq!(code.encode_extended(&code_vec(&[1, 2, 0, 0])), codeword);
    assert_eq!(code.mul_vec_by_extended_inverse(&codeword), code_vec(&[1, 2, 0, 0]));
    assert!(!code.check_parity(&code_vec(&[16, 26, 31, 34])));
}

#[test]
fn extended_encoder_round_trips_both_ways() {
    let code = RAAACode::rand_with_parameters(12, 3);
    let v = FVec::<Fr>::random(12);
    assert_eq!(code.mul_vec_by_extended_inverse(&code.encode_extended(&v)), v);
    assert_eq!(code.encode_extended(&code.mul_vec_by_extended_inverse(&v)), v);
    let mut padded = FVec::<Fr>::random(4);
    let codeword = code.encode(&padded);
    padded.zero_pad(8);
    assert_eq!(code.encode_extended(&padded), codeword);
    assert!(code.check_parity(&codeword));
}

#[test]
fn consistency_check_accepts_an_honest_subspace_vole() {
    let code = RAAACode::rand_with_parameters(8, 2);
    let len = 6;
    let mut u_cols = Vec::new();
    let mut v_cols = Vec::new();
    let mut q_cols = Vec::new();
    let mut deltas = Vec::new();
    for i in 0..8u8 {
        let seed0 = [i; 32];
        let seed1 = [i + 100; 32];
        let delta = i % 3 == 0;
        let p = prover_outputs::<Fr>(&seed0, &seed1, len);
        let v = verifier_outputs::<Fr>(if delta { &seed1 } else { &seed0 }, delta, len);
        u_cols.push(p.u);
        v_cols.push(p.v);
        q_cols.push(v.q);
        deltas.push(v.delta);
    }
    let deltas = FVec(deltas);
    let v_cols = FMatrix(v_cols);
    let (new_us, correction) = code.get_prover_correction(&FMatrix(u_cols).transpose());
    let new_qs = code.correct_verifier_qs(&FMatrix(q_cols).transpose(), &deltas, &correction);
    let challenge: FVec<Fr> = expand_seed_to_field_vec([42u8; 32], len);
    let mut check = calc_consistency_check(&challenge, &new_us.transpose(), &v_cols);
    assert!(code
        .verify_consistency_check(&challenge, &check, &deltas, &new_qs.transpose())
        .is_ok());
    check.1 .0[3] = check.1 .0[3].add(&Fr::one());
    assert_eq!(
        code.verify_consistency_check(&challenge, &check, &deltas, &new_qs.transpose()),
        Err(volonym::errors::Error::ConsistencyCheck)
    );
}
