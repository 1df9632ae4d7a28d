use volonym::{Fr, FromU8s, ToU8s, PF};

const A: [u8; 32] = [
    18, 52, 86, 120, 144, 171, 205, 239, 18, 52, 86, 120, 144, 171, 205, 239, 18, 52, 86, 120, 144,
    171, 205, 239, 18, 52, 86, 120, 144, 171, 205, 239,
];

const B: [u8; 32] = [
    15, 237, 203, 169, 135, 101, 67, 33, 254, 220, 186, 152, 118, 84, 50, 31, 237, 203, 169, 135,
    101, 67, 33, 254, 220, 186, 152, 118, 84, 50, 16, 255,
];

const P_MINUS_ONE: [u8; 32] = [
    48, 100, 78, 114, 225, 49, 160, 41, 184, 80, 69, 182, 129, 129, 88, 93, 40, 51, 232, 72, 121,
    185, 112, 145, 67, 225, 245, 147, 240, 0, 0, 0,
];

fn fr(bytes: &[u8; 32]) -> Fr {
    Fr::from_u8s(&bytes.to_vec())
}

#[test]
fn field_addition_matches_known_answer() {
    let expected: [u8; 32] = [
        34, 34, 34, 34, 24, 17, 17, 17, 17, 17, 17, 17, 7, 0, 0, 14, 255, 255, 255, 255, 245, 238,
        239, 237, 238, 238, 238, 238, 228, 221, 222, 238,
    ];
    assert_eq!(fr(&A).add(&fr(&B)).to_u8s(), expected.to_vec());
    assert_eq!(fr(&B).add(&fr(&A)).to_u8s(), expected.to_vec());
}

#[test]
fn field_addition_wraps_at_the_modulus() {
    let top = fr(&P_MINUS_ONE);
    assert_eq!(top.add(&Fr::one()), Fr::zero());
    assert_eq!(top.add(&top), top.sub(&Fr::one()));
}

#[test]
fn field_subtraction_matches_known_answers() {
    let a_minus_b: [u8; 32] = [
        2, 70, 138, 207, 9, 70, 138, 205, 19, 87, 155, 224, 26, 87, 155, 207, 36, 104, 172, 241,
        43, 104, 171, 240, 53, 121, 190, 2, 60, 121, 188, 240,
    ];
    let b_minus_a: [u8; 32] = [
        46, 29, 195, 163, 215, 235, 21, 92, 164, 248, 169, 214, 103, 41, 188, 142, 3, 203, 59, 87,
        78, 80, 196, 161, 14, 104, 55, 145, 179, 134, 67, 17,
    ];
    assert_eq!(fr(&A).sub(&fr(&B)).to_u8s(), a_minus_b.to_vec());
    assert_eq!(fr(&B).sub(&fr(&A)).to_u8s(), b_minus_a.to_vec());
    assert_eq!(Fr::zero().sub(&Fr::one()), fr(&P_MINUS_ONE));
}

#[test]
fn field_multiplication_matches_known_answer() {
    let expected: [u8; 32] = [
        39, 102, 226, 144, 135, 134, 67, 176, 172, 19, 216, 70, 123, 28, 55, 175, 77, 135, 159,
        214, 91, 106, 140, 16, 211, 22, 225, 40, 253, 192, 44, 112,
    ];
    assert_eq!(fr(&A).mul(&fr(&B)).to_u8s(), expected.to_vec());
    assert_eq!(fr(&B).mul(&fr(&A)).to_u8s(), expected.to_vec());
}

#[test]
fn field_multiplication_of_the_largest_element() {
    let top = fr(&P_MINUS_ONE);
    assert_eq!(top.mul(&top), Fr::one());
    assert_eq!(top.mul(&Fr::zero()), Fr::zero());
    assert_eq!(top.mul(&Fr::one()), top);
}

#[test]
fn field_negation_matches_known_answer() {
    let expected: [u8; 32] = [
        30, 47, 247, 250, 80, 133, 210, 58, 166, 27, 239, 61, 240, 213, 138, 110, 21, 255, 145,
        207, 233, 13, 162, 162, 49, 173, 159, 27, 95, 84, 50, 18,
    ];
    assert_eq!(fr(&A).neg().to_u8s(), expected.to_vec());
    assert_eq!(Fr::zero().neg(), Fr::zero());
    assert_eq!(Fr::one().neg(), fr(&P_MINUS_ONE));
}

#[test]
fn field_small_products() {
    assert_eq!(Fr::from_u64(69).mul(&Fr::from_u64(100)), Fr::from_u64(6900));
    assert_eq!(
        Fr::from_u128(0xffff_ffff_ffff_ffff).mul(&Fr::from_u128(0xffff_ffff_ffff_ffff)),
        Fr::from_u128(0xffff_ffff_ffff_fffe_0000_0000_0000_0001)
    );
    assert!(Fr::from_u64(7).equals(&Fr::from_u128(7)));
    assert!(!Fr::from_u64(7).equals(&Fr::from_u64(8)));
}

#[test]
fn field_encoding_round_trip() {
    assert_eq!(fr(&A).to_u8s(), A.to_vec());
    assert_eq!(fr(&P_MINUS_ONE).to_u8s(), P_MINUS_ONE.to_vec());
    let mut one = [0u8; 32];
    one[31] = 1;
    assert_eq!(Fr::one().to_u8s(), one.to_vec());
    assert_eq!(Fr::zero().to_u8s(), vec![0u8; 32]);
}

#[test]
fn field_prime_and_half_prime() {
    let mut p = P_MINUS_ONE;
    p[31] = 1;
    assert_eq!(Fr::prime(), p.to_vec());
    let half: [u8; 32] = [
        24, 50, 39, 57, 112, 152, 208, 20, 220, 40, 34, 219, 64, 192, 172, 46, 148, 25, 244, 36,
        60, 220, 184, 72, 161, 240, 250, 201, 248, 0, 0, 0,
    ];
    assert_eq!(Fr::half_prime().to_u8s(), half.to_vec());
}

#[test]
fn field_norm_is_signed() {
    let small = Fr::from_u64(5).norm();
    assert!(!small.negative);
    assert_eq!(small.magnitude, Fr::from_u64(5));
    let minus_five = Fr::from_u64(5).neg().norm();
    assert!(minus_five.negative);
    assert_eq!(minus_five.magnitude, Fr::from_u64(5));
    let half = Fr::half_prime().norm();
    assert!(!half.negative);
    let above = Fr::half_prime().add(&Fr::one()).norm();
    assert!(above.negative);
    assert_eq!(above.magnitude, Fr::half_prime());
}

#[test]
fn field_sampling_accepts_and_rejects() {
    // Least significant byte first: the number one.
    let mut candidate = [0u8; 32];
    candidate[0] = 1;
    assert_eq!(Fr::sample(&candidate, 0), Some(Fr::one()));
    // The two top bits are masked away.
    candidate[31] = 0xc0;
    assert_eq!(Fr::sample(&candidate, 0), Some(Fr::one()));
    // All bits set: 2^254 - 1 after masking, which is above the modulus.
    assert_eq!(Fr::sample(&[0xffu8; 32], 0), None);
    // The modulus itself is rejected, the number before it accepted.
    let mut p_le = P_MINUS_ONE;
    p_le.reverse();
    assert_eq!(Fr::sample(&p_le, 0), Some(fr(&P_MINUS_ONE)));
    p_le[0] = 1;
    assert_eq!(Fr::sample(&p_le, 0), None);
}

#[test]
fn field_inverse_matches_known_answer() {
    let expected: [u8; 32] = [
        43, 177, 60, 17, 49, 32, 121, 234, 188, 195, 11, 49, 54, 19, 169, 224, 19, 219, 72, 51, 92,
        189, 184, 107, 155, 131, 237, 16, 127, 202, 234, 131,
    ];
    let inverse = fr(&A).invert().unwrap();
    assert_eq!(inverse.to_u8s(), expected.to_vec());
    assert_eq!(inverse.mul(&fr(&A)), Fr::one());
    assert_eq!(Fr::zero().invert(), None);
    assert_eq!(Fr::one().invert(), Some(Fr::one()));
    assert_eq!(fr(&P_MINUS_ONE).invert(), Some(fr(&P_MINUS_ONE)));
    assert_eq!(Fr::from_u64(2).invert().unwrap().mul(&Fr::from_u64(2)), Fr::one());
}

#[test]
fn field_little_endian_decoding() {
    let mut bytes = vec![0u8; 40];
    bytes[4] = 0x2a;
    assert_eq!(Fr::from_le_bytes(&bytes, 4), Some(Fr::from_u64(42)));
    let mut p_le = P_MINUS_ONE;
    p_le.reverse();
    assert_eq!(Fr::from_le_bytes(&p_le, 0), Some(fr(&P_MINUS_ONE)));
    p_le[0] = 1;
    assert_eq!(Fr::from_le_bytes(&p_le, 0), None);
    assert_eq!(Fr::from_le_bytes(&[0xffu8; 32], 0), None);
}
