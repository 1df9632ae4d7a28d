use volonym::smallvole::{prover_outputs, verifier_outputs};
use volonym::{FVec, Fr, PF};

#[test]
fn small_vole_relation_holds_for_either_bit() {
    let seed0 = [11u8; 32];
    let seed1 = [12u8; 32];
    let len = 33;
    let p = prover_outputs::<Fr>(&seed0, &seed1, len);
    for (seed, delta) in [(seed0, false), (seed1, true)] {
        let v = verifier_outputs::<Fr>(&seed, delta, len);
        assert_eq!(v.delta, if delta { Fr::one() } else { Fr::zero() });
        assert_eq!(p.u.scalar_mul(v.delta).add(&p.v), v.q);
    }
}

#[test]
fn small_vole_outputs_have_the_asked_length() {
    let p = prover_outputs::<Fr>(&[1u8; 32], &[2u8; 32], 0);
    assert_eq!(p.u, FVec(vec![]));
    assert_eq!(p.v, FVec(vec![]));
    let p = prover_outputs::<Fr>(&[1u8; 32], &[2u8; 32], 7);
    assert_eq!(p.u.0.len(), 7);
    assert_eq!(p.v.0.len(), 7);
}

#[test]
fn small_vole_with_the_wrong_seed_fails() {
    let p = prover_outputs::<Fr>(&[1u8; 32], &[2u8; 32], 5);
    let v = verifier_outputs::<Fr>(&[1u8; 32], true, 5);
    assert!(p.u.scalar_mul(v.delta).add(&p.v) != v.q);
}
