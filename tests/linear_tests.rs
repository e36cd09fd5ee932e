use ringsignature::errors::SigmaErrors;
use ringsignature::field::{random_scalar, Scalar};
use ringsignature::linear::RingSignatureScheme;

#[test]
fn protocol_linear_test_ringsignature() {
    let ring_size = 10;
    let sk = random_scalar();
    let mut wit = vec![sk];
    let message = String::from("Welcome to the world of Zero Knowledge!");
    let ring_params = RingSignatureScheme::setup(&mut wit, &message, ring_size).unwrap();
    let proof = RingSignatureScheme::prove(&ring_params, &wit).unwrap();
    let result = RingSignatureScheme::verify(&ring_params, &proof).unwrap();
    assert_eq!(result, true);
}

#[test]
fn linear_signature_rejects_tampering() {
    let mut wit = vec![random_scalar()];
    let message = String::from("ring");
    let params = RingSignatureScheme::setup(&mut wit, &message, 5).unwrap();
    let sig = RingSignatureScheme::prove(&params, &wit).unwrap();
    assert_eq!(sig.openings.zeta.len(), 5);
    let mut s = sig.clone();
    s.openings.hat_t = s.openings.hat_t.add(&Scalar::one());
    assert!(matches!(RingSignatureScheme::verify(&params, &s), Err(SigmaErrors::InvalidProof(_))));
    let mut s = sig.clone();
    s.openings.zeta[0] = s.openings.zeta[0].add(&Scalar::one());
    assert!(matches!(RingSignatureScheme::verify(&params, &s), Err(SigmaErrors::InvalidProof(_))));
    let mut s = sig.clone();
    s.openings.eta.pop();
    assert!(matches!(RingSignatureScheme::verify(&params, &s), Err(SigmaErrors::InvalidParameters(_))));
    let mut p = params.clone();
    p.message = String::from("rinG");
    assert!(matches!(RingSignatureScheme::verify(&p, &sig), Err(SigmaErrors::InvalidProof(_))));
    let mut empty = vec![random_scalar()];
    assert!(matches!(RingSignatureScheme::setup(&mut empty, &message, 0), Err(SigmaErrors::InvalidParameters(_))));
}
