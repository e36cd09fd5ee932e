use ringsignature::errors::SigmaErrors;
use ringsignature::field::{random_scalar, Scalar};
use ringsignature::group::{random_point, Point};
use ringsignature::pedersen::PedersenCommitmentScheme;
use ringsignature::transcript::{ProofTranscript, TranscriptProtocol};
use ringsignature::ringsig::{
    sign, sign_with_masks, verify, LogarithmicRingSignature, RingSignatureParams, RingSignatureScheme,
    SigningMasks,
};

const MESSAGE: &str = "Welcome to the world of Zero Knowledge!";

/// A ring of `n` keys with the signer's key at `index`.
fn ring_with_signer_at(n: usize, index: usize, message: &str) -> (RingSignatureParams, Scalar, Vec<Scalar>) {
    let g_u = PedersenCommitmentScheme::setup(n).unwrap();
    let h_v = PedersenCommitmentScheme::setup(n).unwrap();
    let key = PedersenCommitmentScheme::setup(1).unwrap();
    let sk = random_scalar();
    let pk = PedersenCommitmentScheme::commit(&key, &vec![sk], &Scalar::zero(), "pk").unwrap();
    let mut ring: Vec<Point> = (0..n).map(|_| random_point()).collect();
    ring[index] = pk;
    let b: Vec<Scalar> = (0..n).map(|i| if i == index { Scalar::one() } else { Scalar::zero() }).collect();
    let params = RingSignatureParams {
        num_witness: n + 1,
        num_pub_inputs: n,
        com_parameters: vec![g_u, h_v, key],
        message: message.to_string(),
        vec_pk: ring,
    };
    (params, sk, b)
}

fn sign_at(n: usize, index: usize, message: &str) -> (RingSignatureParams, LogarithmicRingSignature) {
    let (params, sk, b) = ring_with_signer_at(n, index, message);
    let sig = sign_with_masks(&params, &sk, &b, &SigningMasks::random(n)).unwrap();
    (params, sig)
}

#[test]
fn protocol_compressed_modification_test_ringsignature() {
    let ring_size = 256;
    let sk = random_scalar();
    let mut wit = vec![sk];
    let message = String::from("Welcome to the world of Zero Knowledge!");
    let ring_params = RingSignatureScheme::setup(&mut wit, &message, ring_size).unwrap();
    let proof = RingSignatureScheme::prove(&ring_params, &wit).unwrap();
    let result = RingSignatureScheme::verify(&ring_params, &proof).unwrap();
    assert_eq!(result, true);
}

#[test]
fn setup_places_the_signer_once() {
    let sk = random_scalar();
    let mut wit = vec![sk];
    let params = RingSignatureScheme::setup(&mut wit, &MESSAGE.to_string(), 8).unwrap();
    assert_eq!(wit.len(), 9);
    assert_eq!(params.vec_pk.len(), 8);
    let pk = PedersenCommitmentScheme::commit(&params.com_parameters[2], &vec![sk], &Scalar::zero(), "pk").unwrap();
    let ones: Vec<usize> = (0..8).filter(|&i| wit[i + 1] == Scalar::one()).collect();
    assert_eq!(ones.len(), 1);
    assert_eq!(params.vec_pk[ones[0]], pk);
}

#[test]
fn signatures_verify_at_every_position() {
    for n in [2usize, 4, 8, 16] {
        for index in 0..n {
            let (params, sig) = sign_at(n, index, MESSAGE);
            assert!(verify(&params, &sig), "n = {}, index = {}", n, index);
        }
    }
}

#[test]
fn large_ring_signature_binds_the_message() {
    let (mut params, sig) = sign_at(256, 137, MESSAGE);
    assert!(verify(&params, &sig));
    let mut bytes = MESSAGE.as_bytes().to_vec();
    bytes[0] ^= 1;
    params.message = String::from_utf8(bytes).unwrap();
    assert!(!verify(&params, &sig));
    assert!(matches!(RingSignatureScheme::verify(&params, &sig), Err(SigmaErrors::InvalidProof(_))));
}

#[test]
fn two_signers_give_signatures_of_the_same_shape() {
    let (params, sk, _) = ring_with_signer_at(16, 3, MESSAGE);
    let mut params2 = params.clone();
    let sk2 = random_scalar();
    let pk2 = PedersenCommitmentScheme::commit(&params.com_parameters[2], &vec![sk2], &Scalar::zero(), "pk").unwrap();
    params2.vec_pk[11] = pk2;
    let b3: Vec<Scalar> = (0..16).map(|i| if i == 3 { Scalar::one() } else { Scalar::zero() }).collect();
    let b11: Vec<Scalar> = (0..16).map(|i| if i == 11 { Scalar::one() } else { Scalar::zero() }).collect();
    let s3 = sign_with_masks(&params2, &sk, &b3, &SigningMasks::random(16)).unwrap();
    let s11 = sign_with_masks(&params2, &sk2, &b11, &SigningMasks::random(16)).unwrap();
    assert!(verify(&params2, &s3));
    assert!(verify(&params2, &s11));
    assert_eq!(s3.commitments.len(), s11.commitments.len());
    assert_eq!(s3.challenges.len(), s11.challenges.len());
    assert_eq!(s3.compression_proof.vec_L.len(), s11.compression_proof.vec_L.len());
    assert_eq!(s3.compression_proof.vec_R.len(), 4);
    assert_eq!(s3.digest, s11.digest);
}

#[test]
fn changing_a_ring_key_breaks_the_signature() {
    let (params, sig) = sign_at(8, 5, MESSAGE);
    for i in 0..8 {
        let mut p = params.clone();
        p.vec_pk[i] = random_point();
        assert!(!verify(&p, &sig));
    }
}

#[test]
fn tampered_signatures_are_rejected() {
    let (params, sig) = sign_at(4, 1, MESSAGE);
    let mut s = sig.clone();
    s.challenges[1] = s.challenges[1].add(&Scalar::one());
    assert!(matches!(RingSignatureScheme::verify(&params, &s), Err(SigmaErrors::InvalidProof(_))));
    let mut s = sig.clone();
    s.openings.fs = s.openings.fs.add(&Scalar::one());
    assert!(matches!(RingSignatureScheme::verify(&params, &s), Err(SigmaErrors::InvalidProof(_))));
    let mut s = sig.clone();
    s.openings.mu = s.openings.mu.add(&Scalar::one());
    assert!(!verify(&params, &s));
    let mut s = sig.clone();
    s.commitments.pop();
    assert!(matches!(RingSignatureScheme::verify(&params, &s), Err(SigmaErrors::InvalidParameters(_))));
    let mut s = sig.clone();
    s.digest = String::from("00");
    assert!(!verify(&params, &s));
}

#[test]
fn wrong_secret_key_does_not_verify() {
    let (params, _, b) = ring_with_signer_at(4, 2, MESSAGE);
    assert!(matches!(
        sign_with_masks(&params, &random_scalar(), &b, &SigningMasks::random(4)),
        Err(SigmaErrors::InvalidParameters(_))
    ));
}

#[test]
fn bad_ring_sizes_are_refused() {
    let mut wit = vec![random_scalar()];
    assert!(matches!(
        RingSignatureScheme::setup(&mut wit, &MESSAGE.to_string(), 10),
        Err(SigmaErrors::InvalidParameters(_))
    ));
    assert_eq!(wit.len(), 1);
    assert!(matches!(
        RingSignatureScheme::setup(&mut wit, &MESSAGE.to_string(), 0),
        Err(SigmaErrors::InvalidParameters(_))
    ));
    assert!(matches!(sign(6, &MESSAGE.to_string()), Err(SigmaErrors::InvalidParameters(_))));
    let (params, sk, b) = ring_with_signer_at(4, 0, MESSAGE);
    assert!(matches!(
        sign_with_masks(&params, &sk, &b[..3].to_vec(), &SigningMasks::random(3)),
        Err(SigmaErrors::InvalidParameters(_))
    ));
}

#[test]
fn sign_facade_round_trip() {
    let (params, sig) = sign(4, &MESSAGE.to_string()).unwrap();
    assert!(verify(&params, &sig));
    assert_eq!(sig.digest, ringsignature::digest::sha256_hex(&MESSAGE.to_string()));
}

#[test]
fn digest_is_sha256_hex() {
    let d = ringsignature::digest::sha256_hex(&String::from("hello"));
    assert_eq!(d, "2cf24dba5fb0a30e26e83b2ac5b9e29e1b161e5c1fa7425e73043362938b9824");
    let bytes = ringsignature::digest::decode_hex(&d).unwrap();
    assert_eq!(bytes.len(), 32);
    assert_eq!(bytes[0], 0x2c);
    assert_eq!(bytes[31], 0x24);
    assert!(ringsignature::digest::decode_hex(&String::from("abc")).is_none());
    assert!(ringsignature::digest::decode_hex(&String::from("zz")).is_none());
}

#[test]
fn transcript_challenges_depend_on_what_was_absorbed() {
    let mut t1 = ProofTranscript::new("RingSignature");
    let mut t2 = ProofTranscript::new("RingSignature");
    t1.append_message("m", &vec![1, 2, 3]);
    t2.append_message("m", &vec![1, 2, 3]);
    let c1 = t1.challenge_scalar("c");
    let c2 = t2.challenge_scalar("c");
    assert_eq!(c1, c2);
    let mut t3 = ProofTranscript::new("RingSignature");
    t3.append_message("m", &vec![1, 2, 4]);
    assert_ne!(t3.challenge_scalar("c"), c1);
    assert_ne!(t1.challenge_scalar("c"), c1);
}

#[test]
fn constraint_transcript_separates_domains() {
    let p = random_point();
    let mut t1 = ProofTranscript::new("proto");
    t1.domain_sep("a");
    t1.append_scalar_var("x");
    t1.append_group_var("P", &p);
    let mut t2 = ProofTranscript::new("proto");
    t2.domain_sep("b");
    t2.append_scalar_var("x");
    t2.append_group_var("P", &p);
    let mut t3 = ProofTranscript::new("proto");
    t3.domain_sep("a");
    t3.append_scalar_var("x");
    t3.append_group_var("P", &p.add(&p));
    let c1 = t1.challenge_scalar("c");
    assert_ne!(c1, t2.challenge_scalar("c"));
    assert_ne!(c1, t3.challenge_scalar("c"));
}

#[test]
fn signing_needs_an_indicator_vector() {
    let (params, sk, _) = ring_with_signer_at(4, 1, MESSAGE);
    let two = Scalar::from_u64(2);
    for bad in [
        vec![Scalar::one(), Scalar::one(), Scalar::zero(), Scalar::zero()],
        vec![Scalar::zero(); 4],
        vec![Scalar::zero(), two, Scalar::zero(), Scalar::zero()],
    ] {
        assert!(matches!(
            sign_with_masks(&params, &sk, &bad, &SigningMasks::random(4)),
            Err(SigmaErrors::InvalidParameters(_))
        ));
        assert!(!ringsignature::ringsig::check_indicator(&bad));
    }
    let good = vec![Scalar::zero(), Scalar::one(), Scalar::zero(), Scalar::zero()];
    assert!(ringsignature::ringsig::check_indicator(&good));
}

#[test]
fn signing_needs_the_signers_key_at_the_selected_position() {
    let (params, _, b) = ring_with_signer_at(4, 2, MESSAGE);
    let other = random_scalar();
    assert!(matches!(
        sign_with_masks(&params, &other, &b, &SigningMasks::random(4)),
        Err(SigmaErrors::InvalidParameters(_))
    ));
    let mut wit = vec![random_scalar()];
    let params = RingSignatureScheme::setup(&mut wit, &MESSAGE.to_string(), 4).unwrap();
    wit[0] = random_scalar();
    assert!(matches!(RingSignatureScheme::prove(&params, &wit), Err(SigmaErrors::InvalidParameters(_))));
}

#[test]
fn non_canonical_scalars_are_refused() {
    let (params, sig) = sign_at(4, 0, MESSAGE);
    let mut s = sig.clone();
    s.openings.fs = Scalar { l0: u64::MAX, l1: u64::MAX, l2: u64::MAX, l3: u64::MAX };
    assert!(matches!(RingSignatureScheme::verify(&params, &s), Err(SigmaErrors::SerializationError(_))));
    assert!(!verify(&params, &s));
    assert!(Scalar::from_u64(5).is_canonical());
    assert!(!s.openings.fs.is_canonical());
}
