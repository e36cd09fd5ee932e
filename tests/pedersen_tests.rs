use ringsignature::errors::{CommitmentErrors, SigmaErrors};
use ringsignature::schnorr::SchnorrProtocol;
use ringsignature::field::{random_scalar, Scalar};
use ringsignature::pedersen::PedersenCommitmentScheme;
use ringsignature::single;
use ringsignature::single::Pedersen;
use ringsignature::vec::convert;

#[test]
fn pedersen_test_pedersen() {
    let supported_size = 10;
    let params = PedersenCommitmentScheme::setup(supported_size).unwrap();
    let m: [u64; 10] = [0, 1, 2, 3, 4, 5, 6, 7, 8, 9];
    let field_m: Vec<Scalar> = convert(&m);
    let r = random_scalar();
    let cm = PedersenCommitmentScheme::commit(&params, &field_m, &r, "cm").unwrap();
    let opening = PedersenCommitmentScheme::open(&field_m, &r).unwrap();
    assert_eq!(PedersenCommitmentScheme::verify(&params, &cm, &opening).unwrap(), true);
}

#[test]
fn pedersen_rejects_wrong_openings() {
    let params = PedersenCommitmentScheme::setup(3).unwrap();
    let m = convert(&[5, 6, 7]);
    let r = random_scalar();
    let cm = PedersenCommitmentScheme::commit(&params, &m, &r, "cm").unwrap();
    let other = PedersenCommitmentScheme::open(&convert(&[5, 6, 8]), &r).unwrap();
    assert_eq!(PedersenCommitmentScheme::verify(&params, &cm, &other).unwrap(), false);
    let other_r = PedersenCommitmentScheme::open(&m, &r.add(&Scalar::one())).unwrap();
    assert_eq!(PedersenCommitmentScheme::verify(&params, &cm, &other_r).unwrap(), false);
    assert!(matches!(
        PedersenCommitmentScheme::commit(&params, &convert(&[1, 2]), &r, "short"),
        Err(CommitmentErrors::InvalidParameters(_))
    ));
    let short = PedersenCommitmentScheme::open(&convert(&[1]), &r).unwrap();
    assert!(matches!(
        PedersenCommitmentScheme::verify(&params, &cm, &short),
        Err(CommitmentErrors::InvalidParameters(_))
    ));
}

#[test]
fn pedersen_commitments_of_distinct_openings_differ() {
    let params = PedersenCommitmentScheme::setup(4).unwrap();
    let mut seen = Vec::new();
    for _ in 0..20 {
        let m: Vec<Scalar> = (0..4).map(|_| random_scalar()).collect();
        let r = random_scalar();
        seen.push(PedersenCommitmentScheme::commit(&params, &m, &r, "trial").unwrap());
    }
    for i in 0..seen.len() {
        for j in i + 1..seen.len() {
            assert_ne!(seen[i], seen[j]);
        }
    }
    let empty = PedersenCommitmentScheme::setup(0).unwrap();
    let r = Scalar::from_u64(2);
    let c = PedersenCommitmentScheme::commit(&empty, &vec![], &r, "empty").unwrap();
    assert_eq!(c, empty.generator.mul(&r));
}

#[test]
fn tets_pedersen() {
    let mut pedcom = Pedersen::new();
    pedcom.setup();
    let m: Scalar = Scalar::from_u64(114514);
    pedcom.commit(&m);
    let (mprime, rprime) = pedcom.open();
    assert_eq!(mprime, m);
    assert!(single::verify(&pedcom, &mprime, &rprime));
    assert!(!single::verify(&pedcom, &mprime.add(&Scalar::one()), &rprime));
}

#[test]
fn protocol_test_schnorr() {
    let supported_size = 10;
    let mut wit: Vec<Scalar> = (0..supported_size).map(|_| random_scalar()).collect();
    let message = String::from("Welcome to the world of Zero Knowledge!");
    let params = SchnorrProtocol::setup(&mut wit, &message, supported_size).unwrap();
    let proof = SchnorrProtocol::prove(&params, &wit).unwrap();
    let result = SchnorrProtocol::verify(&params, &proof).unwrap();
    assert_eq!(result, true);
}

#[test]
fn schnorr_rejects_tampering() {
    let mut wit: Vec<Scalar> = (0..3).map(|_| random_scalar()).collect();
    let message = String::from("schnorr");
    let params = SchnorrProtocol::setup(&mut wit, &message, 3).unwrap();
    assert_eq!(wit.len(), 4);
    let proof = SchnorrProtocol::prove(&params, &wit).unwrap();
    let mut bad = proof.clone();
    bad.opening[1] = bad.opening[1].add(&Scalar::one());
    assert!(matches!(SchnorrProtocol::verify(&params, &bad), Err(SigmaErrors::InvalidProof(_))));
    let mut bad = proof.clone();
    bad.challenge[0] = bad.challenge[0].add(&Scalar::one());
    assert!(matches!(SchnorrProtocol::verify(&params, &bad), Err(SigmaErrors::InvalidProof(_))));
    let mut bad = proof.clone();
    bad.opening.pop();
    assert!(matches!(SchnorrProtocol::verify(&params, &bad), Err(SigmaErrors::InvalidParameters(_))));
    let mut p = params.clone();
    p.message = String::from("Schnorr");
    assert!(matches!(SchnorrProtocol::verify(&p, &proof), Err(SigmaErrors::InvalidProof(_))));
    let mut short: Vec<Scalar> = vec![random_scalar()];
    assert!(matches!(SchnorrProtocol::setup(&mut short, &message, 2), Err(SigmaErrors::InvalidParameters(_))));
}
