use ringsignature::errors::SigmaErrors;
use ringsignature::field::{random_scalar, Scalar};
use ringsignature::group::{msm, random_point, Point};
use ringsignature::ipa::{InnerProductParam, InnerProductProof, InnerProductProtocol};
use ringsignature::vec::{convert, hadamard_product, inner_product};

fn target(params: &InnerProductParam, a: &Vec<Scalar>, b: &Vec<Scalar>) -> Point {
    let t = inner_product(a, b);
    let mut exp = hadamard_product(a, &params.factors_G);
    exp.extend(hadamard_product(b, &params.factors_H));
    let mut base = params.vec_G.clone();
    base.extend(params.vec_H.clone());
    msm(&base, &exp).add(&params.u.mul(&t))
}

fn random_params(n: usize) -> InnerProductParam {
    InnerProductParam {
        factors_G: (0..n).map(|_| random_scalar()).collect(),
        factors_H: (0..n).map(|_| random_scalar()).collect(),
        u: random_point(),
        vec_G: (0..n).map(|_| random_point()).collect(),
        vec_H: (0..n).map(|_| random_point()).collect(),
    }
}

fn scenario_params() -> InnerProductParam {
    InnerProductParam {
        factors_G: convert(&[1, 2, 3, 4]),
        factors_H: convert(&[1, 1, 1, 1]),
        u: random_point(),
        vec_G: vec![random_point(); 4],
        vec_H: vec![random_point(); 4],
    }
}

#[test]
fn test_ipa() {
    let n = 4;
    let vec_a: Vec<Scalar> = convert(&[1u64, 2u64, 3u64, 4u64]);
    let vec_b: Vec<Scalar> = convert(&[1u64, 1u64, 1u64, 1u64]);
    let params = scenario_params();
    let proof = InnerProductProtocol::prove(&params, vec_a.clone(), vec_b.clone()).unwrap();
    let t = inner_product(&vec_a, &vec_b);
    assert_eq!(t, Scalar::from_u64(10));
    let p = target(&params, &vec_a, &vec_b);
    InnerProductProtocol::verify(n, p, &params, &proof).unwrap();
}

#[test]
fn ipa_rejects_a_shifted_final_scalar() {
    let vec_a = convert(&[1, 2, 3, 4]);
    let vec_b = convert(&[1, 1, 1, 1]);
    let params = scenario_params();
    let mut proof = InnerProductProtocol::prove(&params, vec_a.clone(), vec_b.clone()).unwrap();
    proof.a = proof.a.add(&Scalar::one());
    let p = target(&params, &vec_a, &vec_b);
    assert!(matches!(InnerProductProtocol::verify(4, p, &params, &proof), Err(SigmaErrors::InvalidProof(_))));
}

#[test]
fn ipa_of_length_one_has_no_rounds() {
    let params = random_params(1);
    let a = convert(&[7]);
    let b = convert(&[3]);
    let proof = InnerProductProtocol::prove(&params, a.clone(), b.clone()).unwrap();
    assert!(proof.vec_L.is_empty() && proof.vec_R.is_empty() && proof.challenges.is_empty());
    assert_eq!(proof.a, Scalar::from_u64(7));
    assert_eq!(proof.b, Scalar::from_u64(3));
    let p = params.vec_G[0].mul(&Scalar::from_u64(7).mul(&params.factors_G[0]))
        .add(&params.vec_H[0].mul(&Scalar::from_u64(3).mul(&params.factors_H[0])))
        .add(&params.u.mul(&Scalar::from_u64(21)));
    assert!(InnerProductProtocol::verify(1, p, &params, &proof).is_ok());
    let wrong = p.add(&params.u);
    assert!(InnerProductProtocol::verify(1, wrong, &params, &proof).is_err());
}

#[test]
fn ipa_is_complete_for_random_vectors() {
    for n in [1usize, 2, 4, 8, 16, 32, 64, 128] {
        let params = random_params(n);
        let a: Vec<Scalar> = (0..n).map(|_| random_scalar()).collect();
        let b: Vec<Scalar> = (0..n).map(|_| random_scalar()).collect();
        let proof = InnerProductProtocol::prove(&params, a.clone(), b.clone()).unwrap();
        assert_eq!(proof.vec_L.len(), n.trailing_zeros() as usize);
        let p = target(&params, &a, &b);
        assert!(InnerProductProtocol::verify(n, p, &params, &proof).is_ok(), "n = {}", n);
    }
}

fn mutated_proofs(proof: &InnerProductProof) -> Vec<InnerProductProof> {
    let mut out = Vec::new();
    for j in 0..proof.vec_L.len() {
        let mut p = proof.clone();
        p.vec_L[j] = p.vec_L[j].add(&random_point());
        out.push(p);
        let mut p = proof.clone();
        p.vec_R[j] = p.vec_R[j].add(&random_point());
        out.push(p);
        let mut p = proof.clone();
        p.challenges[j] = p.challenges[j].add(&Scalar::one());
        out.push(p);
    }
    let mut p = proof.clone();
    p.b = p.b.add(&Scalar::one());
    out.push(p);
    out
}

#[test]
fn ipa_rejects_any_mutation() {
    let n = 8;
    let params = random_params(n);
    let a: Vec<Scalar> = (0..n).map(|_| random_scalar()).collect();
    let b: Vec<Scalar> = (0..n).map(|_| random_scalar()).collect();
    let proof = InnerProductProtocol::prove(&params, a.clone(), b.clone()).unwrap();
    let p = target(&params, &a, &b);
    for bad in mutated_proofs(&proof) {
        assert!(matches!(InnerProductProtocol::verify(n, p, &params, &bad), Err(SigmaErrors::InvalidProof(_))));
    }
    for i in 0..n {
        let mut a2 = a.clone();
        a2[i] = a2[i].add(&Scalar::one());
        assert!(InnerProductProtocol::verify(n, target(&params, &a2, &b), &params, &proof).is_err());
        let mut b2 = b.clone();
        b2[i] = b2[i].add(&Scalar::one());
        assert!(InnerProductProtocol::verify(n, target(&params, &a, &b2), &params, &proof).is_err());
    }
}

#[test]
fn ipa_rejects_bad_lengths() {
    let params = random_params(4);
    let a: Vec<Scalar> = (0..4).map(|_| random_scalar()).collect();
    let short: Vec<Scalar> = (0..3).map(|_| random_scalar()).collect();
    assert!(matches!(
        InnerProductProtocol::prove(&params, a.clone(), short),
        Err(SigmaErrors::InvalidParameters(_))
    ));
    let params3 = random_params(3);
    let a3: Vec<Scalar> = (0..3).map(|_| random_scalar()).collect();
    assert!(matches!(
        InnerProductProtocol::prove(&params3, a3.clone(), a3),
        Err(SigmaErrors::InvalidParameters(_))
    ));
    let proof = InnerProductProtocol::prove(&params, a.clone(), a.clone()).unwrap();
    let p = target(&params, &a, &a);
    assert!(matches!(InnerProductProtocol::verify(8, p, &params, &proof), Err(SigmaErrors::InvalidParameters(_))));
    let mut short_proof = proof.clone();
    short_proof.vec_R.pop();
    assert!(matches!(InnerProductProtocol::verify(4, p, &params, &short_proof), Err(SigmaErrors::InvalidProof(_))));
}

#[test]
fn ipa_rejects_non_canonical_scalars() {
    let params = random_params(2);
    let a: Vec<Scalar> = (0..2).map(|_| random_scalar()).collect();
    let b: Vec<Scalar> = (0..2).map(|_| random_scalar()).collect();
    let mut proof = InnerProductProtocol::prove(&params, a.clone(), b.clone()).unwrap();
    proof.a = Scalar { l0: u64::MAX, l1: u64::MAX, l2: u64::MAX, l3: u64::MAX };
    let p = target(&params, &a, &b);
    assert!(matches!(InnerProductProtocol::verify(2, p, &params, &proof), Err(SigmaErrors::SerializationError(_))));
}
