//! The ring signature without compression: the same Sigma protocol, sending
//! the opening vectors `ζ`, `η` in full and checking the three verification
//! equations and the inner product separately. Its size grows with the ring.
use vstd::prelude::*;
use crate::digest::{decode_hex, sha256_hex, sha256_hex_of};
use crate::errors::SigmaErrors;
use crate::field::{group_order, inverse_of, Scalar};
use crate::group::{msm, msm_of, scaled_of, sum_of, Point};
use crate::pedersen::commitment_of;
use crate::ringsig::{
    build_ring, check_indicator, check_signer_key, is_indicator, key_matches, commit_point, constant, constant_vector, cross_terms, delta, first_move, opening_vectors, record_for_x,
    record_for_y, record_for_z, ring_built, ring_challenges, ring_lengths, signing_A, signing_B, signing_E, signing_T,
    signing_eta, signing_t1, signing_t2, signing_zeta, third_move, Openings, RingSignatureParams, SigningMasks, MAX_RING,
};
use crate::transcript::ProofTranscript;
use crate::vec::{all_canonical, all_wf, generate_powers, hadamard, hadamard_product, inner_product, ip, powers, scalar_product, scaled, vec_split, views};

verus! {

/// A ring signature of linear size: `[A, B, E, T₁, T₂]`, the openings with
/// `ζ` and `η` in full, the challenges `[y, z, x]` and the hex digest of the
/// message.
#[derive(Clone, Debug)]
pub struct LinearRingSignature {
    pub commitments: Vec<Point>,
    pub openings: Openings,
    pub challenges: Vec<Scalar>,
    pub digest: String,
}

pub struct RingSignatureScheme;

/// The lengths that a ring and an uncompressed signature must have.
pub open spec fn linear_shape(params: RingSignatureParams, sig: LinearRingSignature) -> bool {
    let n = params.num_pub_inputs as nat;
    &&& ring_lengths(params, n)
    &&& sig.commitments.len() == 5
    &&& sig.challenges.len() == 3
    &&& sig.openings.zeta.len() == n
    &&& sig.openings.eta.len() == n
}

/// `v·t̂ + u·τ_x = v·δ + x·T₁ + x²·T₂`.
pub open spec fn equation_t(params: RingSignatureParams, sig: LinearRingSignature, y: int, z: int, x: int) -> bool {
    let n = params.num_pub_inputs as nat;
    let gu = params.com_parameters@[0];
    let hv = params.com_parameters@[1];
    let c = sig.commitments@;
    sum_of(commitment_of(hv.generator, hv.vec_gen@, constant(n, 0), sig.openings.hat_t.view()),
        commitment_of(gu.generator, gu.vec_gen@, constant(n, 0), sig.openings.taux.view()))
    == sum_of(sum_of(commitment_of(hv.generator, hv.vec_gen@, constant(n, 0), delta(n, y, z)), scaled_of(c[3], x)),
        scaled_of(c[4], (x * x) % group_order()))
}

/// `g^(ζ∘y⁻ⁿ) + h^η + u·μ = A + x·B + g^(z·1ⁿ) + h^(z·1ⁿ)`.
pub open spec fn equation_ab(params: RingSignatureParams, sig: LinearRingSignature, y: int, z: int, x: int) -> bool {
    let n = params.num_pub_inputs as nat;
    let gu = params.com_parameters@[0];
    let hv = params.com_parameters@[1];
    let c = sig.commitments@;
    sum_of(
        commitment_of(gu.generator, gu.vec_gen@, hadamard(views(sig.openings.zeta@), powers(inverse_of(y), n)), sig.openings.mu.view()),
        commitment_of(hv.generator, hv.vec_gen@, views(sig.openings.eta@), 0),
    ) == sum_of(
        sum_of(sum_of(c[0], scaled_of(c[1], x)), commitment_of(gu.generator, gu.vec_gen@, constant(n, z), 0)),
        commitment_of(hv.generator, hv.vec_gen@, constant(n, z), 0),
    )
}

/// `MSM(ring, ζ) = Com_key(f_s; 0) + x·E + MSM(ring, z·yⁿ)`.
pub open spec fn equation_key(params: RingSignatureParams, sig: LinearRingSignature, y: int, z: int, x: int) -> bool {
    let n = params.num_pub_inputs as nat;
    let key = params.com_parameters@[2];
    let c = sig.commitments@;
    msm_of(params.vec_pk@, views(sig.openings.zeta@)) == sum_of(
        sum_of(commitment_of(key.generator, key.vec_gen@, seq![sig.openings.fs.view()], 0), scaled_of(c[2], x)),
        msm_of(params.vec_pk@, scaled(powers(y, n), z)),
    )
}

/// What the verifier accepts: the right shape, the digest of the message,
/// the transcript's challenges, the three equations and `t̂ = ⟨ζ, η⟩`.
pub open spec fn linear_accepts(params: RingSignatureParams, sig: LinearRingSignature) -> bool {
    let ys = ring_challenges(params.vec_pk@, sig.commitments@, params.message@);
    let (y, z, x) = (ys[0], ys[1], ys[2]);
    &&& linear_shape(params, sig)
    &&& sig.digest@ == sha256_hex_of(params.message@)
    &&& sig.challenges@[0].view() == y
    &&& sig.challenges@[1].view() == z
    &&& sig.challenges@[2].view() == x
    &&& y != 0
    &&& equation_t(params, sig, y, z, x)
    &&& equation_ab(params, sig, y, z, x)
    &&& equation_key(params, sig, y, z, x)
    &&& sig.openings.hat_t.view() == ip(views(sig.openings.zeta@), views(sig.openings.eta@))
}

/// Every scalar an uncompressed signature carries is canonical.
pub open spec fn linear_signature_wf(sig: LinearRingSignature) -> bool {
    &&& all_wf(sig.challenges@)
    &&& all_wf(sig.openings.zeta@)
    &&& all_wf(sig.openings.eta@)
    &&& sig.openings.hat_t.wf()
    &&& sig.openings.taux.wf()
    &&& sig.openings.mu.wf()
    &&& sig.openings.fs.wf()
}

/// The uncompressed signature that secret key `sk`, indicator `b` and
/// randomness `m` give.
pub open spec fn is_honest_linear_signature(params: RingSignatureParams, sk: int, b: Seq<int>, m: SigningMasks, sig: LinearRingSignature) -> bool {
    let n = b.len();
    let p = group_order();
    let c = sig.commitments@;
    let ys = ring_challenges(params.vec_pk@, c, params.message@);
    let (y, z, x) = (ys[0], ys[1], ys[2]);
    let zeta = signing_zeta(b, m, y, z, x);
    let eta = signing_eta(b, m, z, x);
    let o = sig.openings;
    &&& c.len() == 5
    &&& c[0] == signing_A(params, b, m)
    &&& c[1] == signing_B(params, m)
    &&& c[2] == signing_E(params, m, y)
    &&& c[3] == signing_T(params, signing_t1(b, m, y, z), m.tau1.view())
    &&& c[4] == signing_T(params, signing_t2(m, y), m.tau2.view())
    &&& views(sig.challenges@) == ys
    &&& sig.digest@ == sha256_hex_of(params.message@)
    &&& views(o.zeta@) == zeta
    &&& views(o.eta@) == eta
    &&& o.hat_t.view() == ip(zeta, eta)
    &&& o.taux.view() == ((m.tau1.view() * x) % p + ((m.tau2.view() * x) % p * x) % p) % p
    &&& o.mu.view() == (m.alpha.view() + (m.beta.view() * x) % p) % p
    &&& o.fs.view() == ((ip(powers(y, n), b) * sk) % p + (m.rs.view() * x) % p) % p
}

/// Signs `params.message` with secret key `sk` at the ring position that the
/// indicator `vec_b` selects, using the randomness `m`.
#[verifier::rlimit(100)]
pub fn sign_with_masks(params: &RingSignatureParams, sk: &Scalar, vec_b: &Vec<Scalar>, m: &SigningMasks)
    -> (res: Result<LinearRingSignature, SigmaErrors>)
    requires
        sk.wf(),
        all_wf(vec_b@),
        m.wf(vec_b@.len()),
    ensures
        res matches Err(SigmaErrors::InvalidParameters(_)) <==> !(ring_lengths(*params, vec_b@.len())
            && is_indicator(views(vec_b@)) && key_matches(*params, sk.view(), views(vec_b@))),
        res matches Err(e) ==> e is InvalidParameters,
        res matches Ok(sig) ==> is_honest_linear_signature(*params, sk.view(), views(vec_b@), *m, sig),
{
    let n = vec_b.len();
    if !check_indicator(vec_b) {
        return Err(SigmaErrors::InvalidParameters("the indicator must select exactly one key".to_owned()));
    }
    if n == 0 || n > MAX_RING || params.num_pub_inputs != n || params.com_parameters.len() != 3
        || params.vec_pk.len() != n || params.com_parameters[0].vec_gen.len() != n
        || params.com_parameters[1].vec_gen.len() != n || params.com_parameters[2].vec_gen.len() != 1 {
        return Err(SigmaErrors::InvalidParameters("malformed ring".to_owned()));
    }
    if !check_signer_key(params, sk, vec_b) {
        return Err(SigmaErrors::InvalidParameters("the selected key is not the signer's".to_owned()));
    }
    let ghost ring = params.vec_pk@;
    let mut transcript = ProofTranscript::new("RingSignature");
    transcript.append_points("public list", &params.vec_pk);
    let (com_A, com_B) = first_move(params, vec_b, m);
    transcript.append_points("commitments A,B", &vec![com_A, com_B]);
    assert(transcript.record() =~= record_for_y(ring, com_A, com_B));
    let y = transcript.challenge_scalar("challenge y");
    assert(transcript.record() =~= record_for_z(ring, com_A, com_B));
    let z = transcript.challenge_scalar("challenge z");
    let (t1, t2) = cross_terms(vec_b, m, &y, &z);
    let (com_E, com_T1, com_T2) = third_move(params, m, &y, &t1, &t2);
    transcript.append_points("commitments E,T1,T2", &vec![com_E, com_T1, com_T2]);
    let h = sha256_hex(&params.message);
    let h_bytes = match decode_hex(&h) {
        Some(b) => b,
        None => {
            return Err(SigmaErrors::InvalidParameters("malformed digest".to_owned()));
        },
    };
    transcript.append_message("message digest", &h_bytes);
    let commitments = vec![com_A, com_B, com_E, com_T1, com_T2];
    let ghost c = commitments@;
    assert(transcript.record() =~= record_for_x(ring, c, params.message@));
    let x = transcript.challenge_scalar("challenge x");
    let ghost ys = ring_challenges(ring, c, params.message@);
    assert(y.view() == ys[0] && z.view() == ys[1] && x.view() == ys[2]);

    let (zeta, eta) = opening_vectors(vec_b, m, &y, &z, &x);
    let hat_t = inner_product(&zeta, &eta);
    let taux = m.tau1.mul(&x).add(&m.tau2.mul(&x).mul(&x));
    let mu = m.alpha.add(&m.beta.mul(&x));
    let powers_yn = generate_powers(y, n);
    let fs = inner_product(&powers_yn, vec_b).mul(sk).add(&m.rs.mul(&x));
    let openings = Openings { zeta, eta, hat_t, taux, mu, fs };
    let challenges = vec![y, z, x];
    assert(views(challenges@) =~= ys);
    Ok(LinearRingSignature { commitments, openings, challenges, digest: h })
}

impl RingSignatureScheme {
    /// Sets up a ring of `supported_size` keys around the secret key
    /// `wit[0]`, of any size from one on.
    pub fn setup(wit: &mut Vec<Scalar>, msg: &String, supported_size: usize) -> (res: Result<RingSignatureParams, SigmaErrors>)
        requires
            all_wf(old(wit)@),
        ensures
            res matches Err(SigmaErrors::InvalidParameters(_)) <==> !(old(wit)@.len() == 1 && 1 <= supported_size <= MAX_RING),
            res matches Err(e) ==> e is InvalidParameters || e is InvalidProof,
            res is Err ==> final(wit)@ == old(wit)@,
            res matches Ok(p) ==> ring_built(p, old(wit)@, final(wit)@, msg@, supported_size as nat),
    {
        if wit.len() != 1 || supported_size == 0 || supported_size > MAX_RING {
            return Err(SigmaErrors::InvalidParameters("ring size out of range".to_owned()));
        }
        match build_ring(wit, msg, supported_size) {
            Some(p) => Ok(p),
            None => Err(SigmaErrors::InvalidProof("a random ring key equals the signer's".to_owned())),
        }
    }

    /// Signs with the witness `[sk, b₀, …, b_{N-1}]` that `setup` made, with
    /// fresh randomness.
    pub fn prove(params: &RingSignatureParams, wit: &Vec<Scalar>) -> (res: Result<LinearRingSignature, SigmaErrors>)
        requires
            all_wf(wit@),
        ensures
            res matches Err(SigmaErrors::InvalidParameters(_)) <==> !(wit@.len() >= 1
                && ring_lengths(*params, (wit@.len() - 1) as nat) && is_indicator(views(wit@.skip(1)))
                && key_matches(*params, wit@[0].view(), views(wit@.skip(1)))),
            res matches Err(e) ==> e is InvalidParameters,
            res matches Ok(sig) ==> exists|m: SigningMasks| #[trigger] m.wf((wit@.len() - 1) as nat)
                && is_honest_linear_signature(*params, wit@[0].view(), views(wit@.skip(1)), m, sig),
    {
        if wit.len() == 0 {
            return Err(SigmaErrors::InvalidParameters("empty witness".to_owned()));
        }
        let (_, vec_b) = vec_split(wit, 1);
        let masks = SigningMasks::random(vec_b.len());
        assert(views(vec_b@) =~= views(wit@.skip(1)));
        let res = sign_with_masks(params, &wit[0], &vec_b, &masks);
        proof {
            if res is Ok {
                let sig = res->Ok_0;
                assert(masks.wf((wit@.len() - 1) as nat)
                    && is_honest_linear_signature(*params, wit@[0].view(), views(wit@.skip(1)), masks, sig));
            }
        }
        res
    }

    /// Checks an uncompressed signature: the challenges, the three
    /// verification equations and `t̂ = ⟨ζ, η⟩`. Every failed check is the
    /// same `InvalidProof`.
    #[verifier::rlimit(100)]
    pub fn verify(params: &RingSignatureParams, sig: &LinearRingSignature) -> (res: Result<bool, SigmaErrors>)
        ensures
            res matches Err(SigmaErrors::InvalidParameters(_)) <==> !linear_shape(*params, *sig),
            res matches Err(SigmaErrors::SerializationError(_)) <==> linear_shape(*params, *sig) && !linear_signature_wf(*sig),
            res is Ok <==> linear_signature_wf(*sig) && linear_accepts(*params, *sig),
            res matches Ok(b) ==> b,
            res matches Err(e) ==> e is InvalidParameters || e is InvalidProof || e is SerializationError,
    {
        let n = params.num_pub_inputs;
        if n == 0 || n > MAX_RING || params.com_parameters.len() != 3 || params.vec_pk.len() != n
            || params.com_parameters[0].vec_gen.len() != n || params.com_parameters[1].vec_gen.len() != n
            || params.com_parameters[2].vec_gen.len() != 1 || sig.commitments.len() != 5
            || sig.challenges.len() != 3 || sig.openings.zeta.len() != n || sig.openings.eta.len() != n {
            return Err(SigmaErrors::InvalidParameters("malformed ring or signature".to_owned()));
        }
        if !(all_canonical(&sig.challenges) && all_canonical(&sig.openings.zeta) && all_canonical(&sig.openings.eta)
            && sig.openings.hat_t.is_canonical() && sig.openings.taux.is_canonical() && sig.openings.mu.is_canonical()
            && sig.openings.fs.is_canonical()) {
            return Err(SigmaErrors::SerializationError("non-canonical scalar".to_owned()));
        }
        let param_g_u = &params.com_parameters[0];
        let param_h_v = &params.com_parameters[1];
        let param_key = &params.com_parameters[2];
        let com_A = sig.commitments[0];
        let com_B = sig.commitments[1];
        let com_E = sig.commitments[2];
        let com_T1 = sig.commitments[3];
        let com_T2 = sig.commitments[4];
        let ghost c = sig.commitments@;
        let ghost ring = params.vec_pk@;

        let mut transcript = ProofTranscript::new("RingSignature");
        transcript.append_points("public list", &params.vec_pk);
        transcript.append_points("commitments A,B", &vec![com_A, com_B]);
        proof {
            assert(seq![com_A, com_B] =~= seq![c[0], c[1]]);
            assert(transcript.record() =~= record_for_y(ring, c[0], c[1]));
        }
        let y = transcript.challenge_scalar("challenge y");
        assert(transcript.record() =~= record_for_z(ring, c[0], c[1]));
        let z = transcript.challenge_scalar("challenge z");
        transcript.append_points("commitments E,T1,T2", &vec![com_E, com_T1, com_T2]);
        proof {
            assert(seq![com_E, com_T1, com_T2] =~= seq![c[2], c[3], c[4]]);
        }
        let h = sha256_hex(&params.message);
        if h != sig.digest {
            return Err(SigmaErrors::InvalidProof("message digest mismatch".to_owned()));
        }
        let h_bytes = match decode_hex(&h) {
            Some(b) => b,
            None => {
                return Err(SigmaErrors::InvalidProof("message digest mismatch".to_owned()));
            },
        };
        transcript.append_message("message digest", &h_bytes);
        assert(transcript.record() =~= record_for_x(ring, c, params.message@));
        let x = transcript.challenge_scalar("challenge x");
        let ghost ys = ring_challenges(ring, c, params.message@);
        assert(y.view() == ys[0] && z.view() == ys[1] && x.view() == ys[2]);
        if !y.equals(&sig.challenges[0]) || !z.equals(&sig.challenges[1]) || !x.equals(&sig.challenges[2]) {
            return Err(SigmaErrors::InvalidProof("invalid challenge value".to_owned()));
        }
        let y_inv = match y.inverse() {
            Some(i) => i,
            None => {
                return Err(SigmaErrors::InvalidProof("zero challenge".to_owned()));
            },
        };
        let zero = Scalar::zero();
        let vec_0n = constant_vector(n, zero);
        let vec_1n = constant_vector(n, Scalar::one());
        let powers_yn = generate_powers(y, n);

        // v^hat_t u^tau_x = v^delta T1^x T2^(x^2)
        let delta_yz = z.add(&z.mul(&z)).mul(&inner_product(&vec_1n, &powers_yn));
        let lhs = commit_point(param_h_v, &vec_0n, &sig.openings.hat_t).add(&commit_point(param_g_u, &vec_0n, &sig.openings.taux));
        let rhs = commit_point(param_h_v, &vec_0n, &delta_yz).add(&com_T1.mul(&x)).add(&com_T2.mul(&x.mul(&x)));
        if lhs != rhs {
            return Err(SigmaErrors::InvalidProof("T1, T2 check fails".to_owned()));
        }
        assert(equation_t(*params, *sig, ys[0], ys[1], ys[2]));

        // g^(zeta o y^-n) h^eta u^mu = A B^x g^(z 1^n) h^(z 1^n)
        let powers_yn_inverse = generate_powers(y_inv, n);
        let zeta_yn = hadamard_product(&sig.openings.zeta, &powers_yn_inverse);
        let vec_z1n = constant_vector(n, z);
        let lhs = commit_point(param_g_u, &zeta_yn, &sig.openings.mu).add(&commit_point(param_h_v, &sig.openings.eta, &zero));
        let rhs = com_A.add(&com_B.mul(&x)).add(&commit_point(param_g_u, &vec_z1n, &zero)).add(&commit_point(param_h_v, &vec_z1n, &zero));
        if lhs != rhs {
            return Err(SigmaErrors::InvalidProof("A, B check fails".to_owned()));
        }
        assert(equation_ab(*params, *sig, ys[0], ys[1], ys[2]));

        // P^zeta = g^fs E^x P^(z y^n)
        let vec_fs = vec![sig.openings.fs];
        assert(views(vec_fs@) =~= seq![sig.openings.fs.view()]);
        let z_yn = scalar_product(&powers_yn, &z);
        let lhs = msm(&params.vec_pk, &sig.openings.zeta);
        let rhs = commit_point(param_key, &vec_fs, &zero).add(&com_E.mul(&x)).add(&msm(&params.vec_pk, &z_yn));
        if lhs != rhs {
            return Err(SigmaErrors::InvalidProof("key check fails".to_owned()));
        }
        assert(equation_key(*params, *sig, ys[0], ys[1], ys[2]));

        // hat_t = <zeta, eta>
        let t = inner_product(&sig.openings.zeta, &sig.openings.eta);
        if !sig.openings.hat_t.equals(&t) {
            return Err(SigmaErrors::InvalidProof("inner product check fails".to_owned()));
        }
        Ok(true)
    }
}

} // verus!
