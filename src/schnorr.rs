//! A Schnorr-style Sigma protocol: knowledge of the opening of a Pedersen
//! vector commitment to a witness, bound to a message.
use vstd::prelude::*;
use vstd::string::StringSliceAdditionalSpecFns;
use crate::digest::{decode_hex, hex_bytes, sha256_hex, sha256_hex_of};
use crate::errors::SigmaErrors;
use crate::field::{group_order, random_scalar, Scalar};
use crate::group::{scaled_of, sum_of, Point};
use crate::pedersen::{commitment_of, PedersenCommitmentScheme, PedersenParams};
use crate::ringsig::commit_point;
use crate::transcript::{challenge_value, dom_sep_label, points_bytes, Entry, ProofTranscript};
use crate::vec::{all_canonical, all_wf, views};

verus! {

/// The public side: the commitment to the witness, the witness length
/// (blinding scalar included), the commitment parameters and the message.
#[derive(Clone, Debug)]
pub struct SchnorrParams {
    pub com_witness: Vec<Point>,
    pub num_witness: usize,
    pub num_pub_inputs: usize,
    pub com_parameters: PedersenParams,
    pub message: String,
}

/// A proof: the commitment to the mask, the opening `z = c·w + mask` with
/// `z_r = c·r + r_mask` last, the challenge and the message digest.
#[derive(Clone, Debug)]
pub struct SchnorrProof {
    pub commitments: Vec<Point>,
    pub opening: Vec<Scalar>,
    pub challenge: Vec<Scalar>,
    pub digest: String,
}

pub struct SchnorrProtocol;

/// The transcript from which the challenge is drawn.
pub open spec fn schnorr_record(witness_commitment: Point, mask_commitment: Point, message: Seq<char>) -> Seq<Entry> {
    seq![
        (false, dom_sep_label(), "SchnorrSignature".spec_bytes()),
        (false, "witness commitment".spec_bytes(), points_bytes(seq![witness_commitment])),
        (false, "masking commitment".spec_bytes(), points_bytes(seq![mask_commitment])),
        (false, "message digest".spec_bytes(), hex_bytes(sha256_hex_of(message))),
    ]
}

pub open spec fn schnorr_challenge(witness_commitment: Point, mask_commitment: Point, message: Seq<char>) -> int {
    challenge_value(schnorr_record(witness_commitment, mask_commitment, message), "challenge".spec_bytes())
}

/// The lengths a statement and a proof must have.
pub open spec fn schnorr_shape(params: SchnorrParams, proof: SchnorrProof) -> bool {
    &&& params.com_witness.len() == 1
    &&& params.num_witness >= 1
    &&& params.com_parameters.vec_gen.len() == params.num_witness - 1
    &&& proof.commitments.len() == 1
    &&& proof.challenge.len() == 1
    &&& proof.opening.len() == params.num_witness
}

/// What the verifier accepts: the digest, the derived challenge `c`, and
/// `c·W + M = Com(z; z_r)`.
pub open spec fn schnorr_accepts(params: SchnorrParams, proof: SchnorrProof) -> bool {
    let w = params.com_witness@[0];
    let m = proof.commitments@[0];
    let c = schnorr_challenge(w, m, params.message@);
    let k = params.num_witness - 1;
    &&& schnorr_shape(params, proof)
    &&& proof.digest@ == sha256_hex_of(params.message@)
    &&& proof.challenge@[0].view() == c
    &&& sum_of(scaled_of(w, c), m) == commitment_of(params.com_parameters.generator, params.com_parameters.vec_gen@,
        views(proof.opening@.take(k)), proof.opening@[k].view())
}

/// The proof that witness `w` (blinding scalar last) and masks give.
pub open spec fn is_honest_schnorr_proof(params: SchnorrParams, w: Seq<int>, mask: Seq<int>, r_mask: int, proof: SchnorrProof) -> bool {
    let p = group_order();
    let k = params.num_witness - 1;
    let m = commitment_of(params.com_parameters.generator, params.com_parameters.vec_gen@, mask, r_mask);
    let c = schnorr_challenge(params.com_witness@[0], m, params.message@);
    &&& proof.commitments@ == seq![m]
    &&& proof.challenge.len() == 1
    &&& proof.challenge@[0].view() == c
    &&& proof.digest@ == sha256_hex_of(params.message@)
    &&& proof.opening.len() == params.num_witness
    &&& forall|i: int| 0 <= i < k ==> (#[trigger] proof.opening@[i]).view() == ((c * w[i]) % p + mask[i]) % p
    &&& proof.opening@[k].view() == ((c * w[k]) % p + r_mask) % p
}

/// `c·w[i] + mask[i]` for each `i`, then `c·r + r_mask`.
fn schnorr_opening(w: &Vec<Scalar>, mask: &Vec<Scalar>, r_mask: &Scalar, c: &Scalar) -> (r: Vec<Scalar>)
    requires
        w.len() == mask.len() + 1,
        all_wf(w@),
        all_wf(mask@),
        r_mask.wf(),
        c.wf(),
    ensures
        r@.len() == w@.len(),
        all_wf(r@),
        forall|i: int| 0 <= i < mask.len() ==> (#[trigger] r@[i]).view()
            == ((c.view() * w@[i].view()) % group_order() + mask@[i].view()) % group_order(),
        r@[mask.len() as int].view() == ((c.view() * w@[mask.len() as int].view()) % group_order() + r_mask.view()) % group_order(),
{
    let mut r: Vec<Scalar> = Vec::new();
    let mut i: usize = 0;
    while i < mask.len()
        invariant
            i <= mask.len(),
            w.len() == mask.len() + 1,
            all_wf(w@),
            all_wf(mask@),
            c.wf(),
            r@.len() == i,
            all_wf(r@),
            forall|j: int| 0 <= j < i ==> (#[trigger] r@[j]).view()
                == ((c.view() * w@[j].view()) % group_order() + mask@[j].view()) % group_order(),
        decreases mask.len() - i,
    {
        r.push(c.mul(&w[i]).add(&mask[i]));
        i += 1;
    }
    r.push(c.mul(&w[mask.len()]).add(r_mask));
    r
}

impl SchnorrProtocol {
    /// Commits to the witness `wit` with fresh parameters and a fresh
    /// blinding scalar, which is appended to `wit`.
    pub fn setup(wit: &mut Vec<Scalar>, msg: &String, supported_size: usize) -> (res: Result<SchnorrParams, SigmaErrors>)
        requires
            all_wf(old(wit)@),
        ensures
            res matches Err(SigmaErrors::InvalidParameters(_)) <==> old(wit)@.len() != supported_size,
            res matches Err(e) ==> e is InvalidParameters,
            res is Err ==> final(wit)@ == old(wit)@,
            res matches Ok(p) ==> {
                &&& final(wit)@.len() == supported_size + 1
                &&& final(wit)@.take(supported_size as int) == old(wit)@
                &&& all_wf(final(wit)@)
                &&& p.num_witness == supported_size + 1
                &&& p.num_pub_inputs == 1
                &&& p.com_parameters.vec_gen.len() == supported_size
                &&& p.message@ == msg@
                &&& p.com_witness@ == seq![commitment_of(p.com_parameters.generator, p.com_parameters.vec_gen@,
                    views(old(wit)@), final(wit)@[supported_size as int].view())]
            },
    {
        if wit.len() != supported_size {
            return Err(SigmaErrors::InvalidParameters("witness length differs from the supported size".to_owned()));
        }
        let com_parameters = match PedersenCommitmentScheme::setup(supported_size) {
            Ok(p) => p,
            Err(_) => {
                return Err(SigmaErrors::InvalidParameters("setup failed".to_owned()));
            },
        };
        let r_wit = random_scalar();
        let com_wit = commit_point(&com_parameters, wit, &r_wit);
        let ghost old_wit = wit@;
        wit.push(r_wit);
        assert(wit@.take(supported_size as int) =~= old_wit);
        Ok(SchnorrParams {
            com_witness: vec![com_wit],
            num_witness: wit.len(),
            num_pub_inputs: 1,
            com_parameters,
            message: msg.clone(),
        })
    }

    /// Proves knowledge of `witness` (blinding scalar last) with the masks
    /// `mask`, `r_mask`.
    pub fn prove_with_masks(params: &SchnorrParams, witness: &Vec<Scalar>, mask: &Vec<Scalar>, r_mask: &Scalar)
        -> (res: Result<SchnorrProof, SigmaErrors>)
        requires
            all_wf(witness@),
            all_wf(mask@),
            r_mask.wf(),
        ensures
            res is Err <==> !(params.com_witness.len() == 1 && params.num_witness == witness.len() && witness.len() >= 1
                && params.com_parameters.vec_gen.len() == witness.len() - 1 && mask.len() == witness.len() - 1),
            res matches Err(e) ==> e is InvalidParameters,
            res matches Ok(proof) ==> is_honest_schnorr_proof(*params, views(witness@), views(mask@), r_mask.view(), proof),
    {
        if params.com_witness.len() != 1 || params.num_witness != witness.len() || witness.len() == 0
            || params.com_parameters.vec_gen.len() != witness.len() - 1 || mask.len() != witness.len() - 1 {
            return Err(SigmaErrors::InvalidParameters("witness and parameters differ in length".to_owned()));
        }
        let mut transcript = ProofTranscript::new("SchnorrSignature");
        let w_vec = vec![params.com_witness[0]];
        transcript.append_points("witness commitment", &w_vec);
        let com_mask = commit_point(&params.com_parameters, mask, r_mask);
        let m_vec = vec![com_mask];
        transcript.append_points("masking commitment", &m_vec);
        let h = sha256_hex(&params.message);
        let h_bytes = match decode_hex(&h) {
            Some(b) => b,
            None => {
                return Err(SigmaErrors::InvalidParameters("malformed digest".to_owned()));
            },
        };
        transcript.append_message("message digest", &h_bytes);
        proof {
            assert(w_vec@ =~= seq![params.com_witness@[0]]);
            assert(m_vec@ =~= seq![com_mask]);
            assert(transcript.record() =~= schnorr_record(params.com_witness@[0], com_mask, params.message@));
        }
        let c = transcript.challenge_scalar("challenge");
        let opening = schnorr_opening(witness, mask, r_mask, &c);
        let commitments = vec![com_mask];
        let challenge = vec![c];
        assert(commitments@ =~= seq![com_mask]);
        Ok(SchnorrProof { commitments, opening, challenge, digest: h })
    }

    /// Proves knowledge of `witness` (blinding scalar last) with fresh masks.
    pub fn prove(params: &SchnorrParams, witness: &Vec<Scalar>) -> (res: Result<SchnorrProof, SigmaErrors>)
        requires
            all_wf(witness@),
        ensures
            res is Err <==> !(params.com_witness.len() == 1 && params.num_witness == witness.len() && witness.len() >= 1
                && params.com_parameters.vec_gen.len() == witness.len() - 1),
            res matches Err(e) ==> e is InvalidParameters,
            res matches Ok(proof) ==> exists|mask: Seq<int>, r_mask: int|
                #[trigger] is_honest_schnorr_proof(*params, views(witness@), mask, r_mask, proof),
    {
        if witness.len() == 0 {
            return Err(SigmaErrors::InvalidParameters("empty witness".to_owned()));
        }
        let mut mask: Vec<Scalar> = Vec::new();
        let mut i: usize = 1;
        while i < witness.len()
            invariant
                1 <= i <= witness.len(),
                mask@.len() == i - 1,
                all_wf(mask@),
            decreases witness.len() - i,
        {
            mask.push(random_scalar());
            i += 1;
        }
        let r_mask = random_scalar();
        let res = SchnorrProtocol::prove_with_masks(params, witness, &mask, &r_mask);
        proof {
            if res is Ok {
                let pf = res->Ok_0;
                assert(is_honest_schnorr_proof(*params, views(witness@), views(mask@), r_mask.view(), pf));
            }
        }
        res
    }

    /// Checks a proof: the digest, the challenge, and `c·W + M = Com(z; z_r)`.
    pub fn verify(params: &SchnorrParams, schnorr_proof: &SchnorrProof) -> (res: Result<bool, SigmaErrors>)
        ensures
            res matches Err(SigmaErrors::InvalidParameters(_)) <==> !schnorr_shape(*params, *schnorr_proof),
            res matches Err(SigmaErrors::SerializationError(_)) <==> schnorr_shape(*params, *schnorr_proof)
                && !(all_wf(schnorr_proof.opening@) && all_wf(schnorr_proof.challenge@)),
            res is Ok <==> all_wf(schnorr_proof.opening@) && all_wf(schnorr_proof.challenge@)
                && schnorr_accepts(*params, *schnorr_proof),
            res matches Ok(b) ==> b,
            res matches Err(e) ==> e is InvalidParameters || e is InvalidProof || e is SerializationError,
    {
        if params.com_witness.len() != 1 || params.num_witness == 0
            || params.com_parameters.vec_gen.len() != params.num_witness - 1 || schnorr_proof.commitments.len() != 1
            || schnorr_proof.challenge.len() != 1 || schnorr_proof.opening.len() != params.num_witness {
            return Err(SigmaErrors::InvalidParameters("malformed statement or proof".to_owned()));
        }
        if !(all_canonical(&schnorr_proof.opening) && all_canonical(&schnorr_proof.challenge)) {
            return Err(SigmaErrors::SerializationError("non-canonical scalar".to_owned()));
        }
        let mut transcript = ProofTranscript::new("SchnorrSignature");
        let w_vec = vec![params.com_witness[0]];
        let m_vec = vec![schnorr_proof.commitments[0]];
        transcript.append_points("witness commitment", &w_vec);
        transcript.append_points("masking commitment", &m_vec);
        let h = sha256_hex(&params.message);
        if h != schnorr_proof.digest {
            return Err(SigmaErrors::InvalidProof("message digest mismatch".to_owned()));
        }
        let h_bytes = match decode_hex(&h) {
            Some(b) => b,
            None => {
                return Err(SigmaErrors::InvalidProof("message digest mismatch".to_owned()));
            },
        };
        transcript.append_message("message digest", &h_bytes);
        proof {
            assert(w_vec@ =~= seq![params.com_witness@[0]]);
            assert(m_vec@ =~= seq![schnorr_proof.commitments@[0]]);
            assert(transcript.record() =~= schnorr_record(params.com_witness@[0], schnorr_proof.commitments@[0], params.message@));
        }
        let c = transcript.challenge_scalar("challenge");
        if !c.equals(&schnorr_proof.challenge[0]) {
            return Err(SigmaErrors::InvalidProof("invalid challenge value".to_owned()));
        }
        let lhs = params.com_witness[0].mul(&c).add(&schnorr_proof.commitments[0]);
        let k = params.num_witness - 1;
        let (z, zr) = crate::vec::vec_split(&schnorr_proof.opening, k);
        assert(views(z@) =~= views(schnorr_proof.opening@.take(k as int)));
        let rhs = commit_point(&params.com_parameters, &z, &zr[0]);
        if lhs != rhs {
            return Err(SigmaErrors::InvalidProof("verification failed".to_owned()));
        }
        Ok(true)
    }
}

} // verus!
