//! The ring signature: a Sigma protocol proving that the signer knows the
//! secret key of one public key of the ring, selected by an indicator bit
//! vector, whose final opening vectors are compressed by the inner-product
//! argument.
use vstd::prelude::*;
use rand::seq::SliceRandom;
use vstd::string::StringSliceAdditionalSpecFns;
use crate::digest::{decode_hex, hex_bytes, sha256_hex, sha256_hex_of};
use crate::errors::SigmaErrors;
use crate::field::{group_order, inverse_of, Scalar};
use crate::group::{msm, msm_of, random_point, scaled_of, sum_of, Point};
use crate::ipa::{ipa_succeeds, derived_challenges, exact_log2, ipa_accepts, is_honest_proof, is_pow2, lemma_honest_proof_reduces_to_msm, neg_mod, verifier_bases, verifier_scalars, InnerProductParam, InnerProductProof, InnerProductProtocol};
use crate::pedersen::{commitment_of, PedersenCommitmentScheme, PedersenParams};
use crate::transcript::{challenge_value, dom_sep_label, points_bytes, record_after_challenge, Entry, ProofTranscript};
use crate::vec::{all_canonical, all_wf, copied, vec_split, generate_powers, hadamard, hadamard_product, inner_product, ip, powers, scalar_product, scaled, sum, vec_add, views};
use crate::field::random_scalar;

verus! {

/// The public side of a ring: the commitment parameters `(g, u)`, `(h, v)`
/// and the key base, the message and the ring of public keys.
#[derive(Clone, Debug)]
pub struct RingSignatureParams {
    /// The number of witness scalars: the secret key and the indicator bits.
    pub num_witness: usize,
    /// The ring size `N`.
    pub num_pub_inputs: usize,
    /// `[(vec g, u), (vec h, v), (key base, _)]`.
    pub com_parameters: Vec<PedersenParams>,
    pub message: String,
    pub vec_pk: Vec<Point>,
}

/// The opening scalars of a signature. In a compressed signature `zeta` and
/// `eta` hold the single scalars that the inner-product argument left.
#[derive(Clone, Debug)]
pub struct Openings {
    pub zeta: Vec<Scalar>,
    pub eta: Vec<Scalar>,
    pub hat_t: Scalar,
    pub taux: Scalar,
    pub mu: Scalar,
    pub fs: Scalar,
}

/// A ring signature of logarithmic size: `[A, B, E, T₁, T₂]`, the openings,
/// the challenges `[y, z, x]`, the inner-product proof and the hex digest of
/// the message.
#[derive(Clone, Debug)]
pub struct LogarithmicRingSignature {
    pub commitments: Vec<Point>,
    pub openings: Openings,
    pub challenges: Vec<Scalar>,
    pub compression_proof: InnerProductProof,
    pub digest: String,
}

pub struct RingSignatureScheme;

/// The transcript once the ring is absorbed.
pub open spec fn ring_start(ring: Seq<Point>) -> Seq<Entry> {
    seq![
        (false, dom_sep_label(), "RingSignature".spec_bytes()),
        (false, "public list".spec_bytes(), points_bytes(ring)),
    ]
}

/// The record from which `y` is drawn.
pub open spec fn record_for_y(ring: Seq<Point>, a: Point, b: Point) -> Seq<Entry> {
    ring_start(ring).push((false, "commitments A,B".spec_bytes(), points_bytes(seq![a, b])))
}

pub open spec fn record_for_z(ring: Seq<Point>, a: Point, b: Point) -> Seq<Entry> {
    record_after_challenge(record_for_y(ring, a, b), "challenge y".spec_bytes())
}

pub open spec fn record_for_x(ring: Seq<Point>, c: Seq<Point>, message: Seq<char>) -> Seq<Entry> {
    record_after_challenge(record_for_z(ring, c[0], c[1]), "challenge z".spec_bytes())
        .push((false, "commitments E,T1,T2".spec_bytes(), points_bytes(seq![c[2], c[3], c[4]])))
        .push((false, "message digest".spec_bytes(), hex_bytes(sha256_hex_of(message))))
}

/// The challenges `[y, z, x]` for commitments `c = [A, B, E, T₁, T₂]`.
pub open spec fn ring_challenges(ring: Seq<Point>, c: Seq<Point>, message: Seq<char>) -> Seq<int> {
    seq![
        challenge_value(record_for_y(ring, c[0], c[1]), "challenge y".spec_bytes()),
        challenge_value(record_for_z(ring, c[0], c[1]), "challenge z".spec_bytes()),
        challenge_value(record_for_x(ring, c, message), "challenge x".spec_bytes()),
    ]
}

pub open spec fn constant(n: nat, c: int) -> Seq<int> {
    Seq::new(n, |i: int| c)
}

/// `δ(y, z) = (z + z²)·⟨1ⁿ, yⁿ⟩`.
pub open spec fn delta(n: nat, y: int, z: int) -> int {
    let p = group_order();
    (((z + (z * z) % p) % p) * ip(constant(n, 1), powers(y, n))) % p
}

/// The generators of the compressed argument: `G'ᵢ = gᵢ·y⁻⁽ⁱ⁺¹⁾ + Pᵢ`.
pub open spec fn folded_key_generators(g: Seq<Point>, ring: Seq<Point>, y: int) -> Seq<Point> {
    Seq::new(g.len(), |i: int| sum_of(scaled_of(g[i], powers(inverse_of(y), g.len())[i]), ring[i]))
}

/// The largest ring: its keys, compressed, fit one transcript message.
pub const MAX_RING: usize = 0x0400_0000;

/// The lengths that a ring and a signature must have.
pub open spec fn ring_shape(params: RingSignatureParams, sig: LogarithmicRingSignature) -> bool {
    let n = params.num_pub_inputs;
    &&& 1 <= n <= MAX_RING
    &&& params.com_parameters.len() == 3
    &&& params.vec_pk.len() == n
    &&& params.com_parameters@[0].vec_gen.len() == n
    &&& params.com_parameters@[1].vec_gen.len() == n
    &&& params.com_parameters@[2].vec_gen.len() == 1
    &&& sig.commitments.len() == 5
    &&& sig.challenges.len() == 3
}

/// `R₁ = Com_{h,v}(0; δ) + x·T₁ + x²·T₂ − Com_{g,u}(0; τ_x)`: `v·t̂` for an
/// honest signer.
pub open spec fn check_t(params: RingSignatureParams, sig: LogarithmicRingSignature, y: int, z: int, x: int) -> Point {
    let n = params.num_pub_inputs as nat;
    let gu = params.com_parameters@[0];
    let hv = params.com_parameters@[1];
    let c = sig.commitments@;
    sum_of(
        sum_of(
            sum_of(commitment_of(hv.generator, hv.vec_gen@, constant(n, 0), delta(n, y, z)), scaled_of(c[3], x)),
            scaled_of(c[4], (x * x) % group_order()),
        ),
        commitment_of(gu.generator, gu.vec_gen@, constant(n, 0), neg_mod(sig.openings.taux.view())),
    )
}

/// `R₂ = A + x·B + Com_{g,u}(z·1ⁿ; −μ) + Com_{h,v}(z·1ⁿ; 0)`: the blinding
/// `u·μ` of `A` and `B` taken out, `g^(ζ∘y⁻ⁿ) + h^η` for an honest signer.
pub open spec fn check_ab(params: RingSignatureParams, sig: LogarithmicRingSignature, z: int, x: int) -> Point {
    let n = params.num_pub_inputs as nat;
    let gu = params.com_parameters@[0];
    let hv = params.com_parameters@[1];
    let c = sig.commitments@;
    sum_of(
        sum_of(
            sum_of(c[0], scaled_of(c[1], x)),
            commitment_of(gu.generator, gu.vec_gen@, constant(n, z), neg_mod(sig.openings.mu.view())),
        ),
        commitment_of(hv.generator, hv.vec_gen@, constant(n, z), 0),
    )
}

/// `R₃ = Com_key(f_s; 0) + x·E + MSM(ring, z·yⁿ)`: `MSM(ring, ζ)` for an
/// honest signer.
pub open spec fn check_key(params: RingSignatureParams, sig: LogarithmicRingSignature, y: int, z: int, x: int) -> Point {
    let n = params.num_pub_inputs as nat;
    let key = params.com_parameters@[2];
    let c = sig.commitments@;
    sum_of(
        sum_of(commitment_of(key.generator, key.vec_gen@, seq![sig.openings.fs.view()], 0), scaled_of(c[2], x)),
        msm_of(params.vec_pk@, scaled(powers(y, n), z)),
    )
}

/// The target of the compressed argument: `P* = R₁ + R₂ + R₃`.
pub open spec fn ring_target(params: RingSignatureParams, sig: LogarithmicRingSignature, y: int, z: int, x: int) -> Point {
    sum_of(sum_of(check_t(params, sig, y, z, x), check_ab(params, sig, z, x)), check_key(params, sig, y, z, x))
}

/// What the verifier accepts: the right shape, the digest of the message,
/// the challenges that the transcript gives, and an inner-product proof for
/// `P*` over `(v, G', h)`.
pub open spec fn ring_accepts(params: RingSignatureParams, sig: LogarithmicRingSignature) -> bool {
    let n = params.num_pub_inputs as nat;
    let ys = ring_challenges(params.vec_pk@, sig.commitments@, params.message@);
    let (y, z, x) = (ys[0], ys[1], ys[2]);
    &&& ring_shape(params, sig)
    &&& sig.digest@ == sha256_hex_of(params.message@)
    &&& sig.challenges@[0].view() == y
    &&& sig.challenges@[1].view() == z
    &&& sig.challenges@[2].view() == x
    &&& y != 0
    &&& ipa_accepts(
        n,
        ring_target(params, sig, y, z, x),
        params.com_parameters@[1].generator,
        folded_key_generators(params.com_parameters@[0].vec_gen@, params.vec_pk@, y),
        params.com_parameters@[1].vec_gen@,
        constant(n, 1),
        constant(n, 1),
        sig.compression_proof,
    )
}

/// Every scalar a signature carries is canonical.
pub open spec fn signature_wf(sig: LogarithmicRingSignature) -> bool {
    &&& all_wf(sig.challenges@)
    &&& all_wf(sig.openings.zeta@)
    &&& all_wf(sig.openings.eta@)
    &&& sig.openings.hat_t.wf()
    &&& sig.openings.taux.wf()
    &&& sig.openings.mu.wf()
    &&& sig.openings.fs.wf()
    &&& all_wf(sig.compression_proof.challenges@)
    &&& sig.compression_proof.a.wf()
    &&& sig.compression_proof.b.wf()
}

/// Whether every scalar a signature carries is canonical.
pub fn signature_canonical(sig: &LogarithmicRingSignature) -> (r: bool)
    ensures
        r == signature_wf(*sig),
{
    all_canonical(&sig.challenges) && all_canonical(&sig.openings.zeta) && all_canonical(&sig.openings.eta)
        && sig.openings.hat_t.is_canonical() && sig.openings.taux.is_canonical() && sig.openings.mu.is_canonical()
        && sig.openings.fs.is_canonical() && all_canonical(&sig.compression_proof.challenges)
        && sig.compression_proof.a.is_canonical() && sig.compression_proof.b.is_canonical()
}

/// `n` copies of `c`.
pub(crate) fn constant_vector(n: usize, c: Scalar) -> (r: Vec<Scalar>)
    requires
        c.wf(),
    ensures
        r@.len() == n,
        all_wf(r@),
        views(r@) == constant(n as nat, c.view()),
{
    let mut r: Vec<Scalar> = Vec::new();
    let mut i: usize = 0;
    while i < n
        invariant
            i <= n,
            c.wf(),
            r@.len() == i,
            forall|j: int| 0 <= j < i ==> #[trigger] r@[j] == c,
        decreases n - i,
    {
        r.push(c);
        i += 1;
    }
    assert(views(r@) =~= constant(n as nat, c.view()));
    r
}

/// The commitment, for a message whose length fits the parameters.
pub(crate) fn commit_point(params: &PedersenParams, m: &Vec<Scalar>, r: &Scalar) -> (c: Point)
    requires
        m.len() == params.vec_gen.len(),
        all_wf(m@),
        r.wf(),
    ensures
        c == commitment_of(params.generator, params.vec_gen@, views(m@), r.view()),
{
    match PedersenCommitmentScheme::commit(params, m, r, "") {
        Ok(c) => c,
        Err(_) => params.generator,
    }
}

/// The signer's randomness: the blinding scalars `α, β, τ₁, τ₂, r_s` and
/// the masking vectors `r₀, r₁`.
pub struct SigningMasks {
    pub alpha: Scalar,
    pub beta: Scalar,
    pub r0: Vec<Scalar>,
    pub r1: Vec<Scalar>,
    pub tau1: Scalar,
    pub tau2: Scalar,
    pub rs: Scalar,
}

impl SigningMasks {
    /// Canonical scalars, and masking vectors of the ring's size.
    pub open spec fn wf(&self, n: nat) -> bool {
        &&& self.alpha.wf()
        &&& self.beta.wf()
        &&& self.tau1.wf()
        &&& self.tau2.wf()
        &&& self.rs.wf()
        &&& self.r0@.len() == n
        &&& self.r1@.len() == n
        &&& all_wf(self.r0@)
        &&& all_wf(self.r1@)
    }

    /// Fresh randomness for a ring of `n` keys.
    pub fn random(n: usize) -> (r: SigningMasks)
        ensures
            r.wf(n as nat),
    {
        let mut r0: Vec<Scalar> = Vec::new();
        let mut r1: Vec<Scalar> = Vec::new();
        let mut i: usize = 0;
        while i < n
            invariant
                i <= n,
                r0@.len() == i,
                r1@.len() == i,
                all_wf(r0@),
                all_wf(r1@),
            decreases n - i,
        {
            r0.push(random_scalar());
            r1.push(random_scalar());
            i += 1;
        }
        SigningMasks {
            alpha: random_scalar(),
            beta: random_scalar(),
            r0,
            r1,
            tau1: random_scalar(),
            tau2: random_scalar(),
            rs: random_scalar(),
        }
    }
}

/// `1ⁿ − b`.
pub open spec fn complement(b: Seq<int>) -> Seq<int> {
    Seq::new(b.len(), |i: int| (1 - b[i]) % group_order())
}

/// `A = Com_{g,u}(b₀; α) + Com_{h,v}(b₁; 0)`.
pub open spec fn signing_A(params: RingSignatureParams, b: Seq<int>, m: SigningMasks) -> Point {
    let gu = params.com_parameters@[0];
    let hv = params.com_parameters@[1];
    sum_of(commitment_of(gu.generator, gu.vec_gen@, b, m.alpha.view()), commitment_of(hv.generator, hv.vec_gen@, complement(b), 0))
}

/// `B = Com_{g,u}(r₀; β) + Com_{h,v}(r₁; 0)`.
pub open spec fn signing_B(params: RingSignatureParams, m: SigningMasks) -> Point {
    let gu = params.com_parameters@[0];
    let hv = params.com_parameters@[1];
    sum_of(commitment_of(gu.generator, gu.vec_gen@, views(m.r0@), m.beta.view()),
        commitment_of(hv.generator, hv.vec_gen@, views(m.r1@), 0))
}

/// `t₁ = ⟨r₀ ∘ yⁿ, z·1ⁿ + b₁⟩ + ⟨(b₀ + z·1ⁿ) ∘ yⁿ, r₁⟩`.
pub open spec fn signing_t1(b: Seq<int>, m: SigningMasks, y: int, z: int) -> int {
    let n = b.len();
    let yn = powers(y, n);
    let z1n = constant(n, z);
    (ip(hadamard(views(m.r0@), yn), sum(z1n, complement(b))) + ip(hadamard(sum(z1n, b), yn), views(m.r1@))) % group_order()
}

/// `t₂ = ⟨r₀ ∘ yⁿ, r₁⟩`.
pub open spec fn signing_t2(m: SigningMasks, y: int) -> int {
    ip(hadamard(views(m.r0@), powers(y, m.r0@.len())), views(m.r1@))
}

/// `E = MSM(ring, yⁿ ∘ r₀) + Com_key(−r_s; 0)`.
pub open spec fn signing_E(params: RingSignatureParams, m: SigningMasks, y: int) -> Point {
    let key = params.com_parameters@[2];
    sum_of(msm_of(params.vec_pk@, hadamard(views(m.r0@), powers(y, m.r0@.len()))),
        commitment_of(key.generator, key.vec_gen@, seq![neg_mod(m.rs.view())], 0))
}

/// `T = v·t + u·τ`.
pub open spec fn signing_T(params: RingSignatureParams, t: int, tau: int) -> Point {
    commitment_of(params.com_parameters@[1].generator, seq![params.com_parameters@[0].generator], seq![tau], t)
}

/// `ζ = (b₀ + z·1ⁿ + r₀·x) ∘ yⁿ`.
pub open spec fn signing_zeta(b: Seq<int>, m: SigningMasks, y: int, z: int, x: int) -> Seq<int> {
    let n = b.len();
    hadamard(sum(b, sum(constant(n, z), scaled(views(m.r0@), x))), powers(y, n))
}

/// `η = b₁ + z·1ⁿ + r₁·x`.
pub open spec fn signing_eta(b: Seq<int>, m: SigningMasks, z: int, x: int) -> Seq<int> {
    let n = b.len();
    sum(complement(b), sum(constant(n, z), scaled(views(m.r1@), x)))
}

/// The signature that secret key `sk`, indicator `b` and randomness `m`
/// give: its commitments, the challenges of its transcript, its openings
/// `t̂ = ⟨ζ, η⟩`, `τ_x = τ₁x + τ₂x²`, `μ = α + βx`, `f_s = ⟨yⁿ, b⟩·sk + r_s·x`,
/// and an honest inner-product proof of `ζ`, `η` over `(v, G', h)`.
#[verifier::opaque]
pub open spec fn is_honest_signature(params: RingSignatureParams, sk: int, b: Seq<int>, m: SigningMasks, sig: LogarithmicRingSignature) -> bool {
    let n = b.len();
    let p = group_order();
    let c = sig.commitments@;
    let ys = ring_challenges(params.vec_pk@, c, params.message@);
    let (y, z, x) = (ys[0], ys[1], ys[2]);
    let zeta = signing_zeta(b, m, y, z, x);
    let eta = signing_eta(b, m, z, x);
    let o = sig.openings;
    &&& c.len() == 5
    &&& c[0] == signing_A(params, b, m)
    &&& c[1] == signing_B(params, m)
    &&& c[2] == signing_E(params, m, y)
    &&& c[3] == signing_T(params, signing_t1(b, m, y, z), m.tau1.view())
    &&& c[4] == signing_T(params, signing_t2(m, y), m.tau2.view())
    &&& views(sig.challenges@) == ys
    &&& y != 0
    &&& sig.digest@ == sha256_hex_of(params.message@)
    &&& o.hat_t.view() == ip(zeta, eta)
    &&& o.taux.view() == ((m.tau1.view() * x) % p + ((m.tau2.view() * x) % p * x) % p) % p
    &&& o.mu.view() == (m.alpha.view() + (m.beta.view() * x) % p) % p
    &&& o.fs.view() == ((ip(powers(y, n), b) * sk) % p + (m.rs.view() * x) % p) % p
    &&& o.zeta@ == seq![sig.compression_proof.a]
    &&& o.eta@ == seq![sig.compression_proof.b]
    &&& is_honest_proof(
        params.com_parameters@[1].generator,
        folded_key_generators(params.com_parameters@[0].vec_gen@, params.vec_pk@, y),
        params.com_parameters@[1].vec_gen@,
        constant(n, 1),
        constant(n, 1),
        zeta,
        eta,
        sig.compression_proof,
    )
}

/// The lengths that signing needs: a ring of `n` keys, `n` a power of two.
pub open spec fn signing_shape(params: RingSignatureParams, n: nat) -> bool {
    ring_lengths(params, n) && is_pow2(n)
}

/// A ring of `n` keys and parameters of matching lengths.
pub open spec fn ring_lengths(params: RingSignatureParams, n: nat) -> bool {
    &&& 1 <= n <= MAX_RING
    &&& params.num_pub_inputs == n
    &&& params.com_parameters.len() == 3
    &&& params.vec_pk.len() == n
    &&& params.com_parameters@[0].vec_gen.len() == n
    &&& params.com_parameters@[1].vec_gen.len() == n
    &&& params.com_parameters@[2].vec_gen.len() == 1
}

/// The one multi-scalar equation left for the verifier of a signature: the
/// inner-product argument's combined check at `P* = R₁ + R₂ + R₃`.
pub open spec fn final_equation_holds(params: RingSignatureParams, sig: LogarithmicRingSignature) -> bool {
    let n = params.num_pub_inputs as nat;
    let ys = ring_challenges(params.vec_pk@, sig.commitments@, params.message@);
    let p = sig.compression_proof;
    let G = folded_key_generators(params.com_parameters@[0].vec_gen@, params.vec_pk@, ys[0]);
    let H = params.com_parameters@[1].vec_gen@;
    msm_of(
        verifier_bases(params.com_parameters@[1].generator, G, H, p),
        verifier_scalars(n, derived_challenges(n, p.vec_L@, p.vec_R@), p.a.view(), p.b.view(), constant(n, 1), constant(n, 1)),
    ) == ring_target(params, sig, ys[0], ys[1], ys[2])
}

/// Verifying an honest signature comes down to one multi-scalar equation:
/// a signature made from any key, indicator and randomness passes the shape,
/// digest, challenge and transcript checks, so the verifier accepts it
/// exactly when the final equation of its inner-product proof holds.
pub proof fn lemma_honest_signature_reduces_to_msm(
    params: RingSignatureParams,
    sk: int,
    b: Seq<int>,
    m: SigningMasks,
    sig: LogarithmicRingSignature,
)
    requires
        signing_shape(params, b.len()),
        is_honest_signature(params, sk, b, m, sig),
    ensures
        ring_accepts(params, sig) <==> final_equation_holds(params, sig),
{
    reveal(is_honest_signature);
    let n = params.num_pub_inputs as nat;
    let ys = ring_challenges(params.vec_pk@, sig.commitments@, params.message@);
    assert(ys.len() == 3);
    assert(views(sig.challenges@)[0] == ys[0]);
    assert(views(sig.challenges@)[1] == ys[1]);
    assert(views(sig.challenges@)[2] == ys[2]);
    lemma_honest_proof_reduces_to_msm(
        params.com_parameters@[1].generator,
        folded_key_generators(params.com_parameters@[0].vec_gen@, params.vec_pk@, ys[0]),
        params.com_parameters@[1].vec_gen@,
        constant(n, 1),
        constant(n, 1),
        signing_zeta(b, m, ys[0], ys[1], ys[2]),
        signing_eta(b, m, ys[1], ys[2]),
        sig.compression_proof,
        ring_target(params, sig, ys[0], ys[1], ys[2]),
    );
    assert(views(sig.challenges@).len() == 3);
    assert(ring_shape(params, sig));
}

/// `b` selects exactly one position: one entry is one, all others zero.
pub open spec fn is_indicator(b: Seq<int>) -> bool {
    exists|k: int| 0 <= k < b.len() && b[k] == 1 && forall|i: int| 0 <= i < b.len() && i != k ==> #[trigger] b[i] == 0
}

/// Whether the scalars form an indicator vector.
pub fn check_indicator(b: &Vec<Scalar>) -> (r: bool)
    ensures
        r == is_indicator(views(b@)),
{
    let mut found: Option<usize> = None;
    let mut i: usize = 0;
    let one = Scalar::one();
    let zero = Scalar::zero();
    while i < b.len()
        invariant
            i <= b.len(),
            one.view() == 1,
            zero.view() == 0,
            found is None ==> forall|j: int| 0 <= j < i ==> (#[trigger] b@[j]).view() == 0,
            found matches Some(k) ==> k < i && b@[k as int].view() == 1
                && forall|j: int| 0 <= j < i && j != k ==> (#[trigger] b@[j]).view() == 0,
        decreases b.len() - i,
    {
        if b[i].equals(&one) {
            if found.is_some() {
                proof {
                    let k = found->Some_0;
                    assert(views(b@)[k as int] == 1 && views(b@)[i as int] == 1);
                    assert(!is_indicator(views(b@))) by {
                        if is_indicator(views(b@)) {
                            let q = choose|q: int| 0 <= q < views(b@).len() && views(b@)[q] == 1
                                && forall|t: int| 0 <= t < views(b@).len() && t != q ==> #[trigger] views(b@)[t] == 0;
                            if q != k as int {
                                assert(views(b@)[k as int] == 0);
                            } else {
                                assert(views(b@)[i as int] == 0);
                            }
                        }
                    }
                }
                return false;
            }
            found = Some(i);
        } else if !b[i].equals(&zero) {
            proof {
                assert(views(b@)[i as int] != 0 && views(b@)[i as int] != 1);
                assert(!is_indicator(views(b@))) by {
                    if is_indicator(views(b@)) {
                        let q = choose|q: int| 0 <= q < views(b@).len() && views(b@)[q] == 1
                            && forall|t: int| 0 <= t < views(b@).len() && t != q ==> #[trigger] views(b@)[t] == 0;
                        if q != i as int {
                            assert(views(b@)[i as int] == 0);
                        }
                    }
                }
            }
            return false;
        }
        i += 1;
    }
    match found {
        Some(k) => {
            proof {
                assert(forall|t: int| 0 <= t < views(b@).len() && t != k ==> #[trigger] views(b@)[t] == 0);
                assert(views(b@)[k as int] == 1);
            }
            true
        },
        None => {
            proof {
                assert(!is_indicator(views(b@))) by {
                    if is_indicator(views(b@)) {
                        let q = choose|q: int| 0 <= q < views(b@).len() && views(b@)[q] == 1
                            && forall|t: int| 0 <= t < views(b@).len() && t != q ==> #[trigger] views(b@)[t] == 0;
                        assert(views(b@)[q] == 0);
                    }
                }
            }
            false
        },
    }
}

/// The key at every position that `b` selects is the public key of `sk`.
pub open spec fn key_matches(params: RingSignatureParams, sk: int, b: Seq<int>) -> bool {
    forall|k: int| 0 <= k < b.len() && b[k] == 1 ==> #[trigger] params.vec_pk@[k] == public_key(params, sk)
}

/// Whether the keys at the positions that `b` selects are the public key of
/// `sk`.
pub fn check_signer_key(params: &RingSignatureParams, sk: &Scalar, b: &Vec<Scalar>) -> (r: bool)
    requires
        ring_lengths(*params, b@.len()),
        sk.wf(),
        all_wf(b@),
    ensures
        r == key_matches(*params, sk.view(), views(b@)),
{
    let sk_vec = vec![*sk];
    assert(views(sk_vec@) =~= seq![sk.view()]);
    let pk = commit_point(&params.com_parameters[2], &sk_vec, &Scalar::zero());
    let one = Scalar::one();
    let mut i: usize = 0;
    while i < b.len()
        invariant
            i <= b.len(),
            ring_lengths(*params, b@.len()),
            one.view() == 1,
            pk == public_key(*params, sk.view()),
            forall|k: int| 0 <= k < i && views(b@)[k] == 1 ==> #[trigger] params.vec_pk@[k] == pk,
        decreases b.len() - i,
    {
        if b[i].equals(&one) && params.vec_pk[i] != pk {
            assert(views(b@)[i as int] == 1);
            return false;
        }
        i += 1;
    }
    true
}

/// The commitments `[A, B, E, T₁, T₂]` that indicator `b` and randomness
/// `m` give, with `y`, `z` drawn from the transcript over `A`, `B`.
pub open spec fn signing_commitments(params: RingSignatureParams, b: Seq<int>, m: SigningMasks) -> Seq<Point> {
    let ring = params.vec_pk@;
    let a = signing_A(params, b, m);
    let bb = signing_B(params, m);
    let y = challenge_value(record_for_y(ring, a, bb), "challenge y".spec_bytes());
    let z = challenge_value(record_for_z(ring, a, bb), "challenge z".spec_bytes());
    seq![a, bb, signing_E(params, m, y), signing_T(params, signing_t1(b, m, y, z), m.tau1.view()),
        signing_T(params, signing_t2(m, y), m.tau2.view())]
}

/// Signing with indicator `b` and randomness `m` draws a nonzero `y` and an
/// inner-product run whose challenges are all nonzero.
pub open spec fn signing_succeeds(params: RingSignatureParams, b: Seq<int>, m: SigningMasks) -> bool {
    let n = b.len();
    let ys = ring_challenges(params.vec_pk@, signing_commitments(params, b, m), params.message@);
    &&& ys[0] != 0
    &&& ipa_succeeds(
        params.com_parameters@[1].generator,
        folded_key_generators(params.com_parameters@[0].vec_gen@, params.vec_pk@, ys[0]),
        params.com_parameters@[1].vec_gen@,
        constant(n, 1),
        constant(n, 1),
        signing_zeta(b, m, ys[0], ys[1], ys[2]),
        signing_eta(b, m, ys[1], ys[2]),
    )
}

/// `1 − b[i]` for each element.
fn complement_vector(b: &Vec<Scalar>) -> (r: Vec<Scalar>)
    requires
        all_wf(b@),
    ensures
        r@.len() == b@.len(),
        all_wf(r@),
        views(r@) == complement(views(b@)),
{
    let mut r: Vec<Scalar> = Vec::new();
    let one = Scalar::one();
    let mut i: usize = 0;
    while i < b.len()
        invariant
            i <= b.len(),
            all_wf(b@),
            one.view() == 1,
            one.wf(),
            r@.len() == i,
            forall|j: int| 0 <= j < i ==> (#[trigger] r@[j]).wf() && r@[j].view() == (1 - b@[j].view()) % group_order(),
        decreases b.len() - i,
    {
        r.push(one.sub(&b[i]));
        i += 1;
    }
    assert(views(r@) =~= complement(views(b@)));
    r
}

/// `A` and `B`.
pub(crate) fn first_move(params: &RingSignatureParams, b: &Vec<Scalar>, m: &SigningMasks) -> (r: (Point, Point))
    requires
        ring_lengths(*params, b@.len()),
        all_wf(b@),
        m.wf(b@.len()),
    ensures
        r.0 == signing_A(*params, views(b@), *m),
        r.1 == signing_B(*params, *m),
{
    let zero = Scalar::zero();
    let b1 = complement_vector(b);
    let com_A = commit_point(&params.com_parameters[0], b, &m.alpha).add(&commit_point(&params.com_parameters[1], &b1, &zero));
    let com_B = commit_point(&params.com_parameters[0], &m.r0, &m.beta).add(&commit_point(&params.com_parameters[1], &m.r1, &zero));
    (com_A, com_B)
}

/// The coefficients `t₁`, `t₂` of `t(X)`.
pub(crate) fn cross_terms(b: &Vec<Scalar>, m: &SigningMasks, y: &Scalar, z: &Scalar) -> (r: (Scalar, Scalar))
    requires
        all_wf(b@),
        m.wf(b@.len()),
        y.wf(),
        z.wf(),
    ensures
        r.0.wf(),
        r.1.wf(),
        r.0.view() == signing_t1(views(b@), *m, y.view(), z.view()),
        r.1.view() == signing_t2(*m, y.view()),
{
    let n = b.len();
    let powers_yn = generate_powers(*y, n);
    let vec_z1n = constant_vector(n, *z);
    let b1 = complement_vector(b);
    let vec_r0_yn = hadamard_product(&m.r0, &powers_yn);
    let vec_z1n_b1 = vec_add(&vec_z1n, &b1);
    let vec_b0_z1n_yn = hadamard_product(&vec_add(&vec_z1n, b), &powers_yn);
    let t1 = inner_product(&vec_r0_yn, &vec_z1n_b1).add(&inner_product(&vec_b0_z1n_yn, &m.r1));
    let t2 = inner_product(&vec_r0_yn, &m.r1);
    (t1, t2)
}

/// `E`, `T₁` and `T₂`.
pub(crate) fn third_move(params: &RingSignatureParams, m: &SigningMasks, y: &Scalar, t1: &Scalar, t2: &Scalar) -> (r: (Point, Point, Point))
    requires
        ring_lengths(*params, m.r0@.len()),
        m.wf(m.r0@.len()),
        y.wf(),
        t1.wf(),
        t2.wf(),
    ensures
        r.0 == signing_E(*params, *m, y.view()),
        r.1 == signing_T(*params, t1.view(), m.tau1.view()),
        r.2 == signing_T(*params, t2.view(), m.tau2.view()),
{
    let n = m.r0.len();
    let powers_yn = generate_powers(*y, n);
    let vec_r0_yn = hadamard_product(&m.r0, &powers_yn);
    let neg_rs = vec![m.rs.neg()];
    assert(views(neg_rs@) =~= seq![neg_mod(m.rs.view())]);
    let com_E = msm(&params.vec_pk, &vec_r0_yn).add(&commit_point(&params.com_parameters[2], &neg_rs, &Scalar::zero()));
    let param_u_v = PedersenParams {
        generator: params.com_parameters[1].generator,
        vec_gen: vec![params.com_parameters[0].generator],
    };
    assert(param_u_v.vec_gen@ =~= seq![params.com_parameters@[0].generator]);
    let tau1 = vec![m.tau1];
    let tau2 = vec![m.tau2];
    assert(views(tau1@) =~= seq![m.tau1.view()]);
    assert(views(tau2@) =~= seq![m.tau2.view()]);
    let com_T1 = commit_point(&param_u_v, &tau1, t1);
    let com_T2 = commit_point(&param_u_v, &tau2, t2);
    (com_E, com_T1, com_T2)
}

/// `ζ` and `η`.
pub(crate) fn opening_vectors(b: &Vec<Scalar>, m: &SigningMasks, y: &Scalar, z: &Scalar, x: &Scalar) -> (r: (Vec<Scalar>, Vec<Scalar>))
    requires
        all_wf(b@),
        m.wf(b@.len()),
        y.wf(),
        z.wf(),
        x.wf(),
    ensures
        all_wf(r.0@),
        all_wf(r.1@),
        r.0@.len() == b@.len(),
        r.1@.len() == b@.len(),
        views(r.0@) == signing_zeta(views(b@), *m, y.view(), z.view(), x.view()),
        views(r.1@) == signing_eta(views(b@), *m, z.view(), x.view()),
{
    let n = b.len();
    let powers_yn = generate_powers(*y, n);
    let vec_z1n = constant_vector(n, *z);
    let b1 = complement_vector(b);
    let zeta = hadamard_product(&vec_add(b, &vec_add(&vec_z1n, &scalar_product(&m.r0, x))), &powers_yn);
    let eta = vec_add(&b1, &vec_add(&vec_z1n, &scalar_product(&m.r1, x)));
    (zeta, eta)
}

/// `G'ᵢ = gᵢ·y⁻⁽ⁱ⁺¹⁾ + Pᵢ`, from `y⁻¹`.
fn key_generators(g: &Vec<Point>, ring: &Vec<Point>, y_inv: &Scalar) -> (r: Vec<Point>)
    requires
        g.len() == ring.len(),
        y_inv.wf(),
    ensures
        r@ == Seq::new(g@.len(), |i: int| sum_of(scaled_of(g@[i], powers(y_inv.view(), g@.len())[i]), ring@[i])),
{
    let n = g.len();
    let powers_yn_inverse = generate_powers(*y_inv, n);
    let mut vec_G: Vec<Point> = Vec::new();
    let mut i: usize = 0;
    while i < n
        invariant
            i <= n,
            n == g.len(),
            n == ring.len(),
            all_wf(powers_yn_inverse@),
            powers_yn_inverse@.len() == n,
            views(powers_yn_inverse@) == powers(y_inv.view(), n as nat),
            vec_G@.len() == i,
            forall|j: int| 0 <= j < i ==> #[trigger] vec_G@[j] == sum_of(
                scaled_of(g@[j], powers(y_inv.view(), n as nat)[j]), ring@[j]),
        decreases n - i,
    {
        vec_G.push(g[i].mul(&powers_yn_inverse[i]).add(&ring[i]));
        i += 1;
    }
    assert(vec_G@ =~= Seq::new(g@.len(), |i: int| sum_of(scaled_of(g@[i], powers(y_inv.view(), g@.len())[i]), ring@[i])));
    vec_G
}

/// Signs `params.message` with secret key `sk` at the ring position that
/// the indicator `vec_b` selects, using the randomness `m`.
#[verifier::rlimit(100)]
pub fn sign_with_masks(params: &RingSignatureParams, sk: &Scalar, vec_b: &Vec<Scalar>, m: &SigningMasks)
    -> (res: Result<LogarithmicRingSignature, SigmaErrors>)
    requires
        sk.wf(),
        all_wf(vec_b@),
        m.wf(vec_b@.len()),
    ensures
        res matches Err(SigmaErrors::InvalidParameters(_)) <==> !(signing_shape(*params, vec_b@.len())
            && is_indicator(views(vec_b@)) && key_matches(*params, sk.view(), views(vec_b@))),
        res matches Err(SigmaErrors::InvalidProof(_)) <==> signing_shape(*params, vec_b@.len())
            && is_indicator(views(vec_b@)) && key_matches(*params, sk.view(), views(vec_b@))
            && !signing_succeeds(*params, views(vec_b@), *m),
        res matches Err(e) ==> e is InvalidParameters || e is InvalidProof,
        res matches Ok(sig) ==> is_honest_signature(*params, sk.view(), views(vec_b@), *m, sig),
{
    let n = vec_b.len();
    if !check_indicator(vec_b) {
        return Err(SigmaErrors::InvalidParameters("the indicator must select exactly one key".to_owned()));
    }
    if n == 0 || n > MAX_RING || exact_log2(n).is_none() || params.num_pub_inputs != n
        || params.com_parameters.len() != 3 || params.vec_pk.len() != n
        || params.com_parameters[0].vec_gen.len() != n || params.com_parameters[1].vec_gen.len() != n
        || params.com_parameters[2].vec_gen.len() != 1 {
        return Err(SigmaErrors::InvalidParameters("malformed ring".to_owned()));
    }
    if !check_signer_key(params, sk, vec_b) {
        return Err(SigmaErrors::InvalidParameters("the selected key is not the signer's".to_owned()));
    }
    let ghost ring = params.vec_pk@;
    let mut transcript = ProofTranscript::new("RingSignature");
    transcript.append_points("public list", &params.vec_pk);
    let (com_A, com_B) = first_move(params, vec_b, m);
    transcript.append_points("commitments A,B", &vec![com_A, com_B]);
    proof {
        assert(transcript.record() =~= record_for_y(ring, com_A, com_B));
    }
    let y = transcript.challenge_scalar("challenge y");
    assert(transcript.record() =~= record_for_z(ring, com_A, com_B));
    let z = transcript.challenge_scalar("challenge z");
    let (t1, t2) = cross_terms(vec_b, m, &y, &z);
    let (com_E, com_T1, com_T2) = third_move(params, m, &y, &t1, &t2);
    transcript.append_points("commitments E,T1,T2", &vec![com_E, com_T1, com_T2]);
    let h = sha256_hex(&params.message);
    let h_bytes = match decode_hex(&h) {
        Some(b) => b,
        None => {
            return Err(SigmaErrors::InvalidProof("malformed digest".to_owned()));
        },
    };
    transcript.append_message("message digest", &h_bytes);
    let commitments = vec![com_A, com_B, com_E, com_T1, com_T2];
    let ghost c = commitments@;
    assert(transcript.record() =~= record_for_x(ring, c, params.message@));
    let x = transcript.challenge_scalar("challenge x");
    let ghost ys = ring_challenges(ring, c, params.message@);
    assert(y.view() == ys[0] && z.view() == ys[1] && x.view() == ys[2]);
    proof {
        assert(c =~= signing_commitments(*params, views(vec_b@), *m));
    }
    let y_inv = match y.inverse() {
        Some(i) => i,
        None => {
            assert(!signing_succeeds(*params, views(vec_b@), *m));
            return Err(SigmaErrors::InvalidProof("zero challenge".to_owned()));
        },
    };

    let (zeta, eta) = opening_vectors(vec_b, m, &y, &z, &x);
    let hat_t = inner_product(&zeta, &eta);
    let taux = m.tau1.mul(&x).add(&m.tau2.mul(&x).mul(&x));
    let mu = m.alpha.add(&m.beta.mul(&x));
    let powers_yn = generate_powers(y, n);
    let fs = inner_product(&powers_yn, vec_b).mul(sk).add(&m.rs.mul(&x));

    let param_g_u = &params.com_parameters[0];
    let param_h_v = &params.com_parameters[1];
    let ipa_params = InnerProductParam {
        factors_G: constant_vector(n, Scalar::one()),
        factors_H: constant_vector(n, Scalar::one()),
        u: param_h_v.generator,
        vec_G: key_generators(&param_g_u.vec_gen, &params.vec_pk, &y_inv),
        vec_H: crate::vec::copied(&param_h_v.vec_gen),
    };
    let ghost zeta_v = views(zeta@);
    let ghost eta_v = views(eta@);
    proof {
        assert(ipa_params.vec_G@ =~= folded_key_generators(param_g_u.vec_gen@, ring, ys[0]));
    }
    let compression_proof = match InnerProductProtocol::prove(&ipa_params, zeta, eta) {
        Ok(p) => p,
        Err(_) => {
            assert(!signing_succeeds(*params, views(vec_b@), *m));
            return Err(SigmaErrors::InvalidProof("zero challenge".to_owned()));
        },
    };
    let openings = Openings {
        zeta: vec![compression_proof.a],
        eta: vec![compression_proof.b],
        hat_t,
        taux,
        mu,
        fs,
    };
    let challenges = vec![y, z, x];
    proof {
        assert(ipa_params.vec_G@ =~= folded_key_generators(param_g_u.vec_gen@, ring, ys[0]));
        reveal(is_honest_signature);
        assert(views(challenges@) =~= ys);
        assert(openings.zeta@ =~= seq![compression_proof.a]);
        assert(openings.eta@ =~= seq![compression_proof.b]);
        assert(c[0] == signing_A(*params, views(vec_b@), *m));
        assert(c[2] == signing_E(*params, *m, ys[0]));
        assert(c[3] == signing_T(*params, signing_t1(views(vec_b@), *m, ys[0], ys[1]), m.tau1.view()));
        assert(hat_t.view() == ip(signing_zeta(views(vec_b@), *m, ys[0], ys[1], ys[2]), signing_eta(views(vec_b@), *m, ys[1], ys[2])));
        assert(fs.view() == ((ip(powers(ys[0], n as nat), views(vec_b@)) * sk.view()) % group_order() + (m.rs.view() * ys[2]) % group_order()) % group_order());
        assert(is_honest_proof(
            params.com_parameters@[1].generator,
            folded_key_generators(params.com_parameters@[0].vec_gen@, params.vec_pk@, ys[0]),
            params.com_parameters@[1].vec_gen@,
            constant(n as nat, 1),
            constant(n as nat, 1),
            signing_zeta(views(vec_b@), *m, ys[0], ys[1], ys[2]),
            signing_eta(views(vec_b@), *m, ys[1], ys[2]),
            compression_proof,
        ));
    }
    Ok(LogarithmicRingSignature { commitments, openings, challenges, compression_proof, digest: h })
}

/// Relies on rand's `SliceRandom::shuffle` with the thread-local generator,
/// which permutes the elements in place.
#[verifier::external_body]
fn shuffle_points(v: &mut Vec<Point>)
    ensures
        final(v)@.to_multiset() == old(v)@.to_multiset(),
{
    v.shuffle(&mut rand::thread_rng());
}

/// Shuffles the ring in place and returns the indicator vector of the
/// positions that hold `pk`.
pub fn shuffle(vec_pk: &mut Vec<Point>, pk: Point) -> (r: Vec<Scalar>)
    requires
        old(vec_pk)@.contains(pk),
    ensures
        final(vec_pk)@.to_multiset() == old(vec_pk)@.to_multiset(),
        r@.len() == final(vec_pk)@.len(),
        all_wf(r@),
        forall|i: int| 0 <= i < r@.len() ==> (#[trigger] r@[i]).view() == if final(vec_pk)@[i] == pk { 1int } else { 0int },
{
    shuffle_points(vec_pk);
    let mut vec_b: Vec<Scalar> = Vec::new();
    let mut i: usize = 0;
    while i < vec_pk.len()
        invariant
            i <= vec_pk.len(),
            vec_b@.len() == i,
            all_wf(vec_b@),
            forall|j: int| 0 <= j < i ==> (#[trigger] vec_b@[j]).view() == if vec_pk@[j] == pk { 1int } else { 0int },
        decreases vec_pk.len() - i,
    {
        if pk == vec_pk[i] {
            vec_b.push(Scalar::one());
        } else {
            vec_b.push(Scalar::zero());
        }
        i += 1;
    }
    vec_b
}

/// The public key of `sk`: `sk` times the key base.
pub open spec fn public_key(params: RingSignatureParams, sk: int) -> Point {
    let key = params.com_parameters@[2];
    commitment_of(key.generator, key.vec_gen@, seq![sk], 0)
}

/// Parameters for messages of `n` scalars.
fn fresh_params(n: usize) -> (p: PedersenParams)
    ensures
        p.vec_gen.len() == n,
{
    match PedersenCommitmentScheme::setup(n) {
        Ok(p) => p,
        Err(_) => PedersenParams { generator: random_point(), vec_gen: Vec::new() },
    }
}

/// What a ring set up around the secret key `old_wit[0]` is: fresh
/// parameters for `n` keys, the signer's public key in the ring, and the
/// indicator of its position appended to the witness.
pub open spec fn ring_built(p: RingSignatureParams, old_wit: Seq<Scalar>, wit: Seq<Scalar>, msg: Seq<char>, n: nat) -> bool {
    let pk = public_key(p, old_wit[0].view());
    &&& 1 <= n <= MAX_RING
    &&& p.num_pub_inputs == n
    &&& p.com_parameters.len() == 3
    &&& p.vec_pk.len() == n
    &&& p.com_parameters@[0].vec_gen.len() == n
    &&& p.com_parameters@[1].vec_gen.len() == n
    &&& p.com_parameters@[2].vec_gen.len() == 1
    &&& p.message@ == msg
    &&& p.num_witness == n + 1
    &&& all_wf(wit)
    &&& wit.len() == n + 1
    &&& wit[0] == old_wit[0]
    &&& p.vec_pk@.contains(pk)
    &&& exists|k: int| 0 <= k < n && p.vec_pk@[k] == pk
        && forall|i: int| 0 <= i < n && i != k ==> #[trigger] p.vec_pk@[i] != pk
    &&& forall|i: int| 0 <= i < n ==> (#[trigger] wit[i + 1]).view() == if p.vec_pk@[i] == pk { 1int } else { 0int }
    &&& is_indicator(views(wit.skip(1)))
    &&& key_matches(p, old_wit[0].view(), views(wit.skip(1)))
}

/// Parameters and a shuffled ring of `supported_size` keys around the
/// secret key `wit[0]`, whose indicator is appended to `wit`; `None`, with
/// `wit` unchanged, when a random key drawn for the ring is the signer's.
pub(crate) fn build_ring(wit: &mut Vec<Scalar>, msg: &String, supported_size: usize) -> (res: Option<RingSignatureParams>)
    requires
        all_wf(old(wit)@),
        old(wit)@.len() == 1,
        1 <= supported_size <= MAX_RING,
    ensures
        res is None ==> final(wit)@ == old(wit)@,
        res matches Some(params) ==> ring_built(params, old(wit)@, final(wit)@, msg@, supported_size as nat),
{
    let com_params_1 = fresh_params(supported_size);
    let com_params_2 = fresh_params(supported_size);
    let key_params = fresh_params(1);
    let sk = vec![wit[0]];
    assert(views(sk@) =~= seq![wit@[0].view()]);
    let pk = commit_point(&key_params, &sk, &Scalar::zero());
    let mut vec_pk: Vec<Point> = Vec::new();
    let mut i: usize = 1;
    while i < supported_size
        invariant
            1 <= i <= supported_size,
            vec_pk@.len() == i - 1,
        decreases supported_size - i,
    {
        vec_pk.push(random_point());
        i += 1;
    }
    vec_pk.push(pk);
    assert(vec_pk@[vec_pk@.len() - 1] == pk);
    let ghost before = vec_pk@;
    let mut vec_b = shuffle(&mut vec_pk, pk);
    proof {
        before.to_multiset_ensures();
        vec_pk@.to_multiset_ensures();
        assert(before.contains(pk));
        assert(before.to_multiset().count(pk) > 0);
        assert(vec_pk@.to_multiset().count(pk) > 0);
        assert(vec_pk@.contains(pk));
    }
    if !check_indicator(&vec_b) {
        return None;
    }
    let ghost old_wit = wit@;
    let ghost b_seq = vec_b@;
    wit.append(&mut vec_b);
    let params = RingSignatureParams {
        num_witness: wit.len(),
        num_pub_inputs: supported_size,
        com_parameters: vec![com_params_1, com_params_2, key_params],
        message: msg.clone(),
        vec_pk,
    };
    proof {
        assert(wit@ =~= old_wit + b_seq);
        assert(params.com_parameters@[2] == key_params);
        assert(params.message@ == msg@);
        assert(all_wf(wit@));
        assert(pk == public_key(params, old_wit[0].view()));
        assert(params.vec_pk@.contains(pk));
        assert(forall|i: int| 0 <= i < supported_size ==> (#[trigger] wit@[i + 1]).view()
                == if params.vec_pk@[i] == pk { 1int } else { 0int });
        assert(views(wit@.skip(1)) =~= views(b_seq));
        let k = choose|k: int| 0 <= k < views(b_seq).len() && views(b_seq)[k] == 1
            && forall|i: int| 0 <= i < views(b_seq).len() && i != k ==> #[trigger] views(b_seq)[i] == 0;
        assert(params.vec_pk@[k] == pk);
        assert forall|i: int| 0 <= i < supported_size && i != k implies #[trigger] params.vec_pk@[i] != pk by {
            assert(views(b_seq)[i] == 0);
        }
        assert forall|q: int| 0 <= q < supported_size && views(b_seq)[q] == 1 implies #[trigger] params.vec_pk@[q]
            == public_key(params, old_wit[0].view()) by {
            assert(b_seq[q].view() == 1);
        }
    }
    Some(params)
}

impl RingSignatureScheme {
    /// Sets up a ring of `supported_size` keys around the secret key
    /// `wit[0]`: fresh commitment parameters, the signer's public key among
    /// random ones in a shuffled order, and the indicator of its position
    /// appended to `wit`. The ring size must be a power of two.
    pub fn setup(wit: &mut Vec<Scalar>, msg: &String, supported_size: usize) -> (res: Result<RingSignatureParams, SigmaErrors>)
        requires
            all_wf(old(wit)@),
        ensures
            res matches Err(SigmaErrors::InvalidParameters(_)) <==> !(old(wit)@.len() == 1 && 1 <= supported_size <= MAX_RING
                && is_pow2(supported_size as nat)),
            res matches Err(e) ==> e is InvalidParameters || e is InvalidProof,
            res is Err ==> final(wit)@ == old(wit)@,
            res matches Ok(p) ==> is_pow2(supported_size as nat) && ring_built(p, old(wit)@, final(wit)@, msg@, supported_size as nat),
    {
        if wit.len() != 1 || supported_size == 0 || supported_size > MAX_RING || exact_log2(supported_size).is_none() {
            return Err(SigmaErrors::InvalidParameters("ring size must be a power of two".to_owned()));
        }
        match build_ring(wit, msg, supported_size) {
            Some(p) => Ok(p),
            None => Err(SigmaErrors::InvalidProof("a random ring key equals the signer's".to_owned())),
        }
    }

    /// Signs with the witness `[sk, b₀, …, b_{N-1}]` that `setup` made, with
    /// fresh randomness.
    pub fn prove(params: &RingSignatureParams, wit: &Vec<Scalar>) -> (res: Result<LogarithmicRingSignature, SigmaErrors>)
        requires
            all_wf(wit@),
        ensures
            res matches Err(SigmaErrors::InvalidParameters(_)) <==> !(wit@.len() >= 1
                && signing_shape(*params, (wit@.len() - 1) as nat) && is_indicator(views(wit@.skip(1)))
                && key_matches(*params, wit@[0].view(), views(wit@.skip(1)))),
            res matches Err(e) ==> e is InvalidParameters || e is InvalidProof,
            res matches Err(SigmaErrors::InvalidProof(_)) ==> exists|m: SigningMasks| #[trigger] m.wf((wit@.len() - 1) as nat)
                && !signing_succeeds(*params, views(wit@.skip(1)), m),
            res matches Ok(sig) ==> exists|m: SigningMasks| #[trigger] m.wf((wit@.len() - 1) as nat)
                && is_honest_signature(*params, wit@[0].view(), views(wit@.skip(1)), m, sig),
    {
        if wit.len() == 0 {
            return Err(SigmaErrors::InvalidParameters("empty witness".to_owned()));
        }
        let (sk_part, vec_b) = vec_split(wit, 1);
        let masks = SigningMasks::random(vec_b.len());
        assert(views(vec_b@) =~= views(wit@.skip(1)));
        let res = sign_with_masks(params, &wit[0], &vec_b, &masks);
        proof {
            if res is Ok {
                let sig = res->Ok_0;
                assert(masks.wf((wit@.len() - 1) as nat)
                    && is_honest_signature(*params, wit@[0].view(), views(wit@.skip(1)), masks, sig));
            }
            if res matches Err(SigmaErrors::InvalidProof(_)) {
                assert(masks.wf((wit@.len() - 1) as nat) && !signing_succeeds(*params, views(wit@.skip(1)), masks));
            }
        }
        res
    }

    /// Checks a signature on `params.message` against the ring: recomputes
    /// the challenges, combines the three verification equations into one
    /// target and checks the inner-product proof against it. Every failed
    /// check is the same `InvalidProof`.
    pub fn verify(params: &RingSignatureParams, sig: &LogarithmicRingSignature) -> (res: Result<bool, SigmaErrors>)
        ensures
            res matches Err(SigmaErrors::InvalidParameters(_)) <==> !ring_shape(*params, *sig),
            res matches Err(SigmaErrors::SerializationError(_)) <==> ring_shape(*params, *sig) && !signature_wf(*sig),
            res is Ok <==> signature_wf(*sig) && ring_accepts(*params, *sig),
            res matches Ok(b) ==> b,
            res matches Err(e) ==> e is InvalidParameters || e is InvalidProof || e is SerializationError,
    {
        let n = params.num_pub_inputs;
        if n == 0 || n > MAX_RING || params.com_parameters.len() != 3 || params.vec_pk.len() != n
            || params.com_parameters[0].vec_gen.len() != n || params.com_parameters[1].vec_gen.len() != n
            || params.com_parameters[2].vec_gen.len() != 1 || sig.commitments.len() != 5
            || sig.challenges.len() != 3 {
            return Err(SigmaErrors::InvalidParameters("malformed ring or signature".to_owned()));
        }
        if !signature_canonical(sig) {
            return Err(SigmaErrors::SerializationError("non-canonical scalar".to_owned()));
        }
        let param_g_u = &params.com_parameters[0];
        let param_h_v = &params.com_parameters[1];
        let param_key = &params.com_parameters[2];
        let com_A = sig.commitments[0];
        let com_B = sig.commitments[1];
        let com_E = sig.commitments[2];
        let com_T1 = sig.commitments[3];
        let com_T2 = sig.commitments[4];

        let mut transcript = ProofTranscript::new("RingSignature");
        transcript.append_points("public list", &params.vec_pk);
        transcript.append_points("commitments A,B", &vec![com_A, com_B]);
        let ghost c = sig.commitments@;
        let ghost ring = params.vec_pk@;
        proof {
            assert(seq![com_A, com_B] =~= seq![c[0], c[1]]);
            assert(transcript.record() =~= record_for_y(ring, c[0], c[1]));
        }
        let y = transcript.challenge_scalar("challenge y");
        assert(transcript.record() =~= record_for_z(ring, c[0], c[1]));
        let z = transcript.challenge_scalar("challenge z");
        transcript.append_points("commitments E,T1,T2", &vec![com_E, com_T1, com_T2]);
        proof {
            assert(seq![com_E, com_T1, com_T2] =~= seq![c[2], c[3], c[4]]);
        }
        let h = sha256_hex(&params.message);
        if h != sig.digest {
            return Err(SigmaErrors::InvalidProof("message digest mismatch".to_owned()));
        }
        let h_bytes = match decode_hex(&h) {
            Some(b) => b,
            None => {
                return Err(SigmaErrors::InvalidProof("message digest mismatch".to_owned()));
            },
        };
        transcript.append_message("message digest", &h_bytes);
        assert(transcript.record() =~= record_for_x(ring, c, params.message@));
        let x = transcript.challenge_scalar("challenge x");
        let ghost ys = ring_challenges(ring, c, params.message@);
        assert(y.view() == ys[0] && z.view() == ys[1] && x.view() == ys[2]);
        if !y.equals(&sig.challenges[0]) || !z.equals(&sig.challenges[1]) || !x.equals(&sig.challenges[2]) {
            return Err(SigmaErrors::InvalidProof("invalid challenge value".to_owned()));
        }
        let y_inv = match y.inverse() {
            Some(i) => i,
            None => {
                return Err(SigmaErrors::InvalidProof("zero challenge".to_owned()));
            },
        };

        // R1 = Com_{h,v}(0; delta) + x*T1 + x^2*T2 - Com_{g,u}(0; tau_x)
        let zero = Scalar::zero();
        let vec_0n = constant_vector(n, zero);
        let vec_1n = constant_vector(n, Scalar::one());
        let powers_yn = generate_powers(y, n);
        let delta_yz = z.add(&z.mul(&z)).mul(&inner_product(&vec_1n, &powers_yn));
        let rhs_1 = commit_point(param_h_v, &vec_0n, &delta_yz)
            .add(&com_T1.mul(&x))
            .add(&com_T2.mul(&x.mul(&x)))
            .add(&commit_point(param_g_u, &vec_0n, &sig.openings.taux.neg()));
        // R2 = A + x*B + Com_{g,u}(z*1^n; -mu) + Com_{h,v}(z*1^n; 0)
        let vec_z1n = constant_vector(n, z);
        let rhs_2 = com_A.add(&com_B.mul(&x))
            .add(&commit_point(param_g_u, &vec_z1n, &sig.openings.mu.neg()))
            .add(&commit_point(param_h_v, &vec_z1n, &zero));
        // R3 = Com_key(f_s; 0) + x*E + MSM(ring, z*y^n)
        let vec_fs = vec![sig.openings.fs];
        let z_yn = scalar_product(&powers_yn, &z);
        assert(views(vec_fs@) =~= seq![sig.openings.fs.view()]);
        let rhs_3 = commit_point(param_key, &vec_fs, &zero)
            .add(&com_E.mul(&x))
            .add(&msm(&params.vec_pk, &z_yn));
        let target = rhs_1.add(&rhs_2).add(&rhs_3);

        // G'_i = g_i * y^-(i+1) + P_i
        let powers_yn_inverse = generate_powers(y_inv, n);
        let mut vec_G: Vec<Point> = Vec::new();
        let mut i: usize = 0;
        while i < n
            invariant
                i <= n,
                n == param_g_u.vec_gen.len(),
                n == params.vec_pk.len(),
                all_wf(powers_yn_inverse@),
                powers_yn_inverse@.len() == n,
                views(powers_yn_inverse@) == powers(y_inv.view(), n as nat),
                vec_G@.len() == i,
                forall|j: int| 0 <= j < i ==> #[trigger] vec_G@[j] == sum_of(
                    scaled_of(param_g_u.vec_gen@[j], powers(y_inv.view(), n as nat)[j]), params.vec_pk@[j]),
            decreases n - i,
        {
            vec_G.push(param_g_u.vec_gen[i].mul(&powers_yn_inverse[i]).add(&params.vec_pk[i]));
            i += 1;
        }
        let ipa_params = InnerProductParam {
            factors_G: constant_vector(n, Scalar::one()),
            factors_H: constant_vector(n, Scalar::one()),
            u: param_h_v.generator,
            vec_G,
            vec_H: crate::vec::copied(&param_h_v.vec_gen),
        };
        proof {
            assert(ipa_params.vec_G@ =~= folded_key_generators(param_g_u.vec_gen@, params.vec_pk@, ys[0]));
            assert(rhs_1 == check_t(*params, *sig, ys[0], ys[1], ys[2]));
            assert(rhs_2 == check_ab(*params, *sig, ys[1], ys[2]));
            assert(rhs_3 == check_key(*params, *sig, ys[0], ys[1], ys[2]));
        }
        match InnerProductProtocol::verify(n, target, &ipa_params, &sig.compression_proof) {
            Ok(()) => Ok(true),
            Err(_) => Err(SigmaErrors::InvalidProof("invalid compression proof".to_owned())),
        }
    }
}

/// A fresh secret key, a ring of `ring_size` keys around it, and a signature
/// on `msg` by that key.
pub fn sign(ring_size: usize, msg: &String) -> (res: Result<(RingSignatureParams, LogarithmicRingSignature), SigmaErrors>)
    ensures
        res matches Err(SigmaErrors::InvalidParameters(_)) <==> !(1 <= ring_size <= MAX_RING && is_pow2(ring_size as nat)),
        res matches Err(e) ==> e is InvalidParameters || e is InvalidProof,
        res matches Ok(r) ==> signing_shape(r.0, ring_size as nat) && r.0.message@ == msg@
            && exists|sk: Scalar, b: Seq<int>, m: SigningMasks| #[trigger] is_honest_signature(r.0, sk.view(), b, m, r.1)
                && r.0.vec_pk@.contains(public_key(r.0, sk.view())),
{
    let mut wit = vec![random_scalar()];
    let ghost sk = wit@[0];
    let params = match RingSignatureScheme::setup(&mut wit, msg, ring_size) {
        Ok(p) => p,
        Err(e) => {
            return Err(e);
        },
    };
    let sig = match RingSignatureScheme::prove(&params, &wit) {
        Ok(s) => s,
        Err(_) => {
            return Err(SigmaErrors::InvalidProof("signing failed".to_owned()));
        },
    };
    let r = (params, sig);
    proof {
        let m = choose|m: SigningMasks| #[trigger] m.wf((wit@.len() - 1) as nat)
            && is_honest_signature(r.0, wit@[0].view(), views(wit@.skip(1)), m, r.1);
        assert(is_honest_signature(r.0, sk.view(), views(wit@.skip(1)), m, r.1));
        assert(r.0.vec_pk@.contains(public_key(r.0, sk.view())));
        assert(signing_shape(r.0, ring_size as nat));
        assert(r.0.message@ == msg@);
    }
    Ok(r)
}

/// Whether `sig` is a valid signature on `params.message` by a member of
/// the ring.
pub fn verify(params: &RingSignatureParams, sig: &LogarithmicRingSignature) -> (r: bool)
    ensures
        r == (signature_wf(*sig) && ring_accepts(*params, *sig)),
{
    match RingSignatureScheme::verify(params, sig) {
        Ok(b) => b,
        Err(_) => false,
    }
}

} // verus!
