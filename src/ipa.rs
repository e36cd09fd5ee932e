//! The inner-product argument: a prover folds two scalar vectors and their
//! generators in half each round, sending two cross commitments, until one
//! scalar of each is left; the verifier re-derives the challenges and checks
//! everything with one multi-scalar multiplication.
#![allow(non_snake_case)]
use vstd::prelude::*;
use vstd::arithmetic::div_mod::{lemma_mul_mod_noop_left, lemma_mul_mod_noop_right, lemma_small_mod};
use vstd::string::StringSliceAdditionalSpecFns;
use crate::errors::SigmaErrors;
use crate::field::{group_order, inverse_of, scalar_be_bytes, Scalar};
use crate::group::{msm, msm_of, Point};
use crate::transcript::{challenge_value, dom_sep_label, points_bytes, record_after_challenge, Entry, ProofTranscript};
use crate::vec::{all_canonical, all_wf, copied, hadamard, hadamard_product, inner_product, ip, lemma_views_concat, scalar_product, scaled, sum, vec_add, vec_split, views};

verus! {

/// Public parameters: the point `u` for the inner product, the generators
/// `vec_G`, `vec_H`, and the weights folded into them in the first round.
#[derive(Clone, Debug)]
pub struct InnerProductParam {
    pub factors_G: Vec<Scalar>,
    pub factors_H: Vec<Scalar>,
    pub u: Point,
    pub vec_G: Vec<Point>,
    pub vec_H: Vec<Point>,
}

/// A proof: one `L` and one `R` per round, the two folded scalars, and the
/// challenges, which the verifier derives again.
#[derive(Clone, Debug)]
pub struct InnerProductProof {
    pub vec_L: Vec<Point>,
    pub vec_R: Vec<Point>,
    pub a: Scalar,
    pub b: Scalar,
    pub challenges: Vec<Scalar>,
}

pub struct InnerProductProtocol;

pub open spec fn two_to(e: nat) -> nat
    decreases e,
{
    if e == 0 {
        1
    } else {
        2 * two_to((e - 1) as nat)
    }
}

pub open spec fn floor_log2(i: nat) -> nat
    decreases i,
{
    if i < 2 {
        0
    } else {
        1 + floor_log2(i / 2)
    }
}

/// `x²` modulo the group order.
pub open spec fn sq(x: int) -> int {
    (x * x) % group_order()
}

/// `-v` modulo the group order.
pub open spec fn neg_mod(v: int) -> int {
    (0 - v) % group_order()
}

/// The product of the elements, reduced after each factor.
pub open spec fn product_mod(s: Seq<int>) -> int
    decreases s.len(),
{
    if s.len() == 0 {
        1
    } else {
        (product_mod(s.drop_last()) * s.last()) % group_order()
    }
}

pub open spec fn reversed(s: Seq<int>) -> Seq<int> {
    Seq::new(s.len(), |i: int| s[s.len() - 1 - i])
}

/// The transcript of both parties once the size `n` is absorbed.
pub open spec fn ipa_start(n: nat) -> Seq<Entry> {
    seq![
        (false, dom_sep_label(), "RingSignature".spec_bytes()),
        (false, "IPAsize".spec_bytes(), scalar_be_bytes(Scalar { l0: n as u64, l1: 0, l2: 0, l3: 0 })),
    ]
}

/// The record once a round's `L` and `R` are absorbed.
pub open spec fn with_round(record: Seq<Entry>, l: Point, r: Point) -> Seq<Entry> {
    record.push((false, "commitments L, R".spec_bytes(), points_bytes(seq![l, r])))
}

/// The record at the start of round `j`.
pub open spec fn record_before_round(start: Seq<Entry>, Ls: Seq<Point>, Rs: Seq<Point>, j: nat) -> Seq<Entry>
    decreases j,
{
    if j == 0 {
        start
    } else {
        let prev = record_before_round(start, Ls, Rs, (j - 1) as nat);
        record_after_challenge(with_round(prev, Ls[j - 1], Rs[j - 1]), "challenge".spec_bytes())
    }
}

/// The challenge of round `j`.
pub open spec fn round_challenge(start: Seq<Entry>, Ls: Seq<Point>, Rs: Seq<Point>, j: nat) -> int {
    challenge_value(with_round(record_before_round(start, Ls, Rs, j), Ls[j as int], Rs[j as int]), "challenge".spec_bytes())
}

/// The challenges that the transcript gives for size `n` and these rounds.
pub open spec fn derived_challenges(n: nat, Ls: Seq<Point>, Rs: Seq<Point>) -> Seq<int> {
    Seq::new(Ls.len(), |j: int| round_challenge(ipa_start(n), Ls, Rs, j as nat))
}

/// Entry `i` of the verifier's box expansion: `s₀ = Π xⱼ⁻¹`, and for
/// `i ≥ 1`, with `k = 2^⌊log₂ i⌋`, `sᵢ = s_{i-k} · x²_{log_n-1-⌊log₂ i⌋}`.
pub open spec fn box_entry(xs: Seq<int>, i: nat) -> int
    decreases i,
{
    if i == 0 {
        product_mod(Seq::new(xs.len(), |j: int| inverse_of(xs[j])))
    } else {
        let l = floor_log2(i);
        let k = two_to(l);
        if 1 <= k <= i {
            (box_entry(xs, (i - k) as nat) * sq(xs[xs.len() - 1 - l])) % group_order()
        } else {
            0
        }
    }
}

pub open spec fn box_vector(xs: Seq<int>, n: nat) -> Seq<int> {
    Seq::new(n, |i: int| box_entry(xs, i as nat))
}

/// The scalars of the verifier's one multi-scalar multiplication.
pub open spec fn verifier_scalars(n: nat, xs: Seq<int>, a: int, b: int, fG: Seq<int>, fH: Seq<int>) -> Seq<int> {
    let s = box_vector(xs, n);
    seq![(a * b) % group_order()]
        + scaled(hadamard(s, fG), a)
        + scaled(hadamard(reversed(s), fH), b)
        + Seq::new(xs.len(), |j: int| neg_mod(sq(xs[j])))
        + Seq::new(xs.len(), |j: int| neg_mod(sq(inverse_of(xs[j]))))
}

/// Its bases: `u`, `G`, `H`, the `L`s and the `R`s.
pub open spec fn verifier_bases(u: Point, G: Seq<Point>, H: Seq<Point>, ipa_proof: InnerProductProof) -> Seq<Point> {
    seq![u] + G + H + ipa_proof.vec_L@ + ipa_proof.vec_R@
}

/// Every scalar of the parameters and the proof is canonical.
pub open spec fn ipa_scalars_wf(params: InnerProductParam, ipa_proof: InnerProductProof) -> bool {
    &&& all_wf(params.factors_G@)
    &&& all_wf(params.factors_H@)
    &&& all_wf(ipa_proof.challenges@)
    &&& ipa_proof.a.wf()
    &&& ipa_proof.b.wf()
}

/// The parameters are all of length `n`.
pub open spec fn params_fit(n: nat, params: InnerProductParam) -> bool {
    &&& params.vec_G.len() == n
    &&& params.vec_H.len() == n
    &&& params.factors_G.len() == n
    &&& params.factors_H.len() == n
}

/// The proof has `log₂ n` rounds.
pub open spec fn proof_fits(n: nat, ipa_proof: InnerProductProof) -> bool {
    &&& ipa_proof.vec_L.len() < 32
    &&& n == two_to(ipa_proof.vec_L.len() as nat)
    &&& ipa_proof.vec_R.len() == ipa_proof.vec_L.len()
    &&& ipa_proof.challenges.len() == ipa_proof.vec_L.len()
}

/// What the verifier accepts for generators `u`, `G`, `H` with weights
/// `fG`, `fH`: a proof of the right shape whose challenges are the derived
/// ones, none of them zero, and whose folded relation holds at `target`.
pub open spec fn ipa_accepts(
    n: nat,
    target: Point,
    u: Point,
    G: Seq<Point>,
    H: Seq<Point>,
    fG: Seq<int>,
    fH: Seq<int>,
    ipa_proof: InnerProductProof,
) -> bool {
    let xs = derived_challenges(n, ipa_proof.vec_L@, ipa_proof.vec_R@);
    &&& G.len() == n
    &&& H.len() == n
    &&& fG.len() == n
    &&& fH.len() == n
    &&& proof_fits(n, ipa_proof)
    &&& forall|j: int| 0 <= j < xs.len() ==> #[trigger] xs[j] != 0
    &&& forall|j: int| 0 <= j < xs.len() ==> (#[trigger] ipa_proof.challenges@[j]).view() == xs[j]
    &&& msm_of(
        verifier_bases(u, G, H, ipa_proof),
        verifier_scalars(n, xs, ipa_proof.a.view(), ipa_proof.b.view(), fG, fH),
    ) == target
}

/// `n` is a power of two.
pub open spec fn is_pow2(n: nat) -> bool
    decreases n,
{
    if n == 1 {
        true
    } else if n >= 2 && n % 2 == 0 {
        is_pow2(n / 2)
    } else {
        false
    }
}

/// What the prover holds at the start of a round: the two scalar vectors,
/// the generators and their weights.
pub struct RoundState {
    pub a: Seq<int>,
    pub b: Seq<int>,
    pub G: Seq<Point>,
    pub H: Seq<Point>,
    pub fG: Seq<int>,
    pub fH: Seq<int>,
}

pub open spec fn initial_state(G: Seq<Point>, H: Seq<Point>, fG: Seq<int>, fH: Seq<int>, a: Seq<int>, b: Seq<int>) -> RoundState {
    RoundState { a, b, G, H, fG, fH }
}

/// One fold with challenge `x`: `a ← x·a_L + x⁻¹·a_R`, `b ← x⁻¹·b_L + x·b_R`,
/// `G'ᵢ = G_Lᵢ·(x⁻¹·f_G[i]) + G_Rᵢ·(x·f_G[h+i])`,
/// `H'ᵢ = H_Lᵢ·(x·f_H[i]) + H_Rᵢ·(x⁻¹·f_H[h+i])`; the weights become one.
#[verifier::opaque]
pub open spec fn next_state(s: RoundState, x: int) -> RoundState {
    let h = s.a.len() / 2;
    let xi = inverse_of(x);
    let p = group_order();
    RoundState {
        a: sum(scaled(s.a.take(h as int), x), scaled(s.a.skip(h as int), xi)),
        b: sum(scaled(s.b.take(h as int), xi), scaled(s.b.skip(h as int), x)),
        G: Seq::new(h, |i: int| msm_of(seq![s.G[i], s.G[h + i]], seq![(xi * s.fG[i]) % p, (x * s.fG[h + i]) % p])),
        H: Seq::new(h, |i: int| msm_of(seq![s.H[i], s.H[h + i]], seq![(x * s.fH[i]) % p, (xi * s.fH[h + i]) % p])),
        fG: Seq::new(h, |i: int| 1),
        fH: Seq::new(h, |i: int| 1),
    }
}

/// The prover's state after `j` rounds with challenges `xs`.
pub open spec fn state_after(s0: RoundState, xs: Seq<int>, j: nat) -> RoundState
    decreases j,
{
    if j == 0 {
        s0
    } else {
        next_state(state_after(s0, xs, (j - 1) as nat), xs[j - 1])
    }
}

/// `L = MSM(G_R, a_L ∘ f_G[h..]) + MSM(H_L, b_R ∘ f_H[..h]) + u·⟨a_L, b_R⟩`.
#[verifier::opaque]
pub open spec fn cross_L(s: RoundState, u: Point) -> Point {
    let h = (s.a.len() / 2) as int;
    msm_of(
        s.G.skip(h) + s.H.take(h) + seq![u],
        hadamard(s.a.take(h), s.fG.skip(h)) + hadamard(s.b.skip(h), s.fH.take(h)) + seq![ip(s.a.take(h), s.b.skip(h))],
    )
}

/// `R = MSM(G_L, a_R ∘ f_G[..h]) + MSM(H_R, b_L ∘ f_H[h..]) + u·⟨a_R, b_L⟩`.
#[verifier::opaque]
pub open spec fn cross_R(s: RoundState, u: Point) -> Point {
    let h = (s.a.len() / 2) as int;
    msm_of(
        s.G.take(h) + s.H.skip(h) + seq![u],
        hadamard(s.a.skip(h), s.fG.take(h)) + hadamard(s.b.take(h), s.fH.skip(h)) + seq![ip(s.a.skip(h), s.b.take(h))],
    )
}

/// Where the honest prover stands after some rounds: its folded state, its
/// transcript, and the challenges and cross commitments so far.
pub struct HonestRun {
    pub state: RoundState,
    pub record: Seq<Entry>,
    pub xs: Seq<int>,
    pub Ls: Seq<Point>,
    pub Rs: Seq<Point>,
}

/// The honest prover's run for `j` rounds from state `s0` and transcript
/// `start`: each round sends the cross commitments of its state, draws its
/// challenge and folds.
pub open spec fn honest_run(s0: RoundState, u: Point, start: Seq<Entry>, j: nat) -> HonestRun
    decreases j,
{
    if j == 0 {
        HonestRun { state: s0, record: start, xs: Seq::empty(), Ls: Seq::empty(), Rs: Seq::empty() }
    } else {
        let prev = honest_run(s0, u, start, (j - 1) as nat);
        let l = cross_L(prev.state, u);
        let r = cross_R(prev.state, u);
        let rec = with_round(prev.record, l, r);
        let x = challenge_value(rec, "challenge".spec_bytes());
        HonestRun {
            state: next_state(prev.state, x),
            record: record_after_challenge(rec, "challenge".spec_bytes()),
            xs: prev.xs.push(x),
            Ls: prev.Ls.push(l),
            Rs: prev.Rs.push(r),
        }
    }
}

/// The challenge that the honest prover of `a`, `b` draws in round `k`.
pub open spec fn honest_challenge(
    u: Point,
    G: Seq<Point>,
    H: Seq<Point>,
    fG: Seq<int>,
    fH: Seq<int>,
    a: Seq<int>,
    b: Seq<int>,
    k: nat,
) -> int {
    honest_run(initial_state(G, H, fG, fH, a, b), u, ipa_start(a.len()), k + 1).xs[k as int]
}

/// No challenge of the honest run is zero, so every round can fold.
pub open spec fn ipa_succeeds(u: Point, G: Seq<Point>, H: Seq<Point>, fG: Seq<int>, fH: Seq<int>, a: Seq<int>, b: Seq<int>) -> bool {
    forall|k: nat| k < floor_log2(a.len()) ==> #[trigger] honest_challenge(u, G, H, fG, fH, a, b, k) != 0
}

/// What a proof of `a`, `b` under `params` is: `log₂ n` rounds whose
/// challenges are the derived ones, none zero, whose `L` and `R` are the
/// cross commitments of each round's state, and whose scalars are what is
/// left after the last fold.
pub open spec fn is_honest_proof(
    u: Point,
    G: Seq<Point>,
    H: Seq<Point>,
    fG: Seq<int>,
    fH: Seq<int>,
    a: Seq<int>,
    b: Seq<int>,
    ipa_proof: InnerProductProof,
) -> bool {
    let n = a.len();
    let xs = views(ipa_proof.challenges@);
    let log_n = ipa_proof.vec_L.len();
    let s0 = initial_state(G, H, fG, fH, a, b);
    &&& n == two_to(log_n as nat)
    &&& ipa_proof.vec_R.len() == log_n
    &&& ipa_proof.challenges.len() == log_n
    &&& all_wf(ipa_proof.challenges@)
    &&& xs == derived_challenges(n, ipa_proof.vec_L@, ipa_proof.vec_R@)
    &&& forall|j: int| 0 <= j < log_n ==> #[trigger] xs[j] != 0
    &&& forall|j: int| 0 <= j < log_n ==> #[trigger] ipa_proof.vec_L@[j] == cross_L(state_after(s0, xs, j as nat), u)
    &&& forall|j: int| 0 <= j < log_n ==> #[trigger] ipa_proof.vec_R@[j] == cross_R(state_after(s0, xs, j as nat), u)
    &&& ipa_proof.a.wf()
    &&& ipa_proof.b.wf()
    &&& ipa_proof.a.view() == state_after(s0, xs, log_n as nat).a[0]
    &&& ipa_proof.b.view() == state_after(s0, xs, log_n as nat).b[0]
}

proof fn lemma_two_to_positive(e: nat)
    ensures
        two_to(e) >= 1,
    decreases e,
{
    if e > 0 {
        lemma_two_to_positive((e - 1) as nat);
    }
}

proof fn lemma_two_to_monotone(a: nat, b: nat)
    requires
        a <= b,
    ensures
        two_to(a) <= two_to(b),
    decreases b,
{
    if a < b {
        lemma_two_to_monotone(a, (b - 1) as nat);
    }
}

proof fn lemma_two_to_31()
    ensures
        two_to(31) == 0x8000_0000,
{
    reveal_with_fuel(two_to, 32);
}

proof fn lemma_floor_log2(i: nat, m: nat)
    requires
        two_to(m) <= i < 2 * two_to(m),
    ensures
        floor_log2(i) == m,
    decreases m,
{
    if m > 0 {
        lemma_two_to_positive((m - 1) as nat);
        lemma_floor_log2(i / 2, (m - 1) as nat);
    }
}

proof fn lemma_state_prefix(s0: RoundState, xs: Seq<int>, x: int, j: nat)
    requires
        j <= xs.len(),
    ensures
        state_after(s0, xs.push(x), j) == state_after(s0, xs, j),
    decreases j,
{
    if j > 0 {
        lemma_state_prefix(s0, xs, x, (j - 1) as nat);
    }
}

proof fn lemma_record_prefix(start: Seq<Entry>, Ls: Seq<Point>, Rs: Seq<Point>, l: Point, r: Point, j: nat)
    requires
        j <= Ls.len(),
        j <= Rs.len(),
    ensures
        record_before_round(start, Ls.push(l), Rs.push(r), j) == record_before_round(start, Ls, Rs, j),
    decreases j,
{
    if j > 0 {
        lemma_record_prefix(start, Ls, Rs, l, r, (j - 1) as nat);
    }
}

proof fn lemma_pow2_halves(n: nat)
    requires
        is_pow2(n),
        n != 1,
    ensures
        n % 2 == 0,
        n >= 2,
        is_pow2(n / 2),
{
}

/// The base-two logarithm of `n` when `n` is a power of two.
pub(crate) fn exact_log2(n: usize) -> (r: Option<usize>)
    ensures
        r is Some <==> is_pow2(n as nat),
        r matches Some(l) ==> n == two_to(l as nat) && l < 64,
{
    let mut m: usize = n;
    let mut l: usize = 0;
    assert(two_to(0) == 1);
    assert(m as int * two_to(0) == n as int) by (nonlinear_arith)
        requires two_to(0) == 1, m == n;
    while m >= 2 && m % 2 == 0
        invariant
            m <= n,
            l < 64,
            m as int * two_to(l as nat) == n as int,
            is_pow2(m as nat) == is_pow2(n as nat),
            n < 0x1_0000_0000_0000_0000 && (m >= 1 ==> two_to(l as nat) <= n),
        decreases m,
    {
        proof {
            assert(two_to((l + 1) as nat) == 2 * two_to(l as nat));
            assert(m as int * two_to(l as nat) == (m / 2) as int * two_to((l + 1) as nat)) by (nonlinear_arith)
                requires m % 2 == 0, two_to((l + 1) as nat) == 2 * two_to(l as nat);
            assert((m / 2) as int * two_to((l + 1) as nat) >= two_to((l + 1) as nat)) by (nonlinear_arith)
                requires m / 2 >= 1;
            if l + 1 >= 64 {
                lemma_two_to_monotone(64, (l + 1) as nat);
                lemma_two_to_64();
            }
        }
        m = m / 2;
        l = l + 1;
    }
    if m == 1 {
        Some(l)
    } else {
        None
    }
}

proof fn lemma_two_to_64()
    ensures
        two_to(64) == 0x1_0000_0000_0000_0000,
{
    reveal_with_fuel(two_to, 65);
}

/// Verifying an honest proof comes down to its one multi-scalar equation:
/// for vectors of at most `2³¹` entries, an honest proof passes the shape,
/// challenge and nonzero checks, so the verifier accepts it at a target
/// exactly when the combined multi-scalar multiplication equals the target.
pub proof fn lemma_honest_proof_reduces_to_msm(
    u: Point,
    G: Seq<Point>,
    H: Seq<Point>,
    fG: Seq<int>,
    fH: Seq<int>,
    a: Seq<int>,
    b: Seq<int>,
    ipa_proof: InnerProductProof,
    target: Point,
)
    requires
        is_honest_proof(u, G, H, fG, fH, a, b, ipa_proof),
        G.len() == a.len(),
        H.len() == a.len(),
        fG.len() == a.len(),
        fH.len() == a.len(),
        a.len() <= 0x8000_0000,
    ensures
        ipa_accepts(a.len(), target, u, G, H, fG, fH, ipa_proof) <==> msm_of(
            verifier_bases(u, G, H, ipa_proof),
            verifier_scalars(a.len(), derived_challenges(a.len(), ipa_proof.vec_L@, ipa_proof.vec_R@),
                ipa_proof.a.view(), ipa_proof.b.view(), fG, fH),
        ) == target,
{
    let log_n = ipa_proof.vec_L.len();
    if log_n >= 32 {
        lemma_two_to_monotone(32, log_n as nat);
        reveal_with_fuel(two_to, 33);
    }
    let xs = derived_challenges(a.len(), ipa_proof.vec_L@, ipa_proof.vec_R@);
    assert forall|j: int| 0 <= j < xs.len() implies (#[trigger] ipa_proof.challenges@[j]).view() == xs[j] by {
        assert(views(ipa_proof.challenges@)[j] == xs[j]);
    }
}

/// The coefficient of generator `i` in the single generator that naive
/// folding leaves: round `j` keeps `G_L·xⱼ⁻¹ + G_R·xⱼ`, so generator `i`
/// picks up `xⱼ` in each round where it lies in the right half and `xⱼ⁻¹`
/// where it lies in the left half.
pub open spec fn naive_coefficient(xs: Seq<int>, i: nat) -> int
    decreases xs.len(),
{
    if xs.len() == 0 {
        1
    } else {
        let h = two_to((xs.len() - 1) as nat);
        let f = if i >= h { xs[0] } else { inverse_of(xs[0]) };
        f * naive_coefficient(xs.drop_first(), (i % h) as nat)
    }
}

/// The product of the elements, first to last.
pub open spec fn product(s: Seq<int>) -> int
    decreases s.len(),
{
    if s.len() == 0 {
        1
    } else {
        s[0] * product(s.drop_first())
    }
}

/// Every challenge has an inverse modulo the group order.
pub open spec fn all_invertible(xs: Seq<int>) -> bool {
    forall|j: int| 0 <= j < xs.len() ==> (#[trigger] inverse_of(xs[j]) * xs[j]) % group_order() == 1
}

proof fn lemma_floor_log2_bounds(i: nat)
    requires
        i >= 1,
    ensures
        two_to(floor_log2(i)) <= i < 2 * two_to(floor_log2(i)),
    decreases i,
{
    if i >= 2 {
        lemma_floor_log2_bounds(i / 2);
    }
}

proof fn lemma_product_last(s: Seq<int>)
    requires
        s.len() > 0,
    ensures
        product(s) == product(s.drop_last()) * s.last(),
    decreases s.len(),
{
    if s.len() > 1 {
        lemma_product_last(s.drop_first());
        assert(s.drop_first().drop_last() =~= s.drop_last().drop_first());
        let a = s[0];
        let b = product(s.drop_last().drop_first());
        let c = s.last();
        assert(product(s.drop_first()) == b * c);
        assert(product(s.drop_last()) == a * b);
        assert(a * (b * c) == (a * b) * c) by (nonlinear_arith);
    } else {
        assert(s.drop_first() =~= Seq::<int>::empty());
        assert(s.drop_last() =~= Seq::<int>::empty());
        assert(product(s.drop_first()) == 1);
        assert(product(s.drop_last()) == 1);
        assert(s[0] * 1 == s[0]);
    }
}

proof fn lemma_product_mod(s: Seq<int>)
    ensures
        product_mod(s) == product(s) % group_order(),
    decreases s.len(),
{
    if s.len() > 0 {
        lemma_product_mod(s.drop_last());
        lemma_product_last(s);
        lemma_mul_mod_noop_left(product(s.drop_last()), s.last(), group_order());
    } else {
        lemma_small_mod(1, group_order() as nat);
    }
}

proof fn lemma_naive_zero(xs: Seq<int>)
    ensures
        naive_coefficient(xs, 0) == product(Seq::new(xs.len(), |j: int| inverse_of(xs[j]))),
    decreases xs.len(),
{
    if xs.len() > 0 {
        lemma_two_to_positive((xs.len() - 1) as nat);
        lemma_naive_zero(xs.drop_first());
        let inv = Seq::new(xs.len(), |j: int| inverse_of(xs[j]));
        assert(inv.drop_first() =~= Seq::new(xs.drop_first().len(), |j: int| inverse_of(xs.drop_first()[j])));
    }
}

/// `(u·v) mod p = u mod p` when `v` is one modulo `p`.
proof fn lemma_mul_by_unit(u: int, v: int)
    requires
        v % group_order() == 1,
    ensures
        (u * v) % group_order() == u % group_order(),
{
    let p = group_order();
    lemma_mul_mod_noop_right(u, v, p);
}

/// Moving from `i - 2^l` to `i`, where `l` is the top bit of `i`, trades the
/// factor `x⁻¹` of that round for `x`: a factor `x²`.
proof fn lemma_naive_top_bit(xs: Seq<int>, i: nat)
    requires
        all_invertible(xs),
        1 <= i < two_to(xs.len()),
    ensures
        naive_coefficient(xs, i) % group_order() == (naive_coefficient(xs, (i - two_to(floor_log2(i))) as nat)
            * (xs[xs.len() - 1 - floor_log2(i)] * xs[xs.len() - 1 - floor_log2(i)])) % group_order(),
    decreases xs.len(),
{
    let p = group_order();
    let L = xs.len();
    let h = two_to((L - 1) as nat);
    lemma_two_to_positive((L - 1) as nat);
    let l = floor_log2(i);
    let k = two_to(l);
    lemma_floor_log2_bounds(i);
    let x0 = xs[0];
    let x0i = inverse_of(x0);
    let tail = xs.drop_first();
    assert((x0i * x0) % p == 1);
    if i >= h {
        lemma_floor_log2(i, (L - 1) as nat);
        assert(k == h);
        let j = (i - h) as nat;
        assert(i % h == j) by {
            vstd::arithmetic::div_mod::lemma_fundamental_div_mod_converse(i as int, h as int, 1, j as int);
        }
        assert(j % h == j) by {
            lemma_small_mod(j, h);
        }
        let N = naive_coefficient(tail, j);
        assert(naive_coefficient(xs, i) == x0 * N);
        assert(naive_coefficient(xs, j) == x0i * N);
        assert(x0i * N * (x0 * x0) == (x0 * N) * (x0i * x0)) by (nonlinear_arith);
        lemma_mul_by_unit(x0 * N, x0i * x0);
    } else {
        assert(l < L - 1) by {
            if l >= L - 1 {
                lemma_two_to_monotone((L - 1) as nat, l);
            }
        }
        assert(i % h == i) by {
            lemma_small_mod(i, h);
        }
        let j = (i - k) as nat;
        assert(j % h == j) by {
            lemma_small_mod(j, h);
        }
        assert(all_invertible(tail)) by {
            assert forall|q: int| 0 <= q < tail.len() implies (#[trigger] inverse_of(tail[q]) * tail[q]) % p == 1 by {
                assert(tail[q] == xs[q + 1]);
                assert((inverse_of(xs[q + 1]) * xs[q + 1]) % p == 1);
            }
        }
        lemma_naive_top_bit(tail, i);
        let X = xs[L - 1 - l];
        assert(tail[tail.len() - 1 - l] == X);
        let Ni = naive_coefficient(tail, i);
        let Nj = naive_coefficient(tail, j);
        assert(naive_coefficient(xs, i) == x0i * Ni);
        assert(naive_coefficient(xs, j) == x0i * Nj);
        assert(Ni % p == (Nj * (X * X)) % p);
        lemma_mul_mod_noop_right(x0i, Ni, p);
        lemma_mul_mod_noop_right(x0i, Nj * (X * X), p);
        assert(x0i * (Nj * (X * X)) == (x0i * Nj) * (X * X)) by (nonlinear_arith);
    }
}

/// The box expansion is naive folding: entry `i` of the verifier's vector
/// is, modulo the group order, the coefficient that folding `G` round by
/// round with the same challenges leaves on generator `i`, so that
/// `MSM(G, s)` is the fully folded generator.
pub proof fn lemma_box_is_naive_folding(xs: Seq<int>, i: nat)
    requires
        all_invertible(xs),
        i < two_to(xs.len()),
    ensures
        box_entry(xs, i) == naive_coefficient(xs, i) % group_order(),
    decreases i,
{
    let p = group_order();
    if i == 0 {
        lemma_naive_zero(xs);
        lemma_product_mod(Seq::new(xs.len(), |j: int| inverse_of(xs[j])));
    } else {
        let l = floor_log2(i);
        let k = two_to(l);
        lemma_floor_log2_bounds(i);
        lemma_two_to_positive(l);
        lemma_box_is_naive_folding(xs, (i - k) as nat);
        lemma_naive_top_bit(xs, i);
        let X = xs[xs.len() - 1 - l];
        let Nj = naive_coefficient(xs, (i - k) as nat);
        lemma_mul_mod_noop_left(Nj, X * X, p);
        lemma_mul_mod_noop_right(Nj % p, X * X, p);
    }
}

/// `2^e`, for `e < 32`.
fn power_of_two(e: usize) -> (r: usize)
    requires
        e < 32,
    ensures
        r == two_to(e as nat),
{
    let mut r: usize = 1;
    let mut i: usize = 0;
    while i < e
        invariant
            i <= e < 32,
            r == two_to(i as nat),
            r <= 0x8000_0000,
        decreases e - i,
    {
        proof {
            lemma_two_to_monotone((i + 1) as nat, 31);
            lemma_two_to_31();
        }
        r = r * 2;
        i += 1;
    }
    r
}

impl InnerProductProtocol {
    /// Proves knowledge of `vec_a`, `vec_b` for `params`: `log₂ n` rounds
    /// of folding, each sending the cross commitments `L`, `R` and drawing
    /// its challenge from the transcript.
    #[verifier::rlimit(50)]
    pub fn prove(params: &InnerProductParam, vec_a: Vec<Scalar>, vec_b: Vec<Scalar>) -> (res: Result<InnerProductProof, SigmaErrors>)
        requires
            all_wf(vec_a@),
            all_wf(vec_b@),
            all_wf(params.factors_G@),
            all_wf(params.factors_H@),
        ensures
            res matches Err(SigmaErrors::InvalidParameters(_)) <==> !(params_fit(vec_a.len() as nat, *params)
                && vec_b.len() == vec_a.len() && is_pow2(vec_a.len() as nat)),
            res matches Err(e) ==> e is InvalidParameters || e is InvalidProof,
            res matches Err(SigmaErrors::InvalidProof(_)) <==> params_fit(vec_a.len() as nat, *params)
                && vec_b.len() == vec_a.len() && is_pow2(vec_a.len() as nat)
                && !ipa_succeeds(params.u, params.vec_G@, params.vec_H@, views(params.factors_G@),
                    views(params.factors_H@), views(vec_a@), views(vec_b@)),
            res matches Ok(p) ==> is_honest_proof(params.u, params.vec_G@, params.vec_H@, views(params.factors_G@),
                views(params.factors_H@), views(vec_a@), views(vec_b@), p),
            res matches Ok(p) ==> {
                let run = honest_run(initial_state(params.vec_G@, params.vec_H@, views(params.factors_G@),
                    views(params.factors_H@), views(vec_a@), views(vec_b@)), params.u, ipa_start(vec_a.len() as nat),
                    floor_log2(vec_a.len() as nat));
                &&& p.vec_L@ == run.Ls
                &&& p.vec_R@ == run.Rs
                &&& views(p.challenges@) == run.xs
                &&& p.vec_L.len() == floor_log2(vec_a.len() as nat)
            },
    {
        let n = params.vec_G.len();
        if params.vec_H.len() != n || vec_a.len() != n || vec_b.len() != n || params.factors_G.len() != n
            || params.factors_H.len() != n {
            return Err(SigmaErrors::InvalidParameters("vectors length are different".to_owned()));
        }
        if exact_log2(n).is_none() {
            return Err(SigmaErrors::InvalidParameters("vector length is not power of two".to_owned()));
        }
        let mut transcript = ProofTranscript::new("RingSignature");
        transcript.append_scalar("IPAsize", &Scalar::from_u64(n as u64));
        let ghost start = transcript.record();
        assert(start =~= ipa_start(n as nat));
        let ghost s0 = initial_state(params.vec_G@, params.vec_H@, views(params.factors_G@), views(params.factors_H@), views(vec_a@), views(vec_b@));
        let ghost u = params.u;

        let mut pv = ProverVectors {
            a: vec_a,
            b: vec_b,
            G: copied(&params.vec_G),
            H: copied(&params.vec_H),
            fG: copied(&params.factors_G),
            fH: copied(&params.factors_H),
        };
        let mut vec_L: Vec<Point> = Vec::new();
        let mut vec_R: Vec<Point> = Vec::new();
        let mut challenges: Vec<Scalar> = Vec::new();
        let mut m: usize = n;
        let mut round: usize = 0;
        proof {
            assert(two_to(0) == 1);
            assert(m as int * two_to(0) == n as int) by (nonlinear_arith)
                requires two_to(0) == 1, m == n;
        }
        while m != 1
            invariant
                n < 0x1_0000_0000_0000_0000,
                u == params.u,
                s0 == initial_state(params.vec_G@, params.vec_H@, views(params.factors_G@), views(params.factors_H@), views(vec_a@), views(vec_b@)),
                start == ipa_start(n as nat),
                n == vec_a@.len(),
                n == vec_b@.len(),
                params_fit(n as nat, *params),
                is_pow2(n as nat),
                is_pow2(m as nat),
                m as int * two_to(round as nat) == n as int,
                round < 64,
                pv.wf(m as nat),
                all_wf(challenges@),
                vec_L@.len() == round,
                vec_R@.len() == round,
                challenges@.len() == round,
                pv.state() == state_after(s0, views(challenges@), round as nat),
                pv.state() == honest_run(s0, u, start, round as nat).state,
                transcript.record() == honest_run(s0, u, start, round as nat).record,
                views(challenges@) == honest_run(s0, u, start, round as nat).xs,
                vec_L@ == honest_run(s0, u, start, round as nat).Ls,
                vec_R@ == honest_run(s0, u, start, round as nat).Rs,
                forall|k: nat| k < round ==> #[trigger] honest_run(s0, u, start, k + 1).xs[k as int] != 0,
                transcript.record() == record_before_round(start, vec_L@, vec_R@, round as nat),
                forall|k: int| 0 <= k < round ==> (#[trigger] challenges@[k]).view()
                    == round_challenge(start, vec_L@, vec_R@, k as nat),
                forall|k: int| 0 <= k < round ==> (#[trigger] challenges@[k]).view() != 0,
                forall|k: int| 0 <= k < round ==> #[trigger] vec_L@[k]
                    == cross_L(state_after(s0, views(challenges@), k as nat), u),
                forall|k: int| 0 <= k < round ==> #[trigger] vec_R@[k]
                    == cross_R(state_after(s0, views(challenges@), k as nat), u),
            decreases m,
        {
            proof {
                lemma_pow2_halves(m as nat);
            }
            let h = m / 2;
            let ghost old_xs = views(challenges@);
            let ghost oldL = vec_L@;
            let ghost oldR = vec_R@;
            let (com_L, com_R) = pv.cross_pair(params.u);
            vec_L.push(com_L);
            vec_R.push(com_R);
            let pair = vec![com_L, com_R];
            transcript.append_points("commitments L, R", &pair);
            let x = transcript.challenge_scalar("challenge");
            let ghost hr = honest_run(s0, u, start, round as nat);
            let ghost hr1 = honest_run(s0, u, start, (round + 1) as nat);
            proof {
                lemma_record_prefix(start, oldL, oldR, com_L, com_R, round as nat);
                assert(pair@ =~= seq![vec_L@[round as int], vec_R@[round as int]]);
                assert(pair@ =~= seq![com_L, com_R]);
                assert(x.view() == hr1.xs[round as int]);
            }
            let x_inv = match x.inverse() {
                Some(i) => i,
                None => {
                    proof {
                        assert(two_to((round + 1) as nat) <= n) by (nonlinear_arith)
                            requires m >= 2, m as int * two_to(round as nat) == n as int,
                                two_to((round + 1) as nat) == 2 * two_to(round as nat);
                        lemma_floor_log2_bounds(n as nat);
                        if floor_log2(n as nat) <= round {
                            lemma_two_to_monotone(floor_log2(n as nat) + 1, (round + 1) as nat);
                        }
                        assert(honest_challenge(params.u, params.vec_G@, params.vec_H@, views(params.factors_G@),
                            views(params.factors_H@), views(vec_a@), views(vec_b@), round as nat) == 0);
                    }
                    return Err(SigmaErrors::InvalidProof("zero challenge".to_owned()));
                },
            };
            challenges.push(x);
            pv = pv.fold(&x, &x_inv);
            proof {
                assert(views(challenges@) =~= hr.xs.push(x.view()));
                assert(vec_L@ =~= hr.Ls.push(com_L));
                assert(vec_R@ =~= hr.Rs.push(com_R));
                let xs = views(challenges@);
                assert(xs =~= old_xs.push(x.view()));
                lemma_state_prefix(s0, old_xs, x.view(), round as nat);
                assert forall|k: int| 0 <= k < round + 1 implies (#[trigger] challenges@[k]).view()
                    == round_challenge(start, vec_L@, vec_R@, k as nat) by {
                    if k < round {
                        lemma_record_prefix(start, oldL, oldR, com_L, com_R, k as nat);
                    }
                }
                assert forall|k: int| 0 <= k < round + 1 implies #[trigger] vec_L@[k]
                    == cross_L(state_after(s0, views(challenges@), k as nat), u) by {
                    lemma_state_prefix(s0, old_xs, x.view(), k as nat);
                }
                assert forall|k: int| 0 <= k < round + 1 implies #[trigger] vec_R@[k]
                    == cross_R(state_after(s0, views(challenges@), k as nat), u) by {
                    lemma_state_prefix(s0, old_xs, x.view(), k as nat);
                }
                assert(m as int * two_to(round as nat) == h as int * two_to((round + 1) as nat)) by (nonlinear_arith)
                    requires m == 2 * h, two_to((round + 1) as nat) == 2 * two_to(round as nat);
                assert(h as int * two_to((round + 1) as nat) >= two_to((round + 1) as nat)) by (nonlinear_arith)
                    requires h >= 1;
                if round + 1 >= 64 {
                    lemma_two_to_monotone(64, (round + 1) as nat);
                    lemma_two_to_64();
                }
            }
            m = h;
            round += 1;
        }
        proof {
            assert(n as int == two_to(round as nat)) by (nonlinear_arith)
                requires m == 1, m as int * two_to(round as nat) == n as int;
            let xs = views(challenges@);
            assert(xs =~= derived_challenges(n as nat, vec_L@, vec_R@));
            assert forall|j: int| 0 <= j < round implies #[trigger] xs[j] != 0 by {
                assert(challenges@[j].view() != 0);
            }
            lemma_two_to_positive(round as nat);
            lemma_floor_log2(n as nat, round as nat);
        }
        Ok(InnerProductProof { vec_L, vec_R, a: pv.a[0], b: pv.b[0], challenges })
    }

    /// Checks `proof` against `target_P`: re-derives each challenge from the
    /// transcript, expands the folded generators into one vector of scalars
    /// and compares one multi-scalar multiplication with `target_P`.
    pub fn verify(n: usize, target_P: Point, params: &InnerProductParam, ipa_proof: &InnerProductProof) -> (res: Result<(), SigmaErrors>)
        ensures
            res matches Err(SigmaErrors::InvalidParameters(_)) <==> !params_fit(n as nat, *params) || ipa_proof.vec_L.len() >= 32,
            res matches Err(SigmaErrors::SerializationError(_)) <==> params_fit(n as nat, *params)
                && proof_fits(n as nat, *ipa_proof) && !ipa_scalars_wf(*params, *ipa_proof),
            res is Ok <==> ipa_scalars_wf(*params, *ipa_proof) && ipa_accepts(n as nat, target_P, params.u, params.vec_G@,
                params.vec_H@, views(params.factors_G@), views(params.factors_H@), *ipa_proof),
            res matches Err(e) ==> e is InvalidParameters || e is InvalidProof || e is SerializationError,
    {
        if params.vec_G.len() != n || params.vec_H.len() != n || params.factors_G.len() != n
            || params.factors_H.len() != n {
            return Err(SigmaErrors::InvalidParameters("vectors length are different".to_owned()));
        }
        let log_n = ipa_proof.vec_L.len();
        if log_n >= 32 {
            return Err(SigmaErrors::InvalidParameters("vector size is too large".to_owned()));
        }
        if n != power_of_two(log_n) || ipa_proof.vec_R.len() != log_n || ipa_proof.challenges.len() != log_n {
            return Err(SigmaErrors::InvalidProof("incorrect proof length".to_owned()));
        }
        if !(all_canonical(&params.factors_G) && all_canonical(&params.factors_H) && all_canonical(&ipa_proof.challenges)
            && ipa_proof.a.is_canonical() && ipa_proof.b.is_canonical()) {
            return Err(SigmaErrors::SerializationError("non-canonical scalar".to_owned()));
        }
        proof {
            lemma_two_to_monotone(log_n as nat, 31);
            lemma_two_to_31();
        }
        let mut transcript = ProofTranscript::new("RingSignature");
        transcript.append_scalar("IPAsize", &Scalar::from_u64(n as u64));
        let ghost start = transcript.record();
        assert(start =~= ipa_start(n as nat));
        let ghost xs = derived_challenges(n as nat, ipa_proof.vec_L@, ipa_proof.vec_R@);

        let mut challenges_sq: Vec<Scalar> = Vec::new();
        let mut challenges_inv_sq: Vec<Scalar> = Vec::new();
        let mut all_inv = Scalar::one();
        let mut j: usize = 0;
        while j < log_n
            invariant
                j <= log_n,
                log_n < 32,
                params_fit(n as nat, *params),
                proof_fits(n as nat, *ipa_proof),
                log_n == ipa_proof.vec_L.len(),
                ipa_scalars_wf(*params, *ipa_proof),
                ipa_proof.vec_R.len() == log_n,
                ipa_proof.challenges.len() == log_n,
                all_wf(ipa_proof.challenges@),
                start == ipa_start(n as nat),
                xs == derived_challenges(n as nat, ipa_proof.vec_L@, ipa_proof.vec_R@),
                transcript.record() == record_before_round(start, ipa_proof.vec_L@, ipa_proof.vec_R@, j as nat),
                forall|k: int| 0 <= k < j ==> #[trigger] xs[k] != 0,
                forall|k: int| 0 <= k < j ==> (#[trigger] ipa_proof.challenges@[k]).view() == xs[k],
                challenges_sq.len() == j,
                challenges_inv_sq.len() == j,
                all_wf(challenges_sq@),
                all_wf(challenges_inv_sq@),
                forall|k: int| 0 <= k < j ==> (#[trigger] challenges_sq@[k]).view() == sq(xs[k]),
                forall|k: int| 0 <= k < j ==> (#[trigger] challenges_inv_sq@[k]).view() == sq(inverse_of(xs[k])),
                all_inv.wf(),
                all_inv.view() == product_mod(Seq::new(j as nat, |k: int| inverse_of(xs[k]))),
            decreases log_n - j,
        {
            let pair = vec![ipa_proof.vec_L[j], ipa_proof.vec_R[j]];
            transcript.append_points("commitments L, R", &pair);
            let x = transcript.challenge_scalar("challenge");
            proof {
                assert(pair@ =~= seq![ipa_proof.vec_L@[j as int], ipa_proof.vec_R@[j as int]]);
                assert(x.view() == xs[j as int]);
            }
            let x_inv = match x.inverse() {
                Some(i) => i,
                None => {
                    assert(xs[j as int] == 0);
                    return Err(SigmaErrors::InvalidProof("zero challenge".to_owned()));
                },
            };
            if !x.equals(&ipa_proof.challenges[j]) {
                assert(!(ipa_proof.challenges@[j as int].view() == xs[j as int]));
                return Err(SigmaErrors::InvalidProof("invalid challenge value".to_owned()));
            }
            assert(ipa_proof.challenges@[j as int].view() == xs[j as int] && xs[j as int] != 0);
            challenges_sq.push(x.mul(&x));
            challenges_inv_sq.push(x_inv.mul(&x_inv));
            all_inv = all_inv.mul(&x_inv);
            proof {
                let s1 = Seq::new((j + 1) as nat, |k: int| inverse_of(xs[k]));
                assert(s1.drop_last() =~= Seq::new(j as nat, |k: int| inverse_of(xs[k])));
            }
            j += 1;
        }

        // the box expansion of the folded generators
        let mut vec_box: Vec<Scalar> = Vec::new();
        vec_box.push(all_inv);
        proof {
            lemma_two_to_positive(log_n as nat);
            assert(Seq::new(log_n as nat, |k: int| inverse_of(xs[k])) =~= Seq::new(xs.len(), |k: int| inverse_of(xs[k])));
        }
        let mut i: usize = 1;
        let mut k: usize = 1;
        let mut log_i: usize = 0;
        while i < n
            invariant
                1 <= i <= n,
                params_fit(n as nat, *params),
                proof_fits(n as nat, *ipa_proof),
                forall|q: int| 0 <= q < xs.len() ==> #[trigger] xs[q] != 0,
                forall|q: int| 0 <= q < xs.len() ==> (#[trigger] ipa_proof.challenges@[q]).view() == xs[q],
                n == two_to(log_n as nat),
                n <= 0x8000_0000,
                log_n == xs.len(),
                challenges_sq.len() == log_n,
                all_wf(challenges_sq@),
                forall|q: int| 0 <= q < log_n ==> (#[trigger] challenges_sq@[q]).view() == sq(xs[q]),
                vec_box.len() == i,
                all_wf(vec_box@),
                forall|q: int| 0 <= q < i ==> (#[trigger] vec_box@[q]).view() == box_entry(xs, q as nat),
                k == two_to(log_i as nat),
                k <= i,
                i < n ==> i < 2 * k,
            decreases n - i,
        {
            proof {
                lemma_floor_log2(i as nat, log_i as nat);
                if log_i >= log_n {
                    lemma_two_to_monotone(log_n as nat, log_i as nat);
                }
                lemma_two_to_positive(log_i as nat);
            }
            let e = vec_box[i - k].mul(&challenges_sq[log_n - 1 - log_i]);
            vec_box.push(e);
            i += 1;
            if i == 2 * k {
                k = 2 * k;
                log_i += 1;
            }
        }
        let mut vec_box_reverse: Vec<Scalar> = Vec::new();
        let mut q: usize = n;
        while q > 0
            invariant
                q <= n,
                params_fit(n as nat, *params),
                proof_fits(n as nat, *ipa_proof),
                forall|q: int| 0 <= q < xs.len() ==> #[trigger] xs[q] != 0,
                forall|q: int| 0 <= q < xs.len() ==> (#[trigger] ipa_proof.challenges@[q]).view() == xs[q],
                vec_box.len() == n,
                all_wf(vec_box@),
                vec_box_reverse.len() == n - q,
                forall|t: int| 0 <= t < n - q ==> #[trigger] vec_box_reverse@[t] == vec_box@[n - 1 - t],
            decreases q,
        {
            q -= 1;
            vec_box_reverse.push(vec_box[q]);
        }
        assert(views(vec_box@) =~= box_vector(xs, n as nat));
        assert(views(vec_box_reverse@) =~= reversed(box_vector(xs, n as nat)));

        let g_a_box = scalar_product(&hadamard_product(&vec_box, &params.factors_G), &ipa_proof.a);
        let h_b_box = scalar_product(&hadamard_product(&vec_box_reverse, &params.factors_H), &ipa_proof.b);
        let mut neg_sq = negated(&challenges_sq);
        let mut neg_inv_sq = negated(&challenges_inv_sq);
        let ab = ipa_proof.a.mul(&ipa_proof.b);
        let ghost parts = (seq![ab], g_a_box@, h_b_box@, neg_sq@, neg_inv_sq@);
        let mut exp: Vec<Scalar> = vec![ab];
        let mut t = g_a_box;
        exp.append(&mut t);
        let mut t = h_b_box;
        exp.append(&mut t);
        exp.append(&mut neg_sq);
        exp.append(&mut neg_inv_sq);

        let mut base: Vec<Point> = vec![params.u];
        let mut t = copied(&params.vec_G);
        base.append(&mut t);
        let mut t = copied(&params.vec_H);
        base.append(&mut t);
        let mut t = copied(&ipa_proof.vec_L);
        base.append(&mut t);
        let mut t = copied(&ipa_proof.vec_R);
        base.append(&mut t);
        proof {
            assert(views(parts.3) =~= Seq::new(xs.len(), |j: int| neg_mod(sq(xs[j]))));
            assert(views(parts.4) =~= Seq::new(xs.len(), |j: int| neg_mod(sq(inverse_of(xs[j])))));
            assert(views(parts.0) =~= seq![(ipa_proof.a.view() * ipa_proof.b.view()) % group_order()]);
            lemma_views_concat(parts.0, parts.1);
            lemma_views_concat(parts.0 + parts.1, parts.2);
            lemma_views_concat(parts.0 + parts.1 + parts.2, parts.3);
            lemma_views_concat(parts.0 + parts.1 + parts.2 + parts.3, parts.4);
            assert(exp@ =~= parts.0 + parts.1 + parts.2 + parts.3 + parts.4);
            assert(views(exp@) =~= verifier_scalars(n as nat, xs, ipa_proof.a.view(), ipa_proof.b.view(),
                views(params.factors_G@), views(params.factors_H@)));
            assert(base@ =~= verifier_bases(params.u, params.vec_G@, params.vec_H@, *ipa_proof));
        }
        let expected_P = msm(&base, &exp);
        if expected_P == target_P {
            Ok(())
        } else {
            Err(SigmaErrors::InvalidProof("invalid IPA proof".to_owned()))
        }
    }
}

/// The vectors the prover folds round by round.
struct ProverVectors {
    a: Vec<Scalar>,
    b: Vec<Scalar>,
    G: Vec<Point>,
    H: Vec<Point>,
    fG: Vec<Scalar>,
    fH: Vec<Scalar>,
}

impl ProverVectors {
    spec fn state(&self) -> RoundState {
        RoundState {
            a: views(self.a@),
            b: views(self.b@),
            G: self.G@,
            H: self.H@,
            fG: views(self.fG@),
            fH: views(self.fH@),
        }
    }

    /// All six vectors have length `m`, and the scalars are canonical.
    spec fn wf(&self, m: nat) -> bool {
        &&& self.a@.len() == m
        &&& self.b@.len() == m
        &&& self.G@.len() == m
        &&& self.H@.len() == m
        &&& self.fG@.len() == m
        &&& self.fH@.len() == m
        &&& all_wf(self.a@)
        &&& all_wf(self.b@)
        &&& all_wf(self.fG@)
        &&& all_wf(self.fH@)
    }

    /// The round's cross commitments `L` and `R`.
    fn cross_pair(&self, u: Point) -> (r: (Point, Point))
        requires
            self.wf(self.a@.len()),
            self.a@.len() % 2 == 0,
        ensures
            r.0 == cross_L(self.state(), u),
            r.1 == cross_R(self.state(), u),
    {
        let h = self.a.len() / 2;
        let (a_L, a_R) = vec_split(&self.a, h);
        let (b_L, b_R) = vec_split(&self.b, h);
        let (G_L, G_R) = vec_split(&self.G, h);
        let (H_L, H_R) = vec_split(&self.H, h);
        let (fG_L, fG_R) = vec_split(&self.fG, h);
        let (fH_L, fH_R) = vec_split(&self.fH, h);
        let ghost st = self.state();
        proof {
            assert(views(a_L@) =~= st.a.take(h as int));
            assert(views(a_R@) =~= st.a.skip(h as int));
            assert(views(b_L@) =~= st.b.take(h as int));
            assert(views(b_R@) =~= st.b.skip(h as int));
            assert(views(fG_L@) =~= st.fG.take(h as int));
            assert(views(fG_R@) =~= st.fG.skip(h as int));
            assert(views(fH_L@) =~= st.fH.take(h as int));
            assert(views(fH_R@) =~= st.fH.skip(h as int));
            assert(G_L@ =~= st.G.take(h as int));
            assert(G_R@ =~= st.G.skip(h as int));
            assert(H_L@ =~= st.H.take(h as int));
            assert(H_R@ =~= st.H.skip(h as int));
        }
        let com_L = cross_commitment(&G_R, &H_L, u, &a_L, &fG_R, &b_R, &fH_L);
        let com_R = cross_commitment(&G_L, &H_R, u, &a_R, &fG_L, &b_L, &fH_R);
        proof {
            reveal(cross_L);
            reveal(cross_R);
        }
        (com_L, com_R)
    }

    /// The fold with challenge `x`, whose inverse is `x_inv`.
    fn fold(&self, x: &Scalar, x_inv: &Scalar) -> (r: ProverVectors)
        requires
            self.wf(self.a@.len()),
            self.a@.len() % 2 == 0,
            x.wf(),
            x_inv.wf(),
            x_inv.view() == inverse_of(x.view()),
        ensures
            r.wf(self.a@.len() / 2),
            r.state() == next_state(self.state(), x.view()),
    {
        let h = self.a.len() / 2;
        let (a_L, a_R) = vec_split(&self.a, h);
        let (b_L, b_R) = vec_split(&self.b, h);
        let ghost st = self.state();
        let a = vec_add(&scalar_product(&a_L, x), &scalar_product(&a_R, x_inv));
        let b = vec_add(&scalar_product(&b_L, x_inv), &scalar_product(&b_R, x));
        let G = fold_generators(&self.G, &self.fG, x_inv, x);
        let H = fold_generators(&self.H, &self.fH, x, x_inv);
        let r = ProverVectors { a, b, G, H, fG: ones(h), fH: ones(h) };
        proof {
            reveal(next_state);
            assert(views(a_L@) =~= st.a.take(h as int));
            assert(views(a_R@) =~= st.a.skip(h as int));
            assert(views(b_L@) =~= st.b.take(h as int));
            assert(views(b_R@) =~= st.b.skip(h as int));
            assert(r.state().a =~= next_state(st, x.view()).a);
            assert(r.state().b =~= next_state(st, x.view()).b);
            assert(r.state().G =~= next_state(st, x.view()).G);
            assert(r.state().H =~= next_state(st, x.view()).H);
            assert(r.state().fG =~= next_state(st, x.view()).fG);
            assert(r.state().fH =~= next_state(st, x.view()).fH);
        }
        r
    }
}

/// `h` ones.
fn ones(h: usize) -> (r: Vec<Scalar>)
    ensures
        r@.len() == h,
        all_wf(r@),
        views(r@) == Seq::new(h as nat, |i: int| 1int),
{
    let mut r: Vec<Scalar> = Vec::new();
    let mut i: usize = 0;
    while i < h
        invariant
            i <= h,
            r@.len() == i,
            forall|j: int| 0 <= j < i ==> (#[trigger] r@[j]).wf() && r@[j].view() == 1,
        decreases h - i,
    {
        r.push(Scalar::one());
        i += 1;
    }
    assert(views(r@) =~= Seq::new(h as nat, |i: int| 1int));
    r
}

/// Folds the two halves of `g`: `g[i]·(left·f[i]) + g[h+i]·(right·f[h+i])`.
fn fold_generators(g: &Vec<Point>, f: &Vec<Scalar>, left: &Scalar, right: &Scalar) -> (r: Vec<Point>)
    requires
        g.len() == f.len(),
        all_wf(f@),
        left.wf(),
        right.wf(),
    ensures
        r@.len() == g@.len() / 2,
        r@ == Seq::new(g@.len() / 2, |i: int| msm_of(
            seq![g@[i], g@[g@.len() / 2 + i]],
            seq![(left.view() * f@[i].view()) % group_order(), (right.view() * f@[g@.len() / 2 + i].view()) % group_order()],
        )),
{
    let h = g.len() / 2;
    let mut r: Vec<Point> = Vec::new();
    let mut i: usize = 0;
    while i < h
        invariant
            h == g@.len() / 2,
            g.len() == f.len(),
            all_wf(f@),
            left.wf(),
            right.wf(),
            i <= h,
            r@.len() == i,
            forall|j: int| 0 <= j < i ==> #[trigger] r@[j] == msm_of(
                seq![g@[j], g@[h + j]],
                seq![(left.view() * f@[j].view()) % group_order(), (right.view() * f@[h + j].view()) % group_order()],
            ),
        decreases h - i,
    {
        let bases = vec![g[i], g[h + i]];
        let scalars = vec![left.mul(&f[i]), right.mul(&f[h + i])];
        proof {
            assert(views(scalars@) =~= seq![(left.view() * f@[i as int].view()) % group_order(),
                (right.view() * f@[h + i].view()) % group_order()]);
            assert(bases@ =~= seq![g@[i as int], g@[h + i]]);
        }
        r.push(msm(&bases, &scalars));
        i += 1;
    }
    assert(r@ =~= Seq::new(g@.len() / 2, |i: int| msm_of(
        seq![g@[i], g@[g@.len() / 2 + i]],
        seq![(left.view() * f@[i].view()) % group_order(), (right.view() * f@[g@.len() / 2 + i].view()) % group_order()],
    )));
    r
}

/// `MSM(g, a ∘ fa) + MSM(h, b ∘ fb) + u·⟨a, b⟩`.
fn cross_commitment(
    g: &Vec<Point>,
    h: &Vec<Point>,
    u: Point,
    a: &Vec<Scalar>,
    fa: &Vec<Scalar>,
    b: &Vec<Scalar>,
    fb: &Vec<Scalar>,
) -> (r: Point)
    requires
        g.len() == a.len(),
        a.len() == fa.len(),
        h.len() == b.len(),
        b.len() == fb.len(),
        a.len() == b.len(),
        all_wf(a@),
        all_wf(fa@),
        all_wf(b@),
        all_wf(fb@),
    ensures
        r == msm_of(
            g@ + h@ + seq![u],
            hadamard(views(a@), views(fa@)) + hadamard(views(b@), views(fb@)) + seq![ip(views(a@), views(b@))],
        ),
{
    let mut exp = hadamard_product(a, fa);
    let mut t = hadamard_product(b, fb);
    let c = inner_product(a, b);
    let ghost e1 = exp@;
    let ghost e2 = t@;
    exp.append(&mut t);
    exp.push(c);
    let mut base = copied(g);
    let mut t = copied(h);
    base.append(&mut t);
    base.push(u);
    proof {
        lemma_views_concat(e1, e2);
        lemma_views_concat(e1 + e2, seq![c]);
        assert(exp@ =~= e1 + e2 + seq![c]);
        assert(views(seq![c]) =~= seq![ip(views(a@), views(b@))]);
        assert(base@ =~= g@ + h@ + seq![u]);
        assert(views(exp@) == hadamard(views(a@), views(fa@)) + hadamard(views(b@), views(fb@)) + seq![ip(views(a@), views(b@))]);
    }
    msm(&base, &exp)
}

/// `-v[j]` for each element.
fn negated(v: &Vec<Scalar>) -> (r: Vec<Scalar>)
    requires
        all_wf(v@),
    ensures
        all_wf(r@),
        views(r@) == Seq::new(v@.len(), |j: int| neg_mod(v@[j].view())),
{
    let mut r: Vec<Scalar> = Vec::new();
    let mut i: usize = 0;
    while i < v.len()
        invariant
            i <= v.len(),
            all_wf(v@),
            r@.len() == i,
            forall|j: int| 0 <= j < i ==> (#[trigger] r@[j]).wf() && r@[j].view() == neg_mod(v@[j].view()),
        decreases v.len() - i,
    {
        r.push(v[i].neg());
        i += 1;
    }
    assert(views(r@) =~= Seq::new(v@.len(), |j: int| neg_mod(v@[j].view())));
    r
}

} // verus!
