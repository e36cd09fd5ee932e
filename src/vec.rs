//! Vector helpers over scalars: inner and Hadamard products, scaling, sums,
//! splitting and power sequences.
use vstd::prelude::*;
use vstd::arithmetic::div_mod::{lemma_add_mod_noop, lemma_mul_mod_noop_left, lemma_mul_mod_noop_right, lemma_mod_twice, lemma_small_mod};
use vstd::arithmetic::power::{lemma_pow1, pow};
use vstd::arithmetic::mul::lemma_mul_is_associative;
use crate::field::{group_order, Scalar};

verus! {

/// The integers held by a sequence of scalars.
pub open spec fn views(v: Seq<Scalar>) -> Seq<int> {
    Seq::new(v.len(), |i: int| v[i].view())
}

/// Every scalar of the sequence is canonical.
pub open spec fn all_wf(v: Seq<Scalar>) -> bool {
    forall|i: int| 0 <= i < v.len() ==> #[trigger] v[i].wf()
}

/// `Σ a[i]·b[i]` over the integers.
pub open spec fn dot(a: Seq<int>, b: Seq<int>) -> int
    decreases a.len(),
{
    if a.len() == 0 {
        0
    } else {
        dot(a.drop_last(), b.drop_last()) + a.last() * b.last()
    }
}

/// The inner product modulo the group order.
pub open spec fn ip(a: Seq<int>, b: Seq<int>) -> int {
    dot(a, b) % group_order()
}

/// The elementwise product modulo the group order.
pub open spec fn hadamard(a: Seq<int>, b: Seq<int>) -> Seq<int> {
    Seq::new(a.len(), |i: int| (a[i] * b[i]) % group_order())
}

/// Each element times `c`, modulo the group order.
pub open spec fn scaled(a: Seq<int>, c: int) -> Seq<int> {
    Seq::new(a.len(), |i: int| (a[i] * c) % group_order())
}

/// The elementwise sum modulo the group order.
pub open spec fn sum(a: Seq<int>, b: Seq<int>) -> Seq<int> {
    Seq::new(a.len(), |i: int| (a[i] + b[i]) % group_order())
}

/// `(y, y², …, yⁿ)` modulo the group order.
pub open spec fn powers(y: int, n: nat) -> Seq<int> {
    Seq::new(n, |i: int| pow(y, (i + 1) as nat) % group_order())
}

/// Scalars from small integers, one for one.
pub fn convert(m: &[u64]) -> (r: Vec<Scalar>)
    ensures
        all_wf(r@),
        views(r@) == Seq::new(m@.len(), |i: int| m@[i] as int),
{
    let mut r: Vec<Scalar> = Vec::new();
    let mut i: usize = 0;
    while i < m.len()
        invariant
            i <= m.len(),
            r@.len() == i,
            forall|j: int| 0 <= j < i ==> (#[trigger] r@[j]).wf() && r@[j].view() == m@[j] as int,
        decreases m.len() - i,
    {
        r.push(Scalar::from_u64(m[i]));
        i += 1;
    }
    assert(views(r@) =~= Seq::new(m@.len(), |i: int| m@[i] as int));
    r
}

/// Each element of `vec_a` times `c`.
pub fn scalar_product(vec_a: &Vec<Scalar>, c: &Scalar) -> (r: Vec<Scalar>)
    requires
        all_wf(vec_a@),
        c.wf(),
    ensures
        r@.len() == vec_a@.len(),
        all_wf(r@),
        views(r@) == scaled(views(vec_a@), c.view()),
{
    let mut r: Vec<Scalar> = Vec::new();
    let mut i: usize = 0;
    while i < vec_a.len()
        invariant
            i <= vec_a.len(),
            all_wf(vec_a@),
            c.wf(),
            r@.len() == i,
            forall|j: int| 0 <= j < i ==> (#[trigger] r@[j]).wf()
                && r@[j].view() == (vec_a@[j].view() * c.view()) % group_order(),
        decreases vec_a.len() - i,
    {
        r.push(vec_a[i].mul(c));
        i += 1;
    }
    assert(views(r@) =~= scaled(views(vec_a@), c.view()));
    r
}

/// `Σ a[i]·b[i]`.
pub fn inner_product(vec_a: &Vec<Scalar>, vec_b: &Vec<Scalar>) -> (r: Scalar)
    requires
        vec_a.len() == vec_b.len(),
        all_wf(vec_a@),
        all_wf(vec_b@),
    ensures
        r.wf(),
        r.view() == ip(views(vec_a@), views(vec_b@)),
{
    let ghost va = views(vec_a@);
    let ghost vb = views(vec_b@);
    let mut acc = Scalar::zero();
    let mut i: usize = 0;
    proof {
        lemma_small_mod(0, group_order() as nat);
    }
    while i < vec_a.len()
        invariant
            i <= vec_a.len(),
            vec_a.len() == vec_b.len(),
            all_wf(vec_a@),
            all_wf(vec_b@),
            va == views(vec_a@),
            vb == views(vec_b@),
            acc.wf(),
            acc.view() == dot(va.subrange(0, i as int), vb.subrange(0, i as int)) % group_order(),
        decreases vec_a.len() - i,
    {
        let t = vec_a[i].mul(&vec_b[i]);
        acc = acc.add(&t);
        proof {
            let pa = va.subrange(0, i + 1);
            let pb = vb.subrange(0, i + 1);
            assert(pa.drop_last() =~= va.subrange(0, i as int));
            assert(pb.drop_last() =~= vb.subrange(0, i as int));
            let d = dot(va.subrange(0, i as int), vb.subrange(0, i as int));
            let x = vec_a@[i as int].view() * vec_b@[i as int].view();
            assert(dot(pa, pb) == d + x);
            lemma_add_mod_noop(d, x, group_order());
            lemma_mod_twice(d, group_order());
            lemma_mod_twice(x, group_order());
        }
        i += 1;
    }
    assert(va.subrange(0, vec_a.len() as int) =~= va);
    assert(vb.subrange(0, vec_a.len() as int) =~= vb);
    acc
}

/// `vec_a + vec_b`, elementwise.
pub fn vec_add(vec_a: &Vec<Scalar>, vec_b: &Vec<Scalar>) -> (r: Vec<Scalar>)
    requires
        vec_a.len() == vec_b.len(),
        all_wf(vec_a@),
        all_wf(vec_b@),
    ensures
        r@.len() == vec_a@.len(),
        all_wf(r@),
        views(r@) == sum(views(vec_a@), views(vec_b@)),
{
    let mut r: Vec<Scalar> = Vec::new();
    let mut i: usize = 0;
    while i < vec_a.len()
        invariant
            i <= vec_a.len(),
            vec_a.len() == vec_b.len(),
            all_wf(vec_a@),
            all_wf(vec_b@),
            r@.len() == i,
            forall|j: int| 0 <= j < i ==> (#[trigger] r@[j]).wf()
                && r@[j].view() == (vec_a@[j].view() + vec_b@[j].view()) % group_order(),
        decreases vec_a.len() - i,
    {
        r.push(vec_a[i].add(&vec_b[i]));
        i += 1;
    }
    assert(views(r@) =~= sum(views(vec_a@), views(vec_b@)));
    r
}

/// `vec_a ∘ vec_b`, the elementwise product.
pub fn hadamard_product(vec_a: &Vec<Scalar>, vec_b: &Vec<Scalar>) -> (r: Vec<Scalar>)
    requires
        vec_a.len() == vec_b.len(),
        all_wf(vec_a@),
        all_wf(vec_b@),
    ensures
        r@.len() == vec_a@.len(),
        all_wf(r@),
        views(r@) == hadamard(views(vec_a@), views(vec_b@)),
{
    let mut r: Vec<Scalar> = Vec::new();
    let mut i: usize = 0;
    while i < vec_a.len()
        invariant
            i <= vec_a.len(),
            vec_a.len() == vec_b.len(),
            all_wf(vec_a@),
            all_wf(vec_b@),
            r@.len() == i,
            forall|j: int| 0 <= j < i ==> (#[trigger] r@[j]).wf()
                && r@[j].view() == (vec_a@[j].view() * vec_b@[j].view()) % group_order(),
        decreases vec_a.len() - i,
    {
        r.push(vec_a[i].mul(&vec_b[i]));
        i += 1;
    }
    assert(views(r@) =~= hadamard(views(vec_a@), views(vec_b@)));
    r
}

/// The first `n` elements and the rest.
pub fn vec_split<T: Copy>(vec: &Vec<T>, n: usize) -> (r: (Vec<T>, Vec<T>))
    requires
        n <= vec.len(),
    ensures
        r.0@ == vec@.subrange(0, n as int),
        r.1@ == vec@.subrange(n as int, vec@.len() as int),
{
    let mut left: Vec<T> = Vec::new();
    let mut right: Vec<T> = Vec::new();
    let mut i: usize = 0;
    while i < vec.len()
        invariant
            n <= vec.len(),
            i <= vec.len(),
            i <= n ==> left@ == vec@.subrange(0, i as int) && right@.len() == 0,
            i > n ==> left@ == vec@.subrange(0, n as int) && right@ == vec@.subrange(n as int, i as int),
        decreases vec.len() - i,
    {
        if i < n {
            left.push(vec[i]);
            assert(left@ =~= vec@.subrange(0, i + 1));
        } else {
            right.push(vec[i]);
            assert(right@ =~= vec@.subrange(n as int, i + 1));
        }
        i += 1;
    }
    assert(vec@.subrange(n as int, n as int) =~= Seq::<T>::empty());
    (left, right)
}

/// The integers of a concatenation are the concatenation of the integers.
pub proof fn lemma_views_concat(a: Seq<Scalar>, b: Seq<Scalar>)
    ensures
        views(a + b) == views(a) + views(b),
{
    assert(views(a + b) =~= views(a) + views(b));
}

/// Whether every scalar of the vector is canonical.
pub fn all_canonical(v: &Vec<Scalar>) -> (r: bool)
    ensures
        r == all_wf(v@),
{
    let mut i: usize = 0;
    while i < v.len()
        invariant
            i <= v.len(),
            forall|j: int| 0 <= j < i ==> (#[trigger] v@[j]).wf(),
        decreases v.len() - i,
    {
        if !v[i].is_canonical() {
            return false;
        }
        i += 1;
    }
    true
}

/// A copy of a vector.
pub fn copied<T: Copy>(v: &Vec<T>) -> (r: Vec<T>)
    ensures
        r@ == v@,
{
    let mut r: Vec<T> = Vec::new();
    let mut i: usize = 0;
    while i < v.len()
        invariant
            i <= v.len(),
            r@ == v@.subrange(0, i as int),
        decreases v.len() - i,
    {
        r.push(v[i]);
        assert(r@ =~= v@.subrange(0, i + 1));
        i += 1;
    }
    assert(v@.subrange(0, v.len() as int) =~= v@);
    r
}

/// `(y, y², …, yⁿ)`: the sequence starts at the first power.
pub fn generate_powers(y: Scalar, n: usize) -> (r: Vec<Scalar>)
    requires
        y.wf(),
    ensures
        r@.len() == n,
        all_wf(r@),
        views(r@) == powers(y.view(), n as nat),
{
    let mut r: Vec<Scalar> = Vec::new();
    let mut cur = y;
    let mut i: usize = 0;
    proof {
        lemma_small_mod(y.view() as nat, group_order() as nat);
        reveal(pow);
        assert(pow(y.view(), 1) == y.view() * pow(y.view(), 0));
    }
    while i < n
        invariant
            i <= n,
            y.wf(),
            cur.wf(),
            cur.view() == pow(y.view(), (i + 1) as nat) % group_order(),
            r@.len() == i,
            forall|j: int| 0 <= j < i ==> (#[trigger] r@[j]).wf()
                && r@[j].view() == pow(y.view(), (j + 1) as nat) % group_order(),
        decreases n - i,
    {
        r.push(cur);
        let next = cur.mul(&y);
        proof {
            let p = pow(y.view(), (i + 1) as nat);
            reveal(pow);
            assert(pow(y.view(), (i + 2) as nat) == y.view() * p);
            lemma_mul_mod_noop_left(p, y.view(), group_order());
        }
        cur = next;
        i += 1;
    }
    assert(views(r@) =~= powers(y.view(), n as nat));
    r
}

/// The inner product does not depend on the order of its arguments.
pub proof fn lemma_inner_product_commutes(a: Seq<int>, b: Seq<int>)
    requires
        a.len() == b.len(),
    ensures
        ip(a, b) == ip(b, a),
{
    lemma_dot_commutes(a, b);
}

proof fn lemma_dot_commutes(a: Seq<int>, b: Seq<int>)
    requires
        a.len() == b.len(),
    ensures
        dot(a, b) == dot(b, a),
    decreases a.len(),
{
    if a.len() > 0 {
        lemma_dot_commutes(a.drop_last(), b.drop_last());
        assert(a.last() * b.last() == b.last() * a.last()) by (nonlinear_arith);
    }
}

/// The Hadamard product is commutative.
pub proof fn lemma_hadamard_commutes(a: Seq<int>, b: Seq<int>)
    requires
        a.len() == b.len(),
    ensures
        hadamard(a, b) == hadamard(b, a),
{
    assert forall|i: int| 0 <= i < a.len() implies a[i] * b[i] == b[i] * a[i] by {
        assert(a[i] * b[i] == b[i] * a[i]) by (nonlinear_arith);
    }
    assert(hadamard(a, b) =~= hadamard(b, a));
}

/// The Hadamard product is associative.
pub proof fn lemma_hadamard_associates(a: Seq<int>, b: Seq<int>, c: Seq<int>)
    requires
        a.len() == b.len(),
        b.len() == c.len(),
    ensures
        hadamard(hadamard(a, b), c) == hadamard(a, hadamard(b, c)),
{
    let p = group_order();
    assert forall|i: int| 0 <= i < a.len() implies
        ((a[i] * b[i]) % p * c[i]) % p == (a[i] * ((b[i] * c[i]) % p)) % p by {
        lemma_mul_mod_noop_left(a[i] * b[i], c[i], p);
        lemma_mul_mod_noop_right(a[i], b[i] * c[i], p);
        lemma_mul_is_associative(a[i], b[i], c[i]);
    }
    assert(hadamard(hadamard(a, b), c) =~= hadamard(a, hadamard(b, c)));
}

/// The power sequence starts at `y` and ends at `yⁿ`.
pub proof fn lemma_powers_ends(y: int, n: nat)
    requires
        n >= 1,
    ensures
        powers(y, n)[0] == y % group_order(),
        powers(y, n)[n - 1] == pow(y, n) % group_order(),
{
    lemma_pow1(y);
}

} // verus!
