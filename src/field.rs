//! Scalars of the secp256k1 group: integers modulo the group order, held as
//! four little-endian 64-bit limbs.
use vstd::prelude::*;
use vstd::arithmetic::div_mod::lemma_fundamental_div_mod_converse;
use ark_ff::{BigInt, Field, PrimeField, UniformRand};
use ark_secp256k1::Fr;

verus! {

pub open spec fn limb_base() -> int {
    0x1_0000_0000_0000_0000
}

/// The integer held by four little-endian limbs.
pub open spec fn limbs_value(l0: u64, l1: u64, l2: u64, l3: u64) -> int {
    l0 as int + limb_base() * (l1 as int + limb_base() * (l2 as int + limb_base() * (l3 as int)))
}

/// The order of the secp256k1 group, which is the modulus of its scalar field.
pub open spec fn group_order() -> int {
    limbs_value(0xBFD25E8CD0364141, 0xBAAEDCE6AF48A03B, 0xFFFFFFFFFFFFFFFE, 0xFFFFFFFFFFFFFFFF)
}

/// A scalar of the group; canonical when its integer is below the group order.
#[derive(Clone, Copy, Debug, PartialEq, Eq, Structural)]
pub struct Scalar {
    pub l0: u64,
    pub l1: u64,
    pub l2: u64,
    pub l3: u64,
}

/// The integer held by little-endian bytes.
pub open spec fn le_value(b: Seq<u8>) -> int
    decreases b.len(),
{
    if b.len() == 0 {
        0
    } else {
        b[0] as int + 256 * le_value(b.drop_first())
    }
}

/// The eight bytes of a limb, most significant first.
pub open spec fn limb_be_bytes(x: u64) -> Seq<u8> {
    seq![
        (x >> 56u64) as u8, (x >> 48u64) as u8, (x >> 40u64) as u8, (x >> 32u64) as u8,
        (x >> 24u64) as u8, (x >> 16u64) as u8, (x >> 8u64) as u8, x as u8,
    ]
}

/// The canonical big-endian encoding of a scalar: 32 bytes.
pub open spec fn scalar_be_bytes(s: Scalar) -> Seq<u8> {
    limb_be_bytes(s.l3) + limb_be_bytes(s.l2) + limb_be_bytes(s.l1) + limb_be_bytes(s.l0)
}

/// The inverse of `x` modulo the group order, which is prime: the one
/// residue whose product with `x` is one.
pub open spec fn inverse_of(x: int) -> int {
    choose|i: int| 0 <= i < group_order() && #[trigger] (i * x) % group_order() == 1
}

/// The little-endian integer of the bytes, reduced modulo the group order.
pub fn from_le_bytes_mod_order(b: &Vec<u8>) -> (r: Scalar)
    ensures
        r.wf(),
        r.view() == le_value(b@) % group_order(),
{
    scalar_from_le_bytes(b)
}

/// A uniformly random scalar.
pub fn random_scalar() -> (r: Scalar)
    ensures
        r.wf(),
{
    scalar_random()
}

/// Comparing two-digit numbers in base `2⁶⁴`: the high parts decide unless
/// they are equal.
proof fn lemma_limb_compare(x0: int, y0: int, hx: int, hy: int)
    requires
        0 <= x0 < limb_base(),
        0 <= y0 < limb_base(),
        0 <= hx,
        0 <= hy,
    ensures
        (x0 + limb_base() * hx < y0 + limb_base() * hy) <==> (hx < hy || (hx == hy && x0 < y0)),
{
    let b = limb_base();
    if hx < hy {
        assert(x0 + b * hx < y0 + b * hy) by (nonlinear_arith)
            requires 0 <= x0 < b, 0 <= y0, hx < hy, b > 0;
    } else if hx > hy {
        assert(x0 + b * hx >= y0 + b * hy) by (nonlinear_arith)
            requires 0 <= x0, 0 <= y0 < b, hx > hy, b > 0;
    }
}

/// Two scalars that hold the same integer are the same scalar.
pub proof fn lemma_view_injective(a: Scalar, b: Scalar)
    requires
        a.view() == b.view(),
    ensures
        a == b,
{
    let base = limb_base();
    let ra2 = a.l2 as int + base * (a.l3 as int);
    let rb2 = b.l2 as int + base * (b.l3 as int);
    let ra1 = a.l1 as int + base * ra2;
    let rb1 = b.l1 as int + base * rb2;
    assert(a.view() == ra1 * base + a.l0 as int) by (nonlinear_arith)
        requires
            ra1 == a.l1 as int + base * ra2,
            ra2 == a.l2 as int + base * (a.l3 as int),
            a.view() == a.l0 as int + base * (a.l1 as int + base * (a.l2 as int + base * (a.l3 as int))),
    ;
    assert(b.view() == rb1 * base + b.l0 as int) by (nonlinear_arith)
        requires
            rb1 == b.l1 as int + base * rb2,
            rb2 == b.l2 as int + base * (b.l3 as int),
            b.view() == b.l0 as int + base * (b.l1 as int + base * (b.l2 as int + base * (b.l3 as int))),
    ;
    lemma_fundamental_div_mod_converse(a.view(), base, ra1, a.l0 as int);
    lemma_fundamental_div_mod_converse(b.view(), base, rb1, b.l0 as int);
    lemma_fundamental_div_mod_converse(ra1, base, ra2, a.l1 as int);
    lemma_fundamental_div_mod_converse(rb1, base, rb2, b.l1 as int);
    lemma_fundamental_div_mod_converse(ra2, base, a.l3 as int, a.l2 as int);
    lemma_fundamental_div_mod_converse(rb2, base, b.l3 as int, b.l2 as int);
}

fn push_limb(v: &mut Vec<u8>, x: u64)
    ensures
        final(v)@ == old(v)@ + limb_be_bytes(x),
{
    v.push((x >> 56u64) as u8);
    v.push((x >> 48u64) as u8);
    v.push((x >> 40u64) as u8);
    v.push((x >> 32u64) as u8);
    v.push((x >> 24u64) as u8);
    v.push((x >> 16u64) as u8);
    v.push((x >> 8u64) as u8);
    v.push(x as u8);
    assert(final(v)@ =~= old(v)@ + limb_be_bytes(x));
}

impl Scalar {
    pub open spec fn view(&self) -> int {
        limbs_value(self.l0, self.l1, self.l2, self.l3)
    }

    /// The limbs hold a canonical residue.
    pub open spec fn wf(&self) -> bool {
        self.view() < group_order()
    }

    /// The scalar `v`.
    pub fn from_u64(v: u64) -> (r: Scalar)
        ensures
            r == (Scalar { l0: v, l1: 0, l2: 0, l3: 0 }),
            r.wf(),
            r.view() == v as int,
    {
        Scalar { l0: v, l1: 0, l2: 0, l3: 0 }
    }

    pub fn zero() -> (r: Scalar)
        ensures
            r.wf(),
            r.view() == 0,
    {
        Scalar::from_u64(0)
    }

    pub fn one() -> (r: Scalar)
        ensures
            r.wf(),
            r.view() == 1,
    {
        Scalar::from_u64(1)
    }

    /// Equality, decided on the limbs.
    pub fn equals(&self, b: &Scalar) -> (r: bool)
        ensures
            r == (self.view() == b.view()),
    {
        proof {
            if self.view() == b.view() {
                lemma_view_injective(*self, *b);
            }
        }
        self.l0 == b.l0 && self.l1 == b.l1 && self.l2 == b.l2 && self.l3 == b.l3
    }

    /// Whether the limbs hold a canonical residue, below the group order.
    pub fn is_canonical(&self) -> (r: bool)
        ensures
            r == self.wf(),
    {
        proof {
            let b = limb_base();
            let s2 = self.l2 as int + b * (self.l3 as int);
            let p2 = 0xFFFFFFFFFFFFFFFEu64 as int + b * (0xFFFFFFFFFFFFFFFFu64 as int);
            let s1 = self.l1 as int + b * s2;
            let p1 = 0xBAAEDCE6AF48A03Bu64 as int + b * p2;
            assert(0 <= s2 && 0 <= p2) by (nonlinear_arith)
                requires s2 == self.l2 as int + b * (self.l3 as int), p2 == 0xFFFFFFFFFFFFFFFEu64 as int + b * (0xFFFFFFFFFFFFFFFFu64 as int), b > 0;
            assert(0 <= s1 && 0 <= p1) by (nonlinear_arith)
                requires s1 == self.l1 as int + b * s2, p1 == 0xBAAEDCE6AF48A03Bu64 as int + b * p2, b > 0, s2 >= 0, p2 >= 0;
            lemma_limb_compare(self.l0 as int, 0xBFD25E8CD0364141u64 as int, s1, p1);
            lemma_limb_compare(self.l1 as int, 0xBAAEDCE6AF48A03Bu64 as int, s2, p2);
            lemma_limb_compare(self.l2 as int, 0xFFFFFFFFFFFFFFFEu64 as int, self.l3 as int, 0xFFFFFFFFFFFFFFFFu64 as int);
        }
        self.l3 < 0xFFFFFFFFFFFFFFFFu64 || (self.l3 == 0xFFFFFFFFFFFFFFFFu64 && (self.l2 < 0xFFFFFFFFFFFFFFFEu64
            || (self.l2 == 0xFFFFFFFFFFFFFFFEu64 && (self.l1 < 0xBAAEDCE6AF48A03Bu64
            || (self.l1 == 0xBAAEDCE6AF48A03Bu64 && self.l0 < 0xBFD25E8CD0364141u64)))))
    }

    /// The canonical big-endian bytes.
    pub fn to_be_bytes(&self) -> (r: Vec<u8>)
        ensures
            r@ == scalar_be_bytes(*self),
    {
        let mut r: Vec<u8> = Vec::new();
        push_limb(&mut r, self.l3);
        push_limb(&mut r, self.l2);
        push_limb(&mut r, self.l1);
        push_limb(&mut r, self.l0);
        r
    }

    /// `-self`, as `0 - self`.
    pub fn neg(&self) -> (r: Scalar)
        requires
            self.wf(),
        ensures
            r.wf(),
            r.view() == (0 - self.view()) % group_order(),
    {
        Scalar::zero().sub(self)
    }

    /// `self + b` modulo the group order.
    pub fn add(&self, b: &Scalar) -> (r: Scalar)
        requires
            self.wf(),
            b.wf(),
        ensures
            r.wf(),
            r.view() == (self.view() + b.view()) % group_order(),
    {
        scalar_add(self, b)
    }

    /// `self - b` modulo the group order.
    pub fn sub(&self, b: &Scalar) -> (r: Scalar)
        requires
            self.wf(),
            b.wf(),
        ensures
            r.wf(),
            r.view() == (self.view() - b.view()) % group_order(),
    {
        scalar_sub(self, b)
    }

    /// `self · b` modulo the group order.
    pub fn mul(&self, b: &Scalar) -> (r: Scalar)
        requires
            self.wf(),
            b.wf(),
        ensures
            r.wf(),
            r.view() == (self.view() * b.view()) % group_order(),
    {
        scalar_mul(self, b)
    }

    /// The inverse modulo the group order; `None` for zero.
    pub fn inverse(&self) -> (r: Option<Scalar>)
        requires
            self.wf(),
        ensures
            self.view() == 0 <==> r.is_none(),
            r matches Some(i) ==> i.wf() && i.view() == inverse_of(self.view())
                && (i.view() * self.view()) % group_order() == 1,
    {
        scalar_inverse(self)
    }
}

/// Relies on ark-ff's `PrimeField::from_le_bytes_mod_order`: the
/// little-endian integer of the bytes, reduced modulo the group order.
#[verifier::external_body]
fn scalar_from_le_bytes(b: &Vec<u8>) -> (r: Scalar)
    ensures
        r.wf(),
        r.view() == le_value(b@) % group_order(),
{
    let l = Fr::from_le_bytes_mod_order(b.as_slice()).into_bigint().0;
    Scalar { l0: l[0], l1: l[1], l2: l[2], l3: l[3] }
}

/// Relies on ark-ff's `UniformRand` for `Fr`, drawn from rand's thread-local
/// generator: a canonical scalar, nothing more.
#[verifier::external_body]
fn scalar_random() -> (r: Scalar)
    ensures
        r.wf(),
{
    let l = Fr::rand(&mut rand::thread_rng()).into_bigint().0;
    Scalar { l0: l[0], l1: l[1], l2: l[2], l3: l[3] }
}

/// Relies on ark-ff's addition in `Fr`: the sum modulo the group order.
#[verifier::external_body]
fn scalar_add(a: &Scalar, b: &Scalar) -> (r: Scalar)
    requires
        a.wf(),
        b.wf(),
    ensures
        r.wf(),
        r.view() == (a.view() + b.view()) % group_order(),
{
    let s = Fr::from_bigint(BigInt::new([a.l0, a.l1, a.l2, a.l3])).unwrap()
        + Fr::from_bigint(BigInt::new([b.l0, b.l1, b.l2, b.l3])).unwrap();
    let l = s.into_bigint().0;
    Scalar { l0: l[0], l1: l[1], l2: l[2], l3: l[3] }
}

/// Relies on ark-ff's subtraction in `Fr`: the difference modulo the group order.
#[verifier::external_body]
fn scalar_sub(a: &Scalar, b: &Scalar) -> (r: Scalar)
    requires
        a.wf(),
        b.wf(),
    ensures
        r.wf(),
        r.view() == (a.view() - b.view()) % group_order(),
{
    let s = Fr::from_bigint(BigInt::new([a.l0, a.l1, a.l2, a.l3])).unwrap()
        - Fr::from_bigint(BigInt::new([b.l0, b.l1, b.l2, b.l3])).unwrap();
    let l = s.into_bigint().0;
    Scalar { l0: l[0], l1: l[1], l2: l[2], l3: l[3] }
}

/// Relies on ark-ff's multiplication in `Fr`: the product modulo the group order.
#[verifier::external_body]
fn scalar_mul(a: &Scalar, b: &Scalar) -> (r: Scalar)
    requires
        a.wf(),
        b.wf(),
    ensures
        r.wf(),
        r.view() == (a.view() * b.view()) % group_order(),
{
    let s = Fr::from_bigint(BigInt::new([a.l0, a.l1, a.l2, a.l3])).unwrap()
        * Fr::from_bigint(BigInt::new([b.l0, b.l1, b.l2, b.l3])).unwrap();
    let l = s.into_bigint().0;
    Scalar { l0: l[0], l1: l[1], l2: l[2], l3: l[3] }
}

/// Relies on ark-ff's `Field::inverse` in `Fr`: `None` for zero, else the
/// scalar whose product with `a` is one modulo the group order.
#[verifier::external_body]
fn scalar_inverse(a: &Scalar) -> (r: Option<Scalar>)
    requires
        a.wf(),
    ensures
        a.view() == 0 <==> r.is_none(),
        r matches Some(i) ==> i.wf() && i.view() == inverse_of(a.view())
            && (i.view() * a.view()) % group_order() == 1,
{
    let f = Fr::from_bigint(BigInt::new([a.l0, a.l1, a.l2, a.l3])).unwrap();
    f.inverse().map(|s| {
        let l = s.into_bigint().0;
        Scalar { l0: l[0], l1: l[1], l2: l[2], l3: l[3] }
    })
}

} // verus!
