//! Points of the secp256k1 group, held in canonical affine coordinates, and
//! the group operations that the protocols use.
use vstd::prelude::*;
use ark_ec::{AffineRepr, CurveGroup, VariableBaseMSM};
use ark_ff::{BigInt, PrimeField, UniformRand};
use ark_secp256k1::{Affine, Fq, Fr, Projective};
use ark_serialize::CanonicalSerialize;
use crate::field::Scalar;
use crate::vec::{all_wf, views};

verus! {

/// A group element in affine form, each coordinate an element of the base
/// field as four little-endian limbs. The identity has both coordinates zero
/// and `infinity` set; every point the operations below return is in this
/// canonical form, so equal points have equal fields.
#[derive(Clone, Copy, Debug, Eq)]
pub struct Point {
    pub x: [u64; 4],
    pub y: [u64; 4],
    pub infinity: bool,
}

impl PartialEq for Point {
    fn eq(&self, o: &Point) -> (r: bool) {
        let r = self.x[0] == o.x[0] && self.x[1] == o.x[1] && self.x[2] == o.x[2] && self.x[3] == o.x[3]
            && self.y[0] == o.y[0] && self.y[1] == o.y[1] && self.y[2] == o.y[2] && self.y[3] == o.y[3]
            && self.infinity == o.infinity;
        proof {
            broadcast use vstd::array::group_array_axioms;
            if r {
                assert(self.x =~= o.x);
                assert(self.y =~= o.y);
            }
        }
        r
    }
}

impl vstd::std_specs::cmp::PartialEqSpecImpl for Point {
    open spec fn obeys_eq_spec() -> bool {
        true
    }

    open spec fn eq_spec(&self, o: &Point) -> bool {
        *self == *o
    }
}

/// The length of a compressed point.
pub const POINT_BYTES: usize = 33;

/// What `Σ scalars[i]·bases[i]` is in the group.
pub uninterp spec fn msm_of(bases: Seq<Point>, scalars: Seq<int>) -> Point;

/// What `a + b` is in the group.
pub uninterp spec fn sum_of(a: Point, b: Point) -> Point;

/// What `s·p` is in the group.
pub uninterp spec fn scaled_of(p: Point, s: int) -> Point;

/// The compressed encoding of a point.
pub uninterp spec fn compressed_of(p: Point) -> Seq<u8>;

/// Relies on ark-ec's `VariableBaseMSM::msm` over secp256k1, which returns
/// `Ok` when the two slices have the same length.
#[verifier::external_body]
fn group_msm(bases: &Vec<Point>, scalars: &Vec<Scalar>) -> (r: Point)
    requires
        bases.len() == scalars.len(),
        all_wf(scalars@),
    ensures
        r == msm_of(bases@, views(scalars@)),
{
    let b: Vec<Affine> = bases.iter().map(|p| Affine { x: Fq::new(BigInt(p.x)), y: Fq::new(BigInt(p.y)), infinity: p.infinity }).collect();
    let s: Vec<Fr> = scalars.iter().map(|c| Fr::from_bigint(BigInt([c.l0, c.l1, c.l2, c.l3])).unwrap()).collect();
    let a = Projective::msm(&b, &s).unwrap().into_affine();
    Point { x: a.x.into_bigint().0, y: a.y.into_bigint().0, infinity: a.infinity }
}

impl Point {
    /// `self + o` in the group.
    pub fn add(&self, o: &Point) -> (r: Point)
        ensures
            r == sum_of(*self, *o),
    {
        point_add(self, o)
    }

    /// `s·self` in the group.
    pub fn mul(&self, s: &Scalar) -> (r: Point)
        requires
            s.wf(),
        ensures
            r == scaled_of(*self, s.view()),
    {
        point_mul(self, s)
    }

    /// The compressed encoding: 33 bytes.
    pub fn to_compressed(&self) -> (r: Vec<u8>)
        ensures
            r@ == compressed_of(*self),
            r@.len() == POINT_BYTES,
    {
        point_compressed(self)
    }
}

/// Relies on ark-ec's `AffineRepr::generator` for secp256k1, the curve's
/// conventional generator, a point other than the identity.
#[verifier::external_body]
fn generator_point() -> (r: Point)
    ensures
        !r.infinity,
{
    let a = Affine::generator();
    Point { x: a.x.into_bigint().0, y: a.y.into_bigint().0, infinity: a.infinity }
}

/// Relies on ark-ec's `UniformRand` for secp256k1 affine points, drawn from
/// rand's thread-local generator: a point, nothing more.
#[verifier::external_body]
fn sample_point() -> (r: Point)
{
    let a = Affine::rand(&mut rand::thread_rng());
    Point { x: a.x.into_bigint().0, y: a.y.into_bigint().0, infinity: a.infinity }
}

/// Relies on ark-ec's point addition over secp256k1.
#[verifier::external_body]
fn point_add(p: &Point, o: &Point) -> (r: Point)
    ensures
        r == sum_of(*p, *o),
{
    let a = Affine { x: Fq::new(BigInt(p.x)), y: Fq::new(BigInt(p.y)), infinity: p.infinity };
    let q = Affine { x: Fq::new(BigInt(o.x)), y: Fq::new(BigInt(o.y)), infinity: o.infinity };
    let a = (a + q).into_affine();
    Point { x: a.x.into_bigint().0, y: a.y.into_bigint().0, infinity: a.infinity }
}

/// Relies on ark-ec's scalar multiplication over secp256k1.
#[verifier::external_body]
fn point_mul(p: &Point, s: &Scalar) -> (r: Point)
    requires
        s.wf(),
    ensures
        r == scaled_of(*p, s.view()),
{
    let p = Affine { x: Fq::new(BigInt(p.x)), y: Fq::new(BigInt(p.y)), infinity: p.infinity };
    let a = (p * Fr::from_bigint(BigInt([s.l0, s.l1, s.l2, s.l3])).unwrap()).into_affine();
    Point { x: a.x.into_bigint().0, y: a.y.into_bigint().0, infinity: a.infinity }
}

/// Relies on ark-serialize's `serialize_compressed` for secp256k1 points,
/// which cannot fail when writing into a `Vec` and writes the x
/// coordinate with two flag bits: 33 bytes.
#[verifier::external_body]
fn point_compressed(p: &Point) -> (r: Vec<u8>)
    ensures
        r@ == compressed_of(*p),
        r@.len() == POINT_BYTES,
{
    let p = Affine { x: Fq::new(BigInt(p.x)), y: Fq::new(BigInt(p.y)), infinity: p.infinity };
    let mut r: Vec<u8> = Vec::new();
    p.serialize_compressed(&mut r).unwrap();
    r
}

/// `Σ scalars[i]·bases[i]`.
pub fn msm(bases: &Vec<Point>, scalars: &Vec<Scalar>) -> (r: Point)
    requires
        bases.len() == scalars.len(),
        all_wf(scalars@),
    ensures
        r == msm_of(bases@, views(scalars@)),
{
    group_msm(bases, scalars)
}

/// The curve's conventional generator.
pub fn curve_generator() -> (r: Point)
    ensures
        !r.infinity,
{
    generator_point()
}

/// A uniformly random point.
pub fn random_point() -> (r: Point) {
    sample_point()
}

} // verus!
