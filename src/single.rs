//! A Pedersen commitment to one scalar, `g·m + h·r`, that keeps its own
//! opening.
use vstd::prelude::*;
use crate::field::{random_scalar, Scalar};
use crate::group::{curve_generator, random_point, scaled_of, sum_of, Point};

verus! {

/// The two generators.
#[derive(Clone, Copy, Debug)]
pub struct Params {
    pub g: Point,
    pub h: Point,
}

/// A commitment together with the message and blinding scalar it opens to.
#[derive(Clone, Copy, Debug)]
pub struct Pedersen {
    pub params: Params,
    pub commitment: Point,
    pub message: Scalar,
    pub random: Scalar,
}

/// `g·m + h·r`.
pub open spec fn single_commitment(params: Params, m: int, r: int) -> Point {
    sum_of(scaled_of(params.g, m), scaled_of(params.h, r))
}

impl Pedersen {
    /// The message and blinding scalar held.
    pub open spec fn opening(&self) -> (Scalar, Scalar) {
        (self.message, self.random)
    }

    /// The committed scalars are canonical.
    pub open spec fn wf(&self) -> bool {
        self.message.wf() && self.random.wf()
    }

    /// Both generators at the curve's generator, the commitment at the
    /// generator, and a zero opening.
    pub fn new() -> (r: Pedersen)
        ensures
            r.wf(),
            r.params.g == r.params.h,
            r.commitment == r.params.g,
            r.opening().0.view() == 0,
            r.opening().1.view() == 0,
    {
        let g = curve_generator();
        Pedersen {
            params: Params { g, h: g },
            commitment: g,
            message: Scalar::zero(),
            random: Scalar::zero(),
        }
    }

    /// Draws two fresh random generators.
    pub fn setup(&mut self)
        requires
            old(self).wf(),
        ensures
            final(self).wf(),
            final(self).commitment == old(self).commitment,
            final(self).opening() == old(self).opening(),
    {
        self.params.g = random_point();
        self.params.h = random_point();
    }

    /// Commits to `message` with a fresh blinding scalar.
    pub fn commit(&mut self, message: &Scalar)
        requires
            message.wf(),
        ensures
            final(self).wf(),
            final(self).params == old(self).params,
            final(self).opening().0 == *message,
            final(self).commitment == single_commitment(final(self).params, message.view(), final(self).opening().1.view()),
    {
        self.message = *message;
        self.random = random_scalar();
        let gm = self.params.g.mul(&self.message);
        let hr = self.params.h.mul(&self.random);
        self.commitment = gm.add(&hr);
    }

    /// The message and the blinding scalar.
    pub fn open(&self) -> (r: (Scalar, Scalar))
        ensures
            r == self.opening(),
    {
        (self.message, self.random)
    }
}

/// Whether the commitment opens to `message` and `random`.
pub fn verify(pedcom: &Pedersen, message: &Scalar, random: &Scalar) -> (r: bool)
    requires
        message.wf(),
        random.wf(),
    ensures
        r == (pedcom.commitment == single_commitment(pedcom.params, message.view(), random.view())),
{
    let gm = pedcom.params.g.mul(message);
    let hr = pedcom.params.h.mul(random);
    pedcom.commitment == gm.add(&hr)
}

} // verus!
