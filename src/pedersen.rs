//! Pedersen vector commitments: `Commit(m, r) = g·r + Σ H[i]·m[i]`.
use vstd::prelude::*;
use crate::errors::CommitmentErrors;
use crate::field::Scalar;
use crate::group::{msm, msm_of, random_point, scaled_of, sum_of, Point};
use crate::vec::{all_wf, views};

verus! {

/// The generators: `generator` for the blinding scalar, `vec_gen` for the
/// message.
#[derive(Clone, Debug)]
pub struct PedersenParams {
    pub generator: Point,
    pub vec_gen: Vec<Point>,
}

/// An opening of a commitment: the message and the blinding scalar.
#[derive(Clone, Debug)]
pub struct PedersenOpening {
    pub message: Vec<Scalar>,
    pub random: Scalar,
}

/// The commitment to `m` with blinding `r`.
pub open spec fn commitment_of(generator: Point, vec_gen: Seq<Point>, m: Seq<int>, r: int) -> Point {
    sum_of(scaled_of(generator, r), msm_of(vec_gen, m))
}

pub struct PedersenCommitmentScheme;

impl PedersenCommitmentScheme {
    /// Parameters for messages of `supported_size` scalars: a fresh random
    /// point for the blinding scalar and one for each message position.
    pub fn setup(supported_size: usize) -> (r: Result<PedersenParams, CommitmentErrors>)
        ensures
            r matches Ok(p) && p.vec_gen.len() == supported_size,
    {
        let generator = random_point();
        let mut vec_gen: Vec<Point> = Vec::new();
        let mut i: usize = 0;
        while i < supported_size
            invariant
                i <= supported_size,
                vec_gen.len() == i,
            decreases supported_size - i,
        {
            vec_gen.push(random_point());
            i += 1;
        }
        Ok(PedersenParams { generator, vec_gen })
    }

    /// `g·r + MSM(H, m)`; fails when `m` and the generators differ in length.
    pub fn commit(params: &PedersenParams, m: &Vec<Scalar>, r: &Scalar, info: &str) -> (res: Result<Point, CommitmentErrors>)
        requires
            all_wf(m@),
            r.wf(),
        ensures
            m.len() != params.vec_gen.len() <==> res matches Err(CommitmentErrors::InvalidParameters(_)),
            m.len() == params.vec_gen.len() <==> res is Ok,
            res matches Ok(c) ==> c == commitment_of(params.generator, params.vec_gen@, views(m@), r.view()),
    {
        if m.len() != params.vec_gen.len() {
            return Err(CommitmentErrors::InvalidParameters(
                "message length should equal to the generator length".to_owned(),
            ));
        }
        let h = msm(&params.vec_gen, m);
        Ok(params.generator.mul(r).add(&h))
    }

    /// The opening `(m, r)`.
    pub fn open(m: &Vec<Scalar>, r: &Scalar) -> (res: Result<PedersenOpening, CommitmentErrors>)
        ensures
            res matches Ok(o) && o.message@ == m@ && o.random == *r,
    {
        let mut message: Vec<Scalar> = Vec::new();
        let mut i: usize = 0;
        while i < m.len()
            invariant
                i <= m.len(),
                message@ == m@.subrange(0, i as int),
            decreases m.len() - i,
        {
            message.push(m[i]);
            assert(message@ =~= m@.subrange(0, i + 1));
            i += 1;
        }
        assert(m@.subrange(0, m.len() as int) =~= m@);
        Ok(PedersenOpening { message, random: *r })
    }

    /// Whether `cm` is the commitment to the opening.
    pub fn verify(params: &PedersenParams, cm: &Point, open: &PedersenOpening) -> (res: Result<bool, CommitmentErrors>)
        requires
            all_wf(open.message@),
            open.random.wf(),
        ensures
            open.message.len() != params.vec_gen.len() <==> res matches Err(CommitmentErrors::InvalidParameters(_)),
            open.message.len() == params.vec_gen.len() <==> res is Ok,
            res matches Ok(b) ==> b == (*cm == commitment_of(params.generator, params.vec_gen@, views(open.message@), open.random.view())),
    {
        let c = PedersenCommitmentScheme::commit(params, &open.message, &open.random, "check")?;
        Ok(c == *cm)
    }
}

} // verus!
