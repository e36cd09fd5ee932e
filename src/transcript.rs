//! The Fiat–Shamir transcript: labelled, domain-separated absorption of
//! bytes, scalars and points, and scalar challenges squeezed from what was
//! absorbed, on top of a merlin transcript.
use vstd::prelude::*;
use vstd::string::StringSliceAdditionalSpecFns;
use crate::field::{from_le_bytes_mod_order, group_order, le_value, scalar_be_bytes, Scalar};
use crate::group::{compressed_of, Point, POINT_BYTES};

verus! {

/// merlin's `Transcript`, carried as an opaque value; what it has absorbed
/// is named by `transcript_record`.
#[verifier::external_type_specification]
#[verifier::external_body]
pub struct ExTranscript(merlin::Transcript);

/// One operation on a transcript: `(false, label, message)` for an
/// absorbed message, `(true, label, output)` for squeezed challenge bytes.
pub type Entry = (bool, Seq<u8>, Seq<u8>);

/// The operations a merlin transcript has gone through, in order.
pub uninterp spec fn transcript_record(t: merlin::Transcript) -> Seq<Entry>;

/// The `len` challenge bytes that merlin squeezes under `label` from a
/// transcript with the given record.
pub uninterp spec fn challenge_output(record: Seq<Entry>, label: Seq<u8>, len: nat) -> Seq<u8>;

/// The label under which merlin absorbs the protocol's own label.
pub open spec fn dom_sep_label() -> Seq<u8> {
    seq![100u8, 111u8, 109u8, 45u8, 115u8, 101u8, 112u8]
}

/// The number of challenge bytes reduced to one scalar.
pub const CHALLENGE_BYTES: usize = 64;

/// The record after a challenge is squeezed under `label`.
pub open spec fn record_after_challenge(record: Seq<Entry>, label: Seq<u8>) -> Seq<Entry> {
    record.push((true, label, challenge_output(record, label, CHALLENGE_BYTES as nat)))
}

/// The scalar squeezed under `label` from a transcript with this record.
pub open spec fn challenge_value(record: Seq<Entry>, label: Seq<u8>) -> int {
    le_value(challenge_output(record, label, CHALLENGE_BYTES as nat)) % group_order()
}

/// The bytes absorbed for a sequence of points: their compressed encodings,
/// one after another.
pub open spec fn points_bytes(ps: Seq<Point>) -> Seq<u8>
    decreases ps.len(),
{
    if ps.len() == 0 {
        Seq::empty()
    } else {
        points_bytes(ps.drop_last()) + compressed_of(ps.last())
    }
}

/// Relies on merlin's `Transcript::new`, which starts from the protocol
/// label of merlin and absorbs `label` under `dom-sep`.
#[verifier::external_body]
fn merlin_new(label: &'static str) -> (r: merlin::Transcript)
    ensures
        transcript_record(r) == seq![(false, dom_sep_label(), label.spec_bytes())],
{
    merlin::Transcript::new(label.as_bytes())
}

/// Relies on merlin's `Transcript::append_message`, which panics on a
/// message longer than `u32::MAX` bytes.
#[verifier::external_body]
fn merlin_append(t: &mut merlin::Transcript, label: &'static str, message: &Vec<u8>)
    requires
        message@.len() <= u32::MAX,
    ensures
        transcript_record(*final(t)) == transcript_record(*old(t)).push((false, label.spec_bytes(), message@)),
{
    t.append_message(label.as_bytes(), message.as_slice())
}

/// Relies on merlin's `Transcript::challenge_bytes`, which fills the buffer
/// it is given and records the squeeze in the transcript.
#[verifier::external_body]
fn merlin_challenge(t: &mut merlin::Transcript, label: &'static str) -> (r: Vec<u8>)
    ensures
        r@ == challenge_output(transcript_record(*old(t)), label.spec_bytes(), CHALLENGE_BYTES as nat),
        transcript_record(*final(t)) == transcript_record(*old(t)).push((true, label.spec_bytes(), r@)),
{
    let mut r: Vec<u8> = vec![0u8; CHALLENGE_BYTES];
    t.challenge_bytes(label.as_bytes(), r.as_mut_slice());
    r
}

/// A transcript owned by one proving or verifying run.
pub struct ProofTranscript {
    inner: merlin::Transcript,
}

impl ProofTranscript {
    /// The operations absorbed and squeezed so far.
    pub closed spec fn record(&self) -> Seq<Entry> {
        transcript_record(self.inner)
    }

    /// A transcript for the protocol named `label`.
    pub fn new(label: &'static str) -> (r: ProofTranscript)
        ensures
            r.record() == seq![(false, dom_sep_label(), label.spec_bytes())],
    {
        ProofTranscript { inner: merlin_new(label) }
    }

    /// Absorbs `message` under `label`.
    pub fn append_message(&mut self, label: &'static str, message: &Vec<u8>)
        requires
            message@.len() <= u32::MAX,
        ensures
            final(self).record() == old(self).record().push((false, label.spec_bytes(), message@)),
    {
        merlin_append(&mut self.inner, label, message);
    }

    /// Absorbs a scalar as its 32 big-endian bytes.
    pub fn append_scalar(&mut self, label: &'static str, s: &Scalar)
        ensures
            final(self).record() == old(self).record().push((false, label.spec_bytes(), scalar_be_bytes(*s))),
    {
        let b = s.to_be_bytes();
        self.append_message(label, &b);
    }

    /// Absorbs points as their compressed encodings, one after another.
    pub fn append_points(&mut self, label: &'static str, ps: &Vec<Point>)
        requires
            ps@.len() * POINT_BYTES <= u32::MAX,
        ensures
            final(self).record() == old(self).record().push((false, label.spec_bytes(), points_bytes(ps@))),
    {
        let mut b: Vec<u8> = Vec::new();
        let mut i: usize = 0;
        while i < ps.len()
            invariant
                i <= ps.len(),
                ps@.len() * POINT_BYTES <= u32::MAX,
                b@ == points_bytes(ps@.subrange(0, i as int)),
                b@.len() == i * POINT_BYTES,
            decreases ps.len() - i,
        {
            let c = ps[i].to_compressed();
            b.append(&mut c.clone());
            proof {
                assert(ps@.subrange(0, i + 1).drop_last() =~= ps@.subrange(0, i as int));
                assert((i + 1) * POINT_BYTES <= ps@.len() * POINT_BYTES) by (nonlinear_arith)
                    requires i + 1 <= ps@.len();
            }
            i += 1;
        }
        assert(ps@.subrange(0, ps.len() as int) =~= ps@);
        self.append_message(label, &b);
    }

    /// Squeezes a scalar under `label`: 64 challenge bytes read as a
    /// little-endian integer and reduced modulo the group order.
    pub fn challenge_scalar(&mut self, label: &'static str) -> (r: Scalar)
        ensures
            r.wf(),
            r.view() == challenge_value(old(self).record(), label.spec_bytes()),
            final(self).record() == record_after_challenge(old(self).record(), label.spec_bytes()),
    {
        let b = merlin_challenge(&mut self.inner, label);
        from_le_bytes_mod_order(&b)
    }
}

/// The name under which a constraint system separates its domain:
/// `schnorrzkp/ark-ec`.
pub open spec fn constraint_domain() -> Seq<u8> {
    seq![115u8, 99u8, 104u8, 110u8, 111u8, 114u8, 114u8, 122u8, 107u8, 112u8, 47u8, 97u8, 114u8, 107u8, 45u8, 101u8, 99u8]
}

/// The bytes of a string.
fn bytes_of(s: &str) -> (r: Vec<u8>)
    ensures
        r@ == s.spec_bytes(),
{
    let b = s.as_bytes();
    let mut r: Vec<u8> = Vec::new();
    let mut i: usize = 0;
    while i < b.len()
        invariant
            i <= b@.len(),
            b@ == s.spec_bytes(),
            r@ == b@.subrange(0, i as int),
        decreases b@.len() - i,
    {
        r.push(b[i]);
        assert(r@ =~= b@.subrange(0, i + 1));
        i += 1;
    }
    assert(r@ =~= b@);
    r
}

/// How a constraint system writes its variables into a transcript.
pub trait TranscriptProtocol {
    /// The operations absorbed and squeezed so far.
    spec fn entries(&self) -> Seq<Entry>;

    /// Absorbs the constraint system's domain name and then `label`, both
    /// under `dom-sep`.
    fn domain_sep(&mut self, label: &'static str)
        requires
            label.spec_bytes().len() <= u32::MAX,
        ensures
            final(self).entries() == old(self).entries()
                .push((false, "dom-sep".spec_bytes(), constraint_domain()))
                .push((false, "dom-sep".spec_bytes(), label.spec_bytes())),
    ;

    /// Absorbs the label of a scalar variable.
    fn append_scalar_var(&mut self, label: &'static str)
        requires
            label.spec_bytes().len() <= u32::MAX,
        ensures
            final(self).entries() == old(self).entries().push((false, "scalarvar".spec_bytes(), label.spec_bytes())),
    ;

    /// Absorbs the label of a group variable and then the point itself.
    fn append_group_var(&mut self, label: &'static str, group: &Point)
        requires
            label.spec_bytes().len() <= u32::MAX,
        ensures
            final(self).entries() == old(self).entries()
                .push((false, "groupvar".spec_bytes(), label.spec_bytes()))
                .push((false, "val".spec_bytes(), compressed_of(*group))),
    ;
}

impl TranscriptProtocol for ProofTranscript {
    open spec fn entries(&self) -> Seq<Entry> {
        self.record()
    }

    fn domain_sep(&mut self, label: &'static str) {
        let name: Vec<u8> = vec![115u8, 99u8, 104u8, 110u8, 111u8, 114u8, 114u8, 122u8, 107u8, 112u8, 47u8, 97u8, 114u8, 107u8, 45u8, 101u8, 99u8];
        assert(name@ =~= constraint_domain());
        self.append_message("dom-sep", &name);
        self.append_message("dom-sep", &bytes_of(label));
    }

    fn append_scalar_var(&mut self, label: &'static str) {
        self.append_message("scalarvar", &bytes_of(label));
    }

    fn append_group_var(&mut self, label: &'static str, group: &Point) {
        self.append_message("groupvar", &bytes_of(label));
        let c = group.to_compressed();
        self.append_message("val", &c);
    }
}

} // verus!
