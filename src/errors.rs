//! Error types.
use vstd::prelude::*;

verus! {

/// Failures of the transcript.
#[derive(Clone, Debug, PartialEq, Eq)]
pub enum TranscriptError {
    /// The transcript was driven out of the protocol's order.
    InvalidTranscript(String),
}

/// Failures of the commitment scheme.
#[derive(Clone, Debug, PartialEq, Eq)]
pub enum CommitmentErrors {
    InvalidProver(String),
    InvalidVerifier(String),
    InvalidProof(String),
    /// Lengths that do not match the parameters.
    InvalidParameters(String),
}

/// Failures of the proof systems: the inner-product argument and the ring
/// signature.
#[derive(Clone, Debug, PartialEq, Eq)]
pub enum SigmaErrors {
    /// A length mismatch, a length that is not a power of two, an empty or
    /// oversized ring, a key missing from the ring.
    InvalidParameters(String),
    /// Any failed verification check.
    InvalidProof(String),
    /// Malformed point or scalar bytes.
    SerializationError(String),
    TranscriptError(TranscriptError),
    CommitmentErrors(CommitmentErrors),
}

} // verus!
