use vstd::prelude::*;

verus! {

/// Why an operation of the protocol failed.
#[derive(Clone, Copy, Debug, PartialEq, Eq, Structural)]
pub enum ProtocolError {
    /// Byte input at a boundary was malformed or had the wrong length.
    DecodeError,
    /// The point derived from a secret does not lie on the curve.
    InvalidKey,
    /// The member looked for does not occur in the ring.
    MemberNotFound,
    /// No basis element could be had for a ring index.
    LookupFailure,
    /// The prover rejected the secret for the opened position.
    ProofCreationFailure,
    /// The proof does not hold for the given ring, context and message.
    ProofValidationFailure,
}

} // verus!
