//! A FROST-style threshold Schnorr protocol over the decaf377 group:
//! distributed key generation with Feldman commitments and Schnorr proofs
//! of knowledge, followed by two-round threshold signing with Lagrange
//! aggregation.

use vstd::prelude::*;

pub mod dkg;
pub mod frost;
pub mod group;
pub mod polynomial;
pub mod schnorr;
pub mod signing;
pub mod signing_key;

pub use frost::FrostSigner;
pub use schnorr::Signature;

verus! {

/// The errors of the protocol, split as the design requires: configuration
/// mistakes are fatal, verification failures name the offending participant,
/// quorum failures are retryable, and state errors mark misuse of the API.
#[derive(Clone, Copy, Debug, PartialEq, Eq, Structural)]
pub enum FrostError {
    /// Invalid `(n, t)` parameters, a zero identifier, or a malformed
    /// commitment length.
    Configuration,
    /// A proof of knowledge or a Feldman share check failed; carries the
    /// identifier of the participant whose material was rejected.
    Verification(u64),
    /// Fewer than `t` verified peers or responding signers.
    Quorum,
    /// An operation was invoked out of sequence.
    ProtocolState,
}

/// A nonzero participant identifier, unique within one committee run.
#[derive(Clone, Copy, Debug, PartialEq, Eq, Structural)]
pub struct ParticipantIndex(pub u64);

impl ParticipantIndex {
    /// Zero is the reserved invalid sentinel, so it is rejected as a
    /// configuration error rather than accepted or aborted on.
    pub fn new(x: u64) -> (r: Result<Self, FrostError>)
        ensures
            x != 0 ==> r == Ok::<Self, FrostError>(ParticipantIndex(x)),
            x == 0 ==> r == Err::<Self, FrostError>(FrostError::Configuration),
    {
        if x == 0 {
            Err(FrostError::Configuration)
        } else {
            Ok(ParticipantIndex(x))
        }
    }
}

} // verus!
