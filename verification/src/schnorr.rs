//! The Schnorr signature shape `(R, z)`: a commitment to an ephemeral nonce
//! and a challenge response.  The same shape serves as the proof of
//! knowledge during key generation and as the final threshold signature.

use vstd::prelude::*;

use crate::group::{elem_identity, fr_zero, group_log_of, scalar_of};

verus! {

pub struct Signature {
    /// A public commitment to a random scalar.
    pub commitment: decaf377::Element,
    /// The response scalar: the nonce plus the challenge times the secret.
    pub challenge_response: decaf377::Fr,
}

impl Default for Signature {
    /// The identity commitment with a zero response.
    fn default() -> (r: Self)
        ensures
            group_log_of(r.commitment) == 0,
            scalar_of(r.challenge_response) == 0,
    {
        Self { commitment: elem_identity(), challenge_response: fr_zero() }
    }
}

} // verus!
