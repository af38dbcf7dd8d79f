//! A standalone secret polynomial and its public counterpart: the signing
//! key holds the scalar coefficients, the verification key the generator
//! multiples of those coefficients.

use vstd::prelude::*;

use crate::group::{
    basepoint, elem_scalar_mul, fr_order, fr_valid, group_log_of, scalar_of,
};
use crate::polynomial::{horner_eval, poly_eval, scalars_of};

verus! {

/// The public counterpart of a signing key: one group element per
/// coefficient.
pub struct VerificationKey {
    pub coefficients: Vec<decaf377::Element>,
}

/// A secret polynomial over the scalar field.
pub struct SigningKey {
    pub coefficients: Vec<decaf377::Fr>,
}

impl SigningKey {
    /// Commit to every coefficient: the verification key multiplies each
    /// one by the generator.
    pub fn to_public_signing_key(&self) -> (r: VerificationKey)
        ensures
            r.coefficients@.len() == self.coefficients@.len(),
            forall|i: int|
                0 <= i < r.coefficients@.len() ==> #[trigger] group_log_of(r.coefficients@[i])
                    == scalar_of(self.coefficients@[i]) % fr_order(),
    {
        let generator = basepoint();
        let mut coefficients: Vec<decaf377::Element> = Vec::new();
        let mut k: usize = 0;
        while k < self.coefficients.len()
            invariant
                k == coefficients@.len(),
                k <= self.coefficients@.len(),
                group_log_of(generator) == 1,
                forall|i: int|
                    0 <= i < k ==> #[trigger] group_log_of(coefficients@[i]) == scalar_of(
                        self.coefficients@[i],
                    ) % fr_order(),
            decreases self.coefficients@.len() - k,
        {
            coefficients.push(elem_scalar_mul(&self.coefficients[k], &generator));
            k = k + 1;
        }
        VerificationKey { coefficients }
    }

    /// Evaluate the polynomial at the given point using Horner's method.
    pub fn evaluate(&self, point: &decaf377::Fr) -> (r: decaf377::Fr)
        ensures
            scalar_of(r) == poly_eval(scalars_of(self.coefficients@), scalar_of(*point)),
            fr_valid(scalar_of(r)),
    {
        horner_eval(&self.coefficients, point)
    }
}

} // verus!
