//! Trusted view of the decaf377 group: the scalar field `Fr` of the group
//! order, the group elements, and the generator.
//!
//! The group is cyclic of prime order, so every element is a unique scalar
//! multiple of the generator.  The contracts below therefore describe each
//! element by its discrete logarithm with respect to the generator
//! (`group_log_of`), and each scalar by its canonical integer value
//! (`scalar_of`).  Both are abstraction functions only: nothing here claims
//! to compute a discrete logarithm.

use vstd::prelude::*;

verus! {

#[verifier::external_type_specification]
#[verifier::external_body]
pub struct ExFr(decaf377::Fr);

#[verifier::external_type_specification]
#[verifier::external_body]
pub struct ExElement(decaf377::Element);

// The canonical integer value of a scalar, in `0 .. fr_order()`.
pub uninterp spec fn scalar_of(x: decaf377::Fr) -> int;

// The discrete logarithm of a group element with respect to the generator:
// the unique integer in `0 .. fr_order()` whose scalar multiple of the
// generator equals the element.
pub uninterp spec fn group_log_of(e: decaf377::Element) -> int;

// The canonical 32-byte encoding of the group element whose discrete
// logarithm is the given integer.  The encoding is bijective, so it is a
// function of the group element alone.
pub uninterp spec fn encoding_of(x: int) -> Seq<u8>;

/// The prime order of the decaf377 group, which is also the modulus of its
/// scalar field `Fr`.
pub open spec fn fr_order() -> int {
    0x4aad957a68b2955982d1347970dec005293a3afc43c8afeb95aee9ac33fd9ffint
}

/// A canonical scalar value: an integer reduced modulo the group order.
pub open spec fn fr_valid(x: int) -> bool {
    0 <= x < fr_order()
}

/// Addition in the scalar field, as an integer operation.
pub open spec fn fr_add_spec(a: int, b: int) -> int {
    (a + b) % fr_order()
}

/// Subtraction in the scalar field, as an integer operation.
pub open spec fn fr_sub_spec(a: int, b: int) -> int {
    (a - b) % fr_order()
}

/// Multiplication in the scalar field, as an integer operation.
pub open spec fn fr_mul_spec(a: int, b: int) -> int {
    (a * b) % fr_order()
}

/// Relies on decaf377::Fr::ZERO: the additive identity of the scalar field.
#[verifier::external_body]
pub fn fr_zero() -> (r: decaf377::Fr)
    ensures
        scalar_of(r) == 0,
{
    decaf377::Fr::ZERO
}

/// Relies on From<u64> for decaf377::Fr: the value is reduced modulo the
/// group order, and every u64 is already below it.
#[verifier::external_body]
pub fn fr_from_u64(x: u64) -> (r: decaf377::Fr)
    ensures
        scalar_of(r) == x as int,
{
    decaf377::Fr::from(x)
}

/// Relies on Add for decaf377::Fr: field addition modulo the group order.
#[verifier::external_body]
pub fn fr_add(a: &decaf377::Fr, b: &decaf377::Fr) -> (r: decaf377::Fr)
    ensures
        scalar_of(r) == fr_add_spec(scalar_of(*a), scalar_of(*b)),
        fr_valid(scalar_of(r)),
{
    *a + *b
}

/// Relies on Sub for decaf377::Fr: field subtraction modulo the group order.
#[verifier::external_body]
pub fn fr_sub(a: &decaf377::Fr, b: &decaf377::Fr) -> (r: decaf377::Fr)
    ensures
        scalar_of(r) == fr_sub_spec(scalar_of(*a), scalar_of(*b)),
        fr_valid(scalar_of(r)),
{
    *a - *b
}

/// Relies on Mul for decaf377::Fr: field multiplication modulo the group
/// order.
#[verifier::external_body]
pub fn fr_mul(a: &decaf377::Fr, b: &decaf377::Fr) -> (r: decaf377::Fr)
    ensures
        scalar_of(r) == fr_mul_spec(scalar_of(*a), scalar_of(*b)),
        fr_valid(scalar_of(r)),
{
    *a * *b
}

/// Relies on decaf377::Fr::inverse: returns the multiplicative inverse, and
/// None exactly on the zero scalar.
#[verifier::external_body]
pub fn fr_inverse(a: &decaf377::Fr) -> (r: Option<decaf377::Fr>)
    ensures
        scalar_of(*a) == 0 <==> r is None,
        r is Some ==> fr_mul_spec(scalar_of(r->0), scalar_of(*a)) == 1 && fr_valid(
            scalar_of(r->0),
        ),
{
    a.inverse()
}

/// Relies on PartialEq for decaf377::Fr: equality of canonical values.
#[verifier::external_body]
pub fn fr_eq(a: &decaf377::Fr, b: &decaf377::Fr) -> (r: bool)
    ensures
        r == (scalar_of(*a) == scalar_of(*b)),
{
    a == b
}

/// Relies on Clone for decaf377::Fr, which copies the value.
#[verifier::external_body]
pub fn fr_clone(a: &decaf377::Fr) -> (r: decaf377::Fr)
    ensures
        r == *a,
{
    a.clone()
}

/// Relies on decaf377::Fr::rand, a uniform sample from the scalar field
/// drawn from the operating system's entropy source.  Nothing is promised
/// beyond the range of the result.
#[verifier::external_body]
pub fn fr_random() -> (r: decaf377::Fr)
    ensures
        fr_valid(scalar_of(r)),
{
    decaf377::Fr::rand(&mut rand_core::OsRng)
}

/// Relies on decaf377::Element::GENERATOR, the conventional generator, whose
/// discrete logarithm with respect to itself is one.
#[verifier::external_body]
pub fn basepoint() -> (r: decaf377::Element)
    ensures
        group_log_of(r) == 1,
{
    decaf377::Element::GENERATOR
}

/// Relies on decaf377::Element::IDENTITY, the neutral element.
#[verifier::external_body]
pub fn elem_identity() -> (r: decaf377::Element)
    ensures
        group_log_of(r) == 0,
{
    decaf377::Element::IDENTITY
}

/// Relies on Add for decaf377::Element: the discrete logarithm of a sum is
/// the sum of the discrete logarithms, modulo the group order.
#[verifier::external_body]
pub fn elem_add(a: &decaf377::Element, b: &decaf377::Element) -> (r: decaf377::Element)
    ensures
        group_log_of(r) == fr_add_spec(group_log_of(*a), group_log_of(*b)),
        fr_valid(group_log_of(r)),
{
    *a + *b
}

/// Relies on Sub for decaf377::Element: the discrete logarithm of a
/// difference is the difference of the discrete logarithms, modulo the group
/// order.
#[verifier::external_body]
pub fn elem_sub(a: &decaf377::Element, b: &decaf377::Element) -> (r: decaf377::Element)
    ensures
        group_log_of(r) == fr_sub_spec(group_log_of(*a), group_log_of(*b)),
        fr_valid(group_log_of(r)),
{
    *a - *b
}

/// Relies on Mul<decaf377::Fr> for decaf377::Element: scalar multiplication
/// multiplies the discrete logarithm by the scalar, modulo the group order.
#[verifier::external_body]
pub fn elem_scalar_mul(s: &decaf377::Fr, e: &decaf377::Element) -> (r: decaf377::Element)
    ensures
        group_log_of(r) == fr_mul_spec(scalar_of(*s), group_log_of(*e)),
        fr_valid(group_log_of(r)),
{
    *e * *s
}

/// Relies on PartialEq for decaf377::Element: group equality, which holds
/// exactly when the discrete logarithms agree.
#[verifier::external_body]
pub fn elem_eq(a: &decaf377::Element, b: &decaf377::Element) -> (r: bool)
    ensures
        r == (group_log_of(*a) == group_log_of(*b)),
{
    a == b
}

/// Relies on Clone for decaf377::Element, which copies the value.
#[verifier::external_body]
pub fn elem_clone(a: &decaf377::Element) -> (r: decaf377::Element)
    ensures
        r == *a,
{
    a.clone()
}

/// Relies on decaf377::Element::vartime_compress: the canonical, bijective
/// 32-byte encoding of a group element.
#[verifier::external_body]
pub fn elem_encode(e: &decaf377::Element) -> (r: Vec<u8>)
    ensures
        r@ == encoding_of(group_log_of(*e)),
        r@.len() == 32,
{
    e.vartime_compress().0.to_vec()
}

} // verus!
