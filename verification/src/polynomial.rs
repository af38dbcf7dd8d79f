//! Polynomials over the scalar field, their evaluation, and the modular
//! arithmetic facts the protocol proofs rely on.
//!
//! A secret polynomial is a sequence of scalar coefficients; its public
//! commitment is the sequence of scalar multiples of the generator by those
//! coefficients.  Both are evaluated by the same Horner recursion, once over
//! scalars and once over group elements, and the Feldman share check compares
//! the two evaluations.

use vstd::prelude::*;
use vstd::arithmetic::div_mod::{
    lemma_add_mod_noop, lemma_add_mod_noop_right, lemma_mul_mod_noop_right, lemma_small_mod,
    lemma_sub_mod_noop,
};

use crate::group::{
    basepoint, elem_add, elem_eq, elem_identity, elem_scalar_mul, fr_add, fr_add_spec, fr_mul,
    fr_mul_spec, fr_order, fr_sub_spec, fr_valid, fr_zero, group_log_of, scalar_of,
};

verus! {

/// The canonical integer values of a sequence of scalars.
pub open spec fn scalars_of(s: Seq<decaf377::Fr>) -> Seq<int> {
    s.map_values(|x: decaf377::Fr| scalar_of(x))
}

/// The discrete logarithms of a sequence of group elements.
pub open spec fn logs_of(s: Seq<decaf377::Element>) -> Seq<int> {
    s.map_values(|e: decaf377::Element| group_log_of(e))
}

/// The value of the polynomial with the given coefficients at `x`, over the
/// integers: `c[0] + c[1]*x + c[2]*x^2 + ...`.
pub open spec fn poly_sum(c: Seq<int>, x: int) -> int
    decreases c.len(),
{
    if c.len() == 0 {
        0
    } else {
        c[0] + x * poly_sum(c.subrange(1, c.len() as int), x)
    }
}

/// The value of the polynomial at `x` in the scalar field: the integer value
/// reduced modulo the group order.
pub open spec fn poly_eval(c: Seq<int>, x: int) -> int {
    poly_sum(c, x) % fr_order()
}

/// The sum of a sequence of integers.
pub open spec fn seq_sum(s: Seq<int>) -> int
    decreases s.len(),
{
    if s.len() == 0 {
        0
    } else {
        seq_sum(s.drop_last()) + s.last()
    }
}

/// One step of the Horner recursion commutes with reduction modulo the group
/// order: reducing the accumulator at every step gives the same result as
/// reducing once at the end.
pub proof fn lemma_horner_step(c: Seq<int>, x: int, i: int)
    requires
        0 <= i < c.len(),
    ensures
        fr_add_spec(c[i], fr_mul_spec(x, poly_eval(c.subrange(i + 1, c.len() as int), x)))
            == poly_eval(c.subrange(i, c.len() as int), x),
{
    let r = fr_order();
    let tail = c.subrange(i + 1, c.len() as int);
    let whole = c.subrange(i, c.len() as int);
    assert(whole.subrange(1, whole.len() as int) =~= tail);
    assert(poly_sum(whole, x) == c[i] + x * poly_sum(tail, x));
    lemma_mul_mod_noop_right(x, poly_sum(tail, x), r);
    lemma_add_mod_noop_right(c[i], x * poly_sum(tail, x), r);
}

/// Appending one summand commutes with reduction modulo the group order.
pub proof fn lemma_sum_step(s: Seq<int>, i: int)
    requires
        0 <= i < s.len(),
    ensures
        fr_add_spec(seq_sum(s.subrange(0, i)) % fr_order(), s[i])
            == seq_sum(s.subrange(0, i + 1)) % fr_order(),
{
    let r = fr_order();
    let prefix = s.subrange(0, i);
    let next = s.subrange(0, i + 1);
    assert(next.drop_last() =~= prefix);
    assert(seq_sum(next) == seq_sum(prefix) + s[i]);
    lemma_add_mod_noop_right(s[i], seq_sum(prefix), r);
}

/// Shares of degree-one polynomials add: the sum of two polynomials'
/// values at one index is the value of the coefficient-wise summed
/// polynomial there.  This is how the participants' individual shares
/// combine into a share of the joint secret polynomial.
pub proof fn lemma_poly_eval_pair_add(c0: int, c1: int, d0: int, d1: int, x: int)
    ensures
        fr_add_spec(poly_eval(seq![c0, c1], x), poly_eval(seq![d0, d1], x)) == poly_eval(
            seq![c0 + d0, c1 + d1],
            x,
        ),
{
    let r = fr_order();
    assert(seq![c0, c1].subrange(1, 2) =~= seq![c1]);
    assert(seq![d0, d1].subrange(1, 2) =~= seq![d1]);
    assert(seq![c0 + d0, c1 + d1].subrange(1, 2) =~= seq![c1 + d1]);
    assert(seq![c1].subrange(1, 1) =~= Seq::<int>::empty());
    assert(seq![d1].subrange(1, 1) =~= Seq::<int>::empty());
    assert(seq![c1 + d1].subrange(1, 1) =~= Seq::<int>::empty());
    assert(poly_sum(Seq::<int>::empty(), x) == 0);
    assert(poly_sum(seq![c1], x) == c1);
    assert(poly_sum(seq![d1], x) == d1);
    assert(poly_sum(seq![c1 + d1], x) == c1 + d1);
    assert(poly_sum(seq![c0, c1], x) == c0 + x * c1);
    assert(poly_sum(seq![d0, d1], x) == d0 + x * d1);
    assert(poly_sum(seq![c0 + d0, c1 + d1], x) == (c0 + d0) + x * (c1 + d1));
    lemma_add_mod_noop(c0 + x * c1, d0 + x * d1, r);
    assert((c0 + x * c1) + (d0 + x * d1) == (c0 + d0) + x * (c1 + d1)) by (nonlinear_arith);
}

/// Adding a value and then subtracting it again returns to the start, in the
/// scalar field.  This is the algebraic heart of Schnorr verification: the
/// response minus the challenge times the secret reveals the nonce again.
pub proof fn lemma_add_sub_cancel(k: int, m: int)
    requires
        fr_valid(k),
        fr_valid(m),
    ensures
        fr_sub_spec(fr_add_spec(k, m), m) == k,
{
    let r = fr_order();
    lemma_small_mod(m as nat, r as nat);
    lemma_sub_mod_noop(k + m, m, r);
    lemma_small_mod(k as nat, r as nat);
}

/// Evaluate the polynomial with the given scalar coefficients at `x` by
/// Horner's method.
pub fn horner_eval(coeffs: &Vec<decaf377::Fr>, x: &decaf377::Fr) -> (r: decaf377::Fr)
    ensures
        scalar_of(r) == poly_eval(scalars_of(coeffs@), scalar_of(*x)),
        fr_valid(scalar_of(r)),
{
    let ghost c = scalars_of(coeffs@);
    let ghost xv = scalar_of(*x);
    let mut acc = fr_zero();
    let mut i: usize = coeffs.len();
    assert(c.subrange(i as int, c.len() as int) =~= Seq::<int>::empty());
    while i > 0
        invariant
            i <= coeffs.len(),
            c == scalars_of(coeffs@),
            xv == scalar_of(*x),
            scalar_of(acc) == poly_eval(c.subrange(i as int, c.len() as int), xv),
            fr_valid(scalar_of(acc)),
        decreases i,
    {
        i = i - 1;
        let t = fr_mul(x, &acc);
        acc = fr_add(&coeffs[i], &t);
        proof {
            lemma_horner_step(c, xv, i as int);
        }
    }
    assert(c.subrange(0, c.len() as int) =~= c);
    acc
}

/// Evaluate a commitment — the generator multiples of the coefficients — at
/// `x`, by the same Horner recursion carried out on group elements.
pub fn commitment_eval(commitment: &Vec<decaf377::Element>, x: &decaf377::Fr) -> (r:
    decaf377::Element)
    ensures
        group_log_of(r) == poly_eval(logs_of(commitment@), scalar_of(*x)),
        fr_valid(group_log_of(r)),
{
    let ghost c = logs_of(commitment@);
    let ghost xv = scalar_of(*x);
    let mut acc = elem_identity();
    let mut i: usize = commitment.len();
    assert(c.subrange(i as int, c.len() as int) =~= Seq::<int>::empty());
    while i > 0
        invariant
            i <= commitment.len(),
            c == logs_of(commitment@),
            xv == scalar_of(*x),
            group_log_of(acc) == poly_eval(c.subrange(i as int, c.len() as int), xv),
            fr_valid(group_log_of(acc)),
        decreases i,
    {
        i = i - 1;
        let t = elem_scalar_mul(x, &acc);
        acc = elem_add(&commitment[i], &t);
        proof {
            lemma_horner_step(c, xv, i as int);
        }
    }
    assert(c.subrange(0, c.len() as int) =~= c);
    acc
}

/// The Feldman check: a received share is consistent with the sender's
/// published commitment when the share times the generator equals the
/// commitment evaluated at the recipient's index.
pub fn feldman_check(share: &decaf377::Fr, index: &decaf377::Fr, commitment: &Vec<
    decaf377::Element,
>) -> (r: bool)
    ensures
        r == (scalar_of(*share) % fr_order() == poly_eval(logs_of(commitment@), scalar_of(*index))),
{
    let g = basepoint();
    let lhs = elem_scalar_mul(share, &g);
    let rhs = commitment_eval(commitment, index);
    elem_eq(&lhs, &rhs)
}

} // verus!
