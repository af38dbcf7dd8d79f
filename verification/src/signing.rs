//! The two-round threshold signing protocol: per-signer ephemeral nonce
//! commitments, binding values and partial signatures, and the aggregation
//! of a quorum of partial signatures into one Schnorr signature.

use vstd::prelude::*;
use vstd::arithmetic::div_mod::{
    lemma_add_mod_noop, lemma_add_mod_noop_right, lemma_mod_bound, lemma_mul_mod_noop,
    lemma_mul_mod_noop_left, lemma_mul_mod_noop_right, lemma_small_mod, lemma_sub_mod_noop,
    lemma_sub_mod_noop_right,
};

use crate::group::{
    basepoint, elem_add, elem_eq, elem_identity, elem_scalar_mul, elem_sub, elem_encode,
    encoding_of, fr_add, fr_add_spec, fr_from_u64, fr_inverse, fr_mul, fr_mul_spec,
    fr_order, fr_random, fr_sub_spec, fr_valid, fr_zero, group_log_of, scalar_of,
};
use crate::polynomial::{lemma_poly_eval_pair_add, lemma_sum_step, poly_eval, poly_sum, seq_sum};
use crate::schnorr::Signature;
use crate::FrostError;

verus! {

/// A pair of ephemeral secret nonces, freshly drawn for exactly one
/// signature.  Producing a partial signature consumes the pair by value, so
/// a nonce can never serve two signatures.
pub struct SigningNonce {
    /// The hiding nonce.
    pub d: decaf377::Fr,
    /// The binding nonce.
    pub e: decaf377::Fr,
}

/// One signer's public commitment to its signing nonces.
pub struct NonceCommitment {
    /// The signer's identifier.
    pub id: u64,
    /// The generator multiple of the hiding nonce.
    pub hiding: decaf377::Element,
    /// The generator multiple of the binding nonce.
    pub binding: decaf377::Element,
}

/// One signer's contribution to a threshold signature over one message.
pub struct PartialSignature {
    /// The signer's identifier.
    pub id: u64,
    /// The response scalar.
    pub z: decaf377::Fr,
}

/// The public key share of one participant, against which its partial
/// signatures are checked.
pub struct VerificationShare {
    /// The participant's identifier.
    pub id: u64,
    /// The generator multiple of the participant's long-term secret share.
    pub key: decaf377::Element,
}

impl SigningNonce {
    /// Both nonces are canonical scalars.
    pub open spec fn wf(self) -> bool {
        fr_valid(scalar_of(self.d)) && fr_valid(scalar_of(self.e))
    }

    /// Draw a fresh nonce pair for one signature.
    pub fn generate() -> (r: SigningNonce)
        ensures
            r.wf(),
    {
        SigningNonce { d: fr_random(), e: fr_random() }
    }

    /// The public commitment to this nonce pair.
    pub fn commit(&self, id: u64) -> (r: NonceCommitment)
        requires
            self.wf(),
        ensures
            r.id == id,
            group_log_of(r.hiding) == scalar_of(self.d),
            group_log_of(r.binding) == scalar_of(self.e),
    {
        let generator = basepoint();
        let hiding = elem_scalar_mul(&self.d, &generator);
        let binding = elem_scalar_mul(&self.e, &generator);
        proof {
            lemma_small_mod(scalar_of(self.d) as nat, fr_order() as nat);
            lemma_small_mod(scalar_of(self.e) as nat, fr_order() as nat);
        }
        NonceCommitment { id, hiding, binding }
    }
}

/// The little-endian bytes of a 64-bit identifier.
pub open spec fn u64_le_bytes(x: u64) -> Seq<u8> {
    seq![
        (x & 0xff) as u8,
        ((x >> 8) & 0xff) as u8,
        ((x >> 16) & 0xff) as u8,
        ((x >> 24) & 0xff) as u8,
        ((x >> 32) & 0xff) as u8,
        ((x >> 40) & 0xff) as u8,
        ((x >> 48) & 0xff) as u8,
        ((x >> 56) & 0xff) as u8,
    ]
}

/// The serialization of a nonce-commitment list that the binding transcript
/// absorbs: for each entry, the identifier in little-endian bytes followed
/// by the encodings of the two committed points.
pub open spec fn commit_list_bytes(s: Seq<NonceCommitment>) -> Seq<u8>
    decreases s.len(),
{
    if s.len() == 0 {
        Seq::<u8>::empty()
    } else {
        commit_list_bytes(s.drop_last()) + u64_le_bytes(s.last().id) + encoding_of(
            group_log_of(s.last().hiding),
        ) + encoding_of(group_log_of(s.last().binding))
    }
}

// The binding challenge that the domain-separated signing transcript
// derives for one signer from the message and the serialized
// nonce-commitment list.
pub uninterp spec fn binding_challenge(id: u64, message: Seq<u8>, commit_bytes: Seq<u8>) -> int;

// The group challenge that the domain-separated signing transcript derives
// from the encodings of the group nonce commitment and the group
// verification key, and the message.
pub uninterp spec fn sign_challenge(nonce_bytes: Seq<u8>, key_bytes: Seq<u8>, message: Seq<u8>) -> int;

/// The binding value of one signer for one signing round.
pub open spec fn binding_value_of(id: u64, message: Seq<u8>, commits: Seq<NonceCommitment>) -> int {
    binding_challenge(id, message, commit_list_bytes(commits))
}

/// The discrete logarithm of one signer's effective nonce commitment: the
/// hiding commitment plus the binding value times the binding commitment.
pub open spec fn effective_nonce_log(
    pc: NonceCommitment,
    message: Seq<u8>,
    commits: Seq<NonceCommitment>,
) -> int {
    fr_add_spec(
        group_log_of(pc.hiding),
        fr_mul_spec(binding_value_of(pc.id, message, commits), group_log_of(pc.binding)),
    )
}

/// The effective nonce logarithms of every signer in a commitment list.
pub open spec fn effective_nonce_logs(commits: Seq<NonceCommitment>, message: Seq<u8>) -> Seq<
    int,
> {
    commits.map_values(|pc: NonceCommitment| effective_nonce_log(pc, message, commits))
}

/// The discrete logarithm of the group nonce commitment: the sum of all
/// effective nonce commitments.
pub open spec fn group_nonce_log(commits: Seq<NonceCommitment>, message: Seq<u8>) -> int {
    seq_sum(effective_nonce_logs(commits, message)) % fr_order()
}

/// The group signing challenge for a commitment list, a group key and a
/// message, written over discrete logarithms.
pub open spec fn sign_challenge_of(
    commits: Seq<NonceCommitment>,
    group_key: int,
    message: Seq<u8>,
) -> int {
    sign_challenge(encoding_of(group_nonce_log(commits, message)), encoding_of(group_key), message)
}

/// The identifiers of a commitment list, in order.
pub open spec fn ids_of(commits: Seq<NonceCommitment>) -> Seq<u64> {
    commits.map_values(|pc: NonceCommitment| pc.id)
}

/// The product of the subset indices other than `j`: the numerator of the
/// Lagrange coefficient of `j` evaluated at zero.
pub open spec fn lagrange_num(subset: Seq<u64>, j: u64) -> int
    decreases subset.len(),
{
    if subset.len() == 0 {
        1
    } else {
        let rest = lagrange_num(subset.drop_last(), j);
        if subset.last() == j {
            rest
        } else {
            rest * (subset.last() as int)
        }
    }
}

/// The product of the differences between the other subset indices and `j`,
/// each reduced into the scalar field: the denominator of the Lagrange
/// coefficient of `j` evaluated at zero.
pub open spec fn lagrange_den(subset: Seq<u64>, j: u64) -> int
    decreases subset.len(),
{
    if subset.len() == 0 {
        1
    } else {
        let rest = lagrange_den(subset.drop_last(), j);
        if subset.last() == j {
            rest
        } else {
            rest * ((subset.last() as int - j as int) % fr_order())
        }
    }
}

/// The multiplicative inverse of a scalar value, when one exists.
pub open spec fn fr_inv_spec(x: int) -> int {
    choose|y: int| fr_valid(y) && fr_mul_spec(x, y) == 1
}

/// The Lagrange coefficient of index `j` within a signer subset, evaluated
/// at zero: the numerator times the inverse of the denominator.
pub open spec fn lagrange_coeff_spec(subset: Seq<u64>, j: u64) -> int {
    fr_mul_spec(lagrange_num(subset, j) % fr_order(), fr_inv_spec(lagrange_den(subset, j) % fr_order()))
}

/// A multiplicative inverse in the scalar field is unique.
pub proof fn lemma_inverse_unique(x: int, y1: int, y2: int)
    requires
        fr_valid(y1),
        fr_valid(y2),
        fr_mul_spec(x, y1) == 1,
        fr_mul_spec(x, y2) == 1,
    ensures
        y1 == y2,
{
    let r = fr_order();
    lemma_mul_mod_noop_right(y1, x * y2, r);
    assert(y1 * (x * y2) == (x * y1) * y2) by (nonlinear_arith);
    lemma_mul_mod_noop_left(x * y1, y2, r);
    lemma_small_mod(y1 as nat, r as nat);
    lemma_small_mod(y2 as nat, r as nat);
    assert(y1 == (y1 * 1) % r);
    assert((y1 * ((x * y2) % r)) % r == (y1 * (x * y2)) % r);
    assert(((x * y1) % r * y2) % r == ((x * y1) * y2) % r);
    assert(y2 == (1 * y2) % r);
}

/// Lagrange interpolation at zero for a two-signer subset: for distinct
/// indices whose difference is invertible in the scalar field, the
/// coefficient-weighted sum of the two shares of a degree-one polynomial
/// recovers its constant term.  The invertibility hypothesis is what a
/// successful `lagrange_coefficient` call establishes; in the field itself
/// it holds for every pair of distinct indices.
pub proof fn lemma_lagrange_interpolation_pair(a: u64, b: u64, c0: int, c1: int)
    requires
        a != b,
        exists|y: int|
            fr_valid(y) && fr_mul_spec((b as int - a as int) % fr_order(), y) == 1,
    ensures
        fr_add_spec(
            fr_mul_spec(lagrange_coeff_spec(seq![a, b], a), poly_eval(seq![c0, c1], a as int)),
            fr_mul_spec(lagrange_coeff_spec(seq![a, b], b), poly_eval(seq![c0, c1], b as int)),
        ) == c0 % fr_order(),
{
    let r = fr_order();
    let av = a as int;
    let bv = b as int;
    let d = (bv - av) % r;
    let dd = (av - bv) % r;

    // The numerators and denominators of the two coefficients.
    let pair = seq![a, b];
    assert(pair.drop_last() =~= seq![a]);
    assert(seq![a].drop_last() =~= Seq::<u64>::empty());
    assert(lagrange_num(Seq::<u64>::empty(), a) == 1);
    assert(lagrange_den(Seq::<u64>::empty(), a) == 1);
    assert(lagrange_num(seq![a], a) == 1);
    assert(lagrange_den(seq![a], a) == 1);
    assert(lagrange_num(pair, a) == bv);
    assert(lagrange_den(pair, a) == d);
    assert(lagrange_num(Seq::<u64>::empty(), b) == 1);
    assert(lagrange_den(Seq::<u64>::empty(), b) == 1);
    assert(lagrange_num(seq![a], b) == av);
    assert(lagrange_den(seq![a], b) == dd);
    assert(lagrange_num(pair, b) == av);
    assert(lagrange_den(pair, b) == dd);
    lemma_small_mod(av as nat, r as nat);
    lemma_small_mod(bv as nat, r as nat);

    // The inverse of the one denominator, from the hypothesis.
    let u = choose|y: int| fr_valid(y) && fr_mul_spec(d, y) == 1;
    assert(fr_valid(u) && (d * u) % r == 1);
    assert(fr_inv_spec(d) == u) by {
        lemma_inverse_unique(d, u, fr_inv_spec(d));
    };

    // The negated inverse inverts the other denominator, which is the
    // negation of the first.
    let v = (0 - u) % r;
    lemma_mod_bound(0 - u, r);
    lemma_sub_mod_noop_right(0, bv - av, r);
    assert(dd == (0 - d) % r);
    assert((dd * v) % r == 1) by {
        lemma_mul_mod_noop(0 - d, 0 - u, r);
        assert((0 - d) * (0 - u) == d * u) by (nonlinear_arith);
    };
    assert(fr_inv_spec(dd) == v) by {
        assert(fr_valid(v) && fr_mul_spec(dd, v) == 1);
        lemma_inverse_unique(dd, v, fr_inv_spec(dd));
    };

    // The two coefficients, written over the integers.
    assert(lagrange_coeff_spec(pair, a) == (bv * u) % r) by {
        lemma_mul_mod_noop_left(bv, u, r);
    };
    assert(lagrange_coeff_spec(pair, b) == (av * (0 - u)) % r) by {
        lemma_mul_mod_noop_left(av, v, r);
        lemma_mul_mod_noop_right(av, 0 - u, r);
    };

    // The two shares, written over the integers.
    let coeffs = seq![c0, c1];
    assert(coeffs.subrange(1, 2) =~= seq![c1]);
    assert(seq![c1].subrange(1, 1) =~= Seq::<int>::empty());
    assert(poly_sum(Seq::<int>::empty(), av) == 0);
    assert(poly_sum(seq![c1], av) == c1);
    assert(poly_sum(coeffs, av) == c0 + av * c1);
    assert(poly_sum(Seq::<int>::empty(), bv) == 0);
    assert(poly_sum(seq![c1], bv) == c1);
    assert(poly_sum(coeffs, bv) == c0 + bv * c1);

    // Clear the per-term reductions and collect: the cross terms cancel and
    // the difference of indices meets its inverse.
    let x = (bv * u) * (c0 + av * c1);
    let y = (av * (0 - u)) * (c0 + bv * c1);
    lemma_mul_mod_noop(bv * u, c0 + av * c1, r);
    lemma_mul_mod_noop(av * (0 - u), c0 + bv * c1, r);
    lemma_add_mod_noop(x, y, r);
    assert(x == (bv * u) * c0 + (bv * u) * (av * c1)) by (nonlinear_arith)
        requires
            x == (bv * u) * (c0 + av * c1),
    ;
    assert(y == (0 - av * u) * c0 + (0 - av * u) * (bv * c1)) by (nonlinear_arith)
        requires
            y == (av * (0 - u)) * (c0 + bv * c1),
    ;
    assert((bv * u) * (av * c1) + (0 - av * u) * (bv * c1) == 0) by (nonlinear_arith);
    assert((bv * u) * c0 + (0 - av * u) * c0 == (u * (bv - av)) * c0) by (nonlinear_arith);
    assert(x + y == (u * (bv - av)) * c0);
    lemma_mul_mod_noop_left(u * (bv - av), c0, r);
    lemma_mul_mod_noop_right(u, bv - av, r);
    assert(u * d == d * u) by (nonlinear_arith);
    assert(((u * (bv - av)) % r) == 1);
    assert((x + y) % r == c0 % r) by {
        assert((x + y) % r == ((u * (bv - av)) * c0) % r);
        lemma_mul_mod_noop_left(u * (bv - av), c0, r);
        assert(((u * (bv - av)) * c0) % r == (1 * c0) % r);
    };
}

/// The two-of-three reconstruction law behind threshold-two key
/// generation: three participants each hold a degree-one polynomial, and a
/// participant's combined share at its index is the sum of the three
/// polynomials' values there.  Any two of the combined shares, weighted by
/// their Lagrange coefficients, recover the summed constant term — the
/// group secret whose generator multiple is the group verification key.
pub proof fn lemma_two_of_three_reconstruction(
    a: u64,
    b: u64,
    c0_1: int,
    c1_1: int,
    c0_2: int,
    c1_2: int,
    c0_3: int,
    c1_3: int,
)
    requires
        a != b,
        exists|y: int|
            fr_valid(y) && fr_mul_spec((b as int - a as int) % fr_order(), y) == 1,
    ensures
        fr_add_spec(
            fr_mul_spec(
                lagrange_coeff_spec(seq![a, b], a),
                fr_add_spec(
                    fr_add_spec(
                        poly_eval(seq![c0_1, c1_1], a as int),
                        poly_eval(seq![c0_2, c1_2], a as int),
                    ),
                    poly_eval(seq![c0_3, c1_3], a as int),
                ),
            ),
            fr_mul_spec(
                lagrange_coeff_spec(seq![a, b], b),
                fr_add_spec(
                    fr_add_spec(
                        poly_eval(seq![c0_1, c1_1], b as int),
                        poly_eval(seq![c0_2, c1_2], b as int),
                    ),
                    poly_eval(seq![c0_3, c1_3], b as int),
                ),
            ),
        ) == (c0_1 + c0_2 + c0_3) % fr_order(),
{
    lemma_poly_eval_pair_add(c0_1, c1_1, c0_2, c1_2, a as int);
    lemma_poly_eval_pair_add(c0_1 + c0_2, c1_1 + c1_2, c0_3, c1_3, a as int);
    lemma_poly_eval_pair_add(c0_1, c1_1, c0_2, c1_2, b as int);
    lemma_poly_eval_pair_add(c0_1 + c0_2, c1_1 + c1_2, c0_3, c1_3, b as int);
    lemma_lagrange_interpolation_pair(a, b, c0_1 + c0_2 + c0_3, c1_1 + c1_2 + c1_3);
}

/// The signing identity for a two-signer round, which is the algebra
/// behind `verify_threshold_signature`: two responses of the per-signer
/// form produced by `partial_sign` sum to a response that satisfies the
/// Schnorr equation against the summed effective nonces and the group
/// key, whenever the Lagrange-weighted shares recover the group key's
/// discrete logarithm (which `lemma_two_of_three_reconstruction` gives for
/// an honest run).
pub proof fn lemma_pair_aggregate_verifies(
    za: int,
    zb: int,
    eff_a: int,
    eff_b: int,
    la: int,
    lb: int,
    xa: int,
    xb: int,
    c: int,
    y: int,
)
    requires
        za == fr_add_spec(eff_a, fr_mul_spec(fr_mul_spec(la, c), xa)),
        zb == fr_add_spec(eff_b, fr_mul_spec(fr_mul_spec(lb, c), xb)),
        fr_add_spec(fr_mul_spec(la, xa), fr_mul_spec(lb, xb)) == y,
    ensures
        fr_sub_spec((za + zb) % fr_order(), fr_mul_spec(c, y)) == (eff_a + eff_b) % fr_order(),
{
    let r = fr_order();
    let ta = fr_mul_spec(fr_mul_spec(la, c), xa);
    let tb = fr_mul_spec(fr_mul_spec(lb, c), xb);

    // Each weighted term is the challenge times the weighted share.
    assert(ta == (c * (la * xa % r)) % r) by {
        lemma_mul_mod_noop_left(la * c, xa, r);
        assert(la * c * xa == c * (la * xa)) by (nonlinear_arith);
        lemma_mul_mod_noop_right(c, la * xa, r);
    };
    assert(tb == (c * (lb * xb % r)) % r) by {
        lemma_mul_mod_noop_left(lb * c, xb, r);
        assert(lb * c * xb == c * (lb * xb)) by (nonlinear_arith);
        lemma_mul_mod_noop_right(c, lb * xb, r);
    };

    // The two weighted terms sum to the challenge times the recovered key.
    let wa = la * xa % r;
    let wb = lb * xb % r;
    assert((ta + tb) % r == (c * y) % r) by {
        lemma_add_mod_noop(c * wa, c * wb, r);
        assert(c * wa + c * wb == c * (wa + wb)) by (nonlinear_arith);
        lemma_mul_mod_noop_right(c, wa + wb, r);
        assert((wa + wb) % r == y);
        lemma_mul_mod_noop_right(c, y, r);
    };

    // Fold the responses together and cancel the challenge term.
    assert((za + zb) % r == (eff_a + eff_b + (ta + tb)) % r) by {
        lemma_add_mod_noop(eff_a + ta, eff_b + tb, r);
        lemma_add_mod_noop_right(eff_a + eff_b, ta + tb, r);
    };
    assert((eff_a + eff_b + (ta + tb)) % r == (eff_a + eff_b + c * y) % r) by {
        lemma_add_mod_noop_right(eff_a + eff_b, ta + tb, r);
        lemma_add_mod_noop_right(eff_a + eff_b, c * y, r);
    };
    assert(fr_sub_spec((eff_a + eff_b + c * y) % r, (c * y) % r) == (eff_a + eff_b) % r) by {
        lemma_sub_mod_noop(eff_a + eff_b + c * y, c * y, r);
    };
}

/// Relies on merlin::Transcript::challenge_bytes, a deterministic function
/// of the absorbed transcript, and on decaf377::Fr::from_le_bytes_mod_order,
/// which reduces the 32 challenge bytes modulo the group order: the binding
/// value depends only on the identifier, the message and the serialized
/// commitment list, under a signing-round domain distinct from the
/// key-generation one.
#[verifier::external_body]
fn binding_challenge_scalar(id: u64, message: &Vec<u8>, commit_bytes: &Vec<u8>) -> (r:
    decaf377::Fr)
    ensures
        scalar_of(r) == binding_challenge(id, message@, commit_bytes@),
        fr_valid(scalar_of(r)),
{
    let mut transcript = merlin::Transcript::new(b"freddo377-signing-binding");
    transcript.append_u64(b"signer-identifier", id);
    transcript.append_message(b"message", message.as_slice());
    transcript.append_message(b"nonce-commitments", commit_bytes.as_slice());
    let mut raw: [u8; 32] = [0u8; 32];
    transcript.challenge_bytes(b"binding-challenge", &mut raw);
    decaf377::Fr::from_le_bytes_mod_order(&raw)
}

/// Relies on merlin::Transcript::challenge_bytes and
/// decaf377::Fr::from_le_bytes_mod_order, as above: the group challenge
/// depends only on the two point encodings and the message, under the
/// signing domain.
#[verifier::external_body]
fn sign_challenge_scalar(
    group_nonce: &decaf377::Element,
    group_public_key: &decaf377::Element,
    message: &Vec<u8>,
) -> (r: decaf377::Fr)
    ensures
        scalar_of(r) == sign_challenge(
            encoding_of(group_log_of(*group_nonce)),
            encoding_of(group_log_of(*group_public_key)),
            message@,
        ),
        fr_valid(scalar_of(r)),
{
    let mut transcript = merlin::Transcript::new(b"freddo377-signing");
    transcript.append_message(b"group-nonce-commitment", group_nonce.vartime_compress().0.as_ref());
    transcript.append_message(
        b"group-verification-key",
        group_public_key.vartime_compress().0.as_ref(),
    );
    transcript.append_message(b"message", message.as_slice());
    let mut raw: [u8; 32] = [0u8; 32];
    transcript.challenge_bytes(b"schnorr-sig-challenge", &mut raw);
    decaf377::Fr::from_le_bytes_mod_order(&raw)
}

/// Append the little-endian bytes of an identifier.
fn push_u64_le(out: &mut Vec<u8>, x: u64)
    ensures
        final(out)@ == old(out)@ + u64_le_bytes(x),
{
    out.push((x & 0xff) as u8);
    out.push(((x >> 8) & 0xff) as u8);
    out.push(((x >> 16) & 0xff) as u8);
    out.push(((x >> 24) & 0xff) as u8);
    out.push(((x >> 32) & 0xff) as u8);
    out.push(((x >> 40) & 0xff) as u8);
    out.push(((x >> 48) & 0xff) as u8);
    out.push(((x >> 56) & 0xff) as u8);
}

/// Serialize a nonce-commitment list for the binding transcript.
pub fn encode_commitment_list(commitments: &Vec<NonceCommitment>) -> (r: Vec<u8>)
    ensures
        r@ == commit_list_bytes(commitments@),
{
    let mut out: Vec<u8> = Vec::new();
    let mut i: usize = 0;
    assert(commitments@.subrange(0, 0) =~= Seq::<NonceCommitment>::empty());
    while i < commitments.len()
        invariant
            i <= commitments@.len(),
            out@ == commit_list_bytes(commitments@.subrange(0, i as int)),
        decreases commitments@.len() - i,
    {
        push_u64_le(&mut out, commitments[i].id);
        let mut hiding_bytes = elem_encode(&commitments[i].hiding);
        out.append(&mut hiding_bytes);
        let mut binding_bytes = elem_encode(&commitments[i].binding);
        out.append(&mut binding_bytes);
        proof {
            let prefix = commitments@.subrange(0, i as int);
            let next = commitments@.subrange(0, i + 1);
            assert(next.drop_last() =~= prefix);
            assert(next.last() == commitments@[i as int]);
            assert(out@ =~= commit_list_bytes(next));
        }
        i = i + 1;
    }
    assert(commitments@.subrange(0, commitments@.len() as int) =~= commitments@);
    out
}

/// The binding value of one signer: a transcript challenge over the
/// message, the full commitment set, and the signer's own identifier.
pub fn binding_value(id: u64, message: &Vec<u8>, commitments: &Vec<NonceCommitment>) -> (r:
    decaf377::Fr)
    ensures
        scalar_of(r) == binding_value_of(id, message@, commitments@),
        fr_valid(scalar_of(r)),
{
    let commit_bytes = encode_commitment_list(commitments);
    binding_challenge_scalar(id, message, &commit_bytes)
}

/// The group nonce commitment of one signing round: the sum over all
/// signers of the hiding commitment plus the binding value times the
/// binding commitment.
pub fn group_commitment(commitments: &Vec<NonceCommitment>, message: &Vec<u8>) -> (r:
    decaf377::Element)
    ensures
        group_log_of(r) == group_nonce_log(commitments@, message@),
        fr_valid(group_log_of(r)),
{
    let ghost logs = effective_nonce_logs(commitments@, message@);
    let mut acc = elem_identity();
    assert(logs.subrange(0, 0) =~= Seq::<int>::empty());
    let mut i: usize = 0;
    while i < commitments.len()
        invariant
            i <= commitments@.len(),
            logs == effective_nonce_logs(commitments@, message@),
            group_log_of(acc) == seq_sum(logs.subrange(0, i as int)) % fr_order(),
            fr_valid(group_log_of(acc)),
        decreases commitments@.len() - i,
    {
        let rho = binding_value(commitments[i].id, message, commitments);
        let bound = elem_scalar_mul(&rho, &commitments[i].binding);
        let effective = elem_add(&commitments[i].hiding, &bound);
        acc = elem_add(&acc, &effective);
        proof {
            lemma_sum_step(logs, i as int);
        }
        i = i + 1;
    }
    assert(logs.subrange(0, commitments@.len() as int) =~= logs);
    acc
}

/// Collect the signer identifiers of a commitment list.
pub fn collect_ids(commitments: &Vec<NonceCommitment>) -> (r: Vec<u64>)
    ensures
        r@ == ids_of(commitments@),
{
    let mut out: Vec<u64> = Vec::new();
    let mut i: usize = 0;
    while i < commitments.len()
        invariant
            i == out@.len(),
            i <= commitments@.len(),
            forall|k: int| 0 <= k < i ==> out@[k] == ids_of(commitments@)[k],
        decreases commitments@.len() - i,
    {
        out.push(commitments[i].id);
        i = i + 1;
    }
    assert(out@ =~= ids_of(commitments@));
    out
}

/// The Lagrange coefficient of index `j` within the signer subset,
/// evaluated at zero.  Fails exactly when the denominator product is zero
/// in the scalar field, which a well-formed subset of distinct indices
/// never produces.
pub fn lagrange_coefficient(subset: &Vec<u64>, j: u64) -> (r: Result<decaf377::Fr, FrostError>)
    ensures
        (lagrange_den(subset@, j) % fr_order() == 0) <==> r is Err,
        r is Err ==> r == Err::<decaf377::Fr, FrostError>(FrostError::Configuration),
        r is Ok ==> scalar_of(r->Ok_0) == lagrange_coeff_spec(subset@, j) && fr_valid(
            scalar_of(r->Ok_0),
        ),
{
    let mut num = fr_from_u64(1);
    let mut den = fr_from_u64(1);
    let ghost s = subset@;
    assert(s.subrange(0, 0) =~= Seq::<u64>::empty());
    let mut i: usize = 0;
    while i < subset.len()
        invariant
            i <= s.len(),
            s == subset@,
            scalar_of(num) == lagrange_num(s.subrange(0, i as int), j) % fr_order(),
            scalar_of(den) == lagrange_den(s.subrange(0, i as int), j) % fr_order(),
            fr_valid(scalar_of(num)),
            fr_valid(scalar_of(den)),
        decreases s.len() - i,
    {
        let m = subset[i];
        proof {
            let prefix = s.subrange(0, i as int);
            let next = s.subrange(0, i + 1);
            assert(next.drop_last() =~= prefix);
            assert(next.last() == s[i as int]);
            if m != j {
                lemma_mul_mod_noop_left(lagrange_num(prefix, j), m as int, fr_order());
                lemma_mul_mod_noop_left(
                    lagrange_den(prefix, j),
                    (m as int - j as int) % fr_order(),
                    fr_order(),
                );
            }
        }
        if m != j {
            let m_scalar = fr_from_u64(m);
            let j_scalar = fr_from_u64(j);
            num = fr_mul(&num, &m_scalar);
            let diff = crate::group::fr_sub(&m_scalar, &j_scalar);
            den = fr_mul(&den, &diff);
        }
        i = i + 1;
    }
    assert(s.subrange(0, s.len() as int) =~= s);
    match fr_inverse(&den) {
        None => Err(FrostError::Configuration),
        Some(inverse) => {
            let coefficient = fr_mul(&num, &inverse);
            proof {
                let r = fr_order();
                let dv = scalar_of(den);
                let iv = scalar_of(inverse);
                assert(fr_mul_spec(dv, iv) == 1) by {
                    assert(dv * iv == iv * dv) by (nonlinear_arith);
                };
                assert(fr_valid(fr_inv_spec(dv)) && fr_mul_spec(dv, fr_inv_spec(dv)) == 1) by {
                    assert(fr_valid(iv) && fr_mul_spec(dv, iv) == 1);
                };
                lemma_inverse_unique(dv, iv, fr_inv_spec(dv));
            }
            Ok(coefficient)
        },
    }
}

/// Every commitment entry bearing the signer's identifier commits to
/// exactly this nonce pair, and at least one such entry is present.
pub open spec fn nonce_entry_consistent(
    commits: Seq<NonceCommitment>,
    id: u64,
    d: int,
    e: int,
) -> bool {
    &&& exists|k: int| 0 <= k < commits.len() && (#[trigger] commits[k]).id == id
    &&& forall|k: int|
        0 <= k < commits.len() && (#[trigger] commits[k]).id == id ==> group_log_of(
            commits[k].hiding,
        ) == d && group_log_of(commits[k].binding) == e
}

/// The per-signer verification equation for one partial signature against
/// one commitment entry and one verification-share logarithm: the response
/// must equal the entry's effective nonce plus the Lagrange-weighted
/// challenge times the share.
pub open spec fn partial_equation(
    p: PartialSignature,
    entry: NonceCommitment,
    share_log: int,
    commits: Seq<NonceCommitment>,
    group_key: int,
    message: Seq<u8>,
) -> bool {
    scalar_of(p.z) % fr_order() == fr_add_spec(
        effective_nonce_log(entry, message, commits),
        fr_mul_spec(
            fr_mul_spec(
                lagrange_coeff_spec(ids_of(commits), p.id),
                sign_challenge_of(commits, group_key, message),
            ),
            share_log,
        ),
    )
}

/// The check an aggregator performs on one partial signature: some
/// commitment entry with the partial's identifier satisfies the per-signer
/// verification equation against the given verification-share logarithm.
pub open spec fn partial_ok(
    p: PartialSignature,
    commits: Seq<NonceCommitment>,
    share_log: int,
    group_key: int,
    message: Seq<u8>,
) -> bool {
    exists|k: int|
        0 <= k < commits.len() && (#[trigger] commits[k]).id == p.id && partial_equation(
            p,
            commits[k],
            share_log,
            commits,
            group_key,
            message,
        )
}

/// Produce this signer's partial signature for one message, consuming the
/// nonce pair.  The commitment list is the full signer subset of the round;
/// it must contain this signer's own commitment, matching the consumed
/// nonce pair.  On success the partial signature satisfies the exact
/// per-signer verification equation the aggregator checks, taken against
/// the generator multiple of the long-term share.
pub fn partial_sign(
    id: u64,
    long_term_share: &decaf377::Fr,
    nonce: SigningNonce,
    commitments: &Vec<NonceCommitment>,
    group_public_key: &decaf377::Element,
    message: &Vec<u8>,
    threshold: usize,
) -> (r: Result<PartialSignature, FrostError>)
    requires
        nonce.wf(),
        fr_valid(scalar_of(*long_term_share)),
    ensures
        (commitments@.len() < threshold) <==> r == Err::<PartialSignature, FrostError>(
            FrostError::Quorum,
        ),
        r == Err::<PartialSignature, FrostError>(FrostError::ProtocolState) <==> (
        commitments@.len() >= threshold && !nonce_entry_consistent(
            commitments@,
            id,
            scalar_of(nonce.d),
            scalar_of(nonce.e),
        )),
        r == Err::<PartialSignature, FrostError>(FrostError::Configuration) <==> (
        commitments@.len() >= threshold && nonce_entry_consistent(
            commitments@,
            id,
            scalar_of(nonce.d),
            scalar_of(nonce.e),
        ) && lagrange_den(ids_of(commitments@), id) % fr_order() == 0),
        r is Ok <==> (commitments@.len() >= threshold && nonce_entry_consistent(
            commitments@,
            id,
            scalar_of(nonce.d),
            scalar_of(nonce.e),
        ) && lagrange_den(ids_of(commitments@), id) % fr_order() != 0),
        r is Ok ==> r->Ok_0.id == id && partial_ok(
            r->Ok_0,
            commitments@,
            scalar_of(*long_term_share),
            group_log_of(*group_public_key),
            message@,
        ) && fr_valid(scalar_of(r->Ok_0.z)),
{
    if commitments.len() < threshold {
        return Err(FrostError::Quorum);
    }
    let generator = basepoint();
    let hiding = elem_scalar_mul(&nonce.d, &generator);
    let binding = elem_scalar_mul(&nonce.e, &generator);
    proof {
        lemma_small_mod(scalar_of(nonce.d) as nat, fr_order() as nat);
        lemma_small_mod(scalar_of(nonce.e) as nat, fr_order() as nat);
    }
    let mut found = false;
    let mut consistent = true;
    let mut k: usize = 0;
    while k < commitments.len()
        invariant
            k <= commitments@.len(),
            group_log_of(hiding) == scalar_of(nonce.d),
            group_log_of(binding) == scalar_of(nonce.e),
            found == exists|i: int| 0 <= i < k && (#[trigger] commitments@[i]).id == id,
            consistent == forall|i: int|
                0 <= i < k && (#[trigger] commitments@[i]).id == id ==> group_log_of(
                    commitments@[i].hiding,
                ) == scalar_of(nonce.d) && group_log_of(commitments@[i].binding) == scalar_of(
                    nonce.e,
                ),
        decreases commitments@.len() - k,
    {
        if commitments[k].id == id {
            found = true;
            let hiding_matches = elem_eq(&commitments[k].hiding, &hiding);
            let binding_matches = elem_eq(&commitments[k].binding, &binding);
            if !(hiding_matches && binding_matches) {
                consistent = false;
            }
        }
        k = k + 1;
    }
    if !(found && consistent) {
        return Err(FrostError::ProtocolState);
    }
    let rho = binding_value(id, message, commitments);
    let bound_nonce = fr_mul(&rho, &nonce.e);
    let effective_nonce = fr_add(&nonce.d, &bound_nonce);
    let group_nonce = group_commitment(commitments, message);
    let challenge = sign_challenge_scalar(&group_nonce, group_public_key, message);
    let ids = collect_ids(commitments);
    let lambda = match lagrange_coefficient(&ids, id) {
        Ok(lambda) => lambda,
        Err(e) => {
            return Err(e);
        },
    };
    let weighted = fr_mul(&lambda, &challenge);
    let contribution = fr_mul(&weighted, long_term_share);
    let z = fr_add(&effective_nonce, &contribution);
    proof {
        let cs = commitments@;
        let witness = choose|i: int| 0 <= i < cs.len() && (#[trigger] cs[i]).id == id;
        assert(effective_nonce_log(cs[witness], message@, cs) == fr_add_spec(
            scalar_of(nonce.d),
            fr_mul_spec(binding_value_of(id, message@, cs), scalar_of(nonce.e)),
        ));
        lemma_small_mod(scalar_of(z) as nat, fr_order() as nat);
    }
    Ok(PartialSignature { id, z })
}

/// The response values of a list of partial signatures.
pub open spec fn response_values(partials: Seq<PartialSignature>) -> Seq<int> {
    partials.map_values(|p: PartialSignature| scalar_of(p.z))
}

/// Whether some verification share carries the partial's identifier and the
/// partial passes the per-signer check against it.
pub open spec fn aggregate_check_ok(
    p: PartialSignature,
    commits: Seq<NonceCommitment>,
    shares: Seq<VerificationShare>,
    group_key: int,
    message: Seq<u8>,
) -> bool {
    exists|k: int|
        0 <= k < shares.len() && (#[trigger] shares[k]).id == p.id && partial_ok(
            p,
            commits,
            group_log_of(shares[k].key),
            group_key,
            message,
        )
}

/// The exact acceptance condition for one partial signature: at least one
/// commitment entry and at least one verification share carry its
/// identifier, and the per-signer verification equation holds for every
/// pair of entries that do.
pub open spec fn partial_accepted(
    p: PartialSignature,
    commits: Seq<NonceCommitment>,
    shares: Seq<VerificationShare>,
    group_key: int,
    message: Seq<u8>,
) -> bool {
    &&& exists|k: int| 0 <= k < commits.len() && (#[trigger] commits[k]).id == p.id
    &&& exists|k: int| 0 <= k < shares.len() && (#[trigger] shares[k]).id == p.id
    &&& forall|a: int, b: int|
        0 <= a < commits.len() && (#[trigger] commits[a]).id == p.id && 0 <= b < shares.len()
            && (#[trigger] shares[b]).id == p.id ==> partial_equation(
            p,
            commits[a],
            group_log_of(shares[b].key),
            commits,
            group_key,
            message,
        )
}

/// An accepted partial signature passes the existential per-signer check.
proof fn lemma_accepted_implies_checked(
    p: PartialSignature,
    commits: Seq<NonceCommitment>,
    shares: Seq<VerificationShare>,
    group_key: int,
    message: Seq<u8>,
)
    requires
        partial_accepted(p, commits, shares, group_key, message),
    ensures
        aggregate_check_ok(p, commits, shares, group_key, message),
{
    let kc = choose|k: int| 0 <= k < commits.len() && (#[trigger] commits[k]).id == p.id;
    let ks = choose|k: int| 0 <= k < shares.len() && (#[trigger] shares[k]).id == p.id;
    assert(partial_equation(p, commits[kc], group_log_of(shares[ks].key), commits, group_key, message));
    assert(partial_ok(p, commits, group_log_of(shares[ks].key), group_key, message));
}

/// Combine a quorum of partial signatures into one Schnorr signature.
/// Fewer than `threshold` partials is a quorum error.  A partial whose
/// identifier has no commitment entry or no verification share, or that
/// fails the per-signer equation against some pair of entries carrying its
/// identifier, is a verification failure naming that signer; a zero
/// Lagrange denominator is a configuration error.  Success is owed
/// whenever a quorum of partials is supplied and every one of them is
/// accepted with a nonzero denominator; the signature then commits to the
/// group nonce and responds with the sum of the partial responses.
pub fn aggregate(
    partials: &Vec<PartialSignature>,
    commitments: &Vec<NonceCommitment>,
    verification_shares: &Vec<VerificationShare>,
    group_public_key: &decaf377::Element,
    message: &Vec<u8>,
    threshold: usize,
) -> (r: Result<Signature, FrostError>)
    ensures
        (partials@.len() < threshold) <==> r == Err::<Signature, FrostError>(FrostError::Quorum),
        partials@.len() >= threshold && (forall|i: int|
            0 <= i < partials@.len() ==> partial_accepted(
                #[trigger] partials@[i],
                commitments@,
                verification_shares@,
                group_log_of(*group_public_key),
                message@,
            ) && lagrange_den(ids_of(commitments@), partials@[i].id) % fr_order() != 0) ==> r
            is Ok,
        r is Err && r->Err_0 is Verification ==> exists|i: int|
            0 <= i < partials@.len() && (#[trigger] partials@[i]).id == r->Err_0->Verification_0
                && !partial_accepted(
                partials@[i],
                commitments@,
                verification_shares@,
                group_log_of(*group_public_key),
                message@,
            ),
        r is Err && r->Err_0 is Configuration ==> exists|i: int|
            0 <= i < partials@.len() && lagrange_den(
                ids_of(commitments@),
                (#[trigger] partials@[i]).id,
            ) % fr_order() == 0,
        r is Ok ==> group_log_of(r->Ok_0.commitment) == group_nonce_log(commitments@, message@)
            && scalar_of(r->Ok_0.challenge_response) == seq_sum(response_values(partials@))
            % fr_order() && forall|i: int|
            0 <= i < partials@.len() ==> aggregate_check_ok(
                #[trigger] partials@[i],
                commitments@,
                verification_shares@,
                group_log_of(*group_public_key),
                message@,
            ),
{
    if partials.len() < threshold {
        return Err(FrostError::Quorum);
    }
    let group_nonce = group_commitment(commitments, message);
    let challenge = sign_challenge_scalar(&group_nonce, group_public_key, message);
    let ids = collect_ids(commitments);
    let generator = basepoint();
    let ghost zs = response_values(partials@);
    let ghost gk = group_log_of(*group_public_key);
    let mut sum = fr_zero();
    assert(zs.subrange(0, 0) =~= Seq::<int>::empty());
    let mut i: usize = 0;
    while i < partials.len()
        invariant
            i <= partials@.len(),
            zs == response_values(partials@),
            ids@ == ids_of(commitments@),
            gk == group_log_of(*group_public_key),
            group_log_of(group_nonce) == group_nonce_log(commitments@, message@),
            scalar_of(challenge) == sign_challenge_of(commitments@, gk, message@),
            group_log_of(generator) == 1,
            partials@.len() >= threshold,
            scalar_of(sum) == seq_sum(zs.subrange(0, i as int)) % fr_order(),
            fr_valid(scalar_of(sum)),
            forall|k: int|
                0 <= k < i ==> aggregate_check_ok(
                    #[trigger] partials@[k],
                    commitments@,
                    verification_shares@,
                    gk,
                    message@,
                ),
        decreases partials@.len() - i,
    {
        let p_id = partials[i].id;
        let mut commit_found = false;
        let mut scan: usize = 0;
        while scan < commitments.len()
            invariant
                scan <= commitments@.len(),
                commit_found == exists|k: int|
                    0 <= k < scan && (#[trigger] commitments@[k]).id == p_id,
            decreases commitments@.len() - scan,
        {
            if commitments[scan].id == p_id {
                commit_found = true;
            }
            scan = scan + 1;
        }
        let mut share_found = false;
        let mut scan2: usize = 0;
        while scan2 < verification_shares.len()
            invariant
                scan2 <= verification_shares@.len(),
                share_found == exists|k: int|
                    0 <= k < scan2 && (#[trigger] verification_shares@[k]).id == p_id,
            decreases verification_shares@.len() - scan2,
        {
            if verification_shares[scan2].id == p_id {
                share_found = true;
            }
            scan2 = scan2 + 1;
        }
        if !commit_found || !share_found {
            return Err(FrostError::Verification(p_id));
        }
        let lambda = match lagrange_coefficient(&ids, p_id) {
            Ok(lambda) => lambda,
            Err(_) => {
                return Err(FrostError::Configuration);
            },
        };
        let rho = binding_value(p_id, message, commitments);
        let weighted = fr_mul(&lambda, &challenge);
        let response_commitment = elem_scalar_mul(&partials[i].z, &generator);
        let mut failed = false;
        let mut k1: usize = 0;
        while k1 < commitments.len()
            invariant
                k1 <= commitments@.len(),
                i < partials@.len(),
                p_id == partials@[i as int].id,
                zs == response_values(partials@),
                ids@ == ids_of(commitments@),
                gk == group_log_of(*group_public_key),
                scalar_of(challenge) == sign_challenge_of(commitments@, gk, message@),
                scalar_of(rho) == binding_value_of(p_id, message@, commitments@),
                scalar_of(weighted) == fr_mul_spec(
                    lagrange_coeff_spec(ids_of(commitments@), p_id),
                    sign_challenge_of(commitments@, gk, message@),
                ),
                group_log_of(response_commitment) == scalar_of(partials@[i as int].z)
                    % fr_order(),
                failed ==> exists|a: int, b: int|
                    0 <= a < commitments@.len() && (#[trigger] commitments@[a]).id == p_id && 0
                        <= b < verification_shares@.len() && (
                    #[trigger] verification_shares@[b]).id == p_id && !partial_equation(
                        partials@[i as int],
                        commitments@[a],
                        group_log_of(verification_shares@[b].key),
                        commitments@,
                        gk,
                        message@,
                    ),
                !failed ==> forall|a: int, b: int|
                    0 <= a < k1 && (#[trigger] commitments@[a]).id == p_id && 0 <= b
                        < verification_shares@.len() && (#[trigger] verification_shares@[b]).id
                        == p_id ==> partial_equation(
                        partials@[i as int],
                        commitments@[a],
                        group_log_of(verification_shares@[b].key),
                        commitments@,
                        gk,
                        message@,
                    ),
            decreases commitments@.len() - k1,
        {
            if commitments[k1].id == p_id {
                let bound = elem_scalar_mul(&rho, &commitments[k1].binding);
                let effective = elem_add(&commitments[k1].hiding, &bound);
                let mut k2: usize = 0;
                while k2 < verification_shares.len()
                    invariant
                        k2 <= verification_shares@.len(),
                        k1 < commitments@.len(),
                        commitments@[k1 as int].id == p_id,
                        i < partials@.len(),
                        p_id == partials@[i as int].id,
                        ids@ == ids_of(commitments@),
                        gk == group_log_of(*group_public_key),
                        scalar_of(challenge) == sign_challenge_of(commitments@, gk, message@),
                        scalar_of(rho) == binding_value_of(p_id, message@, commitments@),
                        scalar_of(weighted) == fr_mul_spec(
                            lagrange_coeff_spec(ids_of(commitments@), p_id),
                            sign_challenge_of(commitments@, gk, message@),
                        ),
                        group_log_of(response_commitment) == scalar_of(partials@[i as int].z)
                            % fr_order(),
                        group_log_of(effective) == effective_nonce_log(
                            commitments@[k1 as int],
                            message@,
                            commitments@,
                        ),
                        failed ==> exists|a: int, b: int|
                            0 <= a < commitments@.len() && (#[trigger] commitments@[a]).id == p_id
                                && 0 <= b < verification_shares@.len() && (
                            #[trigger] verification_shares@[b]).id == p_id && !partial_equation(
                                partials@[i as int],
                                commitments@[a],
                                group_log_of(verification_shares@[b].key),
                                commitments@,
                                gk,
                                message@,
                            ),
                        !failed ==> forall|a: int, b: int|
                            0 <= a < k1 && (#[trigger] commitments@[a]).id == p_id && 0 <= b
                                < verification_shares@.len() && (
                            #[trigger] verification_shares@[b]).id == p_id ==> partial_equation(
                                partials@[i as int],
                                commitments@[a],
                                group_log_of(verification_shares@[b].key),
                                commitments@,
                                gk,
                                message@,
                            ),
                        !failed ==> forall|b: int|
                            0 <= b < k2 && (#[trigger] verification_shares@[b]).id == p_id
                                ==> partial_equation(
                                partials@[i as int],
                                commitments@[k1 as int],
                                group_log_of(verification_shares@[b].key),
                                commitments@,
                                gk,
                                message@,
                            ),
                    decreases verification_shares@.len() - k2,
                {
                    if verification_shares[k2].id == p_id {
                        let keyed = elem_scalar_mul(&weighted, &verification_shares[k2].key);
                        let expected = elem_add(&effective, &keyed);
                        if !elem_eq(&response_commitment, &expected) {
                            failed = true;
                        }
                    }
                    k2 = k2 + 1;
                }
            }
            k1 = k1 + 1;
        }
        if failed {
            return Err(FrostError::Verification(p_id));
        }
        sum = fr_add(&sum, &partials[i].z);
        proof {
            lemma_sum_step(zs, i as int);
            assert(partial_accepted(
                partials@[i as int],
                commitments@,
                verification_shares@,
                gk,
                message@,
            ));
            lemma_accepted_implies_checked(
                partials@[i as int],
                commitments@,
                verification_shares@,
                gk,
                message@,
            );
        }
        i = i + 1;
    }
    assert(zs.subrange(0, partials@.len() as int) =~= zs);
    Ok(Signature { commitment: group_nonce, challenge_response: sum })
}

/// The Schnorr verification equation for a threshold signature: the
/// response times the generator, minus the challenge times the group
/// verification key, must land back on the signature's commitment.
pub open spec fn threshold_verifies(rc: int, z: int, group_key: int, message: Seq<u8>) -> bool {
    fr_sub_spec(
        z % fr_order(),
        fr_mul_spec(
            sign_challenge(encoding_of(rc), encoding_of(group_key), message),
            group_key,
        ),
    ) == rc
}

/// Verify a threshold signature against the group verification key and the
/// message: the same equation as for a single-party Schnorr signature, so a
/// caller cannot tell which subset produced it.
pub fn verify_threshold_signature(
    sig: &Signature,
    group_public_key: &decaf377::Element,
    message: &Vec<u8>,
) -> (r: bool)
    ensures
        r == threshold_verifies(
            group_log_of(sig.commitment),
            scalar_of(sig.challenge_response),
            group_log_of(*group_public_key),
            message@,
        ),
{
    let challenge = sign_challenge_scalar(&sig.commitment, group_public_key, message);
    let generator = basepoint();
    let response_commitment = elem_scalar_mul(&sig.challenge_response, &generator);
    let bound_key = elem_scalar_mul(&challenge, group_public_key);
    let candidate = elem_sub(&response_commitment, &bound_key);
    elem_eq(&candidate, &sig.commitment)
}

} // verus!
