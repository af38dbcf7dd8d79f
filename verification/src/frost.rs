//! The distributed key generation core: a local signer owning one secret
//! polynomial, its public commitment and proof of knowledge, and the
//! committee view that collects and verifies the peers' commitments.

use vstd::prelude::*;
use vstd::arithmetic::div_mod::lemma_small_mod;

use crate::group::{
    basepoint, elem_add, elem_eq, elem_identity, elem_scalar_mul, elem_sub, encoding_of, fr_add,
    fr_mul, fr_mul_spec, fr_order, fr_random, fr_sub_spec, fr_valid, group_log_of, scalar_of,
};
use crate::polynomial::{
    horner_eval, lemma_add_sub_cancel, lemma_sum_step, logs_of, poly_eval, scalars_of, seq_sum,
};
use crate::schnorr::Signature;
use crate::FrostError;

verus! {

#[verifier::external_type_specification]
#[verifier::external_body]
pub struct ExTranscript(merlin::Transcript);

// The challenge scalar that the domain-separated key-generation transcript
// derives from a signer identifier and the encodings of the constant-term
// commitment and the nonce commitment.
pub uninterp spec fn pok_challenge(id: u64, c0_bytes: Seq<u8>, nonce_bytes: Seq<u8>) -> int;

/// The key-generation challenge for a signer identifier and the two
/// committed points, written over their discrete logarithms.
pub open spec fn pok_challenge_of(id: u64, c0: int, nc: int) -> int {
    pok_challenge(id, encoding_of(c0), encoding_of(nc))
}

/// The Schnorr verification equation for a proof of knowledge: the response
/// times the generator, minus the challenge times the constant-term
/// commitment, must land back on the published nonce commitment.  `c0` and
/// `nc` are the discrete logarithms of the constant-term commitment and of
/// the nonce commitment the challenge was computed against; `rc` is the
/// discrete logarithm of the commitment carried by the proof itself, and
/// `z` is the canonical value of the response scalar.
pub open spec fn pok_verifies(id: u64, c0: int, nc: int, rc: int, z: int) -> bool {
    fr_sub_spec(z % fr_order(), fr_mul_spec(pok_challenge_of(id, c0, nc), c0)) == rc
}

/// A participant in the threshold signing protocol: the owner of one secret
/// polynomial, together with the public commitment to its coefficients.
pub struct FrostSigner {
    /// The signer's identifier.
    pub id: u64,
    /// The coefficients of the secret polynomial; the constant term is this
    /// signer's contribution to the shared secret.
    pub signing_key: Vec<decaf377::Fr>,
    /// This signer's blinding factor for the proof of knowledge.
    pub nonce: decaf377::Fr,
    /// A public commitment to the coefficients: each one multiplied by the
    /// generator.
    pub commitment: Vec<decaf377::Element>,
}

/// One peer's broadcast material, as the committee sees it: an identifier,
/// a coefficient commitment, and a proof of knowledge of the constant term.
pub struct PeerCommitment {
    /// The signer's identifier.
    pub id: u64,
    /// A public commitment to the coefficients of that signer's key.
    pub commitment: Vec<decaf377::Element>,
    /// A proof of knowledge of the constant term of the polynomial.
    pub sig: Signature,
}

impl Default for PeerCommitment {
    /// The reserved zero identifier with an empty commitment; never
    /// admissible to a committee.
    fn default() -> (r: Self)
        ensures
            r.id == 0,
            r.commitment@.len() == 0,
            group_log_of(r.sig.commitment) == 0,
            scalar_of(r.sig.challenge_response) == 0,
    {
        Self { id: 0, commitment: Vec::new(), sig: Signature::default() }
    }
}

impl PeerCommitment {
    /// The proof of knowledge carried by this peer checks out against its
    /// own identifier and constant-term commitment.
    pub open spec fn pok_ok(self) -> bool {
        pok_verifies(
            self.id,
            group_log_of(self.commitment@[0]),
            group_log_of(self.sig.commitment),
            group_log_of(self.sig.commitment),
            scalar_of(self.sig.challenge_response),
        )
    }

    /// What the committee of threshold `t` demands of an admitted peer: a
    /// nonzero identifier, exactly `t` committed coefficients, and a valid
    /// proof of knowledge.
    pub open spec fn admissible(self, t: int) -> bool {
        &&& self.id != 0
        &&& self.commitment@.len() == t
        &&& self.pok_ok()
    }
}

impl FrostSigner {
    /// A well-formed signer: at least one coefficient, a commitment entry
    /// per coefficient whose discrete logarithm is that coefficient, and
    /// canonical scalars throughout.
    pub open spec fn wf(self) -> bool {
        &&& self.signing_key@.len() >= 1
        &&& self.commitment@.len() == self.signing_key@.len()
        &&& forall|i: int|
            0 <= i < self.signing_key@.len() ==> fr_valid(
                #[trigger] scalar_of(self.signing_key@[i]),
            )
        &&& forall|i: int|
            0 <= i < self.commitment@.len() ==> #[trigger] group_log_of(self.commitment@[i])
                == scalar_of(self.signing_key@[i])
        &&& fr_valid(scalar_of(self.nonce))
    }

    /// Draw a fresh secret polynomial of `threshold` random coefficients and
    /// commit to every coefficient.
    pub fn new(id: u64, _committee_size: usize, threshold: usize) -> (r: Self)
        requires
            1 <= threshold,
        ensures
            r.wf(),
            r.id == id,
            r.signing_key@.len() == threshold,
    {
        let mut signing_key: Vec<decaf377::Fr> = Vec::new();
        let mut k: usize = 0;
        while k < threshold
            invariant
                k == signing_key@.len(),
                k <= threshold,
                forall|i: int|
                    0 <= i < k ==> fr_valid(#[trigger] scalar_of(signing_key@[i])),
            decreases threshold - k,
        {
            signing_key.push(fr_random());
            k = k + 1;
        }

        let generator = basepoint();
        let mut commitment: Vec<decaf377::Element> = Vec::new();
        let mut k: usize = 0;
        while k < signing_key.len()
            invariant
                k == commitment@.len(),
                k <= signing_key@.len(),
                forall|i: int|
                    0 <= i < signing_key@.len() ==> fr_valid(
                        #[trigger] scalar_of(signing_key@[i]),
                    ),
                group_log_of(generator) == 1,
                forall|i: int|
                    0 <= i < k ==> #[trigger] group_log_of(commitment@[i]) == scalar_of(
                        signing_key@[i],
                    ),
            decreases signing_key@.len() - k,
        {
            let c = elem_scalar_mul(&signing_key[k], &generator);
            proof {
                lemma_small_mod(scalar_of(signing_key@[k as int]) as nat, fr_order() as nat);
            }
            commitment.push(c);
            k = k + 1;
        }

        let nonce = fr_random();
        Self { id, signing_key, nonce, commitment }
    }

    pub fn id(&self) -> (r: u64)
        ensures
            r == self.id,
    {
        self.id
    }

    /// Evaluate the secret polynomial at the given point.
    fn signing_key_evaluate(&self, point: &decaf377::Fr) -> (r: decaf377::Fr)
        ensures
            scalar_of(r) == poly_eval(scalars_of(self.signing_key@), scalar_of(*point)),
            fr_valid(scalar_of(r)),
    {
        horner_eval(&self.signing_key, point)
    }

    /// The private share this signer owes the participant with the given
    /// index: the secret polynomial evaluated there.
    pub fn generate_share(&self, index: u64) -> (r: decaf377::Fr)
        ensures
            scalar_of(r) == poly_eval(scalars_of(self.signing_key@), index as int),
            fr_valid(scalar_of(r)),
    {
        let point = crate::group::fr_from_u64(index);
        self.signing_key_evaluate(&point)
    }

    /// Relies on merlin::Transcript: the domain-separated key-generation
    /// transcript over the signer identifier and the canonical encodings of
    /// the constant-term commitment and the nonce commitment.
    #[verifier::external_body]
    pub fn keygen_transcript(
        id: u64,
        constant_term_commitment: &decaf377::Element,
        nonce_commitment: &decaf377::Element,
    ) -> merlin::Transcript {
        let mut transcript = merlin::Transcript::new(b"freddo377-key-gen");
        transcript.append_u64(b"signer-identifier", id);
        transcript.append_message(
            b"constant-term-commitment",
            constant_term_commitment.vartime_compress().0.as_ref(),
        );
        transcript.append_message(
            b"nonce-commitment",
            nonce_commitment.vartime_compress().0.as_ref(),
        );
        transcript
    }

    /// Relies on merlin::Transcript::challenge_bytes, a deterministic
    /// function of the absorbed transcript, and on
    /// decaf377::Fr::from_le_bytes_mod_order, which reduces the 32 challenge
    /// bytes modulo the group order: the challenge scalar depends only on
    /// the identifier and the two point encodings.
    #[verifier::external_body]
    pub fn keygen_challenge(
        id: u64,
        constant_term_commitment: &decaf377::Element,
        nonce_commitment: &decaf377::Element,
    ) -> (r: (decaf377::Fr, merlin::Transcript))
        ensures
            scalar_of(r.0) == pok_challenge(
                id,
                encoding_of(group_log_of(*constant_term_commitment)),
                encoding_of(group_log_of(*nonce_commitment)),
            ),
            fr_valid(scalar_of(r.0)),
    {
        let mut transcript = Self::keygen_transcript(id, constant_term_commitment, nonce_commitment);
        let mut challenge_raw: [u8; 32] = [0u8; 32];
        transcript.challenge_bytes(b"schnorr-sig-challenge", &mut challenge_raw);
        let challenge_scalar = decaf377::Fr::from_le_bytes_mod_order(&challenge_raw);
        (challenge_scalar, transcript)
    }

    /// Produce this signer's proof of knowledge of its constant term.  The
    /// proof it returns passes `keygen_verify_proof` against this signer's
    /// identifier and constant-term commitment.
    pub fn keygen_proof(&self) -> (r: (Signature, merlin::Transcript))
        requires
            self.wf(),
        ensures
            group_log_of(r.0.commitment) == scalar_of(self.nonce),
            fr_valid(scalar_of(r.0.challenge_response)),
            pok_verifies(
                self.id,
                group_log_of(self.commitment@[0]),
                group_log_of(r.0.commitment),
                group_log_of(r.0.commitment),
                scalar_of(r.0.challenge_response),
            ),
    {
        let generator = basepoint();
        let nonce_commitment = elem_scalar_mul(&self.nonce, &generator);
        proof {
            lemma_small_mod(scalar_of(self.nonce) as nat, fr_order() as nat);
        }
        let (challenge, transcript) = Self::keygen_challenge(
            self.id,
            &self.commitment[0],
            &nonce_commitment,
        );
        let bound_secret = fr_mul(&challenge, &self.signing_key[0]);
        let response = fr_add(&self.nonce, &bound_secret);
        proof {
            lemma_small_mod(scalar_of(response) as nat, fr_order() as nat);
            lemma_add_sub_cancel(scalar_of(self.nonce), scalar_of(bound_secret));
        }
        let sig = Signature { commitment: nonce_commitment, challenge_response: response };
        (sig, transcript)
    }

    /// Check a proof of knowledge: recompute the challenge from the
    /// identifier, the constant-term commitment and the claimed nonce
    /// commitment, and test the Schnorr verification equation.
    pub fn keygen_verify_proof(
        id: u64,
        constant_term_commitment: &decaf377::Element,
        nonce_commitment: &decaf377::Element,
        sig: &Signature,
    ) -> (r: bool)
        ensures
            r == pok_verifies(
                id,
                group_log_of(*constant_term_commitment),
                group_log_of(*nonce_commitment),
                group_log_of(sig.commitment),
                scalar_of(sig.challenge_response),
            ),
    {
        let (challenge, _transcript) = Self::keygen_challenge(
            id,
            constant_term_commitment,
            nonce_commitment,
        );
        let generator = basepoint();
        let response_commitment = elem_scalar_mul(&sig.challenge_response, &generator);
        let bound_term = elem_scalar_mul(&challenge, constant_term_commitment);
        let candidate_commitment = elem_sub(&response_commitment, &bound_term);
        elem_eq(&candidate_commitment, &sig.commitment)
    }

    /// The public commitment to this signer's nonce.
    pub fn nonce_commitment(&self) -> (r: decaf377::Element)
        requires
            self.wf(),
        ensures
            group_log_of(r) == scalar_of(self.nonce),
    {
        let generator = basepoint();
        let r = elem_scalar_mul(&self.nonce, &generator);
        proof {
            lemma_small_mod(scalar_of(self.nonce) as nat, fr_order() as nat);
        }
        r
    }

    /// A clone of the public commitment, for broadcast.
    pub fn public_commitment(&self) -> (r: Vec<decaf377::Element>)
        ensures
            r@ == self.commitment@,
    {
        let mut out: Vec<decaf377::Element> = Vec::new();
        let mut i: usize = 0;
        while i < self.commitment.len()
            invariant
                i == out@.len(),
                i <= self.commitment@.len(),
                forall|j: int| 0 <= j < i ==> out@[j] == self.commitment@[j],
            decreases self.commitment@.len() - i,
        {
            out.push(crate::group::elem_clone(&self.commitment[i]));
            i = i + 1;
        }
        assert(out@ =~= self.commitment@);
        out
    }
}

/// Whether some admitted peer already carries the given identifier.
pub open spec fn has_id(s: Seq<PeerCommitment>, id: u64) -> bool {
    exists|i: int| 0 <= i < s.len() && (#[trigger] s[i]).id == id
}

/// The discrete logarithms of the constant-term commitments of a peer set.
pub open spec fn constant_term_logs(s: Seq<PeerCommitment>) -> Seq<int> {
    s.map_values(|pc: PeerCommitment| group_log_of(pc.commitment@[0]))
}

/// Transcript determinism: the key-generation challenge is a function of
/// the signer identifier and the two committed points alone, so two
/// challenge computations over equal inputs yield equal challenges.
pub proof fn lemma_transcript_determinism(id1: u64, c01: int, nc1: int, id2: u64, c02: int, nc2: int)
    requires
        id1 == id2,
        c01 == c02,
        nc1 == nc2,
    ensures
        pok_challenge_of(id1, c01, nc1) == pok_challenge_of(id2, c02, nc2),
{
}

/// Feldman consistency: for every index, the secret polynomial evaluated
/// there equals the published commitment evaluated there, so the share a
/// well-formed signer produces passes the public share check against its
/// own commitment.
pub proof fn lemma_feldman_consistency(signer: FrostSigner, index: u64)
    requires
        signer.wf(),
    ensures
        poly_eval(scalars_of(signer.signing_key@), index as int) == poly_eval(
            logs_of(signer.commitment@),
            index as int,
        ),
{
    assert(logs_of(signer.commitment@) =~= scalars_of(signer.signing_key@));
}

/// Quorum boundary: one short of the threshold the committee is not
/// ready, and at exactly the threshold it is.
pub proof fn lemma_quorum_boundary(c: FrostCommittee)
    ensures
        c.signers@.len() == c.t - 1 ==> !(c.signers@.len() >= c.t),
        c.signers@.len() == c.t ==> c.signers@.len() >= c.t,
{
}

/// The group key law, for a committee of any size: when every admitted
/// peer's constant-term commitment logarithm is that peer's constant term
/// itself — which holds of every honestly generated commitment — the sum
/// that `group_public_key` fixes is the sum of the constant terms, so the
/// group verification key is the generator multiple of the group secret.
pub proof fn lemma_group_key_from_constant_terms(signers: Seq<PeerCommitment>, terms: Seq<int>)
    requires
        terms.len() == signers.len(),
        forall|i: int|
            0 <= i < signers.len() ==> group_log_of(
                (#[trigger] signers[i]).commitment@[0],
            ) == terms[i],
    ensures
        seq_sum(constant_term_logs(signers)) == seq_sum(terms),
{
    assert(constant_term_logs(signers) =~= terms);
}

/// The evaluations of every admitted peer's commitment at one index.
pub open spec fn commitment_evals(s: Seq<PeerCommitment>, x: int) -> Seq<int> {
    s.map_values(|pc: PeerCommitment| poly_eval(logs_of(pc.commitment@), x))
}

/// The committee view of one key-generation run: the `(n, t)` parameters
/// and the monotonically growing set of verified peers.
pub struct FrostCommittee {
    /// The number of signers in the committee.
    pub n: usize,
    /// The number of signers required to produce a signature.
    pub t: usize,
    /// The verified peers admitted so far.
    pub signers: Vec<PeerCommitment>,
}

impl FrostCommittee {
    /// A well-formed committee: valid `(n, t)` parameters, every admitted
    /// peer admissible, and no two admitted peers sharing an identifier.
    pub open spec fn wf(self) -> bool {
        &&& 1 <= self.t <= self.n
        &&& forall|i: int|
            0 <= i < self.signers@.len() ==> (#[trigger] self.signers@[i]).admissible(
                self.t as int,
            )
        &&& forall|i: int, j: int|
            0 <= i < j < self.signers@.len() ==> self.signers@[i].id != self.signers@[j].id
    }

    /// Build an empty committee; `t` outside `1..=n` is a configuration
    /// error.
    pub fn new(n: usize, t: usize) -> (r: Result<Self, FrostError>)
        ensures
            1 <= t <= n ==> r is Ok && r->Ok_0.wf() && r->Ok_0.n == n && r->Ok_0.t == t
                && r->Ok_0.signers@.len() == 0,
            !(1 <= t <= n) ==> r == Err::<Self, FrostError>(FrostError::Configuration),
    {
        if t < 1 || t > n {
            Err(FrostError::Configuration)
        } else {
            Ok(Self { n, t, signers: Vec::new() })
        }
    }

    /// Whether a peer with this identifier was already admitted.
    fn contains_id(&self, id: u64) -> (r: bool)
        ensures
            r == has_id(self.signers@, id),
    {
        let mut i: usize = 0;
        while i < self.signers.len()
            invariant
                i <= self.signers@.len(),
                forall|j: int| 0 <= j < i ==> (#[trigger] self.signers@[j]).id != id,
            decreases self.signers@.len() - i,
        {
            if self.signers[i].id == id {
                return true;
            }
            i = i + 1;
        }
        false
    }

    /// Admit one peer's broadcast material, verifying it first.  A zero
    /// identifier or a commitment of the wrong length is a configuration
    /// error; a duplicate identifier or a failing proof of knowledge is a
    /// verification failure attributed to that identifier.  The admitted set
    /// only ever grows, and an admitted peer is never removed.
    pub fn add_signer(&mut self, peer_commitment: PeerCommitment) -> (r: Result<(), FrostError>)
        requires
            old(self).wf(),
        ensures
            final(self).wf(),
            final(self).n == old(self).n,
            final(self).t == old(self).t,
            peer_commitment.id == 0 || peer_commitment.commitment@.len() != old(self).t ==> r
                == Err::<(), FrostError>(FrostError::Configuration),
            peer_commitment.id != 0 && peer_commitment.commitment@.len() == old(self).t && (has_id(
                old(self).signers@,
                peer_commitment.id,
            ) || !peer_commitment.pok_ok()) ==> r == Err::<(), FrostError>(
                FrostError::Verification(peer_commitment.id),
            ),
            r is Err ==> *final(self) == *old(self),
            peer_commitment.admissible(old(self).t as int) && !has_id(
                old(self).signers@,
                peer_commitment.id,
            ) ==> r is Ok && final(self).signers@ == old(self).signers@.push(peer_commitment),
    {
        if peer_commitment.id == 0 || peer_commitment.commitment.len() != self.t {
            return Err(FrostError::Configuration);
        }
        if self.contains_id(peer_commitment.id) {
            return Err(FrostError::Verification(peer_commitment.id));
        }
        let pok_ok = FrostSigner::keygen_verify_proof(
            peer_commitment.id,
            &peer_commitment.commitment[0],
            &peer_commitment.sig.commitment,
            &peer_commitment.sig,
        );
        if !pok_ok {
            return Err(FrostError::Verification(peer_commitment.id));
        }
        self.signers.push(peer_commitment);
        Ok(())
    }

    pub fn threshold(&self) -> (r: usize)
        ensures
            r == self.t,
    {
        self.t
    }

    pub fn committee_size(&self) -> (r: usize)
        ensures
            r == self.n,
    {
        self.n
    }

    /// Whether enough peers are verified for share exchange and signing to
    /// proceed: at least `t` of them.
    pub fn is_ready(&self) -> (r: bool)
        ensures
            r == (self.signers@.len() >= self.t),
    {
        self.signers.len() >= self.t
    }

    /// The group verification key: the sum of the constant-term commitments
    /// of all verified peers.  Available only once the committee is ready.
    pub fn group_public_key(&self) -> (r: Option<decaf377::Element>)
        requires
            self.wf(),
        ensures
            self.signers@.len() >= self.t ==> r is Some && group_log_of(r->0) == seq_sum(
                constant_term_logs(self.signers@),
            ) % fr_order() && fr_valid(group_log_of(r->0)),
            self.signers@.len() < self.t ==> r is None,
    {
        if self.signers.len() < self.t {
            return None;
        }
        let ghost logs = constant_term_logs(self.signers@);
        let mut acc = elem_identity();
        assert(logs.subrange(0, 0) =~= Seq::<int>::empty());
        let mut i: usize = 0;
        while i < self.signers.len()
            invariant
                i <= self.signers@.len(),
                logs == constant_term_logs(self.signers@),
                self.wf(),
                group_log_of(acc) == seq_sum(logs.subrange(0, i as int)) % fr_order(),
                fr_valid(group_log_of(acc)),
            decreases self.signers@.len() - i,
        {
            acc = elem_add(&acc, &self.signers[i].commitment[0]);
            proof {
                lemma_sum_step(logs, i as int);
            }
            i = i + 1;
        }
        assert(logs.subrange(0, self.signers@.len() as int) =~= logs);
        Some(acc)
    }

    /// The public verification share of the participant with the given
    /// index: the sum over all admitted peers of that peer's commitment
    /// evaluated at the index.  This is the generator multiple of the
    /// participant's long-term secret share, and is what a partial
    /// signature is checked against.  Available only once the committee is
    /// ready.
    pub fn verification_share(&self, index: u64) -> (r: Option<decaf377::Element>)
        requires
            self.wf(),
        ensures
            self.signers@.len() >= self.t ==> r is Some && group_log_of(r->0) == seq_sum(
                commitment_evals(self.signers@, index as int),
            ) % fr_order() && fr_valid(group_log_of(r->0)),
            self.signers@.len() < self.t ==> r is None,
    {
        if self.signers.len() < self.t {
            return None;
        }
        let point = crate::group::fr_from_u64(index);
        let ghost evals = commitment_evals(self.signers@, index as int);
        let mut acc = elem_identity();
        assert(evals.subrange(0, 0) =~= Seq::<int>::empty());
        let mut i: usize = 0;
        while i < self.signers.len()
            invariant
                i <= self.signers@.len(),
                evals == commitment_evals(self.signers@, index as int),
                scalar_of(point) == index as int,
                self.wf(),
                group_log_of(acc) == seq_sum(evals.subrange(0, i as int)) % fr_order(),
                fr_valid(group_log_of(acc)),
            decreases self.signers@.len() - i,
        {
            let contribution = crate::polynomial::commitment_eval(
                &self.signers[i].commitment,
                &point,
            );
            acc = elem_add(&acc, &contribution);
            proof {
                lemma_sum_step(evals, i as int);
            }
            i = i + 1;
        }
        assert(evals.subrange(0, self.signers@.len() as int) =~= evals);
        Some(acc)
    }
}

} // verus!
