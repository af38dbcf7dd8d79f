use freddo377::dkg::{DkgParticipant, DkgState};
use freddo377::frost::{FrostCommittee, FrostSigner, PeerCommitment};
use freddo377::polynomial::feldman_check;
use freddo377::schnorr::Signature;
use freddo377::signing::{aggregate, lagrange_coefficient, partial_sign, verify_threshold_signature, SigningNonce, VerificationShare};
use freddo377::signing_key::SigningKey;
use freddo377::{FrostError, ParticipantIndex};

#[test]
/// Check that a signer can verify its own proof.
pub fn generate_proof_and_verify() {
    let signer = FrostSigner::new(1, 3, 2);
    let (sig, _transcript) = signer.keygen_proof();
    assert!(FrostSigner::keygen_verify_proof(
        signer.id(),
        &signer.commitment[0],
        &signer.nonce_commitment(),
        &sig
    ));
}

#[test]
/// Check that challenges are generated deterministically.
pub fn transcript_consistency() {
    let signer = FrostSigner::new(1, 3, 2);
    let (challenge1, _) = FrostSigner::keygen_challenge(
        signer.id(),
        &signer.commitment[0],
        &signer.nonce_commitment(),
    );

    let (challenge2, _) = FrostSigner::keygen_challenge(
        signer.id(),
        &signer.commitment[0],
        &signer.nonce_commitment(),
    );

    assert!(challenge1 == challenge2);
}

#[test]
fn proof_rejected_for_wrong_id() {
    let signer = FrostSigner::new(1, 3, 2);
    let (sig, _transcript) = signer.keygen_proof();
    assert!(!FrostSigner::keygen_verify_proof(
        2,
        &signer.commitment[0],
        &signer.nonce_commitment(),
        &sig
    ));
}

#[test]
fn proof_rejected_for_wrong_commitment() {
    let signer = FrostSigner::new(1, 3, 2);
    let other = FrostSigner::new(1, 3, 2);
    let (sig, _transcript) = signer.keygen_proof();
    assert!(!FrostSigner::keygen_verify_proof(
        1,
        &other.commitment[0],
        &signer.nonce_commitment(),
        &sig
    ));
}

#[test]
fn proof_rejected_for_tampered_response() {
    let signer = FrostSigner::new(1, 3, 2);
    let (sig, _transcript) = signer.keygen_proof();
    let tampered = Signature {
        commitment: sig.commitment,
        challenge_response: sig.challenge_response + decaf377::Fr::from(1u64),
    };
    assert!(!FrostSigner::keygen_verify_proof(
        1,
        &signer.commitment[0],
        &signer.nonce_commitment(),
        &tampered
    ));
}

#[test]
fn participant_index_rejects_zero() {
    assert!(matches!(ParticipantIndex::new(0), Err(FrostError::Configuration)));
    assert!(matches!(ParticipantIndex::new(7), Ok(ParticipantIndex(7))));
}

#[test]
fn committee_rejects_bad_parameters() {
    assert!(matches!(FrostCommittee::new(2, 3), Err(FrostError::Configuration)));
    assert!(matches!(FrostCommittee::new(3, 0), Err(FrostError::Configuration)));
    assert!(FrostCommittee::new(3, 2).is_ok());
}

fn own_peer_commitment(signer: &FrostSigner) -> PeerCommitment {
    let (sig, _transcript) = signer.keygen_proof();
    PeerCommitment {
        id: signer.id(),
        commitment: signer.public_commitment(),
        sig,
    }
}

#[test]
fn committee_rejects_rogue_keys() {
    let signer = FrostSigner::new(1, 3, 2);
    let other = FrostSigner::new(2, 3, 2);
    let mut committee = FrostCommittee::new(3, 2).unwrap();

    // A proof of knowledge replayed under a different identifier.
    let mut spoofed_id = own_peer_commitment(&signer);
    spoofed_id.id = 2;
    assert!(matches!(
        committee.add_signer(spoofed_id),
        Err(FrostError::Verification(2))
    ));

    // A proof of knowledge attached to someone else's commitment.
    let mut spoofed_commitment = own_peer_commitment(&signer);
    spoofed_commitment.commitment = other.public_commitment();
    assert!(matches!(
        committee.add_signer(spoofed_commitment),
        Err(FrostError::Verification(1))
    ));

    // The honest material is admitted.
    assert!(committee.add_signer(own_peer_commitment(&signer)).is_ok());
}

#[test]
fn committee_rejects_duplicates_and_bad_lengths() {
    let signer = FrostSigner::new(1, 3, 2);
    let mut committee = FrostCommittee::new(3, 2).unwrap();
    assert!(committee.add_signer(own_peer_commitment(&signer)).is_ok());
    assert!(matches!(
        committee.add_signer(own_peer_commitment(&signer)),
        Err(FrostError::Verification(1))
    ));

    let wrong_length = FrostSigner::new(2, 3, 3);
    assert!(matches!(
        committee.add_signer(own_peer_commitment(&wrong_length)),
        Err(FrostError::Configuration)
    ));

    let mut zero_id = own_peer_commitment(&FrostSigner::new(3, 3, 2));
    zero_id.id = 0;
    assert!(matches!(
        committee.add_signer(zero_id),
        Err(FrostError::Configuration)
    ));
}

#[test]
fn quorum_boundary() {
    let mut committee = FrostCommittee::new(3, 2).unwrap();
    assert!(!committee.is_ready());
    assert!(committee.group_public_key().is_none());
    committee
        .add_signer(own_peer_commitment(&FrostSigner::new(1, 3, 2)))
        .unwrap();
    assert!(!committee.is_ready());
    committee
        .add_signer(own_peer_commitment(&FrostSigner::new(2, 3, 2)))
        .unwrap();
    assert!(committee.is_ready());
    assert!(committee.group_public_key().is_some());
}

#[test]
fn feldman_consistency() {
    let signer = FrostSigner::new(1, 5, 3);
    for j in 1u64..=5 {
        let share = signer.generate_share(j);
        assert!(feldman_check(
            &share,
            &decaf377::Fr::from(j),
            &signer.commitment
        ));
        let bad_share = share + decaf377::Fr::from(1u64);
        assert!(!feldman_check(
            &bad_share,
            &decaf377::Fr::from(j),
            &signer.commitment
        ));
    }
}

#[test]
fn horner_evaluation_exact() {
    // 3 + 2x at x = 5 is 13.
    let key = SigningKey {
        coefficients: vec![decaf377::Fr::from(3u64), decaf377::Fr::from(2u64)],
    };
    assert!(key.evaluate(&decaf377::Fr::from(5u64)) == decaf377::Fr::from(13u64));
    let public = key.to_public_signing_key();
    assert_eq!(public.coefficients.len(), 2);
    assert!(public.coefficients[0] == decaf377::Fr::from(3u64) * decaf377::Element::GENERATOR);
}

#[test]
fn lagrange_coefficients_exact() {
    // For the subset {1, 2} at zero: the coefficient of 1 is 2/(2-1) = 2,
    // and the coefficient of 2 is 1/(1-2) = -1.
    let subset = vec![1u64, 2u64];
    let l1 = lagrange_coefficient(&subset, 1).unwrap();
    let l2 = lagrange_coefficient(&subset, 2).unwrap();
    assert!(l1 == decaf377::Fr::from(2u64));
    assert!(l2 == decaf377::Fr::from(0u64) - decaf377::Fr::from(1u64));
}

#[test]
fn defaults_are_inert() {
    let sig = Signature::default();
    assert!(sig.commitment.is_identity());
    assert!(sig.challenge_response == decaf377::Fr::from(0u64));
    let pc = PeerCommitment::default();
    assert_eq!(pc.id, 0);
    assert!(pc.commitment.is_empty());
}

/// Run a full three-party distributed key generation with threshold two.
/// Returns the per-participant long-term shares, the group key, the sum of
/// the constant terms, and one finalized participant for its committee view.
fn run_dkg() -> (Vec<(u64, decaf377::Fr)>, decaf377::Element, decaf377::Fr, DkgParticipant) {
    let mut participants: Vec<DkgParticipant> = (1u64..=3)
        .map(|id| DkgParticipant::new(id, 3, 2).unwrap())
        .collect();

    let published: Vec<PeerCommitment> = participants
        .iter_mut()
        .map(|p| p.publish_commitment().unwrap())
        .collect();

    for i in 0..3 {
        for j in 0..3 {
            if i != j {
                let pc = PeerCommitment {
                    id: published[j].id,
                    commitment: published[j].commitment.clone(),
                    sig: Signature {
                        commitment: published[j].sig.commitment,
                        challenge_response: published[j].sig.challenge_response,
                    },
                };
                participants[i].admit_peer(pc).unwrap();
            }
        }
    }

    let secret_sum = participants
        .iter()
        .map(|p| p.signer.signing_key[0])
        .fold(decaf377::Fr::from(0u64), |acc, a| acc + a);

    let mut outgoing = Vec::new();
    for p in participants.iter_mut() {
        let shares = p.begin_share_exchange().unwrap();
        let from = p.signer.id();
        for s in shares {
            outgoing.push((from, s.to, s.share));
        }
    }
    for (from, to, share) in outgoing {
        let recipient = participants.iter_mut().find(|p| p.signer.id() == to).unwrap();
        recipient.receive_share(from, share).unwrap();
    }

    let mut shares = Vec::new();
    let mut group_keys = Vec::new();
    let mut finalized = Vec::new();
    for mut p in participants {
        let id = p.signer.id();
        let (share, group_key) = p.finalize().unwrap();
        shares.push((id, share));
        group_keys.push(group_key);
        finalized.push(p);
    }
    assert!(group_keys[0] == group_keys[1]);
    assert!(group_keys[1] == group_keys[2]);
    (shares, group_keys[0], secret_sum, finalized.pop().unwrap())
}

fn interpolate_at_zero(points: &[(u64, decaf377::Fr)]) -> decaf377::Fr {
    let subset: Vec<u64> = points.iter().map(|(id, _)| *id).collect();
    let mut acc = decaf377::Fr::from(0u64);
    for (id, value) in points {
        let lambda = lagrange_coefficient(&subset, *id).unwrap();
        acc = acc + lambda * *value;
    }
    acc
}

#[test]
fn dkg_shares_reconstruct_group_secret() {
    let (shares, group_key, secret_sum, _participant) = run_dkg();

    // Any two of the three shares interpolate to the same group secret.
    let r12 = interpolate_at_zero(&[shares[0], shares[1]]);
    let r13 = interpolate_at_zero(&[shares[0], shares[2]]);
    let r23 = interpolate_at_zero(&[shares[1], shares[2]]);
    assert!(r12 == secret_sum);
    assert!(r13 == secret_sum);
    assert!(r23 == secret_sum);

    // The group key is the generator multiple of the group secret.
    assert!(group_key == secret_sum * decaf377::Element::GENERATOR);
}

fn sign_with_subset(
    subset: &[(u64, decaf377::Fr)],
    committee_view: &DkgParticipant,
    group_key: &decaf377::Element,
    message: &Vec<u8>,
) -> Signature {
    let nonces: Vec<SigningNonce> = subset.iter().map(|_| SigningNonce::generate()).collect();
    let commitments: Vec<_> = subset
        .iter()
        .zip(nonces.iter())
        .map(|((id, _), nonce)| nonce.commit(*id))
        .collect();

    let mut partials = Vec::new();
    for (pair, nonce) in subset.iter().zip(nonces.into_iter()) {
        let (id, share) = pair;
        let partial = partial_sign(*id, share, nonce, &commitments, group_key, message, 2).unwrap();
        partials.push(partial);
    }

    let verification_shares: Vec<VerificationShare> = subset
        .iter()
        .map(|(id, _)| VerificationShare {
            id: *id,
            key: committee_view.committee.verification_share(*id).unwrap(),
        })
        .collect();

    aggregate(
        &partials,
        &commitments,
        &verification_shares,
        group_key,
        message,
        2,
    )
    .unwrap()
}

#[test]
fn threshold_signing_two_of_three() {
    let (shares, group_key, _secret_sum, participant) = run_dkg();
    let message: Vec<u8> = b"threshold message".to_vec();

    let sig12 = sign_with_subset(&[shares[0], shares[1]], &participant, &group_key, &message);
    assert!(verify_threshold_signature(&sig12, &group_key, &message));

    let sig23 = sign_with_subset(&[shares[1], shares[2]], &participant, &group_key, &message);
    assert!(verify_threshold_signature(&sig23, &group_key, &message));

    // A signature does not verify against a different message.
    let other: Vec<u8> = b"another message".to_vec();
    assert!(!verify_threshold_signature(&sig12, &group_key, &other));
}

#[test]
fn signing_nonces_are_fresh() {
    // Two rounds draw distinct nonces; a nonce is consumed by value when a
    // partial signature is produced, so it cannot serve a second message.
    let first = SigningNonce::generate();
    let second = SigningNonce::generate();
    assert!(first.commit(1).hiding != second.commit(1).hiding);
    assert!(first.commit(1).binding != second.commit(1).binding);
}

#[test]
fn signing_quorum_errors() {
    let (shares, group_key, _secret_sum, _participant) = run_dkg();
    let message: Vec<u8> = b"m".to_vec();

    let nonce = SigningNonce::generate();
    let commitments = vec![nonce.commit(shares[0].0)];
    assert!(matches!(
        partial_sign(shares[0].0, &shares[0].1, nonce, &commitments, &group_key, &message, 2),
        Err(FrostError::Quorum)
    ));
    assert!(matches!(
        aggregate(&Vec::new(), &commitments, &Vec::new(), &group_key, &message, 2),
        Err(FrostError::Quorum)
    ));
}

#[test]
fn dkg_state_machine_errors() {
    assert!(matches!(
        DkgParticipant::new(0, 3, 2),
        Err(FrostError::Configuration)
    ));
    assert!(matches!(
        DkgParticipant::new(1, 2, 3),
        Err(FrostError::Configuration)
    ));

    let mut p = DkgParticipant::new(1, 3, 2).unwrap();
    assert!(matches!(
        p.begin_share_exchange(),
        Err(FrostError::ProtocolState)
    ));
    p.publish_commitment().unwrap();
    assert!(matches!(
        p.publish_commitment(),
        Err(FrostError::ProtocolState)
    ));
    // Only one commitment is admitted: below the threshold of two.
    assert!(matches!(p.begin_share_exchange(), Err(FrostError::Quorum)));
    assert!(matches!(
        p.receive_share(1, decaf377::Fr::from(1u64)),
        Err(FrostError::ProtocolState)
    ));
    assert!(matches!(p.finalize(), Err(FrostError::ProtocolState)));
}

#[test]
fn bad_share_aborts_the_run() {
    let mut participants: Vec<DkgParticipant> = (1u64..=2)
        .map(|id| DkgParticipant::new(id, 2, 2).unwrap())
        .collect();
    let published: Vec<PeerCommitment> = participants
        .iter_mut()
        .map(|p| p.publish_commitment().unwrap())
        .collect();
    let pc1 = PeerCommitment {
        id: published[1].id,
        commitment: published[1].commitment.clone(),
        sig: Signature {
            commitment: published[1].sig.commitment,
            challenge_response: published[1].sig.challenge_response,
        },
    };
    participants[0].admit_peer(pc1).unwrap();
    participants[0].begin_share_exchange().unwrap();

    // A corrupted share from the peer fails the Feldman check and rejects
    // the whole run.
    assert!(matches!(
        participants[0].receive_share(2, decaf377::Fr::from(42u64)),
        Err(FrostError::Verification(2))
    ));
    assert!(matches!(participants[0].state, DkgState::Aborted));
}
