//! The local state machine one participant drives through a distributed
//! key-generation run: publish a commitment and proof of knowledge, admit
//! and verify the peers' commitments, exchange shares once a quorum is
//! verified, and finalize the long-term secret share and group key.

use vstd::prelude::*;

use crate::frost::{constant_term_logs, has_id, FrostCommittee, FrostSigner, PeerCommitment};
use crate::group::{fr_add, fr_from_u64, fr_order, fr_valid, fr_zero, group_log_of, scalar_of};
use crate::polynomial::{feldman_check, lemma_sum_step, logs_of, poly_eval, scalars_of, seq_sum};
use crate::{FrostError, ParticipantIndex};

verus! {

/// The phases of one key-generation run.  The verification of a received
/// share can fail, which rejects the whole run: that is the aborted phase,
/// from which no transition leaves.
pub enum DkgState {
    Initialized,
    CommitmentPublished,
    SharesExchanged,
    Finalized,
    Aborted,
}

/// A share received from a peer, tagged with the sender.
pub struct ReceivedShare {
    pub from: u64,
    pub share: decaf377::Fr,
}

/// A share owed to a peer, tagged with the recipient.
pub struct OutgoingShare {
    pub to: u64,
    pub share: decaf377::Fr,
}

/// Whether a share from this sender was already recorded.
pub open spec fn has_received(s: Seq<ReceivedShare>, from: u64) -> bool {
    exists|k: int| 0 <= k < s.len() && (#[trigger] s[k]).from == from
}

/// The canonical values of the recorded shares.
pub open spec fn share_values(s: Seq<ReceivedShare>) -> Seq<int> {
    s.map_values(|rs: ReceivedShare| scalar_of(rs.share))
}

/// A received share is consistent with the sender's published commitment:
/// the admitted entry bearing the sender's identifier passes the Feldman
/// check at the recipient's index.
pub open spec fn share_consistent(
    signers: Seq<PeerCommitment>,
    from: u64,
    recipient: u64,
    share: decaf377::Fr,
) -> bool {
    exists|k: int|
        0 <= k < signers.len() && (#[trigger] signers[k]).id == from && scalar_of(share)
            % fr_order() == poly_eval(logs_of(signers[k].commitment@), recipient as int)
}

/// One participant's view of a key-generation run.
pub struct DkgParticipant {
    /// The local signer: the secret polynomial and its commitment.
    pub signer: FrostSigner,
    /// The committee view: the verified peers admitted so far.
    pub committee: FrostCommittee,
    /// The phase the run is in.
    pub state: DkgState,
    /// The verified shares received so far.
    pub received_shares: Vec<ReceivedShare>,
}

impl DkgParticipant {
    /// The invariant every transition preserves: a well-formed committee
    /// and signer, the secret polynomial destroyed exactly at
    /// finalization, every recorded share from a distinct admitted peer,
    /// an empty peer set before the commitment is published, and a
    /// verified quorum once shares are being exchanged.
    pub open spec fn wf(self) -> bool {
        &&& self.committee.wf()
        &&& self.signer.id != 0
        &&& (self.state is Finalized ==> self.signer.signing_key@.len() == 0)
        &&& (!(self.state is Finalized) ==> self.signer.wf() && self.signer.signing_key@.len()
            == self.committee.t)
        &&& (self.state is Initialized ==> self.committee.signers@.len() == 0)
        &&& ((self.state is SharesExchanged || self.state is Finalized)
            ==> self.committee.signers@.len() >= self.committee.t)
        &&& forall|k: int|
            0 <= k < self.received_shares@.len() ==> has_id(
                self.committee.signers@,
                (#[trigger] self.received_shares@[k]).from,
            )
        &&& forall|k1: int, k2: int|
            0 <= k1 < k2 < self.received_shares@.len() ==> self.received_shares@[k1].from
                != self.received_shares@[k2].from
    }

    /// Start a run: validate the identifier and the `(n, t)` parameters,
    /// and draw the secret polynomial.
    pub fn new(id: u64, n: usize, t: usize) -> (r: Result<Self, FrostError>)
        ensures
            (id == 0 || !(1 <= t <= n)) <==> r is Err,
            r is Err ==> r == Err::<Self, FrostError>(FrostError::Configuration),
            r is Ok ==> r->Ok_0.wf() && r->Ok_0.state is Initialized && r->Ok_0.signer.id == id
                && r->Ok_0.committee.n == n && r->Ok_0.committee.t == t
                && r->Ok_0.received_shares@.len() == 0,
    {
        let index = match ParticipantIndex::new(id) {
            Ok(index) => index,
            Err(e) => {
                return Err(e);
            },
        };
        let committee = match FrostCommittee::new(n, t) {
            Ok(committee) => committee,
            Err(e) => {
                return Err(e);
            },
        };
        let signer = FrostSigner::new(index.0, n, t);
        Ok(
            Self {
                signer,
                committee,
                state: DkgState::Initialized,
                received_shares: Vec::new(),
            },
        )
    }

    /// Publish this participant's commitment and proof of knowledge,
    /// admitting it to its own committee view, and move to the
    /// commitment-published phase.  Out of sequence, the run is left
    /// untouched.
    pub fn publish_commitment(&mut self) -> (r: Result<PeerCommitment, FrostError>)
        requires
            old(self).wf(),
        ensures
            final(self).wf(),
            !(old(self).state is Initialized) ==> r == Err::<PeerCommitment, FrostError>(
                FrostError::ProtocolState,
            ) && *final(self) == *old(self),
            old(self).state is Initialized ==> r is Ok && final(self).state
                is CommitmentPublished && final(self).signer == old(self).signer && final(self).committee.signers@.len() == 1 && r->Ok_0.id == old(self).signer.id
                && r->Ok_0.commitment@ == old(self).signer.commitment@ && r->Ok_0.admissible(
                old(self).committee.t as int,
            ) && final(self).committee.signers@.last().id == old(self).signer.id && final(self).committee.signers@.last().commitment@ == old(self).signer.commitment@,
    {
        match self.state {
            DkgState::Initialized => {},
            _ => {
                return Err(FrostError::ProtocolState);
            },
        }
        let (sig, _transcript) = self.signer.keygen_proof();
        let sig_copy = crate::schnorr::Signature {
            commitment: crate::group::elem_clone(&sig.commitment),
            challenge_response: crate::group::fr_clone(&sig.challenge_response),
        };
        let own = PeerCommitment {
            id: self.signer.id(),
            commitment: self.signer.public_commitment(),
            sig,
        };
        let returned = PeerCommitment {
            id: self.signer.id(),
            commitment: self.signer.public_commitment(),
            sig: sig_copy,
        };
        match self.committee.add_signer(own) {
            Ok(()) => {},
            Err(_) => {
                return Err(FrostError::ProtocolState);
            },
        }
        self.state = DkgState::CommitmentPublished;
        Ok(returned)
    }

    /// Admit one peer's broadcast material, verifying it, while in the
    /// commitment-published phase.
    pub fn admit_peer(&mut self, peer_commitment: PeerCommitment) -> (r: Result<(), FrostError>)
        requires
            old(self).wf(),
        ensures
            final(self).wf(),
            !(old(self).state is CommitmentPublished) ==> r == Err::<(), FrostError>(
                FrostError::ProtocolState,
            ) && *final(self) == *old(self),
            old(self).state is CommitmentPublished ==> final(self).state is CommitmentPublished
                && final(self).signer == old(self).signer && (r is Err ==> final(self).committee
                == old(self).committee) && (peer_commitment.admissible(old(self).committee.t as int)
                && !has_id(old(self).committee.signers@, peer_commitment.id) ==> r is Ok && final(self).committee.signers@ == old(self).committee.signers@.push(peer_commitment)) && (r is Ok
                ==> final(self).committee.signers@ == old(self).committee.signers@.push(
                peer_commitment,
            )),
    {
        match self.state {
            DkgState::CommitmentPublished => {},
            _ => {
                return Err(FrostError::ProtocolState);
            },
        }
        let result = self.committee.add_signer(peer_commitment);
        proof {
            assert forall|k: int| 0 <= k < self.received_shares@.len() implies has_id(
                self.committee.signers@,
                (#[trigger] self.received_shares@[k]).from,
            ) by {
                let f = self.received_shares@[k].from;
                assert(has_id(old(self).committee.signers@, f));
                let w = choose|i: int|
                    0 <= i < old(self).committee.signers@.len() && (#[trigger] old(
                        self,
                    ).committee.signers@[i]).id == f;
                assert(self.committee.signers@[w].id == f);
            }
        }
        result
    }

    /// Once the committee is ready, evaluate the secret polynomial at every
    /// verified peer's index — the private share owed to each of them,
    /// this participant's own index included — and move to the
    /// share-exchange phase.
    pub fn begin_share_exchange(&mut self) -> (r: Result<Vec<OutgoingShare>, FrostError>)
        requires
            old(self).wf(),
        ensures
            final(self).wf(),
            !(old(self).state is CommitmentPublished) ==> r == Err::<Vec<OutgoingShare>, FrostError>(
                FrostError::ProtocolState,
            ) && *final(self) == *old(self),
            old(self).state is CommitmentPublished && old(self).committee.signers@.len() < old(self).committee.t ==> r == Err::<Vec<OutgoingShare>, FrostError>(FrostError::Quorum)
                && *final(self) == *old(self),
            old(self).state is CommitmentPublished && old(self).committee.signers@.len() >= old(self).committee.t ==> r is Ok && final(self).state is SharesExchanged && final(self).signer
                == old(self).signer && final(self).committee == old(self).committee
                && r->Ok_0@.len() == old(self).committee.signers@.len() && forall|k: int|
                0 <= k < r->Ok_0@.len() ==> (#[trigger] r->Ok_0@[k]).to == old(self).committee.signers@[k].id && scalar_of(r->Ok_0@[k].share) == poly_eval(
                    scalars_of(old(self).signer.signing_key@),
                    old(self).committee.signers@[k].id as int,
                ),
    {
        match self.state {
            DkgState::CommitmentPublished => {},
            _ => {
                return Err(FrostError::ProtocolState);
            },
        }
        if self.committee.signers.len() < self.committee.t {
            return Err(FrostError::Quorum);
        }
        let mut out: Vec<OutgoingShare> = Vec::new();
        let mut i: usize = 0;
        while i < self.committee.signers.len()
            invariant
                i == out@.len(),
                i <= self.committee.signers@.len(),
                self.signer.wf(),
                forall|k: int|
                    0 <= k < i ==> (#[trigger] out@[k]).to == self.committee.signers@[k].id
                        && scalar_of(out@[k].share) == poly_eval(
                        scalars_of(self.signer.signing_key@),
                        self.committee.signers@[k].id as int,
                    ),
            decreases self.committee.signers@.len() - i,
        {
            let to = self.committee.signers[i].id;
            let share = self.signer.generate_share(to);
            out.push(OutgoingShare { to, share });
            i = i + 1;
        }
        self.state = DkgState::SharesExchanged;
        Ok(out)
    }

    /// Record one share received from a verified peer, after checking it
    /// against that peer's published commitment.  A share failing the
    /// check means the sender is equivocating: the whole run is rejected by
    /// moving to the aborted phase.  An unknown sender or a second share
    /// from the same sender is a usage error that leaves the run untouched.
    pub fn receive_share(&mut self, from: u64, share: decaf377::Fr) -> (r: Result<(), FrostError>)
        requires
            old(self).wf(),
        ensures
            final(self).wf(),
            !(old(self).state is SharesExchanged) ==> r == Err::<(), FrostError>(
                FrostError::ProtocolState,
            ) && *final(self) == *old(self),
            old(self).state is SharesExchanged && (!has_id(old(self).committee.signers@, from)
                || has_received(old(self).received_shares@, from)) ==> r == Err::<(), FrostError>(
                FrostError::ProtocolState,
            ) && *final(self) == *old(self),
            old(self).state is SharesExchanged && has_id(old(self).committee.signers@, from)
                && !has_received(old(self).received_shares@, from) && !share_consistent(
                old(self).committee.signers@,
                from,
                old(self).signer.id,
                share,
            ) ==> r == Err::<(), FrostError>(FrostError::Verification(from)) && final(self).state
                is Aborted && final(self).received_shares == old(self).received_shares,
            old(self).state is SharesExchanged && has_id(old(self).committee.signers@, from)
                && !has_received(old(self).received_shares@, from) && share_consistent(
                old(self).committee.signers@,
                from,
                old(self).signer.id,
                share,
            ) ==> r is Ok && final(self).state is SharesExchanged && final(self).received_shares@
                == old(self).received_shares@.push(ReceivedShare { from, share }) && final(self).committee == old(self).committee && final(self).signer == old(self).signer,
    {
        match self.state {
            DkgState::SharesExchanged => {},
            _ => {
                return Err(FrostError::ProtocolState);
            },
        }
        let mut sender_index: usize = 0;
        let mut sender_found = false;
        let mut scan: usize = 0;
        while scan < self.committee.signers.len()
            invariant
                *self == *old(self),
                scan <= self.committee.signers@.len(),
                !sender_found ==> forall|k: int|
                    0 <= k < scan ==> (#[trigger] self.committee.signers@[k]).id != from,
                sender_found ==> sender_index < self.committee.signers@.len()
                    && self.committee.signers@[sender_index as int].id == from,
            decreases self.committee.signers@.len() - scan,
        {
            if !sender_found && self.committee.signers[scan].id == from {
                sender_found = true;
                sender_index = scan;
            }
            scan = scan + 1;
        }
        if !sender_found {
            return Err(FrostError::ProtocolState);
        }
        let mut duplicate = false;
        let mut k: usize = 0;
        while k < self.received_shares.len()
            invariant
                *self == *old(self),
                k <= self.received_shares@.len(),
                duplicate == exists|j: int|
                    0 <= j < k && (#[trigger] self.received_shares@[j]).from == from,
            decreases self.received_shares@.len() - k,
        {
            if self.received_shares[k].from == from {
                duplicate = true;
            }
            k = k + 1;
        }
        if duplicate {
            return Err(FrostError::ProtocolState);
        }
        let recipient = self.signer.id();
        let recipient_scalar = fr_from_u64(recipient);
        let consistent = feldman_check(
            &share,
            &recipient_scalar,
            &self.committee.signers[sender_index].commitment,
        );
        if !consistent {
            proof {
                assert forall|j: int|
                    0 <= j < self.committee.signers@.len() && (#[trigger] self.committee.signers@[j]).id
                        == from implies j == sender_index as int by {
                    if j != sender_index as int {
                        assert(self.committee.signers@[j].id != self.committee.signers@[sender_index as int].id);
                    }
                }
            }
            self.state = DkgState::Aborted;
            return Err(FrostError::Verification(from));
        }
        self.received_shares.push(ReceivedShare { from, share });
        Ok(())
    }

    /// Sum every recorded share into the long-term secret share, destroy
    /// the secret polynomial, and return the share together with the group
    /// verification key.  Requires one recorded share per admitted peer —
    /// this participant's own share, evaluated at its own index, arrives
    /// through the same exchange.  Finalizing twice is an out-of-sequence
    /// use and fails.
    pub fn finalize(&mut self) -> (r: Result<(decaf377::Fr, decaf377::Element), FrostError>)
        requires
            old(self).wf(),
        ensures
            final(self).wf(),
            !(old(self).state is SharesExchanged) ==> r == Err::<
                (decaf377::Fr, decaf377::Element),
                FrostError,
            >(FrostError::ProtocolState) && *final(self) == *old(self),
            old(self).state is SharesExchanged && old(self).received_shares@.len() != old(self).committee.signers@.len() ==> r == Err::<(decaf377::Fr, decaf377::Element), FrostError>(
                FrostError::ProtocolState,
            ) && *final(self) == *old(self),
            old(self).state is SharesExchanged && old(self).received_shares@.len() == old(self).committee.signers@.len() ==> r is Ok && final(self).state is Finalized && final(self).signer.signing_key@.len() == 0 && final(self).committee == old(self).committee
                && scalar_of(r->Ok_0.0) == seq_sum(share_values(old(self).received_shares@))
                % fr_order() && fr_valid(scalar_of(r->Ok_0.0)) && group_log_of(r->Ok_0.1) == seq_sum(
                constant_term_logs(old(self).committee.signers@),
            ) % fr_order(),
    {
        match self.state {
            DkgState::SharesExchanged => {},
            _ => {
                return Err(FrostError::ProtocolState);
            },
        }
        if self.received_shares.len() != self.committee.signers.len() {
            return Err(FrostError::ProtocolState);
        }
        let ghost values = share_values(self.received_shares@);
        let mut sum = fr_zero();
        assert(values.subrange(0, 0) =~= Seq::<int>::empty());
        let mut i: usize = 0;
        while i < self.received_shares.len()
            invariant
                i <= self.received_shares@.len(),
                values == share_values(self.received_shares@),
                scalar_of(sum) == seq_sum(values.subrange(0, i as int)) % fr_order(),
                fr_valid(scalar_of(sum)),
            decreases self.received_shares@.len() - i,
        {
            sum = fr_add(&sum, &self.received_shares[i].share);
            proof {
                lemma_sum_step(values, i as int);
            }
            i = i + 1;
        }
        assert(values.subrange(0, self.received_shares@.len() as int) =~= values);
        let group_key = match self.committee.group_public_key() {
            Some(key) => key,
            None => {
                return Err(FrostError::Quorum);
            },
        };
        self.signer.signing_key = Vec::new();
        self.state = DkgState::Finalized;
        Ok((sum, group_key))
    }
}

} // verus!
