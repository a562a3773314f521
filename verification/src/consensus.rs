//! One validator's assembled consensus instance: the round state machine
//! together with the ancestor synchronizer behind a single ingress, so a
//! message is treated the same whether it came off the wire or from this
//! validator's own proposer. Also the handler that classifies decoded
//! payloads for dispatch: sync requests go to the helper, everything else
//! to the core, and a proposal is acknowledged before it is forwarded.

use vstd::prelude::*;
use crate::codec::{decode_msg, enc_msg, lemma_enc_msg_injective, msg_equiv};
use crate::committee::{Committee, PublicKey};
use crate::committee::{leader_spec, Round};
use crate::machine::{
    Action, Core, commit_count, proposal_acceptable, proposal_processed, round_after_qc,
    tc_acceptable, timeout_crossing, timeout_fresh, vote_count, vote_crossing, vote_fresh,
    will_commit, will_vote,
};
use crate::messages::{Block, ConsensusMessage, Digest, Signature, block_equiv, valid_qc};
use crate::store::lookup;
use crate::synchronizer::{Synchronizer, buffered, pending_for, requested};

verus! {

/// Where a classified payload is delivered.
pub enum Dest {
    /// Into the consensus core's inbox.
    ToCore(ConsensusMessage),
    /// Into the helper's inbox: a peer asks for a stored block.
    ToHelper(Digest, PublicKey),
}

/// How the network receiver hands incoming consensus payloads on.
pub struct ConsensusReceiverHandler;

impl ConsensusReceiverHandler {
    /// Classifies one payload. It succeeds exactly when the bytes are some
    /// message's encoding; on anything else nothing comes back and that
    /// connection is torn down. A sync request goes to the helper. A
    /// proposal is owed exactly one acknowledgement, written back before the
    /// forward takes effect; no other variant is acknowledged. What is
    /// forwarded for an encoded message is that message's content, to the
    /// field: the encoding is injective.
    pub fn dispatch(payload: &Vec<u8>) -> (r: Option<(bool, Dest)>)
        ensures
            r is Some <==> exists|m: ConsensusMessage| payload@ == enc_msg(m),
            r matches Some((ack, dest)) ==> match dest {
                Dest::ToCore(m) => payload@ == enc_msg(m) && !(m matches
                ConsensusMessage::SyncRequest(d, p)) && (ack <==> m matches
                ConsensusMessage::Propose(b)),
                Dest::ToHelper(d, pk) => payload@ == enc_msg(ConsensusMessage::SyncRequest(d, pk))
                    && !ack,
            },
            forall|m: ConsensusMessage|
                payload@ == #[trigger] enc_msg(m) ==> (r matches Some((ack, dest)) && match dest {
                    Dest::ToCore(md) => msg_equiv(md, m),
                    Dest::ToHelper(d, pk) => msg_equiv(ConsensusMessage::SyncRequest(d, pk), m),
                }),
    {
        match decode_msg(payload) {
            None => None,
            Some(m) => match m {
                ConsensusMessage::SyncRequest(d, pk) => {
                    proof {
                        assert forall|m2: ConsensusMessage|
                            payload@ == #[trigger] enc_msg(m2) implies msg_equiv(
                            ConsensusMessage::SyncRequest(d, pk),
                            m2,
                        ) by {
                            vstd::std_specs::vec::axiom_spec_len(payload);
                            lemma_enc_msg_injective(ConsensusMessage::SyncRequest(d, pk), m2);
                        }
                    }
                    Some((false, Dest::ToHelper(d, pk)))
                },
                ConsensusMessage::Propose(b) => {
                    proof {
                        assert forall|m2: ConsensusMessage|
                            payload@ == #[trigger] enc_msg(m2) implies msg_equiv(
                            ConsensusMessage::Propose(b),
                            m2,
                        ) by {
                            vstd::std_specs::vec::axiom_spec_len(payload);
                            lemma_enc_msg_injective(ConsensusMessage::Propose(b), m2);
                        }
                    }
                    Some((true, Dest::ToCore(ConsensusMessage::Propose(b))))
                },
                other => {
                    proof {
                        assert forall|m2: ConsensusMessage|
                            payload@ == #[trigger] enc_msg(m2) implies msg_equiv(other, m2) by {
                            vstd::std_specs::vec::axiom_spec_len(payload);
                            lemma_enc_msg_injective(other, m2);
                        }
                    }
                    Some((false, Dest::ToCore(other)))
                },
            },
        }
    }
}

/// One logical validator's consensus instance.
pub struct Consensus {
    /// The round state machine.
    pub core: Core,
    /// The ancestor buffer and request tracker.
    pub synchronizer: Synchronizer,
}

impl Consensus {
    pub open spec fn wf(self) -> bool {
        self.core.wf() && self.synchronizer.wf()
    }

    pub fn new(name: PublicKey, committee: Committee) -> (r: Consensus)
        requires
            committee.wf(),
        ensures
            r.wf(),
            r.core.name == name,
            r.core.committee == committee,
            r.core.round == 1,
    {
        Consensus { core: Core::new(name, committee), synchronizer: Synchronizer::new() }
    }

    /// The single ingress for core-bound messages, network- or self-origin
    /// alike. Votes, timeouts and TCs go straight to the state machine. A
    /// proposal whose parent is missing is buffered, and a sync request goes
    /// out only if none is outstanding for that parent. A proposal that is
    /// processed releases every block that waited on it; each released
    /// block is fed back through the state machine exactly once, by the
    /// same path a fresh proposal takes, cascading down the chain. When
    /// nothing waited on the proposal, its outcome is exactly the state
    /// machine's: the round, vote and commit clauses below. Sync requests
    /// are not for the core and are ignored here; the helper serves them.
    pub fn handle_message(&mut self, msg: &ConsensusMessage, vote_signature: Signature) -> (r:
        Vec<Action>)
        requires
            old(self).wf(),
        ensures
            final(self).wf(),
            final(self).core.name == old(self).core.name,
            final(self).core.committee == old(self).core.committee,
            msg matches ConsensusMessage::SyncRequest(d, p) ==> *final(self) == *old(self)
                && r@.len() == 0,
            msg matches ConsensusMessage::Vote(v) ==> {
                &&& final(self).synchronizer == old(self).synchronizer
                &&& (!vote_fresh(old(self).core, *v) ==> final(self).core == old(self).core
                    && r@.len() == 0)
                &&& (vote_crossing(old(self).core, *v) ==> final(self).core.round == v.round + 1
                    && valid_qc(old(self).core.committee@, final(self).core.high_qc))
                &&& (!vote_crossing(old(self).core, *v) ==> final(self).core.round == old(
                    self,
                ).core.round)
            },
            msg matches ConsensusMessage::Timeout(t) ==> {
                &&& final(self).synchronizer == old(self).synchronizer
                &&& (!timeout_fresh(old(self).core, *t) ==> final(self).core == old(self).core
                    && r@.len() == 0)
                &&& (timeout_crossing(old(self).core, *t) ==> final(self).core.round == t.round
                    + 1)
            },
            msg matches ConsensusMessage::TC(tc) ==> {
                &&& final(self).synchronizer == old(self).synchronizer
                &&& (!tc_acceptable(old(self).core, *tc) ==> final(self).core == old(self).core
                    && r@.len() == 0)
                &&& (tc_acceptable(old(self).core, *tc) ==> final(self).core.round == tc.round + 1)
            },
            msg matches ConsensusMessage::Propose(b) ==> {
                &&& (proposal_acceptable(old(self).core, *b) && lookup(
                    old(self).core.storage.blocks@,
                    b.qc.hash,
                ) is None) ==> {
                    &&& final(self).core == old(self).core
                    &&& (buffered(old(self).synchronizer.pending@, b.digest) ==> *final(self)
                        == *old(self) && r@.len() == 0)
                    &&& (!buffered(old(self).synchronizer.pending@, b.digest) ==> {
                        &&& final(self).synchronizer.pending@.len() == old(
                            self,
                        ).synchronizer.pending@.len() + 1
                        &&& crate::messages::block_equiv(
                            final(self).synchronizer.pending@.last(),
                            *b,
                        )
                        &&& (requested(old(self).synchronizer.outstanding@, b.qc.hash)
                            ==> r@.len() == 0)
                        &&& (!requested(old(self).synchronizer.outstanding@, b.qc.hash) ==> r@
                            == seq![Action::SyncRequest(b.qc.hash, b.author)])
                    })
                }
                &&& proposal_processed(old(self).core, *b) ==> pending_for(
                    final(self).synchronizer.pending@,
                    b.digest,
                ).len() == 0 && !requested(final(self).synchronizer.outstanding@, b.digest)
                &&& (proposal_processed(old(self).core, *b) && pending_for(
                    old(self).synchronizer.pending@,
                    b.digest,
                ).len() == 0) ==> {
                    let parent = lookup(old(self).core.storage.blocks@, b.qc.hash)->Some_0;
                    &&& final(self).core.round == round_after_qc(old(self).core, *b)
                    &&& final(self).core.last_voted_round == (if will_vote(old(self).core, *b) {
                        b.round
                    } else {
                        old(self).core.last_voted_round
                    })
                    &&& final(self).core.last_committed_round == (if will_commit(
                        old(self).core,
                        *b,
                        parent,
                    ) {
                        parent.round
                    } else {
                        old(self).core.last_committed_round
                    })
                    &&& lookup(final(self).core.storage.blocks@, b.digest) is Some
                    &&& (forall|d: Digest|
                        lookup(old(self).core.storage.blocks@, d) is Some ==> lookup(
                            final(self).core.storage.blocks@,
                            d,
                        ) == lookup(old(self).core.storage.blocks@, d))
                    &&& r@.len() == commit_count(old(self).core, *b, parent) + vote_count(
                        old(self).core,
                        *b,
                    )
                    &&& (will_commit(old(self).core, *b, parent) ==> (r@[0]
                        matches Action::Commit(cb) && block_equiv(cb, parent)))
                    &&& (will_vote(old(self).core, *b) ==> (r@[r@.len() - 1]
                        matches Action::SendVote(v, to) && v.hash == b.digest && v.round
                        == b.round && v.author == old(self).core.name && v.signature
                        == vote_signature && to == leader_spec(
                        old(self).core.committee@,
                        (b.round + 1) as Round,
                    )))
                }
            },
    {
        match msg {
            ConsensusMessage::Vote(v) => self.core.handle_vote(v),
            ConsensusMessage::Timeout(t) => self.core.handle_timeout(t),
            ConsensusMessage::TC(tc) => self.core.handle_tc(tc),
            ConsensusMessage::SyncRequest(_d, _p) => Vec::new(),
            ConsensusMessage::Propose(b) => {
                let mut r = self.core.handle_proposal(b, vote_signature);
                if r.len() == 1 && self.is_sync_request(&r) {
                    // Parent missing: buffer the block; ask only if no
                    // request for this parent is already in flight.
                    let ask = self.synchronizer.buffer(b.duplicate());
                    if ask {
                        return r;
                    } else {
                        return Vec::new();
                    }
                }
                // The block may have been stored: release its waiters and
                // cascade down the newly connected chain.
                if self.is_stored(b.digest) {
                    let ghost pend0 = self.synchronizer.pending@;
                    let mut queue: Vec<Block> = self.synchronizer.parent_arrived(b.digest);
                    let ghost core0 = self.core;
                    let ghost sync1 = self.synchronizer;
                    let ghost r0 = r@;
                    let ghost no_waiters = queue@.len() == 0;
                    proof {
                        crate::synchronizer::lemma_pending_not_for_clean(pend0, b.digest);
                        crate::synchronizer::lemma_pending_for_empty(
                            self.synchronizer.pending@,
                            b.digest,
                        );
                    }
                    while queue.len() > 0
                        invariant
                            self.core.wf(),
                            self.synchronizer.wf(),
                            self.core.name == old(self).core.name,
                            self.core.committee == old(self).core.committee,
                            pending_for(self.synchronizer.pending@, b.digest).len() == 0,
                            !requested(self.synchronizer.outstanding@, b.digest),
                            no_waiters ==> queue@.len() == 0 && self.core == core0
                                && self.synchronizer == sync1 && r@ == r0,
                        decreases self.synchronizer.pending@.len() + queue@.len(),
                    {
                        let child = match queue.pop() {
                            Some(c) => c,
                            None => {
                                proof {
                                    assert(false);
                                }
                                return r;
                            },
                        };
                        let mut acts = self.core.handle_proposal(&child, vote_signature);
                        r.append(&mut acts);
                        if self.is_stored(child.digest) {
                            let ghost pend1 = self.synchronizer.pending@;
                            let mut grand: Vec<Block> = self.synchronizer.parent_arrived(
                                child.digest,
                            );
                            proof {
                                crate::synchronizer::lemma_pending_partition(
                                    pend1,
                                    child.digest,
                                );
                                crate::synchronizer::lemma_pending_for_empty(pend1, b.digest);
                                crate::synchronizer::lemma_pending_not_for_membership(
                                    pend1,
                                    child.digest,
                                );
                                crate::synchronizer::lemma_pending_for_empty(
                                    self.synchronizer.pending@,
                                    b.digest,
                                );
                                assert forall|i: int|
                                    0 <= i < self.synchronizer.pending@.len() implies (
                                #[trigger] self.synchronizer.pending@[i]).qc.hash
                                    != b.digest by {
                                    let j = choose|j: int|
                                        0 <= j < pend1.len() && pend1[j]
                                            == self.synchronizer.pending@[i];
                                }
                            }
                            queue.append(&mut grand);
                        }
                    }
                }
                r
            },
        }
    }

    /// Whether a block with this digest is in local storage.
    fn is_stored(&self, digest: Digest) -> (r: bool)
        ensures
            r == (lookup(self.core.storage.blocks@, digest) is Some),
    {
        match self.core.storage.get(digest) {
            Some(_b) => true,
            None => false,
        }
    }

    /// Whether the single action is a sync request.
    fn is_sync_request(&self, r: &Vec<Action>) -> (b: bool)
        requires
            r@.len() == 1,
        ensures
            b == (r@[0] matches Action::SyncRequest(d, p)),
    {
        match &r[0] {
            Action::SyncRequest(_d, _p) => true,
            _ => false,
        }
    }
}

} // verus!
