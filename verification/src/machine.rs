//! The round-based consensus state machine: it consumes proposals, votes,
//! timeouts and timeout certificates, aggregates weight into certificates,
//! advances rounds, applies the commit rule, and says what must be sent out.
//! It performs no I/O itself: every outward effect is returned as an
//! `Action` for the surrounding tasks to carry out.

use vstd::prelude::*;
use crate::aggregator::{CertAggregator, contains_author};
use crate::committee::{
    Authority, Committee, PublicKey, Round, is_member, leader_spec, quorum, stake_of,
};
use crate::messages::{
    Block, Digest, QC, Signature, TC, Timeout, Vote, block_equiv, is_genesis_qc, qc_equiv,
    qc_ok, valid_qc, valid_tc, GENESIS_DIGEST,
};
use crate::store::{Storage, lookup};

verus! {

/// One outward effect the state machine asks for.
pub enum Action {
    /// Send this vote to the given member (the next round's leader).
    SendVote(Vote, PublicKey),
    /// Broadcast this timeout to the whole committee.
    BroadcastTimeout(Timeout),
    /// Broadcast this freshly formed timeout certificate.
    BroadcastTC(TC),
    /// Deliver this block to the commit sink.
    Commit(Block),
    /// The local validator leads this round and should propose on this QC.
    TriggerProposal(Round, QC),
    /// An ancestor is missing: ask the named member for the block stored
    /// under this digest.
    SyncRequest(Digest, PublicKey),
}

/// The vote aggregator bound to one proposed block digest, if any.
pub open spec fn find_agg(
    aggs: Seq<(Digest, CertAggregator)>,
    hash: Digest,
) -> Option<CertAggregator>
    decreases aggs.len(),
{
    if aggs.len() == 0 {
        None
    } else if aggs[0].0 == hash {
        Some(aggs[0].1)
    } else {
        find_agg(aggs.drop_first(), hash)
    }
}

/// The weight already collected for `hash` in the current round.
pub open spec fn agg_weight(aggs: Seq<(Digest, CertAggregator)>, hash: Digest) -> int {
    match find_agg(aggs, hash) {
        None => 0,
        Some(a) => a.weight as int,
    }
}

/// Whether this exact voter was already counted for this digest.
pub open spec fn vote_recorded(aggs: Seq<(Digest, CertAggregator)>, vote: Vote) -> bool {
    match find_agg(aggs, vote.hash) {
        None => false,
        Some(a) => contains_author(a.votes@, vote.author),
    }
}

/// The consensus core of one validator.
pub struct Core {
    /// This validator's identity.
    pub name: PublicKey,
    /// The committee this epoch runs under.
    pub committee: Committee,
    /// The round being attempted now.
    pub round: Round,
    /// The last round this validator voted in; never vote twice in a round.
    pub last_voted_round: Round,
    /// The highest quorum certificate seen; the safety lock.
    pub high_qc: QC,
    /// The highest timeout certificate seen, if any.
    pub high_tc: Option<TC>,
    /// The round of the last block delivered to the commit sink.
    pub last_committed_round: Round,
    /// The local block store.
    pub storage: Storage,
    /// Vote aggregators of the current round, one per proposed digest.
    pub vote_aggs: Vec<(Digest, CertAggregator)>,
    /// Timeout aggregator of the current round.
    pub timeout_agg: CertAggregator,
}

impl Core {
    pub open spec fn wf(self) -> bool {
        &&& self.committee.wf()
        &&& self.storage.wf()
        &&& qc_ok(self.committee@, self.high_qc)
        &&& self.high_qc.round < self.round
        &&& (self.high_tc matches Some(tc) ==> valid_tc(self.committee@, tc))
        &&& forall|i: int, j: int|
            0 <= i < self.vote_aggs@.len() && 0 <= j < self.vote_aggs@.len() && i != j
                ==> self.vote_aggs@[i].0 != self.vote_aggs@[j].0
        &&& forall|i: int|
            0 <= i < self.vote_aggs@.len() ==> (#[trigger] self.vote_aggs@[i]).1.wf(
                self.committee@,
            )
        &&& self.timeout_agg.wf(self.committee@)
    }

    /// A fresh core: at round 1, locked on the genesis certificate, with the
    /// genesis block already stored and committed.
    pub fn new(name: PublicKey, committee: Committee) -> (r: Core)
        requires
            committee.wf(),
        ensures
            r.wf(),
            r.name == name,
            r.committee == committee,
            r.round == 1,
            r.last_voted_round == 0,
            r.last_committed_round == 0,
            is_genesis_qc(r.high_qc),
            lookup(r.storage.blocks@, GENESIS_DIGEST) is Some,
    {
        let mut storage = Storage::new();
        let genesis = Block {
            qc: QC::genesis(),
            author: 0,
            round: 0,
            payload: Vec::new(),
            signature: 0,
            digest: GENESIS_DIGEST,
        };
        storage.put(genesis);
        Core {
            name,
            committee,
            round: 1,
            last_voted_round: 0,
            high_qc: QC::genesis(),
            high_tc: None,
            last_committed_round: 0,
            storage,
            vote_aggs: Vec::new(),
            timeout_agg: CertAggregator::new(),
        }
    }

    /// Handles one vote. A vote is honored only when it is for the current
    /// round and signed by a committee member; a voter already counted for
    /// this digest changes nothing. When the collected weight for one digest
    /// first reaches the quorum threshold a QC is formed, becomes the new
    /// lock, the round advances past it, and, if this validator leads the
    /// new round, a proposal is triggered.
    pub fn handle_vote(&mut self, vote: &Vote) -> (r: Vec<Action>)
        requires
            old(self).wf(),
        ensures
            final(self).wf(),
            final(self).name == old(self).name,
            final(self).committee == old(self).committee,
            final(self).storage == old(self).storage,
            final(self).last_voted_round == old(self).last_voted_round,
            final(self).last_committed_round == old(self).last_committed_round,
            final(self).round >= old(self).round,
            !vote_fresh(*old(self), *vote) ==> *final(self) == *old(self) && r@.len() == 0,
            vote_crossing(*old(self), *vote) ==> {
                &&& final(self).round == vote.round + 1
                &&& valid_qc(old(self).committee@, final(self).high_qc)
                &&& final(self).high_qc.hash == vote.hash
                &&& final(self).high_qc.round == vote.round
                &&& final(self).vote_aggs@.len() == 0
            },
            final(self).high_tc == old(self).high_tc,
            !vote_crossing(*old(self), *vote) ==> final(self).round == old(self).round
                && final(self).high_qc == old(self).high_qc && final(self).timeout_agg == old(
                self,
            ).timeout_agg,
            vote_fresh(*old(self), *vote) && !vote_crossing(*old(self), *vote) ==> vote_recorded(
                final(self).vote_aggs@,
                *vote,
            ) && agg_weight(final(self).vote_aggs@, vote.hash) == agg_weight(
                old(self).vote_aggs@,
                vote.hash,
            ) + stake_of(old(self).committee@, vote.author),
            r@.len() != 0 ==> vote_crossing(*old(self), *vote),
            vote_crossing(*old(self), *vote) && leader_spec(
                old(self).committee@,
                (vote.round + 1) as Round,
            ) == old(self).name ==> r@.len() == 1 && (r@[0] matches Action::TriggerProposal(
                rr,
                qq,
            ) && rr == vote.round + 1 && qc_equiv(qq, final(self).high_qc)),
    {
        if vote.round != self.round || self.round == u64::MAX {
            return Vec::new();
        }
        if !vote.verify(&self.committee) {
            return Vec::new();
        }
        let n = self.vote_aggs.len();
        let mut i: usize = 0;
        let mut found: bool = false;
        let mut idx: usize = 0;
        while i < n
            invariant
                *self == *old(self),
                n == self.vote_aggs@.len(),
                0 <= i <= n,
                !found ==> forall|j: int| 0 <= j < i ==> self.vote_aggs@[j].0 != vote.hash,
                found ==> idx < i && self.vote_aggs@[idx as int].0 == vote.hash,
            decreases n - i,
        {
            if !found && self.vote_aggs[i].0 == vote.hash {
                found = true;
                idx = i;
            }
            i += 1;
        }
        proof {
            if found {
                lemma_find_agg_at(self.vote_aggs@, idx as int, vote.hash);
            } else {
                lemma_find_agg_absent(self.vote_aggs@, vote.hash);
            }
        }
        if found && self.vote_aggs[idx].1.contains(vote.author) {
            return Vec::new();
        }
        if !found {
            idx = n;
            self.vote_aggs.push((vote.hash, CertAggregator::new()));
            proof {
                assert(self.vote_aggs@[n as int].0 == vote.hash);
                assert(forall|j: int|
                    0 <= j < n ==> self.vote_aggs@[j] == old(self).vote_aggs@[j]);
            }
        }
        let ghost aggs_before = self.vote_aggs@;
        let mut entry = self.vote_aggs.remove(idx);
        let res = entry.1.append(vote.author, vote.signature, &self.committee);
        self.vote_aggs.insert(idx, entry);
        proof {
            assert(self.vote_aggs@ =~= aggs_before.update(idx as int, self.vote_aggs@[idx as int]));
            assert(forall|j: int|
                0 <= j < aggs_before.len() && j != idx ==> self.vote_aggs@[j] == aggs_before[j]);
            assert(self.vote_aggs@[idx as int].0 == vote.hash);
            lemma_find_agg_at(self.vote_aggs@, idx as int, vote.hash);
            if res is None {
                let votes_now = self.vote_aggs@[idx as int].1.votes@;
                assert(votes_now[votes_now.len() - 1].0 == vote.author);
            }
        }
        match res {
            Some(votes) => {
                let qc = QC { hash: vote.hash, round: vote.round, votes };
                self.high_qc = qc;
                self.round = vote.round + 1;
                self.vote_aggs = Vec::new();
                self.timeout_agg = CertAggregator::new();
                let mut r: Vec<Action> = Vec::new();
                if self.committee.leader(self.round) == self.name {
                    r.push(Action::TriggerProposal(self.round, self.high_qc.duplicate()));
                }
                r
            },
            None => Vec::new(),
        }
    }
}

/// Two timeout certificates with the same content.
pub open spec fn tc_equiv(a: TC, b: TC) -> bool {
    a.round == b.round && a.votes@ == b.votes@
}

impl Core {
    /// Handles one timeout. A timeout is honored only for the current round,
    /// from a committee member, carrying an acceptable QC from an earlier
    /// round; a signer already counted changes nothing. The carried QC is
    /// adopted when it is higher than the lock. When the collected weight
    /// first reaches the quorum threshold a TC is formed, broadcast, and the
    /// round advances past it.
    pub fn handle_timeout(&mut self, timeout: &Timeout) -> (r: Vec<Action>)
        requires
            old(self).wf(),
        ensures
            final(self).wf(),
            final(self).name == old(self).name,
            final(self).committee == old(self).committee,
            final(self).storage == old(self).storage,
            final(self).last_voted_round == old(self).last_voted_round,
            final(self).last_committed_round == old(self).last_committed_round,
            final(self).round >= old(self).round,
            !timeout_fresh(*old(self), *timeout) ==> *final(self) == *old(self) && r@.len() == 0,
            timeout_fresh(*old(self), *timeout) ==> (if timeout.high_qc.round > old(
                self,
            ).high_qc.round {
                qc_equiv(final(self).high_qc, timeout.high_qc)
            } else {
                final(self).high_qc == old(self).high_qc
            }),
            timeout_crossing(*old(self), *timeout) ==> {
                &&& final(self).round == timeout.round + 1
                &&& final(self).high_tc matches Some(tc) && valid_tc(old(self).committee@, tc)
                    && tc.round == timeout.round
                &&& final(self).vote_aggs@.len() == 0
                &&& r@.len() >= 1
                &&& (r@[0] matches Action::BroadcastTC(tc2) && valid_tc(old(self).committee@, tc2)
                    && tc2.round == timeout.round)
                &&& (leader_spec(old(self).committee@, (timeout.round + 1) as Round) == old(
                    self,
                ).name ==> r@.len() == 2 && (r@[1] matches Action::TriggerProposal(rr, qq) && rr
                    == timeout.round + 1 && qc_equiv(qq, final(self).high_qc)))
                &&& (leader_spec(old(self).committee@, (timeout.round + 1) as Round) != old(
                    self,
                ).name ==> r@.len() == 1)
            },
            !timeout_crossing(*old(self), *timeout) ==> final(self).round == old(self).round
                && final(self).high_tc == old(self).high_tc && final(self).vote_aggs == old(
                self,
            ).vote_aggs && r@.len() == 0,
            timeout_fresh(*old(self), *timeout) && !timeout_crossing(*old(self), *timeout) ==> {
                &&& contains_author(final(self).timeout_agg.votes@, timeout.author)
                &&& final(self).timeout_agg.weight == old(self).timeout_agg.weight + stake_of(
                    old(self).committee@,
                    timeout.author,
                )
            },
    {
        if timeout.round != self.round || self.round == u64::MAX {
            return Vec::new();
        }
        if !timeout.verify(&self.committee) {
            return Vec::new();
        }
        if !(timeout.high_qc.round < timeout.round) {
            return Vec::new();
        }
        if self.timeout_agg.contains(timeout.author) {
            return Vec::new();
        }
        if timeout.high_qc.round > self.high_qc.round {
            self.high_qc = timeout.high_qc.duplicate();
        }
        let res = self.timeout_agg.append(timeout.author, timeout.signature, &self.committee);
        match res {
            Some(votes) => {
                let kept = crate::aggregator::copy_pairs(&votes);
                self.high_tc = Some(TC { round: timeout.round, votes: kept });
                self.round = timeout.round + 1;
                self.vote_aggs = Vec::new();
                self.timeout_agg = CertAggregator::new();
                let mut r: Vec<Action> = Vec::new();
                r.push(Action::BroadcastTC(TC { round: timeout.round, votes }));
                if self.committee.leader(self.round) == self.name {
                    r.push(Action::TriggerProposal(self.round, self.high_qc.duplicate()));
                }
                r
            },
            None => {
                proof {
                    let v = self.timeout_agg.votes@;
                    assert(v[v.len() - 1].0 == timeout.author);
                }
                Vec::new()
            },
        }
    }

    /// Handles one timeout certificate. A valid TC for the current round or
    /// a later one is adopted: the round advances past it and, if this
    /// validator leads the new round, a proposal is triggered.
    pub fn handle_tc(&mut self, tc: &TC) -> (r: Vec<Action>)
        requires
            old(self).wf(),
        ensures
            final(self).wf(),
            final(self).name == old(self).name,
            final(self).committee == old(self).committee,
            final(self).storage == old(self).storage,
            final(self).last_voted_round == old(self).last_voted_round,
            final(self).last_committed_round == old(self).last_committed_round,
            final(self).high_qc == old(self).high_qc,
            final(self).round >= old(self).round,
            !tc_acceptable(*old(self), *tc) ==> *final(self) == *old(self) && r@.len() == 0,
            tc_acceptable(*old(self), *tc) ==> {
                &&& final(self).round == tc.round + 1
                &&& final(self).high_tc matches Some(t2) && tc_equiv(t2, *tc)
                &&& final(self).vote_aggs@.len() == 0
                &&& (leader_spec(old(self).committee@, (tc.round + 1) as Round) == old(self).name
                    ==> r@.len() == 1 && (r@[0] matches Action::TriggerProposal(rr, qq) && rr
                    == tc.round + 1 && qc_equiv(qq, final(self).high_qc)))
                &&& (leader_spec(old(self).committee@, (tc.round + 1) as Round) != old(self).name
                    ==> r@.len() == 0)
            },
    {
        if tc.round == u64::MAX || tc.round < self.round {
            return Vec::new();
        }
        if !tc.verify(&self.committee) {
            return Vec::new();
        }
        let kept = TC { round: tc.round, votes: crate::aggregator::copy_pairs(&tc.votes) };
        self.high_tc = Some(kept);
        self.round = tc.round + 1;
        self.vote_aggs = Vec::new();
        self.timeout_agg = CertAggregator::new();
        let mut r: Vec<Action> = Vec::new();
        if self.committee.leader(self.round) == self.name {
            r.push(Action::TriggerProposal(self.round, self.high_qc.duplicate()));
        }
        r
    }

    /// The round timer expired: emit a timeout for the current round
    /// carrying the highest QC, signed outside by the signing service. The
    /// caller feeds the broadcast timeout back through `handle_timeout`, the
    /// same path every peer's copy takes.
    pub fn local_timeout(&self, signature: Signature) -> (r: Vec<Action>)
        requires
            self.wf(),
        ensures
            r@.len() == 1,
            r@[0] matches Action::BroadcastTimeout(t) && t.round == self.round && t.author
                == self.name && t.signature == signature && qc_equiv(t.high_qc, self.high_qc),
    {
        let t = Timeout {
            high_qc: self.high_qc.duplicate(),
            round: self.round,
            author: self.name,
            signature,
        };
        let mut r: Vec<Action> = Vec::new();
        r.push(Action::BroadcastTimeout(t));
        r
    }
}

/// A timeout the current state will count: current round, a committee
/// member carrying an acceptable earlier-round QC, not yet counted, and the
/// round counter not saturated.
pub open spec fn timeout_fresh(c: Core, t: Timeout) -> bool {
    &&& t.round == c.round
    &&& c.round < u64::MAX
    &&& is_member(c.committee@, t.author)
    &&& qc_ok(c.committee@, t.high_qc)
    &&& t.high_qc.round < t.round
    &&& !contains_author(c.timeout_agg.votes@, t.author)
}

/// A fresh timeout whose weight first carries the round over the quorum
/// threshold, forming a TC.
pub open spec fn timeout_crossing(c: Core, t: Timeout) -> bool {
    &&& timeout_fresh(c, t)
    &&& c.timeout_agg.weight < quorum(c.committee@)
    &&& c.timeout_agg.weight + stake_of(c.committee@, t.author) >= quorum(c.committee@)
}

/// A timeout certificate the current state will adopt.
pub open spec fn tc_acceptable(c: Core, tc: TC) -> bool {
    &&& valid_tc(c.committee@, tc)
    &&& tc.round >= c.round
    &&& tc.round < u64::MAX
}

/// A proposed block worth processing: a committee member that leads the
/// block's round authored it, and its parent certificate is acceptable and
/// for an earlier round.
pub open spec fn proposal_acceptable(c: Core, b: Block) -> bool {
    &&& is_member(c.committee@, b.author)
    &&& qc_ok(c.committee@, b.qc)
    &&& b.author == leader_spec(c.committee@, b.round)
    &&& b.qc.round < b.round
}

/// The round the state holds right after adopting the block's parent QC.
pub open spec fn round_after_qc(c: Core, b: Block) -> int {
    if b.qc.round >= c.round {
        b.qc.round + 1
    } else {
        c.round as int
    }
}

/// The safety voting rule, judged on the pre-state: the block belongs to the
/// round the state reaches, this validator has not voted in that round yet,
/// and the block extends the lock directly or a TC justifies the jump.
pub open spec fn will_vote(c: Core, b: Block) -> bool {
    &&& b.round == round_after_qc(c, b)
    &&& b.round > c.last_voted_round
    &&& b.round < u64::MAX
    &&& (b.qc.round + 1 == b.round || (c.high_tc matches Some(tc) && tc.round + 1 == b.round))
}

/// The two-chain commit rule, judged on the pre-state: the parent the QC
/// certifies sits in the round right below the block and is not yet
/// committed.
pub open spec fn will_commit(c: Core, b: Block, parent: Block) -> bool {
    parent.round + 1 == b.round && parent.round > c.last_committed_round
}

impl Core {
    /// Handles one proposed block, from the network or from this validator's
    /// own proposer, through one identical path. An unacceptable block is
    /// dropped. When the parent is not stored yet, the state is left alone
    /// and a sync request is issued; the caller buffers the block and feeds
    /// it back once the parent arrives. Otherwise the parent QC is adopted,
    /// the block is stored, the two-chain commit rule may deliver the
    /// parent, and the safety rule decides the vote, which goes to the next
    /// round's leader. A vote is never cast twice for one round. The commit
    /// rule delivers exactly the certified parent, deliberately: an
    /// ancestor below a timeout-skipped round is durable in storage but is
    /// not replayed to the sink, so the sink sees a subsequence of the
    /// chain in strictly increasing round order.
    pub fn handle_proposal(&mut self, block: &Block, vote_signature: Signature) -> (r: Vec<
        Action,
    >)
        requires
            old(self).wf(),
        ensures
            final(self).wf(),
            final(self).name == old(self).name,
            final(self).committee == old(self).committee,
            final(self).round >= old(self).round,
            final(self).last_voted_round >= old(self).last_voted_round,
            final(self).last_committed_round >= old(self).last_committed_round,
            final(self).high_tc == old(self).high_tc,
            final(self).round == old(self).round ==> final(self).vote_aggs == old(self).vote_aggs
                && final(self).timeout_agg == old(self).timeout_agg,
            !proposal_acceptable(*old(self), *block) ==> *final(self) == *old(self) && r@.len()
                == 0,
            proposal_acceptable(*old(self), *block) && lookup(
                old(self).storage.blocks@,
                block.qc.hash,
            ) is None ==> *final(self) == *old(self) && r@ == seq![
                Action::SyncRequest(block.qc.hash, block.author),
            ],
            proposal_processed(*old(self), *block) ==> {
                let parent = lookup(old(self).storage.blocks@, block.qc.hash)->Some_0;
                &&& forall|d: Digest|
                    lookup(old(self).storage.blocks@, d) is Some ==> lookup(
                        final(self).storage.blocks@,
                        d,
                    ) == lookup(old(self).storage.blocks@, d)
                &&& lookup(final(self).storage.blocks@, block.digest) is Some
                &&& (lookup(old(self).storage.blocks@, block.digest) is None ==> (lookup(
                    final(self).storage.blocks@,
                    block.digest,
                ) matches Some(b2) && block_equiv(b2, *block)))
                &&& lookup(old(self).storage.blocks@, block.digest) is Some
                    ==> final(self).storage == old(self).storage
                &&& final(self).round == round_after_qc(*old(self), *block)
                &&& (if block.qc.round > old(self).high_qc.round {
                    qc_equiv(final(self).high_qc, block.qc)
                } else {
                    final(self).high_qc == old(self).high_qc
                })
                &&& final(self).last_voted_round == (if will_vote(*old(self), *block) {
                    block.round
                } else {
                    old(self).last_voted_round
                })
                &&& final(self).last_committed_round == (if will_commit(
                    *old(self),
                    *block,
                    parent,
                ) {
                    parent.round
                } else {
                    old(self).last_committed_round
                })
                &&& r@.len() == commit_count(*old(self), *block, parent) + vote_count(
                    *old(self),
                    *block,
                )
                &&& (will_commit(*old(self), *block, parent) ==> (r@[0] matches Action::Commit(cb)
                    && block_equiv(cb, parent)))
                &&& (will_vote(*old(self), *block) ==> (r@[r@.len() - 1]
                    matches Action::SendVote(v, to) && v.hash == block.digest && v.round
                    == block.round && v.author == old(self).name && v.signature == vote_signature
                    && to == leader_spec(old(self).committee@, (block.round + 1) as Round)))
            },
    {
        if !block.verify(&self.committee) {
            return Vec::new();
        }
        if block.author != self.committee.leader(block.round) {
            return Vec::new();
        }
        if !(block.qc.round < block.round) {
            return Vec::new();
        }
        let parent_copy: Option<Block> = match self.storage.get(block.qc.hash) {
            Some(p) => Some(p.duplicate()),
            None => None,
        };
        let parent = match parent_copy {
            None => {
                let mut r: Vec<Action> = Vec::new();
                r.push(Action::SyncRequest(block.qc.hash, block.author));
                proof {
                    assert(r@ =~= seq![Action::SyncRequest(block.qc.hash, block.author)]);
                }
                return r;
            },
            Some(p) => p,
        };
        // Adopt the parent certificate.
        if block.qc.round > self.high_qc.round {
            self.high_qc = block.qc.duplicate();
        }
        if block.qc.round >= self.round {
            self.round = block.qc.round + 1;
            self.vote_aggs = Vec::new();
            self.timeout_agg = CertAggregator::new();
        }
        // Store the block.
        self.storage.put(block.duplicate());
        let mut r: Vec<Action> = Vec::new();
        // Two-chain commit rule.
        if parent.round == block.round - 1 && parent.round > self.last_committed_round {
            self.last_committed_round = parent.round;
            r.push(Action::Commit(parent.duplicate()));
        }
        // Safety voting rule.
        let tc_justifies = match &self.high_tc {
            Some(tc) => tc.round == block.round - 1,
            None => false,
        };
        if block.round == self.round && block.round > self.last_voted_round && block.round
            < u64::MAX && (block.qc.round + 1 == block.round || tc_justifies) {
            self.last_voted_round = block.round;
            let vote = Vote {
                hash: block.digest,
                round: block.round,
                author: self.name,
                signature: vote_signature,
            };
            let next_leader = self.committee.leader(block.round + 1);
            r.push(Action::SendVote(vote, next_leader));
        }
        r
    }
}

/// An acceptable proposal whose parent is already stored: the state machine
/// runs it to the end.
pub open spec fn proposal_processed(c: Core, b: Block) -> bool {
    proposal_acceptable(c, b) && lookup(c.storage.blocks@, b.qc.hash) is Some
}

/// How many commit actions the block yields: one or none.
pub open spec fn commit_count(c: Core, b: Block, parent: Block) -> int {
    if will_commit(c, b, parent) {
        1
    } else {
        0
    }
}

/// How many votes the block yields: one or none.
pub open spec fn vote_count(c: Core, b: Block) -> int {
    if will_vote(c, b) {
        1
    } else {
        0
    }
}

/// A vote the current state will count: current round, a committee member,
/// not yet recorded, and the round counter not saturated.
pub open spec fn vote_fresh(c: Core, vote: Vote) -> bool {
    &&& vote.round == c.round
    &&& c.round < u64::MAX
    &&& is_member(c.committee@, vote.author)
    &&& !vote_recorded(c.vote_aggs@, vote)
}

/// A fresh vote whose weight first carries its digest over the quorum
/// threshold, forming a QC.
pub open spec fn vote_crossing(c: Core, vote: Vote) -> bool {
    &&& vote_fresh(c, vote)
    &&& agg_weight(c.vote_aggs@, vote.hash) < quorum(c.committee@)
    &&& agg_weight(c.vote_aggs@, vote.hash) + stake_of(c.committee@, vote.author) >= quorum(
        c.committee@,
    )
}

/// A found index pins down what `find_agg` resolves to.
proof fn lemma_find_agg_at(aggs: Seq<(Digest, CertAggregator)>, idx: int, hash: Digest)
    requires
        0 <= idx < aggs.len(),
        aggs[idx].0 == hash,
        forall|i: int, j: int|
            0 <= i < aggs.len() && 0 <= j < aggs.len() && i != j ==> aggs[i].0 != aggs[j].0,
    ensures
        find_agg(aggs, hash) == Some(aggs[idx].1),
    decreases idx,
{
    if idx == 0 {
    } else {
        assert(aggs[0].0 != hash);
        assert(forall|i: int| 0 <= i < aggs.drop_first().len() ==> aggs.drop_first()[i] == aggs[i
            + 1]);
        lemma_find_agg_at(aggs.drop_first(), idx - 1, hash);
    }
}

/// A digest bound nowhere resolves to nothing.
proof fn lemma_find_agg_absent(aggs: Seq<(Digest, CertAggregator)>, hash: Digest)
    requires
        forall|j: int| 0 <= j < aggs.len() ==> aggs[j].0 != hash,
    ensures
        find_agg(aggs, hash) is None,
    decreases aggs.len(),
{
    if aggs.len() > 0 {
        assert(forall|i: int| 0 <= i < aggs.drop_first().len() ==> aggs.drop_first()[i] == aggs[i
            + 1]);
        lemma_find_agg_absent(aggs.drop_first(), hash);
    }
}

} // verus!
