//! The consensus messages: blocks, votes, timeouts, the two certificate
//! kinds, and the tagged union that travels on the wire, together with the
//! validity conditions a receiver holds them to.

use vstd::prelude::*;
use crate::committee::{
    Authority, Committee, PublicKey, Round, is_member, quorum, set_stake, stake_of,
    total_stake,
};

verus! {

/// A content digest identifying one block.
pub type Digest = u64;

/// A signature over a message, standing for the signing service's output.
pub type Signature = u64;

/// The digest of the agreed genesis block, the root of every chain.
pub const GENESIS_DIGEST: Digest = 0;

/// A vote for one block in one round.
#[derive(Clone, Copy, PartialEq, Eq, Structural, Debug)]
pub struct Vote {
    pub hash: Digest,
    pub round: Round,
    pub author: PublicKey,
    pub signature: Signature,
}

/// A quorum certificate: the weighted votes that accepted one block.
#[derive(Clone, PartialEq, Eq, Debug)]
pub struct QC {
    pub hash: Digest,
    pub round: Round,
    pub votes: Vec<(PublicKey, Signature)>,
}

/// A timeout: one member giving up on a round, carrying its highest QC.
#[derive(Clone, PartialEq, Eq, Debug)]
pub struct Timeout {
    pub high_qc: QC,
    pub round: Round,
    pub author: PublicKey,
    pub signature: Signature,
}

/// A timeout certificate: the weighted timeouts that abandoned one round.
#[derive(Clone, PartialEq, Eq, Debug)]
pub struct TC {
    pub round: Round,
    pub votes: Vec<(PublicKey, Signature)>,
}

/// A proposed block. Its parent is the block certified by `qc`; `digest`
/// identifies the block's content.
#[derive(Clone, PartialEq, Eq, Debug)]
pub struct Block {
    pub qc: QC,
    pub author: PublicKey,
    pub round: Round,
    pub payload: Vec<Digest>,
    pub signature: Signature,
    pub digest: Digest,
}

/// The tagged union every consensus wire message belongs to.
#[derive(Clone, PartialEq, Eq, Debug)]
pub enum ConsensusMessage {
    Propose(Block),
    Vote(Vote),
    Timeout(Timeout),
    TC(TC),
    SyncRequest(Digest, PublicKey),
}

/// Two quorum certificates with the same content.
pub open spec fn qc_equiv(a: QC, b: QC) -> bool {
    a.hash == b.hash && a.round == b.round && a.votes@ == b.votes@
}

/// Two blocks with the same content.
pub open spec fn block_equiv(a: Block, b: Block) -> bool {
    &&& qc_equiv(a.qc, b.qc)
    &&& a.author == b.author
    &&& a.round == b.round
    &&& a.payload@ == b.payload@
    &&& a.signature == b.signature
    &&& a.digest == b.digest
}

/// Combined weight of the signers of a certificate's vote list.
pub open spec fn pairs_stake(c: Seq<Authority>, votes: Seq<(PublicKey, Signature)>) -> int
    decreases votes.len(),
{
    if votes.len() == 0 {
        0
    } else {
        stake_of(c, votes[0].0) + pairs_stake(c, votes.drop_first())
    }
}

/// The set of signers of a certificate's vote list.
pub open spec fn pair_authors(votes: Seq<(PublicKey, Signature)>) -> Set<PublicKey> {
    Set::new(|n: PublicKey| exists|i: int| 0 <= i < votes.len() && votes[i].0 == n)
}

/// No signer appears twice.
pub open spec fn distinct_authors(votes: Seq<(PublicKey, Signature)>) -> bool {
    forall|i: int, j: int|
        0 <= i < votes.len() && 0 <= j < votes.len() && i != j ==> votes[i].0 != votes[j].0
}

/// Every signer belongs to the committee.
pub open spec fn all_members(c: Seq<Authority>, votes: Seq<(PublicKey, Signature)>) -> bool {
    forall|i: int| 0 <= i < votes.len() ==> is_member(c, #[trigger] votes[i].0)
}

/// A quorum certificate is valid when its signers are distinct committee
/// members whose combined weight reaches the quorum threshold.
pub open spec fn valid_qc(c: Seq<Authority>, qc: QC) -> bool {
    &&& distinct_authors(qc.votes@)
    &&& all_members(c, qc.votes@)
    &&& pairs_stake(c, qc.votes@) >= quorum(c)
}

/// The well-known certificate of the genesis block; every participant
/// accepts it without votes.
pub open spec fn is_genesis_qc(qc: QC) -> bool {
    qc.round == 0 && qc.votes@.len() == 0 && qc.hash == GENESIS_DIGEST
}

/// A QC a receiver accepts: the genesis certificate or a valid quorum.
pub open spec fn qc_ok(c: Seq<Authority>, qc: QC) -> bool {
    is_genesis_qc(qc) || valid_qc(c, qc)
}

/// A timeout certificate is valid under the same quorum condition.
pub open spec fn valid_tc(c: Seq<Authority>, tc: TC) -> bool {
    &&& distinct_authors(tc.votes@)
    &&& all_members(c, tc.votes@)
    &&& pairs_stake(c, tc.votes@) >= quorum(c)
}

impl QC {
    /// The certificate of the genesis block.
    pub fn genesis() -> (r: QC)
        ensures
            is_genesis_qc(r),
    {
        QC { hash: GENESIS_DIGEST, round: 0, votes: Vec::new() }
    }

    /// Checks the certificate against the committee. Signature validity is
    /// the signing service's contract; here a signer counts when it is a
    /// committee member, and the weight check is exact.
    pub fn verify(&self, committee: &Committee) -> (r: bool)
        requires
            committee.wf(),
        ensures
            r == qc_ok(committee@, *self),
    {
        if self.round == 0 && self.votes.len() == 0 && self.hash == GENESIS_DIGEST {
            return true;
        }
        verify_pairs(&self.votes, committee)
    }
}

impl TC {
    /// Checks the certificate against the committee, as `QC::verify` does.
    pub fn verify(&self, committee: &Committee) -> (r: bool)
        requires
            committee.wf(),
        ensures
            r == valid_tc(committee@, *self),
    {
        verify_pairs(&self.votes, committee)
    }
}

impl Vote {
    /// A vote is acceptable when its author sits on the committee; the
    /// signature itself is the signing service's contract.
    pub fn verify(&self, committee: &Committee) -> (r: bool)
        ensures
            r == is_member(committee@, self.author),
    {
        committee.is_member(self.author)
    }
}

impl Timeout {
    /// A timeout is acceptable when its author sits on the committee and the
    /// QC it carries is itself acceptable.
    pub fn verify(&self, committee: &Committee) -> (r: bool)
        requires
            committee.wf(),
        ensures
            r == (is_member(committee@, self.author) && qc_ok(committee@, self.high_qc)),
    {
        committee.is_member(self.author) && self.high_qc.verify(committee)
    }
}

impl Block {
    /// A block is acceptable when its author sits on the committee and its
    /// parent certificate is acceptable. Whether the author is the round's
    /// leader is the round state machine's check.
    pub fn verify(&self, committee: &Committee) -> (r: bool)
        requires
            committee.wf(),
        ensures
            r == (is_member(committee@, self.author) && qc_ok(committee@, self.qc)),
    {
        committee.is_member(self.author) && self.qc.verify(committee)
    }
}

/// Checks one vote list: distinct committee members with quorum weight.
fn verify_pairs(votes: &Vec<(PublicKey, Signature)>, committee: &Committee) -> (r: bool)
    requires
        committee.wf(),
    ensures
        r == (distinct_authors(votes@) && all_members(committee@, votes@)
            && pairs_stake(committee@, votes@) >= quorum(committee@)),
{
    let n = votes.len();
    let mut i: usize = 0;
    // Distinctness and membership.
    while i < n
        invariant
            n == votes@.len(),
            0 <= i <= n,
            forall|a: int, b: int| 0 <= a < i && 0 <= b < n && a != b ==> votes@[a].0 != votes@[b].0,
            forall|a: int| 0 <= a < i ==> is_member(committee@, #[trigger] votes@[a].0),
        decreases n - i,
    {
        if !committee.is_member(votes[i].0) {
            return false;
        }
        let mut j: usize = 0;
        while j < n
            invariant
                n == votes@.len(),
                0 <= i < n,
                0 <= j <= n,
                forall|b: int| 0 <= b < j && b != i ==> votes@[i as int].0 != votes@[b].0,
            decreases n - j,
        {
            if j != i && votes[j].0 == votes[i].0 {
                return false;
            }
            j += 1;
        }
        i += 1;
    }
    // Weight.
    let mut w: u128 = 0;
    let mut k: usize = 0;
    proof {
        assert(votes@.skip(0) =~= votes@);
        crate::committee::lemma_total_stake_nonneg(committee@);
    }
    while k < n
        invariant
            n == votes@.len(),
            0 <= k <= n,
            committee.wf(),
            w + pairs_stake(committee@, votes@.skip(k as int)) == pairs_stake(committee@, votes@),
            w <= k * 0xffff_ffff_ffff_ffffu64,
        decreases n - k,
    {
        proof {
            assert(votes@.skip(k as int).drop_first() =~= votes@.skip(k + 1));
            assert(votes@.skip(k as int)[0] == votes@[k as int]);
            lemma_stake_of_bounds(committee@, votes@[k as int].0);
        }
        let s = committee.stake(votes[k].0);
        w = w + (s as u128);
        k += 1;
    }
    proof {
        assert(votes@.skip(n as int) =~= Seq::<(PublicKey, Signature)>::empty());
        assert(pairs_stake(committee@, Seq::<(PublicKey, Signature)>::empty()) == 0);
    }
    let q = committee.quorum_threshold();
    w >= (q as u128)
}

/// One member's weight is between zero and the committee total.
pub proof fn lemma_stake_of_bounds(c: Seq<Authority>, name: PublicKey)
    ensures
        0 <= stake_of(c, name),
        stake_of(c, name) <= total_stake(c),
    decreases c.len(),
{
    crate::committee::lemma_total_stake_nonneg(c);
    if c.len() > 0 {
        lemma_stake_of_bounds(c.drop_first(), name);
        crate::committee::lemma_total_stake_nonneg(c.drop_first());
    }
}

} // verus!
