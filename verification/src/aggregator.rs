//! Aggregation of weighted signatures into certificates: votes for one
//! (block, round) become a quorum certificate, timeouts for one round become
//! a timeout certificate, exactly when the collected weight first reaches the
//! quorum threshold.

use vstd::prelude::*;
use crate::committee::{
    Authority, Committee, PublicKey, is_member, quorum, set_stake, stake_of, total_stake,
    lemma_total_stake_nonneg,
};
use crate::messages::{
    Signature, all_members, distinct_authors, pair_authors, pairs_stake, lemma_stake_of_bounds,
};

verus! {

/// Whether `author` already signed in `votes`.
pub open spec fn contains_author(votes: Seq<(PublicKey, Signature)>, author: PublicKey) -> bool {
    exists|i: int| 0 <= i < votes.len() && votes[i].0 == author
}

/// Collects distinct weighted signatures for one certificate-to-be.
#[derive(Clone, Debug)]
pub struct CertAggregator {
    pub votes: Vec<(PublicKey, Signature)>,
    pub weight: u64,
}

impl CertAggregator {
    /// The collected signers are distinct committee members and `weight` is
    /// exactly their combined stake.
    pub open spec fn wf(self, c: Seq<Authority>) -> bool {
        &&& distinct_authors(self.votes@)
        &&& all_members(c, self.votes@)
        &&& self.weight == pairs_stake(c, self.votes@)
    }

    pub fn new() -> (r: CertAggregator)
        ensures
            r.votes@.len() == 0,
            r.weight == 0,
            forall|c: Seq<Authority>| r.wf(c),
    {
        CertAggregator { votes: Vec::new(), weight: 0 }
    }

    /// Whether `author` was already counted here.
    pub fn contains(&self, author: PublicKey) -> (r: bool)
        ensures
            r == contains_author(self.votes@, author),
    {
        let n = self.votes.len();
        let mut i: usize = 0;
        while i < n
            invariant
                n == self.votes@.len(),
                0 <= i <= n,
                forall|j: int| 0 <= j < i ==> self.votes@[j].0 != author,
            decreases n - i,
        {
            if self.votes[i].0 == author {
                return true;
            }
            i += 1;
        }
        false
    }

    /// Adds one signature. A signer already counted changes nothing, so a
    /// replayed vote is idempotent. The vote list is handed out exactly when
    /// the collected weight first reaches the quorum threshold, whatever the
    /// arrival order was; a list handed out always carries quorum weight.
    pub fn append(
        &mut self,
        author: PublicKey,
        signature: Signature,
        committee: &Committee,
    ) -> (r: Option<Vec<(PublicKey, Signature)>>)
        requires
            committee.wf(),
            old(self).wf(committee@),
            is_member(committee@, author),
        ensures
            final(self).wf(committee@),
            contains_author(old(self).votes@, author) ==> (r is None && *final(self)
                == *old(self)),
            !contains_author(old(self).votes@, author) ==> final(self).votes@ == old(
                self,
            ).votes@.push((author, signature)) && final(self).weight == old(self).weight
                + stake_of(committee@, author),
            r is Some <==> (!contains_author(old(self).votes@, author) && old(self).weight
                < quorum(committee@) && old(self).weight + stake_of(committee@, author)
                >= quorum(committee@)),
            r is Some ==> r->Some_0@ == final(self).votes@ && distinct_authors(r->Some_0@)
                && all_members(committee@, r->Some_0@) && pairs_stake(committee@, r->Some_0@)
                >= quorum(committee@),
    {
        let n = self.votes.len();
        let mut i: usize = 0;
        while i < n
            invariant
                *self == *old(self),
                committee.wf(),
                self.wf(committee@),
                n == self.votes@.len(),
                0 <= i <= n,
                forall|j: int| 0 <= j < i ==> self.votes@[j].0 != author,
            decreases n - i,
        {
            if self.votes[i].0 == author {
                return None;
            }
            i += 1;
        }
        let stake = committee.stake(author);
        proof {
            lemma_pairs_stake_as_set(committee@, self.votes@);
            lemma_set_stake_le_total(committee@, pair_authors(self.votes@));
            lemma_stake_of_bounds(committee@, author);
            lemma_pairs_stake_as_set(committee@, self.votes@.push((author, signature)));
            assert(forall|j: int|
                0 <= j < self.votes@.len() ==> self.votes@.push((author, signature))[j]
                    == self.votes@[j]);
            assert(self.votes@.push((author, signature))[self.votes@.len() as int]
                == (author, signature));
            assert(pair_authors(self.votes@.push((author, signature))) =~= pair_authors(
                self.votes@,
            ).insert(author));
            lemma_set_stake_insert(committee@, pair_authors(self.votes@), author);
            lemma_set_stake_le_total(
                committee@,
                pair_authors(self.votes@.push((author, signature))),
            );
        }
        let below = self.weight < committee.quorum_threshold();
        self.votes.push((author, signature));
        self.weight = self.weight + stake;
        if below && self.weight >= committee.quorum_threshold() {
            Some(copy_pairs(&self.votes))
        } else {
            None
        }
    }
}

/// A plain element-wise copy of a vote list.
pub fn copy_pairs(v: &Vec<(PublicKey, Signature)>) -> (r: Vec<(PublicKey, Signature)>)
    ensures
        r@ == v@,
{
    let n = v.len();
    let mut out: Vec<(PublicKey, Signature)> = Vec::new();
    let mut i: usize = 0;
    while i < n
        invariant
            n == v@.len(),
            0 <= i <= n,
            out@ == v@.take(i as int),
        decreases n - i,
    {
        out.push(v[i]);
        proof {
            assert(v@.take(i as int).push(v@[i as int]) =~= v@.take(i + 1));
        }
        i += 1;
    }
    proof {
        assert(v@.take(n as int) =~= v@);
    }
    out
}

/// A weight sum over names the committee does not hold never changes when
/// such a name joins the selection.
proof fn lemma_set_stake_absent(c: Seq<Authority>, sel: Set<PublicKey>, name: PublicKey)
    requires
        !is_member(c, name),
    ensures
        set_stake(c, sel.insert(name)) == set_stake(c, sel),
    decreases c.len(),
{
    if c.len() > 0 {
        assert(c[0].name != name);
        assert(forall|i: int|
            0 <= i < c.drop_first().len() ==> c.drop_first()[i] == c[i + 1]);
        lemma_set_stake_absent(c.drop_first(), sel, name);
    }
}

/// Inserting a fresh name into a selection adds exactly that member's stake,
/// provided the committee holds each name once.
pub proof fn lemma_set_stake_insert(c: Seq<Authority>, sel: Set<PublicKey>, name: PublicKey)
    requires
        forall|i: int, j: int|
            0 <= i < c.len() && 0 <= j < c.len() && i != j ==> c[i].name != c[j].name,
        !sel.contains(name),
    ensures
        set_stake(c, sel.insert(name)) == set_stake(c, sel) + stake_of(c, name),
    decreases c.len(),
{
    if c.len() > 0 {
        let rest = c.drop_first();
        assert(forall|i: int| 0 <= i < rest.len() ==> rest[i] == c[i + 1]);
        if c[0].name == name {
            assert(!is_member(rest, name));
            lemma_set_stake_absent(rest, sel, name);
        } else {
            lemma_set_stake_insert(rest, sel, name);
        }
    }
}

/// No selection outweighs the whole committee.
pub proof fn lemma_set_stake_le_total(c: Seq<Authority>, sel: Set<PublicKey>)
    ensures
        0 <= set_stake(c, sel),
        set_stake(c, sel) <= total_stake(c),
    decreases c.len(),
{
    if c.len() > 0 {
        lemma_set_stake_le_total(c.drop_first(), sel);
    }
}

/// For distinct signers on a duplicate-free committee, the vote-list weight
/// is the weight of the signer set.
pub proof fn lemma_pairs_stake_as_set(c: Seq<Authority>, votes: Seq<(PublicKey, Signature)>)
    requires
        forall|i: int, j: int|
            0 <= i < c.len() && 0 <= j < c.len() && i != j ==> c[i].name != c[j].name,
        distinct_authors(votes),
    ensures
        pairs_stake(c, votes) == set_stake(c, pair_authors(votes)),
    decreases votes.len(),
{
    if votes.len() == 0 {
        assert(pair_authors(votes) =~= Set::<PublicKey>::empty());
        lemma_set_stake_empty(c);
    } else {
        let rest = votes.drop_first();
        assert(forall|i: int| 0 <= i < rest.len() ==> rest[i] == votes[i + 1]);
        lemma_pairs_stake_as_set(c, rest);
        let a0 = votes[0].0;
        assert(pair_authors(votes) =~= pair_authors(rest).insert(a0)) by {
            assert forall|n: PublicKey| pair_authors(votes).contains(n) implies pair_authors(
                rest,
            ).insert(a0).contains(n) by {
                let i = choose|i: int| 0 <= i < votes.len() && votes[i].0 == n;
                if i > 0 {
                    assert(rest[i - 1].0 == n);
                }
            };
            assert forall|n: PublicKey| pair_authors(rest).insert(a0).contains(n)
                implies pair_authors(votes).contains(n) by {
                if n == a0 {
                    assert(votes[0].0 == n);
                } else {
                    let i = choose|i: int| 0 <= i < rest.len() && rest[i].0 == n;
                    assert(votes[i + 1].0 == n);
                }
            };
        }
        assert(!contains_author(rest, votes[0].0));
        assert(!pair_authors(rest).contains(votes[0].0));
        lemma_set_stake_insert(c, pair_authors(rest), votes[0].0);
    }
}

/// An empty selection weighs nothing.
proof fn lemma_set_stake_empty(c: Seq<Authority>)
    ensures
        set_stake(c, Set::<PublicKey>::empty()) == 0,
    decreases c.len(),
{
    if c.len() > 0 {
        lemma_set_stake_empty(c.drop_first());
    }
}

} // verus!
