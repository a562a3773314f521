//! The committee: the fixed set of consensus participants for one epoch, each
//! with an identity and a voting weight, together with the quorum-threshold
//! arithmetic and the deterministic leader election.

use vstd::prelude::*;

verus! {

/// A consensus round number.
pub type Round = u64;

/// A validator's identity; it stands for the validator's public key.
pub type PublicKey = u64;

/// Voting weight of one committee member.
pub type Stake = u64;

/// One committee member: identity plus voting weight.
#[derive(Clone, Copy, PartialEq, Eq, Structural, Debug)]
pub struct Authority {
    pub name: PublicKey,
    pub stake: Stake,
}

/// Sum of the weights of all members of `s`.
pub open spec fn total_stake(s: Seq<Authority>) -> int
    decreases s.len(),
{
    if s.len() == 0 {
        0
    } else {
        s[0].stake + total_stake(s.drop_first())
    }
}

/// Weight of the single member of `s` named `name`, 0 if there is none.
pub open spec fn stake_of(s: Seq<Authority>, name: PublicKey) -> int
    decreases s.len(),
{
    if s.len() == 0 {
        0
    } else if s[0].name == name {
        s[0].stake as int
    } else {
        stake_of(s.drop_first(), name)
    }
}

/// Combined weight of the members of `s` whose names lie in `sel`.
pub open spec fn set_stake(s: Seq<Authority>, sel: Set<PublicKey>) -> int
    decreases s.len(),
{
    if s.len() == 0 {
        0
    } else {
        (if sel.contains(s[0].name) {
            s[0].stake as int
        } else {
            0
        }) + set_stake(s.drop_first(), sel)
    }
}

/// Weight a quorum certificate must reach: strictly more than two thirds of
/// the total weight. With total weight 3f+1 this is exactly 2f+1.
pub open spec fn quorum(s: Seq<Authority>) -> int {
    2 * total_stake(s) / 3 + 1
}

/// Whether some member of `s` is named `name`.
pub open spec fn is_member(s: Seq<Authority>, name: PublicKey) -> bool {
    exists|i: int| 0 <= i < s.len() && s[i].name == name
}

/// A well-formed committee: at least one member, no name twice, and a total
/// weight that fits the machine word.
pub open spec fn committee_wf(s: Seq<Authority>) -> bool {
    &&& s.len() > 0
    &&& forall|i: int, j: int|
        0 <= i < s.len() && 0 <= j < s.len() && i != j ==> s[i].name != s[j].name
    &&& total_stake(s) <= u64::MAX
}

/// The fixed, agreed-upon set of consensus participants for one epoch.
#[derive(Clone, Debug)]
pub struct Committee {
    pub authorities: Vec<Authority>,
}

impl Committee {
    pub open spec fn view(self) -> Seq<Authority> {
        self.authorities@
    }

    pub open spec fn wf(self) -> bool {
        committee_wf(self@)
    }

    pub fn new(authorities: Vec<Authority>) -> (r: Committee)
        ensures
            r@ == authorities@,
    {
        Committee { authorities }
    }

    /// Voting weight of `name`, 0 for a stranger to the committee.
    pub fn stake(&self, name: PublicKey) -> (r: Stake)
        requires
            self.wf(),
        ensures
            r == stake_of(self@, name),
    {
        let n = self.authorities.len();
        let mut i: usize = 0;
        proof {
            assert(self@.skip(0) =~= self@);
        }
        while i < n
            invariant
                n == self@.len(),
                0 <= i <= n,
                self.wf(),
                stake_of(self@, name) == stake_of(self@.skip(i as int), name),
            decreases n - i,
        {
            proof {
                assert(self@.skip(i as int).drop_first() =~= self@.skip(i + 1));
                assert(self@.skip(i as int)[0] == self@[i as int]);
            }
            if self.authorities[i].name == name {
                return self.authorities[i].stake;
            }
            i += 1;
        }
        0
    }

    /// Whether `name` belongs to the committee.
    pub fn is_member(&self, name: PublicKey) -> (r: bool)
        ensures
            r == is_member(self@, name),
    {
        let n = self.authorities.len();
        let mut i: usize = 0;
        while i < n
            invariant
                n == self@.len(),
                0 <= i <= n,
                forall|j: int| 0 <= j < i ==> self@[j].name != name,
            decreases n - i,
        {
            if self.authorities[i].name == name {
                return true;
            }
            i += 1;
        }
        false
    }

    /// Total voting weight of the committee.
    pub fn total_stake(&self) -> (r: Stake)
        requires
            self.wf(),
        ensures
            r == total_stake(self@),
    {
        let n = self.authorities.len();
        let mut i: usize = 0;
        let mut acc: u64 = 0;
        proof {
            lemma_total_stake_nonneg(self@);
            assert(self@.skip(0) =~= self@);
            assert(self@.take(0) =~= Seq::<Authority>::empty());
            assert(total_stake(Seq::<Authority>::empty()) == 0);
        }
        while i < n
            invariant
                n == self@.len(),
                0 <= i <= n,
                self.wf(),
                acc == total_stake(self@.take(i as int)),
                total_stake(self@.take(i as int)) + total_stake(self@.skip(i as int))
                    == total_stake(self@),
                total_stake(self@.skip(i as int)) >= 0,
            decreases n - i,
        {
            proof {
                lemma_total_stake_split(self@, i + 1);
                lemma_total_stake_nonneg(self@.skip(i + 1));
                assert(self@.skip(i as int).drop_first() =~= self@.skip(i + 1));
                assert(total_stake(self@.skip(i as int))
                    == self@[i as int].stake + total_stake(self@.skip(i + 1)));
            }
            acc = acc + self.authorities[i].stake;
            proof {
                lemma_total_stake_take_snoc(self@, i as int);
            }
            i += 1;
        }
        proof {
            assert(self@.take(n as int) =~= self@);
        }
        acc
    }

    /// The weight a certificate must gather before it is formed.
    pub fn quorum_threshold(&self) -> (r: Stake)
        requires
            self.wf(),
        ensures
            r == quorum(self@),
    {
        let total = self.total_stake();
        let q128: u128 = 2 * (total as u128) / 3 + 1;
        proof {
            lemma_total_stake_nonneg(self@);
        }
        q128 as u64
    }

    /// The designated leader of `round`: rotates through the committee in
    /// order, so every honest participant with the same committee agrees on
    /// it.
    pub fn leader(&self, round: Round) -> (r: PublicKey)
        requires
            self.wf(),
        ensures
            r == leader_spec(self@, round),
            is_member(self@, r),
    {
        let n = self.authorities.len();
        let idx = (round % (n as u64)) as usize;
        let r = self.authorities[idx].name;
        proof {
            assert(0 <= (round as int % (self@.len() as int)) < self@.len());
            assert(self@[round as int % (self@.len() as int)].name == r);
        }
        r
    }
}

/// Which member leads a round: round-robin over the committee order.
pub open spec fn leader_spec(s: Seq<Authority>, round: Round) -> PublicKey
    recommends
        s.len() > 0,
{
    s[round as int % s.len() as int].name
}

pub proof fn lemma_total_stake_nonneg(s: Seq<Authority>)
    ensures
        total_stake(s) >= 0,
    decreases s.len(),
{
    if s.len() > 0 {
        lemma_total_stake_nonneg(s.drop_first());
    }
}

/// Splitting the committee at any point splits the total weight.
pub proof fn lemma_total_stake_split(s: Seq<Authority>, i: int)
    requires
        0 <= i <= s.len(),
    ensures
        total_stake(s.take(i)) + total_stake(s.skip(i)) == total_stake(s),
    decreases i,
{
    if i == 0 {
        assert(s.take(0) =~= Seq::<Authority>::empty());
        assert(s.skip(0) =~= s);
    } else {
        assert(s.take(i).drop_first() =~= s.drop_first().take(i - 1));
        assert(s.skip(i) =~= s.drop_first().skip(i - 1));
        assert(s.take(i)[0] == s[0]);
        lemma_total_stake_split(s.drop_first(), i - 1);
    }
}

proof fn lemma_total_stake_take_snoc(s: Seq<Authority>, i: int)
    requires
        0 <= i < s.len(),
    ensures
        total_stake(s.take(i + 1)) == total_stake(s.take(i)) + s[i].stake,
    decreases i,
{
    if i == 0 {
        assert(s.take(1).drop_first() =~= Seq::<Authority>::empty());
        assert(s.take(1)[0] == s[0]);
        assert(s.take(0) =~= Seq::<Authority>::empty());
        assert(total_stake(Seq::<Authority>::empty()) == 0);
        assert(total_stake(s.take(1)) == s[0].stake + total_stake(Seq::<Authority>::empty()));
    } else {
        assert(s.take(i + 1)[0] == s[0]);
        assert(s.take(i)[0] == s[0]);
        assert(s.take(i + 1).drop_first() =~= s.drop_first().take(i));
        assert(s.take(i).drop_first() =~= s.drop_first().take(i - 1));
        lemma_total_stake_take_snoc(s.drop_first(), i - 1);
    }
}

} // verus!
