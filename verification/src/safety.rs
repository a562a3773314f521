//! The safety argument behind the certificates. Any two selections that each
//! reach the quorum threshold overlap in more than a third of the committee's
//! weight, so as long as less than a third of the weight misbehaves, two
//! quorum certificates for one round share an honest signer. An honest
//! validator votes at most once per round — `handle_proposal` only votes for
//! rounds strictly above `last_voted_round` and raises it when it does — so
//! both certificates carry that signer's one vote and certify the same block
//! digest: no two conflicting blocks can be certified in a round.

use vstd::prelude::*;
use vstd::arithmetic::div_mod::lemma_fundamental_div_mod;
use vstd::arithmetic::div_mod::lemma_mod_bound;
use crate::aggregator::{lemma_pairs_stake_as_set, lemma_set_stake_le_total};
use crate::committee::{
    Authority, PublicKey, committee_wf, quorum, set_stake, total_stake,
};
use crate::messages::{QC, pair_authors, pairs_stake, valid_qc};

verus! {

/// A selection never outweighs one containing it.
pub proof fn lemma_set_stake_mono(c: Seq<Authority>, a: Set<PublicKey>, b: Set<PublicKey>)
    requires
        a.subset_of(b),
    ensures
        set_stake(c, a) <= set_stake(c, b),
    decreases c.len(),
{
    if c.len() > 0 {
        lemma_set_stake_mono(c.drop_first(), a, b);
    }
}

/// Weight is modular over union and intersection.
pub proof fn lemma_set_stake_union_inter(
    c: Seq<Authority>,
    a: Set<PublicKey>,
    b: Set<PublicKey>,
)
    ensures
        set_stake(c, a) + set_stake(c, b) == set_stake(c, a.union(b)) + set_stake(
            c,
            a.intersect(b),
        ),
    decreases c.len(),
{
    if c.len() > 0 {
        lemma_set_stake_union_inter(c.drop_first(), a, b);
    }
}

/// Two quorums overlap in more than a third of the total weight.
pub proof fn lemma_quorum_intersection(c: Seq<Authority>, a: Set<PublicKey>, b: Set<PublicKey>)
    requires
        set_stake(c, a) >= quorum(c),
        set_stake(c, b) >= quorum(c),
    ensures
        3 * set_stake(c, a.intersect(b)) > total_stake(c),
{
    let t = total_stake(c);
    lemma_set_stake_union_inter(c, a, b);
    lemma_set_stake_le_total(c, a.union(b));
    lemma_fundamental_div_mod(2 * t, 3);
    lemma_mod_bound(2 * t, 3);
    assert(3 * ((2 * t) / 3) >= 2 * t - 2);
    assert(set_stake(c, a.intersect(b)) >= 2 * quorum(c) - t);
}

/// Each member's weight lands on exactly one side of a selection.
pub proof fn lemma_set_stake_complement(c: Seq<Authority>, sel: Set<PublicKey>)
    ensures
        set_stake(c, sel) + set_stake(c, sel.complement()) == total_stake(c),
    decreases c.len(),
{
    if c.len() > 0 {
        lemma_set_stake_complement(c.drop_first(), sel);
    }
}

/// While the misbehaving weight stays under a third of the total, the
/// remaining members alone carry quorum weight: enough honest signatures
/// always exist for a certificate to form.
pub proof fn lemma_honest_quorum(c: Seq<Authority>, byz: Set<PublicKey>)
    requires
        3 * set_stake(c, byz) < total_stake(c),
    ensures
        set_stake(c, byz.complement()) >= quorum(c),
{
    let t = total_stake(c);
    lemma_set_stake_complement(c, byz);
    lemma_fundamental_div_mod(2 * t, 3);
    lemma_mod_bound(2 * t, 3);
}

/// Two valid quorum certificates for the same round certify the same block
/// digest, provided the misbehaving weight stays under a third of the total
/// and no signer outside the misbehaving set signed for two different
/// digests in that round (which an honest validator never does: it votes at
/// most once per round).
pub proof fn lemma_qc_agreement(c: Seq<Authority>, qc1: QC, qc2: QC, byz: Set<PublicKey>)
    requires
        committee_wf(c),
        valid_qc(c, qc1),
        valid_qc(c, qc2),
        qc1.round == qc2.round,
        3 * set_stake(c, byz) < total_stake(c),
        forall|n: PublicKey|
            pair_authors(qc1.votes@).contains(n) && pair_authors(qc2.votes@).contains(n)
                && !byz.contains(n) ==> qc1.hash == qc2.hash,
    ensures
        qc1.hash == qc2.hash,
{
    let a = pair_authors(qc1.votes@);
    let b = pair_authors(qc2.votes@);
    lemma_pairs_stake_as_set(c, qc1.votes@);
    lemma_pairs_stake_as_set(c, qc2.votes@);
    lemma_quorum_intersection(c, a, b);
    let inter = a.intersect(b);
    if inter.subset_of(byz) {
        lemma_set_stake_mono(c, inter, byz);
        assert(false);
    }
    let n = choose|n: PublicKey| inter.contains(n) && !byz.contains(n);
    assert(a.contains(n) && b.contains(n) && !byz.contains(n));
}

} // verus!
