use hotstuff_mux::committee::{Authority, Committee};
use hotstuff_mux::machine::{Action, Core};
use hotstuff_mux::messages::{Block, QC, TC, Timeout, Vote, GENESIS_DIGEST};

fn committee4() -> Committee {
    Committee::new(vec![
        Authority { name: 10, stake: 1 },
        Authority { name: 11, stake: 1 },
        Authority { name: 12, stake: 1 },
        Authority { name: 13, stake: 1 },
    ])
}

fn genesis_qc() -> QC {
    QC { hash: GENESIS_DIGEST, round: 0, votes: Vec::new() }
}

/// A block for round 1 by its leader (identity 11), chained on genesis.
fn block1() -> Block {
    Block {
        qc: genesis_qc(),
        author: 11,
        round: 1,
        payload: vec![501],
        signature: 0,
        digest: 1001,
    }
}

/// A block for round 2 by its leader (identity 12), chained on `block1`.
fn block2() -> Block {
    Block {
        qc: QC { hash: 1001, round: 1, votes: vec![(10, 0), (11, 0), (12, 0)] },
        author: 12,
        round: 2,
        payload: vec![502],
        signature: 0,
        digest: 1002,
    }
}

#[test]
fn new_core_starts_at_round_one() {
    let core = Core::new(10, committee4());
    assert_eq!(core.round, 1);
    assert_eq!(core.last_voted_round, 0);
    assert_eq!(core.last_committed_round, 0);
}

#[test]
fn votes_form_qc_and_advance_round() {
    // Identity 12 leads round 2, so it aggregates round-1 votes and must
    // be told to propose once the QC forms.
    let mut core = Core::new(12, committee4());
    let v = |author: u64| Vote { hash: 1001, round: 1, author, signature: 0 };
    assert_eq!(core.handle_vote(&v(10)).len(), 0);
    assert_eq!(core.handle_vote(&v(11)).len(), 0);
    assert_eq!(core.round, 1);
    let acts = core.handle_vote(&v(13));
    assert_eq!(core.round, 2);
    assert_eq!(core.high_qc.hash, 1001);
    assert_eq!(core.high_qc.round, 1);
    assert_eq!(acts.len(), 1);
    match &acts[0] {
        Action::TriggerProposal(round, qc) => {
            assert_eq!(*round, 2);
            assert_eq!(qc.hash, 1001);
        },
        _ => panic!("expected a proposal trigger"),
    }
}

#[test]
fn replayed_vote_is_idempotent() {
    let mut core = Core::new(10, committee4());
    let v = Vote { hash: 1001, round: 1, author: 11, signature: 0 };
    assert_eq!(core.handle_vote(&v).len(), 0);
    let before = core.vote_aggs.len();
    assert_eq!(core.handle_vote(&v).len(), 0);
    assert_eq!(core.vote_aggs.len(), before);
    assert_eq!(core.round, 1);
}

#[test]
fn stale_and_foreign_votes_are_dropped() {
    let mut core = Core::new(10, committee4());
    let stale = Vote { hash: 1001, round: 9, author: 11, signature: 0 };
    assert_eq!(core.handle_vote(&stale).len(), 0);
    let stranger = Vote { hash: 1001, round: 1, author: 99, signature: 0 };
    assert_eq!(core.handle_vote(&stranger).len(), 0);
    assert_eq!(core.vote_aggs.len(), 0);
}

#[test]
fn proposal_is_voted_and_sent_to_next_leader() {
    let mut core = Core::new(10, committee4());
    let acts = core.handle_proposal(&block1(), 0);
    assert_eq!(core.last_voted_round, 1);
    assert_eq!(acts.len(), 1);
    match &acts[0] {
        Action::SendVote(v, to) => {
            assert_eq!(v.hash, 1001);
            assert_eq!(v.round, 1);
            assert_eq!(v.author, 10);
            // The vote goes to the leader of round 2.
            assert_eq!(*to, 12);
        },
        _ => panic!("expected a vote"),
    }
}

#[test]
fn replayed_proposal_changes_nothing() {
    let mut core = Core::new(10, committee4());
    assert_eq!(core.handle_proposal(&block1(), 0).len(), 1);
    let round = core.round;
    let voted = core.last_voted_round;
    let stored = core.storage.blocks.len();
    let acts = core.handle_proposal(&block1(), 0);
    assert_eq!(acts.len(), 0);
    assert_eq!(core.round, round);
    assert_eq!(core.last_voted_round, voted);
    assert_eq!(core.storage.blocks.len(), stored);
}

#[test]
fn two_chain_commits_the_parent() {
    let mut core = Core::new(10, committee4());
    assert_eq!(core.handle_proposal(&block1(), 0).len(), 1);
    let acts = core.handle_proposal(&block2(), 0);
    // The QC on block1 advances the round and commits block1.
    assert_eq!(core.round, 2);
    assert_eq!(core.last_committed_round, 1);
    assert_eq!(acts.len(), 2);
    match &acts[0] {
        Action::Commit(b) => assert_eq!(b.digest, 1001),
        _ => panic!("expected a commit first"),
    }
    match &acts[1] {
        Action::SendVote(v, _to) => assert_eq!(v.hash, 1002),
        _ => panic!("expected a vote second"),
    }
    // Replaying the proposal commits nothing twice.
    let again = core.handle_proposal(&block2(), 0);
    assert_eq!(again.len(), 0);
    assert_eq!(core.last_committed_round, 1);
}

#[test]
fn proposal_from_wrong_leader_is_dropped() {
    let mut core = Core::new(10, committee4());
    let mut b = block1();
    b.author = 13;
    assert_eq!(core.handle_proposal(&b, 0).len(), 0);
    assert_eq!(core.last_voted_round, 0);
    assert_eq!(core.storage.blocks.len(), 1);
}

#[test]
fn proposal_with_invalid_qc_is_dropped() {
    let mut core = Core::new(10, committee4());
    let mut b = block2();
    // Only two voters back the parent certificate: below quorum.
    b.qc.votes = vec![(10, 0), (11, 0)];
    assert_eq!(core.handle_proposal(&b, 0).len(), 0);
}

#[test]
fn timeouts_form_tc_and_advance_round() {
    let mut core = Core::new(10, committee4());
    let t = |author: u64| Timeout { high_qc: genesis_qc(), round: 1, author, signature: 0 };
    assert_eq!(core.handle_timeout(&t(11)).len(), 0);
    assert_eq!(core.handle_timeout(&t(12)).len(), 0);
    assert_eq!(core.round, 1);
    let acts = core.handle_timeout(&t(13));
    assert_eq!(core.round, 2);
    assert_eq!(acts.len(), 1);
    match &acts[0] {
        Action::BroadcastTC(tc) => {
            assert_eq!(tc.round, 1);
            assert_eq!(tc.votes.len(), 3);
        },
        _ => panic!("expected a TC broadcast"),
    }
}

#[test]
fn replayed_timeout_is_idempotent() {
    let mut core = Core::new(10, committee4());
    let t = Timeout { high_qc: genesis_qc(), round: 1, author: 11, signature: 0 };
    assert_eq!(core.handle_timeout(&t).len(), 0);
    assert_eq!(core.timeout_agg.weight, 1);
    assert_eq!(core.handle_timeout(&t).len(), 0);
    assert_eq!(core.timeout_agg.weight, 1);
}

#[test]
fn tc_adoption_advances_past_its_round() {
    let mut core = Core::new(10, committee4());
    let tc = TC { round: 5, votes: vec![(10, 0), (11, 0), (12, 0)] };
    core.handle_tc(&tc);
    assert_eq!(core.round, 6);
    // A stale TC is ignored.
    let old = TC { round: 2, votes: vec![(10, 0), (11, 0), (12, 0)] };
    core.handle_tc(&old);
    assert_eq!(core.round, 6);
    // An under-weighted TC is ignored.
    let weak = TC { round: 9, votes: vec![(10, 0), (11, 0)] };
    core.handle_tc(&weak);
    assert_eq!(core.round, 6);
}

#[test]
fn local_timeout_broadcasts_current_round() {
    let core = Core::new(10, committee4());
    let acts = core.local_timeout(42);
    assert_eq!(acts.len(), 1);
    match &acts[0] {
        Action::BroadcastTimeout(t) => {
            assert_eq!(t.round, 1);
            assert_eq!(t.author, 10);
            assert_eq!(t.signature, 42);
            assert_eq!(t.high_qc.hash, GENESIS_DIGEST);
        },
        _ => panic!("expected a timeout broadcast"),
    }
}
