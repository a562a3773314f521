//! Four validators exchanging the protocol's own messages: proposals are
//! voted on, the next leader aggregates the votes into a QC, proposes on
//! top of it, and every honest participant commits the same block.

use hotstuff_mux::committee::{Authority, Committee};
use hotstuff_mux::consensus::Consensus;
use hotstuff_mux::machine::Action;
use hotstuff_mux::messages::{Block, ConsensusMessage, QC, Vote, GENESIS_DIGEST};

fn committee4() -> Committee {
    Committee::new(vec![
        Authority { name: 10, stake: 1 },
        Authority { name: 11, stake: 1 },
        Authority { name: 12, stake: 1 },
        Authority { name: 13, stake: 1 },
    ])
}

fn broadcast(nodes: &mut Vec<Consensus>, msg: &ConsensusMessage) -> Vec<Action> {
    let mut all = Vec::new();
    for node in nodes.iter_mut() {
        let name = node.core.name;
        all.append(&mut node.handle_message(msg, name));
    }
    all
}

#[test]
fn a_silent_leader_costs_one_round_not_progress() {
    let mut nodes: Vec<Consensus> = vec![
        Consensus::new(10, committee4()),
        Consensus::new(11, committee4()),
        Consensus::new(12, committee4()),
        Consensus::new(13, committee4()),
    ];
    // The round-1 leader never proposes; every timer expires.
    let mut timeouts = Vec::new();
    for node in nodes.iter_mut() {
        let name = node.core.name;
        for a in node.core.local_timeout(name) {
            if let Action::BroadcastTimeout(t) = a {
                timeouts.push(t);
            }
        }
    }
    assert_eq!(timeouts.len(), 4);
    // Every validator collects the timeouts; a quorum forms a TC and the
    // round advances without a commit.
    for t in &timeouts {
        broadcast(&mut nodes, &ConsensusMessage::Timeout(t.clone()));
    }
    for node in &nodes {
        assert_eq!(node.core.round, 2);
        assert_eq!(node.core.last_committed_round, 0);
    }
}

#[test]
fn all_honest_validators_commit_the_same_block() {
    let mut nodes: Vec<Consensus> = vec![
        Consensus::new(10, committee4()),
        Consensus::new(11, committee4()),
        Consensus::new(12, committee4()),
        Consensus::new(13, committee4()),
    ];

    // The leader of round 1 proposes on the genesis certificate.
    let b1 = Block {
        qc: QC { hash: GENESIS_DIGEST, round: 0, votes: Vec::new() },
        author: 11,
        round: 1,
        payload: vec![501],
        signature: 11,
        digest: 1001,
    };
    let acts = broadcast(&mut nodes, &ConsensusMessage::Propose(b1));
    // Every validator votes for it, addressing the leader of round 2.
    let votes: Vec<Vote> = acts
        .iter()
        .filter_map(|a| match a {
            Action::SendVote(v, to) => {
                assert_eq!(*to, 12);
                Some(*v)
            },
            _ => None,
        })
        .collect();
    assert_eq!(votes.len(), 4);

    // The round-2 leader aggregates the votes; the quorum's third vote
    // forms the QC and tells it to propose.
    let mut proposal_qc: Option<QC> = None;
    for v in &votes {
        for a in nodes[2].handle_message(&ConsensusMessage::Vote(*v), 12) {
            if let Action::TriggerProposal(round, qc) = a {
                assert_eq!(round, 2);
                proposal_qc = Some(qc);
            }
        }
    }
    let qc = proposal_qc.expect("a quorum of votes must trigger the next proposal");
    assert_eq!(qc.hash, 1001);
    assert_eq!(qc.round, 1);

    // The leader proposes on the QC; everyone commits the parent.
    let b2 = Block { qc, author: 12, round: 2, payload: vec![502], signature: 12, digest: 1002 };
    let acts2 = broadcast(&mut nodes, &ConsensusMessage::Propose(b2));
    let commits: Vec<u64> = acts2
        .iter()
        .filter_map(|a| match a {
            Action::Commit(b) => Some(b.digest),
            _ => None,
        })
        .collect();
    // One commit per validator, and all of the identical block.
    assert_eq!(commits, vec![1001, 1001, 1001, 1001]);
    for node in &nodes {
        assert_eq!(node.core.last_committed_round, 1);
        assert_eq!(node.core.round, 2);
    }
}
