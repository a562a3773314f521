use hotstuff_mux::committee::{Authority, Committee};
use hotstuff_mux::consensus::Consensus;
use hotstuff_mux::helper::Helper;
use hotstuff_mux::machine::Action;
use hotstuff_mux::mempool::MempoolDriver;
use hotstuff_mux::messages::{Block, ConsensusMessage, QC, GENESIS_DIGEST};

fn committee4() -> Committee {
    Committee::new(vec![
        Authority { name: 10, stake: 1 },
        Authority { name: 11, stake: 1 },
        Authority { name: 12, stake: 1 },
        Authority { name: 13, stake: 1 },
    ])
}

fn block1() -> Block {
    Block {
        qc: QC { hash: GENESIS_DIGEST, round: 0, votes: Vec::new() },
        author: 11,
        round: 1,
        payload: vec![501],
        signature: 0,
        digest: 1001,
    }
}

fn block2() -> Block {
    Block {
        qc: QC { hash: 1001, round: 1, votes: vec![(10, 0), (11, 0), (12, 0)] },
        author: 12,
        round: 2,
        payload: vec![502],
        signature: 0,
        digest: 1002,
    }
}

#[test]
fn missing_parent_is_buffered_and_requested_once() {
    let mut node = Consensus::new(10, committee4());
    // block2 arrives before block1: its parent is unknown.
    let acts = node.handle_message(&ConsensusMessage::Propose(block2()), 0);
    assert_eq!(acts.len(), 1);
    match &acts[0] {
        Action::SyncRequest(d, origin) => {
            assert_eq!(*d, 1001);
            assert_eq!(*origin, 12);
        },
        _ => panic!("expected a sync request"),
    }
    assert_eq!(node.synchronizer.pending.len(), 1);
    // The same orphan again: still buffered once, no second request.
    let again = node.handle_message(&ConsensusMessage::Propose(block2()), 0);
    assert_eq!(again.len(), 0);
    assert_eq!(node.synchronizer.pending.len(), 1);
    assert_eq!(node.synchronizer.outstanding.len(), 1);
}

#[test]
fn buffered_block_is_reprocessed_exactly_once_when_parent_arrives() {
    let mut node = Consensus::new(10, committee4());
    assert_eq!(node.handle_message(&ConsensusMessage::Propose(block2()), 0).len(), 1);
    // The parent arrives (as the helper of a peer would deliver it).
    let acts = node.handle_message(&ConsensusMessage::Propose(block1()), 0);
    // Voting on block1, then the released block2: commit of block1, vote.
    assert_eq!(node.synchronizer.pending.len(), 0);
    assert_eq!(node.core.last_committed_round, 1);
    assert_eq!(node.core.last_voted_round, 2);
    let commits: Vec<u64> = acts
        .iter()
        .filter_map(|a| match a {
            Action::Commit(b) => Some(b.digest),
            _ => None,
        })
        .collect();
    assert_eq!(commits, vec![1001]);
    let votes: Vec<u64> = acts
        .iter()
        .filter_map(|a| match a {
            Action::SendVote(v, _) => Some(v.hash),
            _ => None,
        })
        .collect();
    assert_eq!(votes, vec![1001, 1002]);
    // Replaying the parent releases nothing further.
    let replay = node.handle_message(&ConsensusMessage::Propose(block1()), 0);
    assert_eq!(replay.len(), 0);
    assert_eq!(node.core.last_voted_round, 2);
    assert_eq!(node.core.last_committed_round, 1);
}

#[test]
fn helper_serves_only_stored_blocks() {
    let node = Consensus::new(10, committee4());
    // The genesis block is stored from the start.
    let (b, origin) = Helper::serve(&node.core.storage, GENESIS_DIGEST, 13)
        .expect("genesis must be served");
    assert_eq!(b.digest, GENESIS_DIGEST);
    assert_eq!(origin, 13);
    // An unknown digest is silently dropped.
    assert!(Helper::serve(&node.core.storage, 9999, 13).is_none());
}

#[test]
fn sync_requests_do_not_touch_the_core(){
    let mut node = Consensus::new(10, committee4());
    let acts = node.handle_message(&ConsensusMessage::SyncRequest(1001, 13), 0);
    assert_eq!(acts.len(), 0);
    assert_eq!(node.core.round, 1);
}

#[test]
fn mempool_removal_is_idempotent() {
    let mut pool = MempoolDriver::new();
    pool.add_digest(501);
    pool.add_digest(502);
    pool.add_digest(503);
    pool.remove_committed(&vec![501, 503]);
    assert_eq!(pool.queue, vec![502]);
    // Removing the same payload again is a no-op.
    pool.remove_committed(&vec![501, 503]);
    assert_eq!(pool.queue, vec![502]);
    assert_eq!(pool.get_payload(), Some(502));
    assert_eq!(pool.get_payload(), None);
}
