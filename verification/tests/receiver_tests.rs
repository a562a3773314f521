use hotstuff_mux::codec::{encode_envelope, encode_msg, PROTOCOL_VERSION};
use hotstuff_mux::consensus::{ConsensusReceiverHandler, Dest};
use hotstuff_mux::messages::{Block, ConsensusMessage, QC, TC, Timeout, Vote};
use hotstuff_mux::receiver::{Connection, HandlerTable, Reply};

fn frame_for(version: u64, id: u64) -> Vec<u8> {
    let payload = encode_msg(&ConsensusMessage::SyncRequest(1, 2));
    encode_envelope(version, id, &payload)
}

#[test]
fn version_gate_rejects_and_keeps_connection() {
    let mut table = HandlerTable::new();
    table.register(7);
    let mut conn = Connection::new();
    let bad = frame_for(PROTOCOL_VERSION + 1, 7);
    let out = conn.on_frame(&table, &bad);
    assert_eq!(out.reply, Some(Reply::VersionMismatch));
    assert!(out.deliver.is_none());
    assert!(conn.open);
    // The same connection still serves a correctly-versioned frame.
    let good = frame_for(PROTOCOL_VERSION, 7);
    let out2 = conn.on_frame(&table, &good);
    assert!(out2.reply.is_none());
    let (id, _payload) = out2.deliver.expect("well-versed frame must dispatch");
    assert_eq!(id, 7);
}

#[test]
fn routing_miss_then_recovery_after_registration() {
    let mut table = HandlerTable::new();
    let mut conn = Connection::new();
    // A frame for validator 7 before its handler registered.
    let out = conn.on_frame(&table, &frame_for(PROTOCOL_VERSION, 7));
    assert_eq!(out.reply, Some(Reply::NoHandler));
    assert!(out.deliver.is_none());
    assert!(conn.open);
    // Registration completes; the same connection's next frame dispatches.
    table.register(7);
    let out2 = conn.on_frame(&table, &frame_for(PROTOCOL_VERSION, 7));
    assert!(out2.reply.is_none());
    let (id, _payload) = out2.deliver.expect("frame after registration must dispatch");
    assert_eq!(id, 7);
}

#[test]
fn malformed_frame_closes_connection() {
    let table = HandlerTable::new();
    let mut conn = Connection::new();
    let out = conn.on_frame(&table, &vec![1, 2, 3]);
    assert_eq!(out.reply, Some(Reply::InvalidMessage));
    assert!(out.deliver.is_none());
    assert!(!conn.open);
}

#[test]
fn handler_is_cached_after_first_resolution() {
    let mut table = HandlerTable::new();
    table.register(7);
    let mut conn = Connection::new();
    conn.on_frame(&table, &frame_for(PROTOCOL_VERSION, 7));
    assert_eq!(conn.cached, Some(7));
    // Later frames go to the cached handler even with another identifier.
    let out = conn.on_frame(&table, &frame_for(PROTOCOL_VERSION, 8));
    let (id, _payload) = out.deliver.expect("cached handler must serve");
    assert_eq!(id, 7);
}

#[test]
fn registration_is_idempotent() {
    let mut table = HandlerTable::new();
    table.register(7);
    table.register(7);
    assert_eq!(table.ids.len(), 1);
    assert!(table.contains(7));
    assert!(!table.contains(8));
}

#[test]
fn reply_markers_are_the_wire_strings() {
    assert_eq!(Reply::Ack.marker(), b"Ack".to_vec());
    assert_eq!(Reply::VersionMismatch.marker(), b"Version mismatch".to_vec());
    assert_eq!(Reply::NoHandler.marker(), b"No handler found".to_vec());
    assert_eq!(Reply::InvalidMessage.marker(), b"Invalid message".to_vec());
}

#[test]
fn propose_is_acknowledged_exactly_once() {
    let block = Block {
        qc: QC { hash: 0, round: 0, votes: Vec::new() },
        author: 11,
        round: 1,
        payload: vec![5],
        signature: 0,
        digest: 1001,
    };
    let payload = encode_msg(&ConsensusMessage::Propose(block));
    let (ack, dest) = ConsensusReceiverHandler::dispatch(&payload).expect("must classify");
    assert!(ack);
    match dest {
        Dest::ToCore(ConsensusMessage::Propose(b)) => assert_eq!(b.digest, 1001),
        _ => panic!("a proposal goes to the core"),
    }
}

#[test]
fn other_variants_are_never_acknowledged() {
    let vote = ConsensusMessage::Vote(Vote { hash: 1, round: 1, author: 10, signature: 0 });
    let (ack, dest) = ConsensusReceiverHandler::dispatch(&encode_msg(&vote)).unwrap();
    assert!(!ack);
    assert!(matches!(dest, Dest::ToCore(ConsensusMessage::Vote(_))));

    let timeout = ConsensusMessage::Timeout(Timeout {
        high_qc: QC { hash: 0, round: 0, votes: Vec::new() },
        round: 3,
        author: 12,
        signature: 0,
    });
    let (ack_t, dest_t) = ConsensusReceiverHandler::dispatch(&encode_msg(&timeout)).unwrap();
    assert!(!ack_t);
    assert!(matches!(dest_t, Dest::ToCore(ConsensusMessage::Timeout(_))));

    let tc = ConsensusMessage::TC(TC { round: 3, votes: vec![(10, 0), (11, 0), (12, 0)] });
    let (ack_tc, dest_tc) = ConsensusReceiverHandler::dispatch(&encode_msg(&tc)).unwrap();
    assert!(!ack_tc);
    assert!(matches!(dest_tc, Dest::ToCore(ConsensusMessage::TC(_))));

    let sync = ConsensusMessage::SyncRequest(4040, 11);
    let (ack2, dest2) = ConsensusReceiverHandler::dispatch(&encode_msg(&sync)).unwrap();
    assert!(!ack2);
    match dest2 {
        Dest::ToHelper(d, origin) => {
            assert_eq!(d, 4040);
            assert_eq!(origin, 11);
        },
        _ => panic!("a sync request goes to the helper"),
    }
}

#[test]
fn undecodable_payload_is_fatal_for_dispatch() {
    assert!(ConsensusReceiverHandler::dispatch(&vec![200, 1, 2]).is_none());
}
