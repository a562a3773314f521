use hotstuff_mux::codec::{
    decode_envelope, decode_msg, encode_envelope, encode_msg, PROTOCOL_VERSION,
};
use hotstuff_mux::messages::{Block, ConsensusMessage, QC, TC, Timeout, Vote};

fn sample_block() -> Block {
    Block {
        qc: QC { hash: 7, round: 3, votes: vec![(10, 100), (11, 101), (12, 102)] },
        author: 12,
        round: 4,
        payload: vec![900, 901],
        signature: 55,
        digest: 4040,
    }
}

#[test]
fn vote_encoding_is_little_endian_and_tagged() {
    let m = ConsensusMessage::Vote(Vote { hash: 1, round: 2, author: 3, signature: 0x0102 });
    let bytes = encode_msg(&m);
    let mut expected = vec![1u8];
    expected.extend_from_slice(&[1, 0, 0, 0, 0, 0, 0, 0]);
    expected.extend_from_slice(&[2, 0, 0, 0, 0, 0, 0, 0]);
    expected.extend_from_slice(&[3, 0, 0, 0, 0, 0, 0, 0]);
    expected.extend_from_slice(&[2, 1, 0, 0, 0, 0, 0, 0]);
    assert_eq!(bytes, expected);
}

#[test]
fn every_variant_round_trips() {
    let msgs = vec![
        ConsensusMessage::Propose(sample_block()),
        ConsensusMessage::Vote(Vote { hash: 9, round: 1, author: 10, signature: 5 }),
        ConsensusMessage::Timeout(Timeout {
            high_qc: QC { hash: 0, round: 0, votes: Vec::new() },
            round: 6,
            author: 13,
            signature: 8,
        }),
        ConsensusMessage::TC(TC { round: 6, votes: vec![(10, 1), (11, 2), (13, 3)] }),
        ConsensusMessage::SyncRequest(4040, 11),
    ];
    for m in msgs {
        let bytes = encode_msg(&m);
        let back = decode_msg(&bytes).expect("an encoded message must decode");
        assert_eq!(back, m);
    }
}

#[test]
fn corrupted_bytes_decode_to_nothing() {
    let m = ConsensusMessage::SyncRequest(4040, 11);
    let mut bytes = encode_msg(&m);
    // Truncated.
    let short = bytes[..bytes.len() - 1].to_vec();
    assert!(decode_msg(&short).is_none());
    // Trailing garbage.
    bytes.push(0);
    assert!(decode_msg(&bytes).is_none());
    // Unknown tag.
    assert!(decode_msg(&vec![9u8, 0, 0]).is_none());
    // Empty.
    assert!(decode_msg(&Vec::new()).is_none());
}

#[test]
fn envelope_round_trips() {
    let payload = encode_msg(&ConsensusMessage::SyncRequest(1, 2));
    let frame = encode_envelope(PROTOCOL_VERSION, 7, &payload);
    let (version, id, inner) = decode_envelope(&frame).expect("envelope must decode");
    assert_eq!(version, PROTOCOL_VERSION);
    assert_eq!(id, 7);
    assert_eq!(inner, payload);
}

#[test]
fn short_frame_is_rejected() {
    assert!(decode_envelope(&vec![1, 2, 3]).is_none());
    let empty: Vec<u8> = Vec::new();
    assert!(decode_envelope(&empty).is_none());
    // Exactly the header with an empty payload is fine.
    let frame = encode_envelope(3, 4, &Vec::new());
    assert_eq!(frame.len(), 16);
    let (v, id, p) = decode_envelope(&frame).unwrap();
    assert_eq!((v, id), (3, 4));
    assert!(p.is_empty());
}
