//! The deterministic binary encoding of consensus messages and of the outer
//! wire envelope. Integers travel little-endian; lists carry their length
//! first; a message starts with its variant tag. A decoded value is always
//! one whose encoding is exactly the bytes given: the decoder checks the
//! bytes against the re-encoded value before accepting them.

use vstd::prelude::*;
use crate::committee::PublicKey;
use crate::messages::{Block, ConsensusMessage, Digest, QC, Signature, TC, Timeout, Vote};

verus! {

/// The protocol version every envelope must carry.
pub const PROTOCOL_VERSION: u64 = 1;

/// The little-endian bytes of one 64-bit integer.
pub open spec fn u64_le(v: u64) -> Seq<u8> {
    seq![
        (v & 0xff) as u8,
        ((v >> 8) & 0xff) as u8,
        ((v >> 16) & 0xff) as u8,
        ((v >> 24) & 0xff) as u8,
        ((v >> 32) & 0xff) as u8,
        ((v >> 40) & 0xff) as u8,
        ((v >> 48) & 0xff) as u8,
        ((v >> 56) & 0xff) as u8,
    ]
}

/// The integer read little-endian from 8 bytes of `s` starting at `pos`.
pub open spec fn u64_of(s: Seq<u8>, pos: int) -> u64 {
    (s[pos] as u64) | ((s[pos + 1] as u64) << 8) | ((s[pos + 2] as u64) << 16) | ((s[pos + 3]
        as u64) << 24) | ((s[pos + 4] as u64) << 32) | ((s[pos + 5] as u64) << 40) | ((s[pos + 6]
        as u64) << 48) | ((s[pos + 7] as u64) << 56)
}

/// Body of a signer list: each pair as two integers.
pub open spec fn enc_pairs_body(votes: Seq<(PublicKey, Signature)>) -> Seq<u8>
    decreases votes.len(),
{
    if votes.len() == 0 {
        Seq::empty()
    } else {
        u64_le(votes[0].0) + u64_le(votes[0].1) + enc_pairs_body(votes.drop_first())
    }
}

/// A signer list: its length, then its pairs.
pub open spec fn enc_pairs(votes: Seq<(PublicKey, Signature)>) -> Seq<u8> {
    u64_le(votes.len() as u64) + enc_pairs_body(votes)
}

/// Body of a digest list.
pub open spec fn enc_digests_body(ds: Seq<Digest>) -> Seq<u8>
    decreases ds.len(),
{
    if ds.len() == 0 {
        Seq::empty()
    } else {
        u64_le(ds[0]) + enc_digests_body(ds.drop_first())
    }
}

/// A digest list: its length, then its digests.
pub open spec fn enc_digests(ds: Seq<Digest>) -> Seq<u8> {
    u64_le(ds.len() as u64) + enc_digests_body(ds)
}

pub open spec fn enc_qc(qc: QC) -> Seq<u8> {
    u64_le(qc.hash) + u64_le(qc.round) + enc_pairs(qc.votes@)
}

pub open spec fn enc_vote(v: Vote) -> Seq<u8> {
    u64_le(v.hash) + u64_le(v.round) + u64_le(v.author) + u64_le(v.signature)
}

pub open spec fn enc_timeout(t: Timeout) -> Seq<u8> {
    enc_qc(t.high_qc) + u64_le(t.round) + u64_le(t.author) + u64_le(t.signature)
}

pub open spec fn enc_tc(tc: TC) -> Seq<u8> {
    u64_le(tc.round) + enc_pairs(tc.votes@)
}

pub open spec fn enc_block(b: Block) -> Seq<u8> {
    enc_qc(b.qc) + u64_le(b.author) + u64_le(b.round) + enc_digests(b.payload@) + u64_le(
        b.signature,
    ) + u64_le(b.digest)
}

/// A whole message: its variant tag, then its body.
pub open spec fn enc_msg(m: ConsensusMessage) -> Seq<u8> {
    match m {
        ConsensusMessage::Propose(b) => seq![0u8] + enc_block(b),
        ConsensusMessage::Vote(v) => seq![1u8] + enc_vote(v),
        ConsensusMessage::Timeout(t) => seq![2u8] + enc_timeout(t),
        ConsensusMessage::TC(tc) => seq![3u8] + enc_tc(tc),
        ConsensusMessage::SyncRequest(d, pk) => seq![4u8] + u64_le(d) + u64_le(pk),
    }
}

/// The outer envelope: protocol version, target validator, opaque payload.
pub open spec fn enc_envelope(version: u64, validator_id: u64, payload: Seq<u8>) -> Seq<u8> {
    u64_le(version) + u64_le(validator_id) + payload
}

/// Appends the little-endian bytes of `v`.
pub fn push_u64(out: &mut Vec<u8>, v: u64)
    ensures
        final(out)@ == old(out)@ + u64_le(v),
{
    out.push((v & 0xff) as u8);
    out.push(((v >> 8) & 0xff) as u8);
    out.push(((v >> 16) & 0xff) as u8);
    out.push(((v >> 24) & 0xff) as u8);
    out.push(((v >> 32) & 0xff) as u8);
    out.push(((v >> 40) & 0xff) as u8);
    out.push(((v >> 48) & 0xff) as u8);
    out.push(((v >> 56) & 0xff) as u8);
    proof {
        assert(out@ =~= old(out)@ + u64_le(v));
    }
}

/// Appends a signer list.
fn push_pairs(out: &mut Vec<u8>, votes: &Vec<(PublicKey, Signature)>)
    ensures
        final(out)@ == old(out)@ + enc_pairs(votes@),
{
    let n = votes.len();
    push_u64(out, n as u64);
    let mut i: usize = 0;
    proof {
        assert(out@ =~= old(out)@ + u64_le(votes@.len() as u64) + enc_pairs_body(
            votes@.take(0),
        ));
    }
    while i < n
        invariant
            n == votes@.len(),
            0 <= i <= n,
            out@ == old(out)@ + u64_le(votes@.len() as u64) + enc_pairs_body(
                votes@.take(i as int),
            ),
        decreases n - i,
    {
        push_u64(out, votes[i].0);
        push_u64(out, votes[i].1);
        proof {
            lemma_enc_pairs_body_snoc(votes@, i as int);
            assert(out@ =~= old(out)@ + u64_le(votes@.len() as u64) + enc_pairs_body(
                votes@.take(i + 1),
            ));
        }
        i += 1;
    }
    proof {
        assert(votes@.take(n as int) =~= votes@);
    }
}

/// Appends a digest list.
fn push_digests(out: &mut Vec<u8>, ds: &Vec<Digest>)
    ensures
        final(out)@ == old(out)@ + enc_digests(ds@),
{
    let n = ds.len();
    push_u64(out, n as u64);
    let mut i: usize = 0;
    proof {
        assert(out@ =~= old(out)@ + u64_le(ds@.len() as u64) + enc_digests_body(ds@.take(0)));
    }
    while i < n
        invariant
            n == ds@.len(),
            0 <= i <= n,
            out@ == old(out)@ + u64_le(ds@.len() as u64) + enc_digests_body(ds@.take(i as int)),
        decreases n - i,
    {
        push_u64(out, ds[i]);
        proof {
            lemma_enc_digests_body_snoc(ds@, i as int);
            assert(out@ =~= old(out)@ + u64_le(ds@.len() as u64) + enc_digests_body(
                ds@.take(i + 1),
            ));
        }
        i += 1;
    }
    proof {
        assert(ds@.take(n as int) =~= ds@);
    }
}

fn push_qc(out: &mut Vec<u8>, qc: &QC)
    ensures
        final(out)@ == old(out)@ + enc_qc(*qc),
{
    push_u64(out, qc.hash);
    push_u64(out, qc.round);
    push_pairs(out, &qc.votes);
    proof {
        assert(out@ =~= old(out)@ + enc_qc(*qc));
    }
}

/// Encodes one message as its exact wire bytes.
#[verifier::rlimit(60)]
pub fn encode_msg(m: &ConsensusMessage) -> (r: Vec<u8>)
    ensures
        r@ == enc_msg(*m),
{
    let mut out: Vec<u8> = Vec::new();
    match m {
        ConsensusMessage::Propose(b) => {
            out.push(0u8);
            push_qc(&mut out, &b.qc);
            push_u64(&mut out, b.author);
            push_u64(&mut out, b.round);
            push_digests(&mut out, &b.payload);
            push_u64(&mut out, b.signature);
            push_u64(&mut out, b.digest);
            proof {
                assert(out@ =~= enc_msg(*m));
            }
        },
        ConsensusMessage::Vote(v) => {
            out.push(1u8);
            push_u64(&mut out, v.hash);
            push_u64(&mut out, v.round);
            push_u64(&mut out, v.author);
            push_u64(&mut out, v.signature);
            proof {
                assert(out@ =~= enc_msg(*m));
            }
        },
        ConsensusMessage::Timeout(t) => {
            out.push(2u8);
            push_qc(&mut out, &t.high_qc);
            push_u64(&mut out, t.round);
            push_u64(&mut out, t.author);
            push_u64(&mut out, t.signature);
            proof {
                assert(out@ =~= enc_msg(*m));
            }
        },
        ConsensusMessage::TC(tc) => {
            out.push(3u8);
            push_u64(&mut out, tc.round);
            push_pairs(&mut out, &tc.votes);
            proof {
                assert(out@ =~= enc_msg(*m));
            }
        },
        ConsensusMessage::SyncRequest(d, pk) => {
            out.push(4u8);
            push_u64(&mut out, *d);
            push_u64(&mut out, *pk);
            proof {
                assert(out@ =~= enc_msg(*m));
            }
        },
    }
    out
}

/// Encodes the outer envelope around an already-encoded payload.
pub fn encode_envelope(version: u64, validator_id: u64, payload: &Vec<u8>) -> (r: Vec<u8>)
    ensures
        r@ == enc_envelope(version, validator_id, payload@),
{
    let mut out: Vec<u8> = Vec::new();
    push_u64(&mut out, version);
    push_u64(&mut out, validator_id);
    let n = payload.len();
    let mut i: usize = 0;
    while i < n
        invariant
            n == payload@.len(),
            0 <= i <= n,
            out@ == u64_le(version) + u64_le(validator_id) + payload@.take(i as int),
        decreases n - i,
    {
        out.push(payload[i]);
        proof {
            assert(out@ =~= u64_le(version) + u64_le(validator_id) + payload@.take(i + 1));
        }
        i += 1;
    }
    proof {
        assert(payload@.take(n as int) =~= payload@);
    }
    out
}

/// Whether two byte strings are equal.
pub fn bytes_eq(a: &Vec<u8>, b: &Vec<u8>) -> (r: bool)
    ensures
        r <==> a@ == b@,
{
    if a.len() != b.len() {
        proof {
            assert(a@.len() != b@.len());
        }
        return false;
    }
    let n = a.len();
    let mut i: usize = 0;
    while i < n
        invariant
            n == a@.len() == b@.len(),
            0 <= i <= n,
            forall|j: int| 0 <= j < i ==> a@[j] == b@[j],
        decreases n - i,
    {
        if a[i] != b[i] {
            return false;
        }
        i += 1;
    }
    proof {
        assert(a@ =~= b@);
    }
    true
}

/// Reads the integer at `pos` little-endian.
pub fn read_u64(bytes: &Vec<u8>, pos: usize) -> (r: u64)
    requires
        pos + 8 <= bytes@.len(),
    ensures
        r == u64_of(bytes@, pos as int),
{
    let n = bytes.len();
    proof {
        assert(pos + 8 <= n);
    }
    (bytes[pos] as u64) | ((bytes[pos + 1] as u64) << 8) | ((bytes[pos + 2] as u64) << 16) | ((
    bytes[pos + 3] as u64) << 24) | ((bytes[pos + 4] as u64) << 32) | ((bytes[pos + 5] as u64)
        << 40) | ((bytes[pos + 6] as u64) << 48) | ((bytes[pos + 7] as u64) << 56)
}

/// Reading eight little-endian bytes and writing them back is the identity.
pub proof fn lemma_u64_le_of(s: Seq<u8>, pos: int)
    requires
        0 <= pos,
        pos + 8 <= s.len(),
    ensures
        u64_le(u64_of(s, pos)) =~= s.subrange(pos, pos + 8),
{
    let b0 = s[pos] as u64;
    let b1 = s[pos + 1] as u64;
    let b2 = s[pos + 2] as u64;
    let b3 = s[pos + 3] as u64;
    let b4 = s[pos + 4] as u64;
    let b5 = s[pos + 5] as u64;
    let b6 = s[pos + 6] as u64;
    let b7 = s[pos + 7] as u64;
    let v = b0 | (b1 << 8) | (b2 << 16) | (b3 << 24) | (b4 << 32) | (b5 << 40) | (b6 << 48) | (b7
        << 56);
    assert(b0 < 256 && b1 < 256 && b2 < 256 && b3 < 256 && b4 < 256 && b5 < 256 && b6 < 256 && b7
        < 256);
    assert((b0 < 256 && b1 < 256 && b2 < 256 && b3 < 256 && b4 < 256 && b5 < 256 && b6 < 256 && b7
        < 256) ==> ((b0 | (b1 << 8) | (b2 << 16) | (b3 << 24) | (b4 << 32) | (b5 << 40) | (b6
        << 48) | (b7 << 56)) & 0xff) == b0) by (bit_vector);
    assert((b0 < 256 && b1 < 256 && b2 < 256 && b3 < 256 && b4 < 256 && b5 < 256 && b6 < 256 && b7
        < 256) ==> (((b0 | (b1 << 8) | (b2 << 16) | (b3 << 24) | (b4 << 32) | (b5 << 40) | (b6
        << 48) | (b7 << 56)) >> 8) & 0xff) == b1) by (bit_vector);
    assert((b0 < 256 && b1 < 256 && b2 < 256 && b3 < 256 && b4 < 256 && b5 < 256 && b6 < 256 && b7
        < 256) ==> (((b0 | (b1 << 8) | (b2 << 16) | (b3 << 24) | (b4 << 32) | (b5 << 40) | (b6
        << 48) | (b7 << 56)) >> 16) & 0xff) == b2) by (bit_vector);
    assert((b0 < 256 && b1 < 256 && b2 < 256 && b3 < 256 && b4 < 256 && b5 < 256 && b6 < 256 && b7
        < 256) ==> (((b0 | (b1 << 8) | (b2 << 16) | (b3 << 24) | (b4 << 32) | (b5 << 40) | (b6
        << 48) | (b7 << 56)) >> 24) & 0xff) == b3) by (bit_vector);
    assert((b0 < 256 && b1 < 256 && b2 < 256 && b3 < 256 && b4 < 256 && b5 < 256 && b6 < 256 && b7
        < 256) ==> (((b0 | (b1 << 8) | (b2 << 16) | (b3 << 24) | (b4 << 32) | (b5 << 40) | (b6
        << 48) | (b7 << 56)) >> 32) & 0xff) == b4) by (bit_vector);
    assert((b0 < 256 && b1 < 256 && b2 < 256 && b3 < 256 && b4 < 256 && b5 < 256 && b6 < 256 && b7
        < 256) ==> (((b0 | (b1 << 8) | (b2 << 16) | (b3 << 24) | (b4 << 32) | (b5 << 40) | (b6
        << 48) | (b7 << 56)) >> 40) & 0xff) == b5) by (bit_vector);
    assert((b0 < 256 && b1 < 256 && b2 < 256 && b3 < 256 && b4 < 256 && b5 < 256 && b6 < 256 && b7
        < 256) ==> (((b0 | (b1 << 8) | (b2 << 16) | (b3 << 24) | (b4 << 32) | (b5 << 40) | (b6
        << 48) | (b7 << 56)) >> 48) & 0xff) == b6) by (bit_vector);
    assert((b0 < 256 && b1 < 256 && b2 < 256 && b3 < 256 && b4 < 256 && b5 < 256 && b6 < 256 && b7
        < 256) ==> (((b0 | (b1 << 8) | (b2 << 16) | (b3 << 24) | (b4 << 32) | (b5 << 40) | (b6
        << 48) | (b7 << 56)) >> 56) & 0xff) == b7) by (bit_vector);
    assert(u64_le(v)[0] == s[pos]);
    assert(u64_le(v)[1] == s[pos + 1]);
    assert(u64_le(v)[2] == s[pos + 2]);
    assert(u64_le(v)[3] == s[pos + 3]);
    assert(u64_le(v)[4] == s[pos + 4]);
    assert(u64_le(v)[5] == s[pos + 5]);
    assert(u64_le(v)[6] == s[pos + 6]);
    assert(u64_le(v)[7] == s[pos + 7]);
}

/// Splits an envelope into version, validator identifier and payload. The
/// result is `Some` exactly for frames long enough to hold the header, and
/// what it holds re-encodes to exactly the frame.
pub fn decode_envelope(frame: &Vec<u8>) -> (r: Option<(u64, u64, Vec<u8>)>)
    ensures
        r is Some <==> frame@.len() >= 16,
        r matches Some((v, id, p)) ==> frame@ == enc_envelope(v, id, p@) && v == u64_of(frame@, 0)
            && id == u64_of(frame@, 8) && p@ == frame@.subrange(16, frame@.len() as int),
{
    if frame.len() < 16 {
        return None;
    }
    let version = read_u64(frame, 0);
    let validator_id = read_u64(frame, 8);
    let n = frame.len();
    let mut payload: Vec<u8> = Vec::new();
    let mut i: usize = 16;
    while i < n
        invariant
            n == frame@.len(),
            16 <= i <= n,
            payload@ == frame@.subrange(16, i as int),
        decreases n - i,
    {
        payload.push(frame[i]);
        proof {
            assert(frame@.subrange(16, i as int).push(frame@[i as int]) =~= frame@.subrange(
                16,
                i + 1,
            ));
        }
        i += 1;
    }
    proof {
        lemma_u64_le_of(frame@, 0);
        lemma_u64_le_of(frame@, 8);
        assert(frame@ =~= enc_envelope(version, validator_id, payload@));
    }
    Some((version, validator_id, payload))
}

/// A region holding the little-endian bytes of `v` reads back as `v`.
pub proof fn lemma_u64_of_le(s: Seq<u8>, pos: int, v: u64)
    requires
        0 <= pos,
        pos + 8 <= s.len(),
        s.subrange(pos, pos + 8) == u64_le(v),
    ensures
        u64_of(s, pos) == v,
{
    assert(s[pos] == s.subrange(pos, pos + 8)[0]);
    assert(s[pos + 1] == s.subrange(pos, pos + 8)[1]);
    assert(s[pos + 2] == s.subrange(pos, pos + 8)[2]);
    assert(s[pos + 3] == s.subrange(pos, pos + 8)[3]);
    assert(s[pos + 4] == s.subrange(pos, pos + 8)[4]);
    assert(s[pos + 5] == s.subrange(pos, pos + 8)[5]);
    assert(s[pos + 6] == s.subrange(pos, pos + 8)[6]);
    assert(s[pos + 7] == s.subrange(pos, pos + 8)[7]);
    assert(((((v & 0xff) as u8) as u64) | (((((v >> 8) & 0xff) as u8) as u64) << 8) | (((((v
        >> 16) & 0xff) as u8) as u64) << 16) | (((((v >> 24) & 0xff) as u8) as u64) << 24) | ((((
    (v >> 32) & 0xff) as u8) as u64) << 32) | (((((v >> 40) & 0xff) as u8) as u64) << 40) | ((((
    (v >> 48) & 0xff) as u8) as u64) << 48) | (((((v >> 56) & 0xff) as u8) as u64) << 56)) == v)
        by (bit_vector);
}

/// A signer-list body is sixteen bytes per pair.
pub proof fn lemma_enc_pairs_body_len(votes: Seq<(PublicKey, Signature)>)
    ensures
        enc_pairs_body(votes).len() == 16 * votes.len(),
    decreases votes.len(),
{
    if votes.len() > 0 {
        lemma_enc_pairs_body_len(votes.drop_first());
    }
}

/// A digest-list body is eight bytes per digest.
pub proof fn lemma_enc_digests_body_len(ds: Seq<Digest>)
    ensures
        enc_digests_body(ds).len() == 8 * ds.len(),
    decreases ds.len(),
{
    if ds.len() > 0 {
        lemma_enc_digests_body_len(ds.drop_first());
    }
}

/// Each pair of a signer-list body sits at its fixed offset.
pub proof fn lemma_enc_pairs_body_index(votes: Seq<(PublicKey, Signature)>, k: int)
    requires
        0 <= k < votes.len(),
    ensures
        enc_pairs_body(votes).subrange(16 * k, 16 * k + 8) == u64_le(votes[k].0),
        enc_pairs_body(votes).subrange(16 * k + 8, 16 * k + 16) == u64_le(votes[k].1),
    decreases k,
{
    lemma_enc_pairs_body_len(votes);
    lemma_enc_pairs_body_len(votes.drop_first());
    if k == 0 {
        assert(enc_pairs_body(votes).subrange(0, 8) =~= u64_le(votes[0].0));
        assert(enc_pairs_body(votes).subrange(8, 16) =~= u64_le(votes[0].1));
    } else {
        assert(votes.drop_first()[k - 1] == votes[k]);
        lemma_enc_pairs_body_index(votes.drop_first(), k - 1);
        assert(enc_pairs_body(votes).subrange(16 * k, 16 * k + 8) =~= enc_pairs_body(
            votes.drop_first(),
        ).subrange(16 * (k - 1), 16 * (k - 1) + 8));
        assert(enc_pairs_body(votes).subrange(16 * k + 8, 16 * k + 16) =~= enc_pairs_body(
            votes.drop_first(),
        ).subrange(16 * (k - 1) + 8, 16 * (k - 1) + 16));
    }
}

/// Each digest of a digest-list body sits at its fixed offset.
pub proof fn lemma_enc_digests_body_index(ds: Seq<Digest>, k: int)
    requires
        0 <= k < ds.len(),
    ensures
        enc_digests_body(ds).subrange(8 * k, 8 * k + 8) == u64_le(ds[k]),
    decreases k,
{
    lemma_enc_digests_body_len(ds);
    lemma_enc_digests_body_len(ds.drop_first());
    if k == 0 {
        assert(enc_digests_body(ds).subrange(0, 8) =~= u64_le(ds[0]));
    } else {
        assert(ds.drop_first()[k - 1] == ds[k]);
        lemma_enc_digests_body_index(ds.drop_first(), k - 1);
        assert(enc_digests_body(ds).subrange(8 * k, 8 * k + 8) =~= enc_digests_body(
            ds.drop_first(),
        ).subrange(8 * (k - 1), 8 * (k - 1) + 8));
    }
}

/// Reads one integer if the bytes suffice, exactly the eight bytes at `pos`.
fn parse_u64(bytes: &Vec<u8>, pos: usize) -> (r: Option<(u64, usize)>)
    requires
        pos <= bytes@.len(),
    ensures
        r is Some <==> pos + 8 <= bytes@.len(),
        r matches Some((v, p2)) ==> v == u64_of(bytes@, pos as int) && p2 == pos + 8,
{
    let n = bytes.len();
    if n - pos < 8 {
        return None;
    }
    Some((read_u64(bytes, pos), pos + 8))
}

/// Reads a signer list if the bytes suffice. Whenever the bytes at `pos`
/// are exactly some list's encoding followed by anything, that list comes
/// back.
fn parse_pairs(bytes: &Vec<u8>, pos: usize) -> (r: Option<(Vec<(PublicKey, Signature)>, usize)>)
    requires
        pos <= bytes@.len(),
    ensures
        r matches Some((v, p2)) ==> pos <= p2 <= bytes@.len(),
        forall|votes: Seq<(PublicKey, Signature)>|
            (pos + 8 + 16 * votes.len() <= bytes@.len() && bytes@.subrange(
                pos as int,
                pos + 8 + 16 * votes.len(),
            ) == enc_pairs(votes)) ==> (r matches Some((v, p2)) && v@ == votes && p2 == pos + 8
                + 16 * votes.len()),
{
    let n = bytes.len();
    let (count, mut p) = match parse_u64(bytes, pos) {
        Some(x) => x,
        None => {
            proof {
                lemma_parse_pairs_premise(bytes@, pos as int);
            }
            return None;
        },
    };
    if count > (((n - p) as u64) / 16) {
        proof {
            lemma_parse_pairs_premise(bytes@, pos as int);
        }
        return None;
    }
    let mut out: Vec<(PublicKey, Signature)> = Vec::new();
    let mut k: u64 = 0;
    while k < count
        invariant
            n == bytes@.len(),
            0 <= k <= count,
            p == pos + 8 + 16 * k,
            pos + 8 <= p <= n,
            count - k <= ((n - p) as u64) / 16,
            out@.len() == k,
            forall|j: int|
                0 <= j < k ==> #[trigger] out@[j] == (
                    u64_of(bytes@, pos + 8 + 16 * j),
                    u64_of(bytes@, pos + 16 + 16 * j),
                ),
        decreases count - k,
    {
        let a = read_u64(bytes, p);
        let s = read_u64(bytes, p + 8);
        out.push((a, s));
        p = p + 16;
        k = k + 1;
    }
    proof {
        lemma_parse_pairs_premise(bytes@, pos as int);
        assert forall|votes: Seq<(PublicKey, Signature)>|
            pos + 8 + 16 * votes.len() <= bytes@.len() && bytes@.subrange(
                pos as int,
                pos + 8 + 16 * votes.len(),
            ) == enc_pairs(votes) implies (out@ == votes && p == pos + 8 + 16 * votes.len()) by {
            assert(count == votes.len());
            assert forall|j: int| 0 <= j < votes.len() implies out@[j] == votes[j] by {
                lemma_enc_pairs_body_index(votes, j);
                lemma_enc_pairs_body_len(votes);
                let whole = bytes@.subrange(pos as int, pos + 8 + 16 * votes.len());
                assert(whole == enc_pairs(votes));
                assert(bytes@.subrange(pos + 8 + 16 * j, pos + 16 + 16 * j) =~= whole.subrange(
                    8 + 16 * j,
                    16 + 16 * j,
                ));
                assert(enc_pairs(votes).subrange(8 + 16 * j, 16 + 16 * j) =~= enc_pairs_body(
                    votes,
                ).subrange(16 * j, 16 * j + 8));
                assert(bytes@.subrange(pos + 16 + 16 * j, pos + 24 + 16 * j) =~= whole.subrange(
                    16 + 16 * j,
                    24 + 16 * j,
                ));
                assert(enc_pairs(votes).subrange(16 + 16 * j, 24 + 16 * j) =~= enc_pairs_body(
                    votes,
                ).subrange(16 * j + 8, 16 * j + 16));
                lemma_u64_of_le(bytes@, pos + 8 + 16 * j, votes[j].0);
                lemma_u64_of_le(bytes@, pos + 16 + 16 * j, votes[j].1);
            }
            assert(out@ =~= votes);
        }
    }
    Some((out, p))
}

/// Whenever the bytes at `pos` start with a signer list's encoding, the
/// list's length stands there as an integer that fits the guards.
proof fn lemma_parse_pairs_premise(s: Seq<u8>, pos: int)
    requires
        0 <= pos <= s.len(),
        s.len() <= usize::MAX,
    ensures
        forall|votes: Seq<(PublicKey, Signature)>|
            (pos + 8 + 16 * votes.len() <= s.len() && s.subrange(pos, pos + 8 + 16 * votes.len())
                == enc_pairs(votes)) ==> pos + 8 <= s.len() && u64_of(s, pos) == votes.len(),
{
    assert forall|votes: Seq<(PublicKey, Signature)>|
        pos + 8 + 16 * votes.len() <= s.len() && s.subrange(pos, pos + 8 + 16 * votes.len())
            == enc_pairs(votes) implies pos + 8 <= s.len() && u64_of(s, pos)
        == votes.len() by {
        lemma_enc_pairs_body_len(votes);
        assert(s.subrange(pos, pos + 8) =~= u64_le(votes.len() as u64));
        lemma_u64_of_le(s, pos, votes.len() as u64);
        assert(votes.len() <= usize::MAX);
    }
}

/// Reads a digest list if the bytes suffice, completely on exact encodings,
/// as `parse_pairs` is.
fn parse_digests(bytes: &Vec<u8>, pos: usize) -> (r: Option<(Vec<Digest>, usize)>)
    requires
        pos <= bytes@.len(),
    ensures
        r matches Some((v, p2)) ==> pos <= p2 <= bytes@.len(),
        forall|ds: Seq<Digest>|
            (pos + 8 + 8 * ds.len() <= bytes@.len() && bytes@.subrange(
                pos as int,
                pos + 8 + 8 * ds.len(),
            ) == enc_digests(ds)) ==> (r matches Some((v, p2)) && v@ == ds && p2 == pos + 8 + 8
                * ds.len()),
{
    let n = bytes.len();
    let (count, mut p) = match parse_u64(bytes, pos) {
        Some(x) => x,
        None => {
            proof {
                lemma_parse_digests_premise(bytes@, pos as int);
            }
            return None;
        },
    };
    if count > (((n - p) as u64) / 8) {
        proof {
            lemma_parse_digests_premise(bytes@, pos as int);
        }
        return None;
    }
    let mut out: Vec<Digest> = Vec::new();
    let mut k: u64 = 0;
    while k < count
        invariant
            n == bytes@.len(),
            0 <= k <= count,
            p == pos + 8 + 8 * k,
            pos + 8 <= p <= n,
            count - k <= ((n - p) as u64) / 8,
            out@.len() == k,
            forall|j: int| 0 <= j < k ==> #[trigger] out@[j] == u64_of(bytes@, pos + 8 + 8 * j),
        decreases count - k,
    {
        out.push(read_u64(bytes, p));
        p = p + 8;
        k = k + 1;
    }
    proof {
        lemma_parse_digests_premise(bytes@, pos as int);
        assert forall|ds: Seq<Digest>|
            pos + 8 + 8 * ds.len() <= bytes@.len() && bytes@.subrange(
                pos as int,
                pos + 8 + 8 * ds.len(),
            ) == enc_digests(ds) implies (out@ == ds && p == pos + 8 + 8 * ds.len()) by {
            assert(count == ds.len());
            assert forall|j: int| 0 <= j < ds.len() implies out@[j] == ds[j] by {
                lemma_enc_digests_body_index(ds, j);
                lemma_enc_digests_body_len(ds);
                let whole = bytes@.subrange(pos as int, pos + 8 + 8 * ds.len());
                assert(whole == enc_digests(ds));
                assert(bytes@.subrange(pos + 8 + 8 * j, pos + 16 + 8 * j) =~= whole.subrange(
                    8 + 8 * j,
                    16 + 8 * j,
                ));
                assert(enc_digests(ds).subrange(8 + 8 * j, 16 + 8 * j) =~= enc_digests_body(
                    ds,
                ).subrange(8 * j, 8 * j + 8));
                lemma_u64_of_le(bytes@, pos + 8 + 8 * j, ds[j]);
            }
            assert(out@ =~= ds);
        }
    }
    Some((out, p))
}

/// Whenever the bytes at `pos` start with a digest list's encoding, the
/// list's length stands there as an integer that fits the guards.
proof fn lemma_parse_digests_premise(s: Seq<u8>, pos: int)
    requires
        0 <= pos <= s.len(),
        s.len() <= usize::MAX,
    ensures
        forall|ds: Seq<Digest>|
            (pos + 8 + 8 * ds.len() <= s.len() && s.subrange(pos, pos + 8 + 8 * ds.len())
                == enc_digests(ds)) ==> pos + 8 <= s.len() && u64_of(s, pos) == ds.len(),
{
    assert forall|ds: Seq<Digest>|
        pos + 8 + 8 * ds.len() <= s.len() && s.subrange(pos, pos + 8 + 8 * ds.len())
            == enc_digests(ds) implies pos + 8 <= s.len() && u64_of(s, pos) == ds.len() by {
        lemma_enc_digests_body_len(ds);
        assert(s.subrange(pos, pos + 8) =~= u64_le(ds.len() as u64));
        lemma_u64_of_le(s, pos, ds.len() as u64);
        assert(ds.len() <= usize::MAX);
    }
}

/// Reads a quorum certificate if the bytes suffice, completely on exact
/// encodings followed by anything.
fn parse_qc(bytes: &Vec<u8>, pos: usize) -> (r: Option<(QC, usize)>)
    requires
        pos <= bytes@.len(),
    ensures
        r matches Some((v, p2)) ==> pos <= p2 <= bytes@.len(),
        forall|qc: QC|
            (pos + 24 + 16 * qc.votes@.len() <= bytes@.len() && bytes@.subrange(
                pos as int,
                pos + 24 + 16 * qc.votes@.len(),
            ) == enc_qc(qc)) ==> (r matches Some((q, p2)) && q.hash == qc.hash && q.round
                == qc.round && q.votes@ == qc.votes@ && p2 == pos + 24 + 16 * qc.votes@.len()),
{
    proof {
        lemma_parse_qc_premise(bytes@, pos as int);
    }
    let (hash, p1) = match parse_u64(bytes, pos) {
        Some(x) => x,
        None => {
            return None;
        },
    };
    let (round, p2) = match parse_u64(bytes, p1) {
        Some(x) => x,
        None => {
            return None;
        },
    };
    let (votes, p3) = match parse_pairs(bytes, p2) {
        Some(x) => x,
        None => {
            return None;
        },
    };
    Some((QC { hash, round, votes }, p3))
}

/// Whenever the bytes at `pos` start with a quorum certificate's encoding,
/// its three parts stand at their fixed offsets.
proof fn lemma_parse_qc_premise(s: Seq<u8>, pos: int)
    requires
        0 <= pos <= s.len(),
    ensures
        forall|qc: QC|
            (pos + 24 + 16 * qc.votes@.len() <= s.len() && s.subrange(
                pos,
                pos + 24 + 16 * qc.votes@.len(),
            ) == enc_qc(qc)) ==> {
                &&& u64_of(s, pos) == qc.hash
                &&& u64_of(s, pos + 8) == qc.round
                &&& s.subrange(pos + 16, pos + 24 + 16 * qc.votes@.len()) == enc_pairs(qc.votes@)
            },
{
    assert forall|qc: QC|
        pos + 24 + 16 * qc.votes@.len() <= s.len() && s.subrange(
            pos,
            pos + 24 + 16 * qc.votes@.len(),
        ) == enc_qc(qc) implies {
        &&& u64_of(s, pos) == qc.hash
        &&& u64_of(s, pos + 8) == qc.round
        &&& s.subrange(pos + 16, pos + 24 + 16 * qc.votes@.len()) == enc_pairs(qc.votes@)
    } by {
        lemma_enc_pairs_body_len(qc.votes@);
        let nv = 16 * qc.votes@.len() as int;
        let whole = s.subrange(pos, pos + 24 + nv);
        assert(whole == enc_qc(qc));
        assert(s.subrange(pos, pos + 8) =~= whole.subrange(0, 8));
        assert(enc_qc(qc).subrange(0, 8) =~= u64_le(qc.hash));
        lemma_u64_of_le(s, pos, qc.hash);
        assert(s.subrange(pos + 8, pos + 16) =~= whole.subrange(8, 16));
        assert(enc_qc(qc).subrange(8, 16) =~= u64_le(qc.round));
        lemma_u64_of_le(s, pos + 8, qc.round);
        assert(s.subrange(pos + 16, pos + 24 + nv) =~= whole.subrange(16, 24 + nv));
        assert(enc_qc(qc).subrange(16, 24 + nv) =~= enc_pairs(qc.votes@));
    }
}

/// Where a proposal's encoding lies, its parts stand at fixed offsets.
proof fn lemma_propose_layout(s: Seq<u8>)
    ensures
        forall|b: Block| s == enc_msg(ConsensusMessage::Propose(b)) ==> {
            let nv = 16 * b.qc.votes@.len() as int;
            let np = 8 * b.payload@.len() as int;
            &&& s.len() == 65 + nv + np
            &&& s[0] == 0u8
            &&& s.subrange(1, 25 + nv) == enc_qc(b.qc)
            &&& u64_of(s, 25 + nv) == b.author
            &&& u64_of(s, 33 + nv) == b.round
            &&& s.subrange(41 + nv, 49 + nv + np) == enc_digests(b.payload@)
            &&& u64_of(s, 49 + nv + np) == b.signature
            &&& u64_of(s, 57 + nv + np) == b.digest
        },
{
    assert forall|b: Block| s == enc_msg(ConsensusMessage::Propose(b)) implies {
        let nv = 16 * b.qc.votes@.len() as int;
        let np = 8 * b.payload@.len() as int;
        &&& s.len() == 65 + nv + np
        &&& s[0] == 0u8
        &&& s.subrange(1, 25 + nv) == enc_qc(b.qc)
        &&& u64_of(s, 25 + nv) == b.author
        &&& u64_of(s, 33 + nv) == b.round
        &&& s.subrange(41 + nv, 49 + nv + np) == enc_digests(b.payload@)
        &&& u64_of(s, 49 + nv + np) == b.signature
        &&& u64_of(s, 57 + nv + np) == b.digest
    } by {
        lemma_enc_pairs_body_len(b.qc.votes@);
        lemma_enc_digests_body_len(b.payload@);
        let nv = 16 * b.qc.votes@.len() as int;
        let np = 8 * b.payload@.len() as int;
        assert(s.len() == 65 + nv + np);
        assert(s[0] == 0u8);
        assert(s.subrange(1, 25 + nv) =~= enc_qc(b.qc));
        assert(s.subrange(25 + nv, 33 + nv) =~= u64_le(b.author));
        lemma_u64_of_le(s, 25 + nv, b.author);
        assert(s.subrange(33 + nv, 41 + nv) =~= u64_le(b.round));
        lemma_u64_of_le(s, 33 + nv, b.round);
        assert(s.subrange(41 + nv, 49 + nv + np) =~= enc_digests(b.payload@));
        assert(s.subrange(49 + nv + np, 57 + nv + np) =~= u64_le(b.signature));
        lemma_u64_of_le(s, 49 + nv + np, b.signature);
        assert(s.subrange(57 + nv + np, 65 + nv + np) =~= u64_le(b.digest));
        lemma_u64_of_le(s, 57 + nv + np, b.digest);
    }
}

/// Reads a proposal body; on a proposal's exact encoding it reconstructs a
/// block whose encoding is exactly those bytes.
#[verifier::rlimit(100)]
fn parse_propose(bytes: &Vec<u8>) -> (r: Option<ConsensusMessage>)
    ensures
        forall|b: Block|
            bytes@ == enc_msg(ConsensusMessage::Propose(b)) ==> (r matches Some(p) && enc_msg(p)
                == bytes@),
{
    proof {
        lemma_propose_layout(bytes@);
    }
    if bytes.len() == 0 {
        return None;
    }
    let (qc, p1) = match parse_qc(bytes, 1) {
        Some(x) => x,
        None => {
            return None;
        },
    };
    let (author, p2) = match parse_u64(bytes, p1) {
        Some(x) => x,
        None => {
            return None;
        },
    };
    let (round, p3) = match parse_u64(bytes, p2) {
        Some(x) => x,
        None => {
            return None;
        },
    };
    let (payload, p4) = match parse_digests(bytes, p3) {
        Some(x) => x,
        None => {
            return None;
        },
    };
    let (signature, p5) = match parse_u64(bytes, p4) {
        Some(x) => x,
        None => {
            return None;
        },
    };
    let (digest, _p6) = match parse_u64(bytes, p5) {
        Some(x) => x,
        None => {
            return None;
        },
    };
    let blk = Block { qc, author, round, payload, signature, digest };
    proof {
        assert forall|b: Block| bytes@ == enc_msg(ConsensusMessage::Propose(b)) implies enc_msg(
            ConsensusMessage::Propose(blk),
        ) == bytes@ by {
            assert(enc_qc(blk.qc) == enc_qc(b.qc));
            assert(enc_digests(blk.payload@) == enc_digests(b.payload@));
            assert(enc_block(blk) == enc_block(b));
        }
    }
    Some(ConsensusMessage::Propose(blk))
}

/// Where a vote's encoding lies, its four fields stand at fixed offsets.
proof fn lemma_vote_layout(s: Seq<u8>)
    ensures
        forall|v: Vote| s == enc_msg(ConsensusMessage::Vote(v)) ==> {
            &&& s.len() == 33
            &&& s[0] == 1u8
            &&& u64_of(s, 1) == v.hash
            &&& u64_of(s, 9) == v.round
            &&& u64_of(s, 17) == v.author
            &&& u64_of(s, 25) == v.signature
        },
{
    assert forall|v: Vote| s == enc_msg(ConsensusMessage::Vote(v)) implies {
        &&& s.len() == 33
        &&& s[0] == 1u8
        &&& u64_of(s, 1) == v.hash
        &&& u64_of(s, 9) == v.round
        &&& u64_of(s, 17) == v.author
        &&& u64_of(s, 25) == v.signature
    } by {
        assert(s.subrange(1, 9) =~= u64_le(v.hash));
        lemma_u64_of_le(s, 1, v.hash);
        assert(s.subrange(9, 17) =~= u64_le(v.round));
        lemma_u64_of_le(s, 9, v.round);
        assert(s.subrange(17, 25) =~= u64_le(v.author));
        lemma_u64_of_le(s, 17, v.author);
        assert(s.subrange(25, 33) =~= u64_le(v.signature));
        lemma_u64_of_le(s, 25, v.signature);
    }
}

/// Reads a vote body, completely on a vote's exact encoding.
fn parse_vote(bytes: &Vec<u8>) -> (r: Option<ConsensusMessage>)
    ensures
        forall|v: Vote|
            bytes@ == enc_msg(ConsensusMessage::Vote(v)) ==> (r matches Some(p) && enc_msg(p)
                == bytes@),
{
    proof {
        lemma_vote_layout(bytes@);
    }
    if bytes.len() == 0 {
        return None;
    }
    let (hash, p1) = match parse_u64(bytes, 1) {
        Some(x) => x,
        None => {
            return None;
        },
    };
    let (round, p2) = match parse_u64(bytes, p1) {
        Some(x) => x,
        None => {
            return None;
        },
    };
    let (author, p3) = match parse_u64(bytes, p2) {
        Some(x) => x,
        None => {
            return None;
        },
    };
    let (signature, _p4) = match parse_u64(bytes, p3) {
        Some(x) => x,
        None => {
            return None;
        },
    };
    Some(ConsensusMessage::Vote(Vote { hash, round, author, signature }))
}

/// Where a timeout's encoding lies, its parts stand at fixed offsets.
proof fn lemma_timeout_layout(s: Seq<u8>)
    ensures
        forall|t: Timeout| s == enc_msg(ConsensusMessage::Timeout(t)) ==> {
            let nv = 16 * t.high_qc.votes@.len() as int;
            &&& s.len() == 49 + nv
            &&& s[0] == 2u8
            &&& s.subrange(1, 25 + nv) == enc_qc(t.high_qc)
            &&& u64_of(s, 25 + nv) == t.round
            &&& u64_of(s, 33 + nv) == t.author
            &&& u64_of(s, 41 + nv) == t.signature
        },
{
    assert forall|t: Timeout| s == enc_msg(ConsensusMessage::Timeout(t)) implies {
        let nv = 16 * t.high_qc.votes@.len() as int;
        &&& s.len() == 49 + nv
        &&& s[0] == 2u8
        &&& s.subrange(1, 25 + nv) == enc_qc(t.high_qc)
        &&& u64_of(s, 25 + nv) == t.round
        &&& u64_of(s, 33 + nv) == t.author
        &&& u64_of(s, 41 + nv) == t.signature
    } by {
        lemma_enc_pairs_body_len(t.high_qc.votes@);
        let nv = 16 * t.high_qc.votes@.len() as int;
        assert(s.len() == 49 + nv);
        assert(s.subrange(1, 25 + nv) =~= enc_qc(t.high_qc));
        assert(s.subrange(25 + nv, 33 + nv) =~= u64_le(t.round));
        lemma_u64_of_le(s, 25 + nv, t.round);
        assert(s.subrange(33 + nv, 41 + nv) =~= u64_le(t.author));
        lemma_u64_of_le(s, 33 + nv, t.author);
        assert(s.subrange(41 + nv, 49 + nv) =~= u64_le(t.signature));
        lemma_u64_of_le(s, 41 + nv, t.signature);
    }
}

/// Reads a timeout body, completely on a timeout's exact encoding.
fn parse_timeout(bytes: &Vec<u8>) -> (r: Option<ConsensusMessage>)
    ensures
        forall|t: Timeout|
            bytes@ == enc_msg(ConsensusMessage::Timeout(t)) ==> (r matches Some(p) && enc_msg(p)
                == bytes@),
{
    proof {
        lemma_timeout_layout(bytes@);
    }
    if bytes.len() == 0 {
        return None;
    }
    let (high_qc, p1) = match parse_qc(bytes, 1) {
        Some(x) => x,
        None => {
            return None;
        },
    };
    let (round, p2) = match parse_u64(bytes, p1) {
        Some(x) => x,
        None => {
            return None;
        },
    };
    let (author, p3) = match parse_u64(bytes, p2) {
        Some(x) => x,
        None => {
            return None;
        },
    };
    let (signature, _p4) = match parse_u64(bytes, p3) {
        Some(x) => x,
        None => {
            return None;
        },
    };
    let t = Timeout { high_qc, round, author, signature };
    proof {
        assert forall|t0: Timeout| bytes@ == enc_msg(ConsensusMessage::Timeout(t0))
            implies enc_msg(ConsensusMessage::Timeout(t)) == bytes@ by {
            assert(enc_qc(t.high_qc) == enc_qc(t0.high_qc));
            assert(enc_timeout(t) == enc_timeout(t0));
        }
    }
    Some(ConsensusMessage::Timeout(t))
}

/// Where a timeout certificate's encoding lies, its parts stand at fixed
/// offsets.
proof fn lemma_tc_layout(s: Seq<u8>)
    ensures
        forall|tc: TC| s == enc_msg(ConsensusMessage::TC(tc)) ==> {
            let nv = 16 * tc.votes@.len() as int;
            &&& s.len() == 17 + nv
            &&& s[0] == 3u8
            &&& u64_of(s, 1) == tc.round
            &&& s.subrange(9, 17 + nv) == enc_pairs(tc.votes@)
        },
{
    assert forall|tc: TC| s == enc_msg(ConsensusMessage::TC(tc)) implies {
        let nv = 16 * tc.votes@.len() as int;
        &&& s.len() == 17 + nv
        &&& s[0] == 3u8
        &&& u64_of(s, 1) == tc.round
        &&& s.subrange(9, 17 + nv) == enc_pairs(tc.votes@)
    } by {
        lemma_enc_pairs_body_len(tc.votes@);
        let nv = 16 * tc.votes@.len() as int;
        assert(s.len() == 17 + nv);
        assert(s.subrange(1, 9) =~= u64_le(tc.round));
        lemma_u64_of_le(s, 1, tc.round);
        assert(s.subrange(9, 17 + nv) =~= enc_pairs(tc.votes@));
    }
}

/// Reads a timeout-certificate body, completely on an exact encoding.
fn parse_tc(bytes: &Vec<u8>) -> (r: Option<ConsensusMessage>)
    ensures
        forall|tc: TC|
            bytes@ == enc_msg(ConsensusMessage::TC(tc)) ==> (r matches Some(p) && enc_msg(p)
                == bytes@),
{
    proof {
        lemma_tc_layout(bytes@);
    }
    if bytes.len() == 0 {
        return None;
    }
    let (round, p1) = match parse_u64(bytes, 1) {
        Some(x) => x,
        None => {
            return None;
        },
    };
    let (votes, _p2) = match parse_pairs(bytes, p1) {
        Some(x) => x,
        None => {
            return None;
        },
    };
    let tc = TC { round, votes };
    proof {
        assert forall|tc0: TC| bytes@ == enc_msg(ConsensusMessage::TC(tc0)) implies enc_msg(
            ConsensusMessage::TC(tc),
        ) == bytes@ by {
            assert(enc_tc(tc) == enc_tc(tc0));
        }
    }
    Some(ConsensusMessage::TC(tc))
}

/// Where a sync request's encoding lies, its two fields stand at fixed
/// offsets.
proof fn lemma_syncreq_layout(s: Seq<u8>)
    ensures
        forall|d: Digest, pk: PublicKey| s == enc_msg(ConsensusMessage::SyncRequest(d, pk)) ==> {
            &&& s.len() == 17
            &&& s[0] == 4u8
            &&& u64_of(s, 1) == d
            &&& u64_of(s, 9) == pk
        },
{
    assert forall|d: Digest, pk: PublicKey|
        s == enc_msg(ConsensusMessage::SyncRequest(d, pk)) implies {
        &&& s.len() == 17
        &&& s[0] == 4u8
        &&& u64_of(s, 1) == d
        &&& u64_of(s, 9) == pk
    } by {
        assert(s.subrange(1, 9) =~= u64_le(d));
        lemma_u64_of_le(s, 1, d);
        assert(s.subrange(9, 17) =~= u64_le(pk));
        lemma_u64_of_le(s, 9, pk);
    }
}

/// Reads a sync-request body, completely on an exact encoding.
fn parse_syncreq(bytes: &Vec<u8>) -> (r: Option<ConsensusMessage>)
    ensures
        forall|d: Digest, pk: PublicKey|
            bytes@ == enc_msg(ConsensusMessage::SyncRequest(d, pk)) ==> (r matches Some(p)
                && enc_msg(p) == bytes@),
{
    proof {
        lemma_syncreq_layout(bytes@);
    }
    if bytes.len() == 0 {
        return None;
    }
    let (d, p1) = match parse_u64(bytes, 1) {
        Some(x) => x,
        None => {
            return None;
        },
    };
    let (pk, _p2) = match parse_u64(bytes, p1) {
        Some(x) => x,
        None => {
            return None;
        },
    };
    Some(ConsensusMessage::SyncRequest(d, pk))
}

/// The first byte of a message's encoding names its variant.
proof fn lemma_tag_determines(s: Seq<u8>)
    requires
        exists|m: ConsensusMessage| s == enc_msg(m),
    ensures
        s.len() > 0,
        s[0] == 0u8 ==> exists|b: Block| s == enc_msg(ConsensusMessage::Propose(b)),
        s[0] == 1u8 ==> exists|v: Vote| s == enc_msg(ConsensusMessage::Vote(v)),
        s[0] == 2u8 ==> exists|t: Timeout| s == enc_msg(ConsensusMessage::Timeout(t)),
        s[0] == 3u8 ==> exists|tc: TC| s == enc_msg(ConsensusMessage::TC(tc)),
        s[0] == 4u8 ==> exists|d: Digest, pk: PublicKey| s == enc_msg(
            ConsensusMessage::SyncRequest(d, pk),
        ),
        0 <= s[0] <= 4,
{
    let m = choose|m: ConsensusMessage| s == enc_msg(m);
    match m {
        ConsensusMessage::Propose(b) => {
            assert(s[0] == 0u8);
            assert(s == enc_msg(ConsensusMessage::Propose(b)));
        },
        ConsensusMessage::Vote(v) => {
            assert(s[0] == 1u8);
            assert(s == enc_msg(ConsensusMessage::Vote(v)));
        },
        ConsensusMessage::Timeout(t) => {
            assert(s[0] == 2u8);
            assert(s == enc_msg(ConsensusMessage::Timeout(t)));
        },
        ConsensusMessage::TC(tc) => {
            assert(s[0] == 3u8);
            assert(s == enc_msg(ConsensusMessage::TC(tc)));
        },
        ConsensusMessage::SyncRequest(d, pk) => {
            assert(s[0] == 4u8);
            assert(s == enc_msg(ConsensusMessage::SyncRequest(d, pk)));
        },
    }
}

/// Tries to read one message off the bytes; the caller checks exactness.
/// On bytes that are some message's exact encoding it always succeeds, with
/// a message whose encoding is exactly those bytes.
fn parse_msg(bytes: &Vec<u8>) -> (r: Option<ConsensusMessage>)
    ensures
        (exists|m: ConsensusMessage| bytes@ == enc_msg(m)) ==> (r matches Some(p) && enc_msg(p)
            == bytes@),
{
    proof {
        if exists|m: ConsensusMessage| bytes@ == enc_msg(m) {
            lemma_tag_determines(bytes@);
        }
    }
    if bytes.len() == 0 {
        return None;
    }
    let tag = bytes[0];
    if tag == 0 {
        parse_propose(bytes)
    } else if tag == 1 {
        parse_vote(bytes)
    } else if tag == 2 {
        parse_timeout(bytes)
    } else if tag == 3 {
        parse_tc(bytes)
    } else if tag == 4 {
        parse_syncreq(bytes)
    } else {
        None
    }
}

/// Two messages carrying the same content, field for field.
pub open spec fn msg_equiv(a: ConsensusMessage, b: ConsensusMessage) -> bool {
    match (a, b) {
        (ConsensusMessage::Propose(x), ConsensusMessage::Propose(y)) => crate::messages::block_equiv(
            x,
            y,
        ),
        (ConsensusMessage::Vote(x), ConsensusMessage::Vote(y)) => x == y,
        (ConsensusMessage::Timeout(x), ConsensusMessage::Timeout(y)) => crate::messages::qc_equiv(
            x.high_qc,
            y.high_qc,
        ) && x.round == y.round && x.author == y.author && x.signature == y.signature,
        (ConsensusMessage::TC(x), ConsensusMessage::TC(y)) => x.round == y.round && x.votes@
            == y.votes@,
        (ConsensusMessage::SyncRequest(d1, p1), ConsensusMessage::SyncRequest(d2, p2)) => d1 == d2
            && p1 == p2,
        _ => false,
    }
}

/// Equal signer-list bodies of equal length hold equal pairs.
proof fn lemma_enc_pairs_body_inj(v1: Seq<(PublicKey, Signature)>, v2: Seq<(PublicKey, Signature)>)
    requires
        v1.len() == v2.len(),
        enc_pairs_body(v1) == enc_pairs_body(v2),
    ensures
        v1 == v2,
    decreases v1.len(),
{
    lemma_enc_pairs_body_len(v1);
    lemma_enc_pairs_body_len(v2);
    if v1.len() > 0 {
        let b1 = enc_pairs_body(v1);
        assert(b1.subrange(0, 8) =~= u64_le(v1[0].0));
        assert(b1.subrange(0, 8) =~= u64_le(v2[0].0));
        lemma_u64_of_le(b1, 0, v1[0].0);
        lemma_u64_of_le(b1, 0, v2[0].0);
        assert(b1.subrange(8, 16) =~= u64_le(v1[0].1));
        assert(b1.subrange(8, 16) =~= u64_le(v2[0].1));
        lemma_u64_of_le(b1, 8, v1[0].1);
        lemma_u64_of_le(b1, 8, v2[0].1);
        assert(enc_pairs_body(v1.drop_first()) =~= b1.subrange(16, b1.len() as int));
        assert(enc_pairs_body(v2.drop_first()) =~= b1.subrange(16, b1.len() as int));
        lemma_enc_pairs_body_inj(v1.drop_first(), v2.drop_first());
        assert(v1[0].0 == v2[0].0 && v1[0].1 == v2[0].1);
        assert(v1[0] == v2[0]);
        assert forall|i: int| 0 <= i < v1.len() implies v1[i] == v2[i] by {
            if i > 0 {
                assert(v1.drop_first()[i - 1] == v1[i]);
                assert(v2.drop_first()[i - 1] == v2[i]);
                assert(v1.drop_first()[i - 1] == v2.drop_first()[i - 1]);
            }
        }
        assert(v1 =~= v2);
    } else {
        assert(v1 =~= v2);
    }
}

/// Equal digest-list bodies of equal length hold equal digests.
proof fn lemma_enc_digests_body_inj(v1: Seq<Digest>, v2: Seq<Digest>)
    requires
        v1.len() == v2.len(),
        enc_digests_body(v1) == enc_digests_body(v2),
    ensures
        v1 == v2,
    decreases v1.len(),
{
    lemma_enc_digests_body_len(v1);
    lemma_enc_digests_body_len(v2);
    if v1.len() > 0 {
        let b1 = enc_digests_body(v1);
        assert(b1.subrange(0, 8) =~= u64_le(v1[0]));
        assert(b1.subrange(0, 8) =~= u64_le(v2[0]));
        lemma_u64_of_le(b1, 0, v1[0]);
        lemma_u64_of_le(b1, 0, v2[0]);
        assert(enc_digests_body(v1.drop_first()) =~= b1.subrange(8, b1.len() as int));
        assert(enc_digests_body(v2.drop_first()) =~= b1.subrange(8, b1.len() as int));
        lemma_enc_digests_body_inj(v1.drop_first(), v2.drop_first());
        assert(v1[0] == v2[0]);
        assert forall|i: int| 0 <= i < v1.len() implies v1[i] == v2[i] by {
            if i > 0 {
                assert(v1.drop_first()[i - 1] == v1[i]);
                assert(v2.drop_first()[i - 1] == v2[i]);
                assert(v1.drop_first()[i - 1] == v2.drop_first()[i - 1]);
            }
        }
        assert(v1 =~= v2);
    } else {
        assert(v1 =~= v2);
    }
}

/// The encoding is injective on message content: one byte string of machine
/// size is the encoding of at most one message, so whoever decodes a frame
/// reads back exactly the content that was encoded into it.
#[verifier::rlimit(100)]
pub proof fn lemma_enc_msg_injective(m1: ConsensusMessage, m2: ConsensusMessage)
    requires
        enc_msg(m1) == enc_msg(m2),
        enc_msg(m1).len() <= usize::MAX,
    ensures
        msg_equiv(m1, m2),
{
    let s = enc_msg(m1);
    lemma_propose_layout(s);
    lemma_vote_layout(s);
    lemma_timeout_layout(s);
    lemma_tc_layout(s);
    lemma_syncreq_layout(s);
    match (m1, m2) {
        (ConsensusMessage::Propose(b1), ConsensusMessage::Propose(b2)) => {
            lemma_enc_pairs_body_len(b1.qc.votes@);
            lemma_enc_pairs_body_len(b2.qc.votes@);
            lemma_enc_digests_body_len(b1.payload@);
            lemma_enc_digests_body_len(b2.payload@);
            let nv1 = 16 * b1.qc.votes@.len() as int;
            let nv2 = 16 * b2.qc.votes@.len() as int;
            lemma_parse_qc_premise(s, 1);
            assert(s.subrange(1, 25 + nv1) == enc_qc(b1.qc));
            assert(s.subrange(1, 25 + nv2) == enc_qc(b2.qc));
            assert(s.subrange(17, 25 + nv1) == enc_pairs(b1.qc.votes@));
            assert(s.subrange(17, 25 + nv2) == enc_pairs(b2.qc.votes@));
            lemma_parse_pairs_premise(s, 17);
            assert(u64_of(s, 17) == b1.qc.votes@.len());
            assert(u64_of(s, 17) == b2.qc.votes@.len());
            assert(nv1 == nv2);
            assert(enc_pairs(b1.qc.votes@) == enc_pairs(b2.qc.votes@));
            assert(enc_pairs_body(b1.qc.votes@) =~= enc_pairs(b1.qc.votes@).subrange(
                8,
                8 + nv1,
            ));
            assert(enc_pairs_body(b2.qc.votes@) =~= enc_pairs(b2.qc.votes@).subrange(
                8,
                8 + nv2,
            ));
            lemma_enc_pairs_body_inj(b1.qc.votes@, b2.qc.votes@);
            let np1 = 8 * b1.payload@.len() as int;
            let np2 = 8 * b2.payload@.len() as int;
            assert(s.len() == 65 + nv1 + np1);
            assert(s.len() == 65 + nv2 + np2);
            assert(np1 == np2);
            assert(s.subrange(41 + nv1, 49 + nv1 + np1) == enc_digests(b1.payload@));
            assert(s.subrange(41 + nv2, 49 + nv2 + np2) == enc_digests(b2.payload@));
            assert(enc_digests(b1.payload@) == enc_digests(b2.payload@));
            assert(enc_digests_body(b1.payload@) =~= enc_digests(b1.payload@).subrange(
                8,
                8 + np1,
            ));
            assert(enc_digests_body(b2.payload@) =~= enc_digests(b2.payload@).subrange(
                8,
                8 + np2,
            ));
            lemma_enc_digests_body_inj(b1.payload@, b2.payload@);
        },
        (ConsensusMessage::Vote(v1), ConsensusMessage::Vote(v2)) => {
        },
        (ConsensusMessage::Timeout(t1), ConsensusMessage::Timeout(t2)) => {
            lemma_enc_pairs_body_len(t1.high_qc.votes@);
            lemma_enc_pairs_body_len(t2.high_qc.votes@);
            let nv1 = 16 * t1.high_qc.votes@.len() as int;
            let nv2 = 16 * t2.high_qc.votes@.len() as int;
            assert(s.len() == 49 + nv1);
            assert(s.len() == 49 + nv2);
            assert(nv1 == nv2);
            lemma_parse_qc_premise(s, 1);
            assert(s.subrange(1, 25 + nv1) == enc_qc(t1.high_qc));
            assert(s.subrange(1, 25 + nv2) == enc_qc(t2.high_qc));
            assert(s.subrange(17, 25 + nv1) == enc_pairs(t1.high_qc.votes@));
            assert(s.subrange(17, 25 + nv2) == enc_pairs(t2.high_qc.votes@));
            assert(enc_pairs_body(t1.high_qc.votes@) =~= enc_pairs(
                t1.high_qc.votes@,
            ).subrange(8, 8 + nv1));
            assert(enc_pairs_body(t2.high_qc.votes@) =~= enc_pairs(
                t2.high_qc.votes@,
            ).subrange(8, 8 + nv2));
            lemma_enc_pairs_body_inj(t1.high_qc.votes@, t2.high_qc.votes@);
        },
        (ConsensusMessage::TC(tc1), ConsensusMessage::TC(tc2)) => {
            lemma_enc_pairs_body_len(tc1.votes@);
            lemma_enc_pairs_body_len(tc2.votes@);
            let nv1 = 16 * tc1.votes@.len() as int;
            let nv2 = 16 * tc2.votes@.len() as int;
            assert(s.len() == 17 + nv1);
            assert(s.len() == 17 + nv2);
            assert(nv1 == nv2);
            assert(s.subrange(9, 17 + nv1) == enc_pairs(tc1.votes@));
            assert(s.subrange(9, 17 + nv2) == enc_pairs(tc2.votes@));
            assert(enc_pairs_body(tc1.votes@) =~= enc_pairs(tc1.votes@).subrange(8, 8 + nv1));
            assert(enc_pairs_body(tc2.votes@) =~= enc_pairs(tc2.votes@).subrange(8, 8 + nv2));
            lemma_enc_pairs_body_inj(tc1.votes@, tc2.votes@);
        },
        (ConsensusMessage::SyncRequest(d1, p1), ConsensusMessage::SyncRequest(d2, p2)) => {
        },
        _ => {
            assert(false);
        },
    }
}

/// Decodes one message. Whatever comes back is exact: its encoding is these
/// very bytes, because the decoder re-encodes and compares before accepting.
/// And decoding succeeds exactly when the bytes are some message's encoding,
/// so nothing well-formed is ever refused.
pub fn decode_msg(bytes: &Vec<u8>) -> (r: Option<ConsensusMessage>)
    ensures
        r matches Some(m) ==> bytes@ == enc_msg(m),
        r is Some <==> exists|m: ConsensusMessage| bytes@ == enc_msg(m),
{
    match parse_msg(bytes) {
        None => None,
        Some(m) => {
            let enc = encode_msg(&m);
            if bytes_eq(&enc, bytes) {
                Some(m)
            } else {
                None
            }
        },
    }
}

proof fn lemma_enc_pairs_body_snoc(votes: Seq<(PublicKey, Signature)>, i: int)
    requires
        0 <= i < votes.len(),
    ensures
        enc_pairs_body(votes.take(i + 1)) == enc_pairs_body(votes.take(i)) + u64_le(votes[i].0)
            + u64_le(votes[i].1),
    decreases i,
{
    if i == 0 {
        assert(votes.take(1)[0] == votes[0]);
        assert(votes.take(1).drop_first() =~= Seq::<(PublicKey, Signature)>::empty());
        assert(enc_pairs_body(Seq::<(PublicKey, Signature)>::empty()) =~= Seq::<u8>::empty());
        assert(enc_pairs_body(votes.take(0)) =~= Seq::<u8>::empty());
        assert(enc_pairs_body(votes.take(1)) =~= enc_pairs_body(votes.take(0)) + u64_le(
            votes[0].0,
        ) + u64_le(votes[0].1));
    } else {
        assert(votes.take(i + 1)[0] == votes[0]);
        assert(votes.take(i)[0] == votes[0]);
        assert(votes.take(i + 1).drop_first() =~= votes.drop_first().take(i));
        assert(votes.take(i).drop_first() =~= votes.drop_first().take(i - 1));
        assert(votes.drop_first()[i - 1] == votes[i]);
        lemma_enc_pairs_body_snoc(votes.drop_first(), i - 1);
        assert(enc_pairs_body(votes.take(i + 1)) =~= enc_pairs_body(votes.take(i)) + u64_le(
            votes[i].0,
        ) + u64_le(votes[i].1));
    }
}

proof fn lemma_enc_digests_body_snoc(ds: Seq<Digest>, i: int)
    requires
        0 <= i < ds.len(),
    ensures
        enc_digests_body(ds.take(i + 1)) == enc_digests_body(ds.take(i)) + u64_le(ds[i]),
    decreases i,
{
    if i == 0 {
        assert(ds.take(1)[0] == ds[0]);
        assert(ds.take(1).drop_first() =~= Seq::<Digest>::empty());
        assert(enc_digests_body(Seq::<Digest>::empty()) =~= Seq::<u8>::empty());
        assert(enc_digests_body(ds.take(0)) =~= Seq::<u8>::empty());
        assert(enc_digests_body(ds.take(1)) =~= enc_digests_body(ds.take(0)) + u64_le(ds[0]));
    } else {
        assert(ds.take(i + 1)[0] == ds[0]);
        assert(ds.take(i)[0] == ds[0]);
        assert(ds.take(i + 1).drop_first() =~= ds.drop_first().take(i));
        assert(ds.take(i).drop_first() =~= ds.drop_first().take(i - 1));
        assert(ds.drop_first()[i - 1] == ds[i]);
        lemma_enc_digests_body_snoc(ds.drop_first(), i - 1);
        assert(enc_digests_body(ds.take(i + 1)) =~= enc_digests_body(ds.take(i)) + u64_le(ds[i]));
    }
}

} // verus!
