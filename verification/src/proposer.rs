//! The proposer: when this validator leads the current round it assembles a
//! block over the highest QC and the payload the mempool offered. Signing
//! and content hashing belong to the signing service outside; their outputs
//! come in as plain values. The caller feeds the block through the same
//! ingress every peer's copy takes, so the leader validates and votes on
//! its own proposal through one code path.

use vstd::prelude::*;
use crate::committee::{PublicKey, Round};
use crate::messages::{Block, Digest, QC, Signature};

verus! {

/// Builds the blocks this validator proposes.
pub struct Proposer {
    /// The proposing validator's identity.
    pub name: PublicKey,
}

impl Proposer {
    pub fn new(name: PublicKey) -> (r: Proposer)
        ensures
            r.name == name,
    {
        Proposer { name }
    }

    /// Assembles the block for `round` on top of `qc`. `signature` is the
    /// signing service's signature over the block and `digest` the content
    /// digest it assigned.
    pub fn make_block(
        &self,
        round: Round,
        qc: QC,
        payload: Vec<Digest>,
        signature: Signature,
        digest: Digest,
    ) -> (r: Block)
        ensures
            r.round == round,
            r.author == self.name,
            r.qc == qc,
            r.payload == payload,
            r.signature == signature,
            r.digest == digest,
    {
        Block { qc, author: self.name, round, payload, signature, digest }
    }
}

} // verus!
