//! The helper serves sync requests from peers: it reads the asked-for block
//! from local storage and addresses the answer straight back to the
//! requester's inbox. A block not held locally is silently dropped; the
//! requester's own synchronizer retries.

use vstd::prelude::*;
use crate::committee::PublicKey;
use crate::messages::{Block, Digest, block_equiv};
use crate::store::{Storage, lookup};

verus! {

/// Serves peers' requests for missing blocks.
pub struct Helper;

impl Helper {
    /// Answers one sync request: the block stored under `digest`, addressed
    /// to `origin`, exactly when storage holds it; nothing otherwise.
    pub fn serve(store: &Storage, digest: Digest, origin: PublicKey) -> (r: Option<
        (Block, PublicKey),
    >)
        ensures
            r is Some <==> lookup(store.blocks@, digest) is Some,
            r matches Some((b, o)) ==> o == origin && (lookup(store.blocks@, digest)
                matches Some(sb) && block_equiv(b, sb)),
    {
        match store.get(digest) {
            Some(b) => Some((b.duplicate(), origin)),
            None => None,
        }
    }
}

} // verus!
