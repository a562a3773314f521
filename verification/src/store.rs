//! The local block store: a digest-keyed map of blocks, holding at most one
//! block per digest. It stands for the durable storage the engine reads its
//! ancestor chain from.

use vstd::prelude::*;
use crate::messages::{Block, Digest, QC};

verus! {

/// What `digest` resolves to in the stored sequence: the first block stored
/// under it, if any.
pub open spec fn lookup(s: Seq<Block>, digest: Digest) -> Option<Block>
    decreases s.len(),
{
    if s.len() == 0 {
        None
    } else if s[0].digest == digest {
        Some(s[0])
    } else {
        lookup(s.drop_first(), digest)
    }
}

/// The digest-keyed block store.
#[derive(Clone, Debug)]
pub struct Storage {
    pub blocks: Vec<Block>,
}

impl Storage {
    /// Each digest is held at most once, and every stored block's parent
    /// certificate is for an earlier round (the genesis block excepted).
    pub open spec fn wf(self) -> bool {
        &&& forall|i: int, j: int|
            0 <= i < self.blocks@.len() && 0 <= j < self.blocks@.len() && i != j
                ==> self.blocks@[i].digest != self.blocks@[j].digest
        &&& forall|i: int|
            0 <= i < self.blocks@.len() ==> (#[trigger] self.blocks@[i]).round == 0
                || self.blocks@[i].qc.round < self.blocks@[i].round
    }

    pub fn new() -> (r: Storage)
        ensures
            r.wf(),
            r.blocks@.len() == 0,
    {
        Storage { blocks: Vec::new() }
    }

    /// Reads the block stored under `digest`.
    pub fn get(&self, digest: Digest) -> (r: Option<&Block>)
        ensures
            match r {
                Some(b) => lookup(self.blocks@, digest) == Some(*b),
                None => lookup(self.blocks@, digest) is None,
            },
    {
        let n = self.blocks.len();
        let mut i: usize = 0;
        proof {
            assert(self.blocks@.skip(0) =~= self.blocks@);
        }
        while i < n
            invariant
                n == self.blocks@.len(),
                0 <= i <= n,
                lookup(self.blocks@, digest) == lookup(self.blocks@.skip(i as int), digest),
            decreases n - i,
        {
            proof {
                assert(self.blocks@.skip(i as int).drop_first() =~= self.blocks@.skip(i + 1));
                assert(self.blocks@.skip(i as int)[0] == self.blocks@[i as int]);
            }
            if self.blocks[i].digest == digest {
                return Some(&self.blocks[i]);
            }
            i += 1;
        }
        None
    }

    /// Stores `block` under its digest. A digest already held keeps its
    /// first block, so storing is idempotent and no digest is ever rebound.
    pub fn put(&mut self, block: Block)
        requires
            old(self).wf(),
            block.round == 0 || block.qc.round < block.round,
        ensures
            final(self).wf(),
            lookup(old(self).blocks@, block.digest) is Some ==> *final(self) == *old(self),
            lookup(old(self).blocks@, block.digest) is None ==> final(self).blocks@ == old(
                self,
            ).blocks@.push(block) && lookup(final(self).blocks@, block.digest) == Some(block),
            forall|d: Digest|
                lookup(old(self).blocks@, d) is Some ==> lookup(final(self).blocks@, d) == lookup(
                    old(self).blocks@,
                    d,
                ),
    {
        let n = self.blocks.len();
        let mut i: usize = 0;
        proof {
            assert(self.blocks@.skip(0) =~= self.blocks@);
        }
        while i < n
            invariant
                *self == *old(self),
                self.wf(),
                n == self.blocks@.len(),
                0 <= i <= n,
                forall|j: int| 0 <= j < i ==> self.blocks@[j].digest != block.digest,
                lookup(self.blocks@, block.digest) == lookup(
                    self.blocks@.skip(i as int),
                    block.digest,
                ),
            decreases n - i,
        {
            proof {
                assert(self.blocks@.skip(i as int).drop_first() =~= self.blocks@.skip(i + 1));
                assert(self.blocks@.skip(i as int)[0] == self.blocks@[i as int]);
            }
            if self.blocks[i].digest == block.digest {
                return ;
            }
            i += 1;
        }
        proof {
            assert(self.blocks@.skip(n as int) =~= Seq::<Block>::empty());
        }
        self.blocks.push(block);
        proof {
            let s = old(self).blocks@;
            assert(forall|j: int| 0 <= j < s.len() ==> self.blocks@[j] == s[j]);
            assert(self.blocks@[s.len() as int] == block);
            lemma_lookup_push(s, block);
        }
    }
}

/// Appending a block resolves its own digest and leaves every digest that
/// already resolved as it was.
proof fn lemma_lookup_push(s: Seq<Block>, block: Block)
    ensures
        forall|d: Digest|
            lookup(s, d) is Some ==> #[trigger] lookup(s.push(block), d) == lookup(s, d),
        lookup(s, block.digest) is None ==> lookup(s.push(block), block.digest) == Some(block),
    decreases s.len(),
{
    if s.len() == 0 {
        assert(s.push(block)[0] == block);
        assert(s.push(block).drop_first() =~= Seq::<Block>::empty());
        assert(forall|d: Digest| lookup(s, d) is None);
    } else {
        assert(s.push(block)[0] == s[0]);
        assert(s.push(block).drop_first() =~= s.drop_first().push(block));
        lemma_lookup_push(s.drop_first(), block);
        assert forall|d: Digest| lookup(s, d) is Some implies #[trigger] lookup(s.push(block), d)
            == lookup(s, d) by {
            if s[0].digest == d {
                assert(lookup(s.push(block), d) == Some(s.push(block)[0]));
            } else {
                assert(lookup(s, d) == lookup(s.drop_first(), d));
                assert(lookup(s.push(block), d) == lookup(s.drop_first().push(block), d));
            }
        }
        if lookup(s, block.digest) is None {
            assert(s[0].digest != block.digest);
            assert(lookup(s.push(block), block.digest) == lookup(
                s.drop_first().push(block),
                block.digest,
            ));
        }
    }
}

impl QC {
    /// A field-for-field owned copy.
    pub fn duplicate(&self) -> (r: QC)
        ensures
            crate::messages::qc_equiv(r, *self),
    {
        let votes = crate::aggregator::copy_pairs(&self.votes);
        QC { hash: self.hash, round: self.round, votes }
    }
}

impl Block {
    /// A field-for-field owned copy.
    pub fn duplicate(&self) -> (r: Block)
        ensures
            crate::messages::block_equiv(r, *self),
    {
        let qc = self.qc.duplicate();
        let payload = copy_digests(&self.payload);
        Block {
            qc,
            author: self.author,
            round: self.round,
            payload,
            signature: self.signature,
            digest: self.digest,
        }
    }
}

/// A plain element-wise copy of a digest list.
pub fn copy_digests(v: &Vec<Digest>) -> (r: Vec<Digest>)
    ensures
        r@ == v@,
{
    let n = v.len();
    let mut out: Vec<Digest> = Vec::new();
    let mut i: usize = 0;
    while i < n
        invariant
            n == v@.len(),
            0 <= i <= n,
            out@ == v@.take(i as int),
        decreases n - i,
    {
        out.push(v[i]);
        proof {
            assert(v@.take(i as int).push(v@[i as int]) =~= v@.take(i + 1));
        }
        i += 1;
    }
    proof {
        assert(v@.take(n as int) =~= v@);
    }
    out
}

} // verus!
