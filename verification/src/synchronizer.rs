//! The ancestor synchronizer: proposals whose parent block is not stored yet
//! wait here, one copy per block, with at most one outstanding sync request
//! per missing digest. Once the parent arrives every waiting child comes
//! back out exactly once for reprocessing.

use vstd::prelude::*;
use crate::messages::{Block, Digest};

verus! {

/// The blocks of `s` waiting on parent digest `d`, in arrival order.
pub open spec fn pending_for(s: Seq<Block>, d: Digest) -> Seq<Block>
    decreases s.len(),
{
    if s.len() == 0 {
        Seq::empty()
    } else if s[0].qc.hash == d {
        seq![s[0]] + pending_for(s.drop_first(), d)
    } else {
        pending_for(s.drop_first(), d)
    }
}

/// The blocks of `s` not waiting on `d`, in arrival order.
pub open spec fn pending_not_for(s: Seq<Block>, d: Digest) -> Seq<Block>
    decreases s.len(),
{
    if s.len() == 0 {
        Seq::empty()
    } else if s[0].qc.hash == d {
        pending_not_for(s.drop_first(), d)
    } else {
        seq![s[0]] + pending_not_for(s.drop_first(), d)
    }
}

/// Whether a block with this digest is already buffered.
pub open spec fn buffered(s: Seq<Block>, digest: Digest) -> bool {
    exists|i: int| 0 <= i < s.len() && s[i].digest == digest
}

/// Whether a sync request for `d` is already outstanding.
pub open spec fn requested(rs: Seq<Digest>, d: Digest) -> bool {
    exists|i: int| 0 <= i < rs.len() && rs[i] == d
}

/// Buffers out-of-order blocks until their ancestors can be resolved.
pub struct Synchronizer {
    /// Blocks whose parent is missing, one per block digest.
    pub pending: Vec<Block>,
    /// Parent digests with one outstanding sync request each.
    pub outstanding: Vec<Digest>,
}

impl Synchronizer {
    pub open spec fn wf(self) -> bool {
        &&& forall|i: int, j: int|
            0 <= i < self.pending@.len() && 0 <= j < self.pending@.len() && i != j
                ==> self.pending@[i].digest != self.pending@[j].digest
        &&& forall|i: int, j: int|
            0 <= i < self.outstanding@.len() && 0 <= j < self.outstanding@.len() && i != j
                ==> self.outstanding@[i] != self.outstanding@[j]
    }

    pub fn new() -> (r: Synchronizer)
        ensures
            r.wf(),
            r.pending@.len() == 0,
            r.outstanding@.len() == 0,
    {
        Synchronizer { pending: Vec::new(), outstanding: Vec::new() }
    }

    /// Buffers `block` until its parent arrives. Returns whether a sync
    /// request for the parent digest must go out now: it must exactly when
    /// none is outstanding for that digest yet, so each missing digest has
    /// at most one request in flight. A block already buffered changes
    /// nothing and asks for nothing.
    pub fn buffer(&mut self, block: Block) -> (r: bool)
        requires
            old(self).wf(),
        ensures
            final(self).wf(),
            buffered(old(self).pending@, block.digest) ==> *final(self) == *old(self) && !r,
            !buffered(old(self).pending@, block.digest) ==> {
                &&& final(self).pending@ == old(self).pending@.push(block)
                &&& r == !requested(old(self).outstanding@, block.qc.hash)
                &&& (r ==> final(self).outstanding@ == old(self).outstanding@.push(block.qc.hash))
                &&& (!r ==> final(self).outstanding == old(self).outstanding)
            },
    {
        let n = self.pending.len();
        let mut i: usize = 0;
        while i < n
            invariant
                *self == *old(self),
                self.wf(),
                n == self.pending@.len(),
                0 <= i <= n,
                forall|j: int| 0 <= j < i ==> self.pending@[j].digest != block.digest,
            decreases n - i,
        {
            if self.pending[i].digest == block.digest {
                return false;
            }
            i += 1;
        }
        let m = self.outstanding.len();
        let mut k: usize = 0;
        let mut already: bool = false;
        while k < m
            invariant
                *self == *old(self),
                self.wf(),
                m == self.outstanding@.len(),
                0 <= k <= m,
                already == requested(self.outstanding@.take(k as int), block.qc.hash),
                forall|j: int| 0 <= j < self.pending@.len() ==> self.pending@[j].digest
                    != block.digest,
            decreases m - k,
        {
            if self.outstanding[k] == block.qc.hash {
                already = true;
            }
            proof {
                assert(self.outstanding@.take(k + 1)[k as int] == self.outstanding@[k as int]);
                assert(forall|j: int|
                    0 <= j < k ==> self.outstanding@.take(k + 1)[j] == self.outstanding@.take(
                        k as int,
                    )[j]);
            }
            k += 1;
        }
        proof {
            assert(self.outstanding@.take(m as int) =~= self.outstanding@);
        }
        let parent = block.qc.hash;
        self.pending.push(block);
        if already {
            false
        } else {
            self.outstanding.push(parent);
            proof {
                assert(forall|j: int|
                    0 <= j < m ==> self.outstanding@[j] == old(self).outstanding@[j]);
                assert(self.outstanding@[m as int] == block.qc.hash);
            }
            true
        }
    }

    /// The parent stored under `d` has arrived: hands back every block that
    /// waited on it, exactly once each and in arrival order, removes them
    /// from the buffer, and retires the outstanding request for `d`.
    pub fn parent_arrived(&mut self, d: Digest) -> (r: Vec<Block>)
        requires
            old(self).wf(),
        ensures
            final(self).wf(),
            r@ == pending_for(old(self).pending@, d),
            final(self).pending@ == pending_not_for(old(self).pending@, d),
            !requested(final(self).outstanding@, d),
            forall|x: Digest|
                x != d ==> requested(final(self).outstanding@, x) == requested(
                    old(self).outstanding@,
                    x,
                ),
    {
        let mut out: Vec<Block> = Vec::new();
        let mut keep: Vec<Block> = Vec::new();
        let n = self.pending.len();
        let mut i: usize = 0;
        while self.pending.len() > 0
            invariant
                n == old(self).pending@.len(),
                self.pending@ == old(self).pending@.skip(i as int),
                0 <= i <= n,
                self.pending@.len() == old(self).pending@.len() - i,
                out@ == pending_for(old(self).pending@.take(i as int), d),
                keep@ == pending_not_for(old(self).pending@.take(i as int), d),
                self.outstanding == old(self).outstanding,
                old(self).wf(),
            decreases self.pending@.len(),
        {
            let b = self.pending.remove(0);
            proof {
                assert(old(self).pending@.skip(i as int)[0] == old(self).pending@[i as int]);
                assert(old(self).pending@.skip(i as int).remove(0) =~= old(self).pending@.skip(
                    i + 1,
                ));
                lemma_pending_take_snoc(old(self).pending@, i as int, d);
            }
            if b.qc.hash == d {
                out.push(b);
            } else {
                keep.push(b);
            }
            i += 1;
        }
        proof {
            assert(old(self).pending@.take(i as int) =~= old(self).pending@);
            lemma_pending_not_for_distinct(old(self).pending@, d);
        }
        self.pending = keep;
        // Retire the outstanding request for this digest.
        let m = self.outstanding.len();
        let mut kept: Vec<Digest> = Vec::new();
        let mut k: usize = 0;
        while k < m
            invariant
                m == old(self).outstanding@.len(),
                0 <= k <= m,
                forall|j: int| 0 <= j < kept@.len() ==> kept@[j] != d,
                forall|j: int|
                    0 <= j < k && old(self).outstanding@[j] != d ==> requested(
                        kept@,
                        #[trigger] old(self).outstanding@[j],
                    ),
                forall|j: int| 0 <= j < kept@.len() ==> requested(
                    old(self).outstanding@,
                    #[trigger] kept@[j],
                ),
                forall|a: int, b2: int|
                    0 <= a < kept@.len() && 0 <= b2 < kept@.len() && a != b2 ==> kept@[a]
                        != kept@[b2],
                self.outstanding == old(self).outstanding,
            decreases m - k,
        {
            let x = self.outstanding[k];
            if x != d {
                let mut seen: bool = false;
                let kn = kept.len();
                let mut t: usize = 0;
                while t < kn
                    invariant
                        kn == kept@.len(),
                        0 <= t <= kn,
                        seen == requested(kept@.take(t as int), x),
                    decreases kn - t,
                {
                    if kept[t] == x {
                        seen = true;
                    }
                    proof {
                        assert(kept@.take(t + 1)[t as int] == kept@[t as int]);
                        assert(forall|j: int|
                            0 <= j < t ==> kept@.take(t + 1)[j] == kept@.take(t as int)[j]);
                    }
                    t += 1;
                }
                proof {
                    assert(kept@.take(kn as int) =~= kept@);
                }
                if !seen {
                    let ghost kept_before = kept@;
                    kept.push(x);
                    proof {
                        assert(forall|j: int|
                            0 <= j < kept_before.len() ==> kept@[j] == kept_before[j]);
                        assert(kept@[kept_before.len() as int] == x);
                        assert(old(self).outstanding@[k as int] == x);
                        assert forall|y: u64| requested(kept_before, y) implies requested(
                            kept@,
                            y,
                        ) by {
                            let w = choose|w: int|
                                0 <= w < kept_before.len() && kept_before[w] == y;
                            assert(kept@[w] == y);
                        }
                    }
                }
            }
            k += 1;
        }
        self.outstanding = kept;
        proof {
            assert forall|x: Digest|
                x != d && requested(old(self).outstanding@, x) implies requested(
                self.outstanding@,
                x,
            ) by {
                let w = choose|w: int|
                    0 <= w < old(self).outstanding@.len() && old(self).outstanding@[w] == x;
            }
        }
        out
    }
}

/// The two partitions cover the buffer exactly.
pub proof fn lemma_pending_partition(s: Seq<Block>, d: Digest)
    ensures
        pending_for(s, d).len() + pending_not_for(s, d).len() == s.len(),
    decreases s.len(),
{
    if s.len() > 0 {
        lemma_pending_partition(s.drop_first(), d);
    }
}

/// Nothing waits on `d` exactly when no buffered block's parent is `d`.
pub proof fn lemma_pending_for_empty(s: Seq<Block>, d: Digest)
    ensures
        (pending_for(s, d).len() == 0) <==> (forall|i: int|
            0 <= i < s.len() ==> s[i].qc.hash != d),
    decreases s.len(),
{
    if s.len() > 0 {
        let rest = s.drop_first();
        assert(forall|i: int| 0 <= i < rest.len() ==> rest[i] == s[i + 1]);
        lemma_pending_for_empty(rest, d);
        if s[0].qc.hash == d {
            assert(pending_for(s, d) == seq![s[0]] + pending_for(rest, d));
            assert(pending_for(s, d).len() >= 1);
        } else {
            assert(pending_for(s, d) == pending_for(rest, d));
            if forall|i: int| 0 <= i < rest.len() ==> rest[i].qc.hash != d {
                assert forall|i: int| 0 <= i < s.len() implies s[i].qc.hash != d by {
                    if i > 0 {
                        assert(rest[i - 1] == s[i]);
                    }
                }
            }
            if pending_for(s, d).len() != 0 {
                let w = choose|w: int| 0 <= w < rest.len() && rest[w].qc.hash == d;
                assert(s[w + 1].qc.hash == d);
            }
        }
    }
}

/// What the partition keeps waits on other digests than `d`.
pub proof fn lemma_pending_not_for_clean(s: Seq<Block>, d: Digest)
    ensures
        forall|i: int|
            0 <= i < pending_not_for(s, d).len() ==> (#[trigger] pending_not_for(s, d)[i]).qc.hash
                != d,
    decreases s.len(),
{
    if s.len() > 0 {
        let rest = s.drop_first();
        lemma_pending_not_for_clean(rest, d);
        let p = pending_not_for(s, d);
        let pr = pending_not_for(rest, d);
        if s[0].qc.hash == d {
            assert(p == pr);
        } else {
            assert(p == seq![s[0]] + pr);
            assert(p[0] == s[0]);
            assert(forall|i: int| 1 <= i < p.len() ==> p[i] == pr[i - 1]);
        }
    }
}

/// Every block kept by the partition was in the buffer.
pub proof fn lemma_pending_not_for_membership(s: Seq<Block>, d: Digest)
    ensures
        forall|i: int|
            0 <= i < pending_not_for(s, d).len() ==> exists|j: int|
                0 <= j < s.len() && s[j] == #[trigger] pending_not_for(s, d)[i],
    decreases s.len(),
{
    if s.len() > 0 {
        let rest = s.drop_first();
        assert(forall|i: int| 0 <= i < rest.len() ==> rest[i] == s[i + 1]);
        lemma_pending_not_for_membership(rest, d);
        let p = pending_not_for(s, d);
        let pr = pending_not_for(rest, d);
        if s[0].qc.hash == d {
            assert(p == pr);
            assert forall|i: int| 0 <= i < p.len() implies exists|j: int|
                0 <= j < s.len() && s[j] == #[trigger] p[i] by {
                let j = choose|j: int| 0 <= j < rest.len() && rest[j] == pr[i];
                assert(s[j + 1] == p[i]);
            }
        } else {
            assert(p == seq![s[0]] + pr);
            assert(p[0] == s[0]);
            assert(forall|i: int| 1 <= i < p.len() ==> p[i] == pr[i - 1]);
            assert forall|i: int| 0 <= i < p.len() implies exists|j: int|
                0 <= j < s.len() && s[j] == #[trigger] p[i] by {
                if i == 0 {
                    assert(s[0] == p[0]);
                } else {
                    let j = choose|j: int| 0 <= j < rest.len() && rest[j] == pr[i - 1];
                    assert(s[j + 1] == p[i]);
                }
            }
        }
    }
}

/// Extending the scanned prefix by one block extends exactly one of the two
/// partitions by that block.
proof fn lemma_pending_take_snoc(s: Seq<Block>, i: int, d: Digest)
    requires
        0 <= i < s.len(),
    ensures
        pending_for(s.take(i + 1), d) == (if s[i].qc.hash == d {
            pending_for(s.take(i), d).push(s[i])
        } else {
            pending_for(s.take(i), d)
        }),
        pending_not_for(s.take(i + 1), d) == (if s[i].qc.hash == d {
            pending_not_for(s.take(i), d)
        } else {
            pending_not_for(s.take(i), d).push(s[i])
        }),
    decreases i,
{
    if i == 0 {
        assert(s.take(1)[0] == s[0]);
        assert(s.take(1).drop_first() =~= Seq::<Block>::empty());
        assert(pending_for(Seq::<Block>::empty(), d) =~= Seq::<Block>::empty());
        assert(pending_not_for(Seq::<Block>::empty(), d) =~= Seq::<Block>::empty());
        assert(s.take(0) =~= Seq::<Block>::empty());
        if s[0].qc.hash == d {
            assert(pending_for(s.take(1), d) =~= pending_for(s.take(0), d).push(s[0]));
            assert(pending_not_for(s.take(1), d) =~= pending_not_for(s.take(0), d));
        } else {
            assert(pending_for(s.take(1), d) =~= pending_for(s.take(0), d));
            assert(pending_not_for(s.take(1), d) =~= pending_not_for(s.take(0), d).push(s[0]));
        }
    } else {
        assert(s.take(i + 1)[0] == s[0]);
        assert(s.take(i)[0] == s[0]);
        assert(s.take(i + 1).drop_first() =~= s.drop_first().take(i));
        assert(s.take(i).drop_first() =~= s.drop_first().take(i - 1));
        assert(s.drop_first()[i - 1] == s[i]);
        lemma_pending_take_snoc(s.drop_first(), i - 1, d);
        if s[i].qc.hash == d {
            assert(pending_for(s.take(i + 1), d) =~= pending_for(s.take(i), d).push(s[i]));
            assert(pending_not_for(s.take(i + 1), d) =~= pending_not_for(s.take(i), d));
        } else {
            assert(pending_for(s.take(i + 1), d) =~= pending_for(s.take(i), d));
            assert(pending_not_for(s.take(i + 1), d) =~= pending_not_for(s.take(i), d).push(
                s[i],
            ));
        }
    }
}

/// What stays behind keeps distinct digests.
proof fn lemma_pending_not_for_distinct(s: Seq<Block>, d: Digest)
    requires
        forall|i: int, j: int|
            0 <= i < s.len() && 0 <= j < s.len() && i != j ==> s[i].digest != s[j].digest,
    ensures
        forall|i: int, j: int|
            0 <= i < pending_not_for(s, d).len() && 0 <= j < pending_not_for(s, d).len() && i != j
                ==> pending_not_for(s, d)[i].digest != pending_not_for(s, d)[j].digest,
        forall|i: int|
            0 <= i < pending_not_for(s, d).len() ==> exists|j: int|
                0 <= j < s.len() && s[j] == #[trigger] pending_not_for(s, d)[i],
    decreases s.len(),
{
    if s.len() > 0 {
        let rest = s.drop_first();
        assert(forall|i: int| 0 <= i < rest.len() ==> rest[i] == s[i + 1]);
        lemma_pending_not_for_distinct(rest, d);
        let p = pending_not_for(s, d);
        let pr = pending_not_for(rest, d);
        if s[0].qc.hash == d {
            assert(p == pr);
            assert forall|i: int| 0 <= i < p.len() implies exists|j: int|
                0 <= j < s.len() && s[j] == #[trigger] p[i] by {
                let j = choose|j: int| 0 <= j < rest.len() && rest[j] == pr[i];
                assert(s[j + 1] == p[i]);
            }
        } else {
            assert(p == seq![s[0]] + pr);
            assert(p[0] == s[0]);
            assert(forall|i: int| 1 <= i < p.len() ==> p[i] == pr[i - 1]);
            assert forall|i: int| 0 <= i < p.len() implies exists|j: int|
                0 <= j < s.len() && s[j] == #[trigger] p[i] by {
                if i == 0 {
                    assert(s[0] == p[0]);
                } else {
                    let j = choose|j: int| 0 <= j < rest.len() && rest[j] == pr[i - 1];
                    assert(s[j + 1] == p[i]);
                }
            }
            assert forall|i: int, j: int|
                0 <= i < p.len() && 0 <= j < p.len() && i != j implies p[i].digest
                != p[j].digest by {
                if i != 0 && j != 0 {
                } else {
                    let a = if i == 0 {
                        j
                    } else {
                        i
                    };
                    let ja = choose|w: int| 0 <= w < rest.len() && rest[w] == pr[a - 1];
                    assert(s[ja + 1] == p[a]);
                    assert(s[0].digest != s[ja + 1].digest);
                }
            }
        }
    }
}

} // verus!
