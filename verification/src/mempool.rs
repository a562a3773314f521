//! The mempool driver: the consensus-side view of the mempool. Payload
//! digests stream in; the proposer polls one off without blocking; committed
//! payloads are removed, and removing a digest the queue no longer holds is
//! a no-op.

use vstd::prelude::*;
use crate::messages::Digest;

verus! {

/// Whether `d` occurs in `q`.
pub open spec fn queue_holds(q: Seq<Digest>, d: Digest) -> bool {
    exists|i: int| 0 <= i < q.len() && q[i] == d
}

/// `q` without every digest that occurs in `ds`.
pub open spec fn queue_without(q: Seq<Digest>, ds: Seq<Digest>) -> Seq<Digest>
    decreases q.len(),
{
    if q.len() == 0 {
        Seq::empty()
    } else if queue_holds(ds, q[0]) {
        queue_without(q.drop_first(), ds)
    } else {
        seq![q[0]] + queue_without(q.drop_first(), ds)
    }
}

/// Bridges the consensus round to the mempool's digest stream.
pub struct MempoolDriver {
    /// Payload digests waiting to be proposed, newest last.
    pub queue: Vec<Digest>,
}

impl MempoolDriver {
    pub fn new() -> (r: MempoolDriver)
        ensures
            r.queue@.len() == 0,
    {
        MempoolDriver { queue: Vec::new() }
    }

    /// A fresh digest arrived from the mempool.
    pub fn add_digest(&mut self, d: Digest)
        ensures
            final(self).queue@ == old(self).queue@.push(d),
    {
        self.queue.push(d);
    }

    /// A non-blocking poll for payload: the newest digest if one waits,
    /// nothing otherwise.
    pub fn get_payload(&mut self) -> (r: Option<Digest>)
        ensures
            r is Some <==> old(self).queue@.len() > 0,
            old(self).queue@.len() > 0 ==> r == Some(old(self).queue@.last())
                && final(self).queue@ == old(self).queue@.drop_last(),
            old(self).queue@.len() == 0 ==> *final(self) == *old(self),
    {
        if self.queue.len() == 0 {
            return None;
        }
        self.queue.pop()
    }

    /// A block was committed: drop its payload digests. Digests no longer
    /// queued are skipped, so removal is idempotent.
    pub fn remove_committed(&mut self, payload: &Vec<Digest>)
        ensures
            final(self).queue@ == queue_without(old(self).queue@, payload@),
    {
        let n = self.queue.len();
        let mut kept: Vec<Digest> = Vec::new();
        let mut i: usize = 0;
        while i < n
            invariant
                n == self.queue@.len(),
                0 <= i <= n,
                self.queue == old(self).queue,
                kept@ == queue_without(self.queue@.take(i as int), payload@),
            decreases n - i,
        {
            let d = self.queue[i];
            let m = payload.len();
            let mut hit: bool = false;
            let mut j: usize = 0;
            while j < m
                invariant
                    m == payload@.len(),
                    0 <= j <= m,
                    hit == queue_holds(payload@.take(j as int), d),
                decreases m - j,
            {
                if payload[j] == d {
                    hit = true;
                }
                proof {
                    assert(payload@.take(j + 1)[j as int] == payload@[j as int]);
                    assert(forall|w: int|
                        0 <= w < j ==> payload@.take(j + 1)[w] == payload@.take(j as int)[w]);
                }
                j += 1;
            }
            proof {
                assert(payload@.take(m as int) =~= payload@);
            }
            if !hit {
                kept.push(d);
            }
            proof {
                lemma_queue_without_snoc(self.queue@, i as int, payload@);
            }
            i += 1;
        }
        proof {
            assert(self.queue@.take(n as int) =~= self.queue@);
        }
        self.queue = kept;
    }
}

/// Scanning one more digest keeps it exactly when the committed payload
/// does not hold it.
proof fn lemma_queue_without_snoc(q: Seq<Digest>, i: int, ds: Seq<Digest>)
    requires
        0 <= i < q.len(),
    ensures
        queue_without(q.take(i + 1), ds) == (if queue_holds(ds, q[i]) {
            queue_without(q.take(i), ds)
        } else {
            queue_without(q.take(i), ds).push(q[i])
        }),
    decreases i,
{
    if i == 0 {
        assert(q.take(1)[0] == q[0]);
        assert(q.take(1).drop_first() =~= Seq::<Digest>::empty());
        assert(queue_without(Seq::<Digest>::empty(), ds) =~= Seq::<Digest>::empty());
        assert(q.take(0) =~= Seq::<Digest>::empty());
        if queue_holds(ds, q[0]) {
            assert(queue_without(q.take(1), ds) =~= queue_without(q.take(0), ds));
        } else {
            assert(queue_without(q.take(1), ds) =~= queue_without(q.take(0), ds).push(q[0]));
        }
    } else {
        assert(q.take(i + 1)[0] == q[0]);
        assert(q.take(i)[0] == q[0]);
        assert(q.take(i + 1).drop_first() =~= q.drop_first().take(i));
        assert(q.take(i).drop_first() =~= q.drop_first().take(i - 1));
        assert(q.drop_first()[i - 1] == q[i]);
        lemma_queue_without_snoc(q.drop_first(), i - 1, ds);
        if queue_holds(ds, q[i]) {
            assert(queue_without(q.take(i + 1), ds) =~= queue_without(q.take(i), ds));
        } else {
            assert(queue_without(q.take(i + 1), ds) =~= queue_without(q.take(i), ds).push(q[i]));
        }
    }
}

} // verus!
