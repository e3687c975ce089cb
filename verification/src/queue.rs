//! The request queue: an ordered collection of admitted requests
//! awaiting a batch, and the batch-assembly primitive.
//!
//! Ids are assigned in strictly increasing order at append time, and
//! batch assembly scans in id order (FIFO). Entries whose client has
//! disconnected are pruned — removed and dropped, which closes their
//! stream — only when `next_batch` is consulted.

use vstd::prelude::*;
use crate::channel::ResponseStream;
use crate::entry::{Entry, LiveEntry};
use crate::request::{Batch, Request, ValidRequest};
use crate::stream::StreamItem;
use tokio::sync::mpsc::UnboundedSender;

verus! {

/// Entries ordered by strictly increasing id.
pub open spec fn ids_strictly_sorted(s: Seq<Entry>) -> bool {
    forall|i: int, j: int| 0 <= i < j < s.len() ==> s[i].id < s[j].id
}

/// Live entries ordered by strictly increasing id.
pub open spec fn live_ids_strictly_sorted(s: Seq<LiveEntry>) -> bool {
    forall|i: int, j: int| 0 <= i < j < s.len() ==> s[i].id < s[j].id
}

/// The live entry and its batch request stem from one entry of `s`:
/// same id, stream handle, queueing mark and validated payload.
pub open spec fn stems_from(s: Seq<Entry>, le: LiveEntry, req: Request) -> bool {
    exists|j: int|
        0 <= j < s.len() && le.id == s[j].id && le.queued_at == s[j].queued_at
            && le.stream.sender() == s[j].stream.sender() && req.request == s[j].request
}

/// The minimum batch size a `next_batch` call must reach to hand a
/// batch out: at least one entry, and at least `min_size` if set.
pub open spec fn batch_threshold(min_size: Option<usize>) -> int {
    match min_size {
        Some(m) => if m == 0 { 1int } else { m as int },
        None => 1int,
    }
}

/// Ordered mapping from id to entry, plus the id counters.
pub struct Queue {
    pub entries: Vec<Entry>,
    /// The id the next appended entry receives.
    pub next_id: u64,
    /// The id the next assembled batch descriptor receives.
    pub next_batch_id: u64,
}

impl Queue {
    /// Queue well-formedness: entries stand in strictly increasing id
    /// order, all below the next id to be assigned.
    pub open spec fn wf(self) -> bool {
        &&& ids_strictly_sorted(self.entries@)
        &&& forall|i: int| 0 <= i < self.entries@.len()
            ==> (#[trigger] self.entries@[i]).id < self.next_id
                && self.entries@[i].stream.history().len() == 0
    }

    pub fn new() -> (q: Queue)
        ensures
            q.wf(),
            q.entries@.len() == 0,
            q.next_id == 0,
            q.next_batch_id == 0,
    {
        Queue { entries: Vec::new(), next_id: 0, next_batch_id: 0 }
    }

    /// Appends an admitted request, assigning it the next id.
    ///
    /// Law: ids are strictly increasing — the returned id is strictly
    /// above every id already in the queue, and the counter moves past
    /// it.
    pub fn append(
        &mut self,
        request: ValidRequest,
        response_tx: UnboundedSender<StreamItem>,
        now: u64,
    ) -> (id: u64)
        requires
            old(self).wf(),
            old(self).next_id < u64::MAX,
        ensures
            final(self).wf(),
            id == old(self).next_id,
            final(self).next_id == id + 1,
            final(self).next_batch_id == old(self).next_batch_id,
            final(self).entries@.len() == old(self).entries@.len() + 1,
            final(self).entries@.last().id == id,
            final(self).entries@.last().queued_at == now,
            // the stored entry carries exactly the given payload and
            // channel, and nothing has been pushed on its stream.
            final(self).entries@.last().request == request,
            final(self).entries@.last().stream.sender() == response_tx,
            final(self).entries@.last().stream.history() == Seq::<StreamItem>::empty(),
            forall|i: int| 0 <= i < old(self).entries@.len()
                ==> final(self).entries@[i] == old(self).entries@[i]
                    && (#[trigger] old(self).entries@[i]).id < id,
    {
        let id = self.next_id;
        self.next_id = id + 1;
        let stream = ResponseStream::new(response_tx);
        self.entries.push(Entry { id, request, stream, queued_at: now });
        id
    }

    /// Law: ids are assigned in strictly increasing order, so in
    /// queue order every later entry carries a larger id.
    pub proof fn lemma_ids_strictly_increasing(self, i: int, j: int)
        requires
            self.wf(),
            0 <= i < j < self.entries@.len(),
        ensures
            self.entries@[i].id < self.entries@[j].id,
    {
    }

    /// Scans entries in id order, pruning any whose client has
    /// disconnected, and accumulates up to `max_size` live entries.
    /// If fewer than `min_size` are found nothing is consumed beyond
    /// the pruning; otherwise the accumulated entries move into a
    /// batch: each becomes a `LiveEntry` marked as starting now, and
    /// the descriptor carries their validated requests in id order.
    ///
    /// Returns the batch (if the threshold was met) and how many
    /// entries were pruned. Whether a given entry is pruned depends on
    /// its client, so the contract holds for every pruning outcome.
    pub fn next_batch(&mut self, min_size: Option<usize>, max_size: usize, now: u64) -> (r: (
        Option<(Vec<LiveEntry>, Batch)>,
        usize,
    ))
        requires
            old(self).wf(),
            1 <= max_size,
            (min_size matches Some(m) ==> m <= max_size),
            old(self).next_batch_id < u64::MAX,
        ensures
            final(self).wf(),
            final(self).next_id == old(self).next_id,
            r.1 <= old(self).entries@.len(),
            // pruned entries are gone for good; kept ones are unchanged
            // members of the old queue.
            forall|k: int| 0 <= k < final(self).entries@.len()
                ==> old(self).entries@.contains(#[trigger] final(self).entries@[k]),
            // a batch is handed out exactly when enough live entries
            // were found.
            (r.0 is Some) <==> old(self).entries@.len() - r.1 >= batch_threshold(min_size),
            r.0 is None ==> final(self).next_batch_id == old(self).next_batch_id
                && final(self).entries@.len() + r.1 == old(self).entries@.len(),
            r.0 matches Some((live, batch)) ==> {
                &&& final(self).next_batch_id == old(self).next_batch_id + 1
                &&& batch.id == old(self).next_batch_id
                &&& batch.size == live@.len()
                &&& batch.requests@.len() == live@.len()
                &&& 1 <= live@.len() <= max_size
                &&& (min_size matches Some(m) ==> live@.len() >= m)
                &&& final(self).entries@.len() + r.1 + live@.len() == old(self).entries@.len()
                &&& live_ids_strictly_sorted(live@)
                &&& (forall|t: int| 0 <= t < live@.len()
                    ==> (#[trigger] live@[t]).batch_started_at == now
                        && live@[t].history() == Seq::<StreamItem>::empty()
                        && live@[t].id == batch.requests@[t].id)
                // every selected entry stems from the old queue,
                // carrying its stream handle, queueing mark and
                // validated payload with it ...
                &&& (forall|t: int| 0 <= t < live@.len()
                    ==> #[trigger] stems_from(old(self).entries@, live@[t], batch.requests@[t]))
                // ... and stands below every id still queued.
                &&& (forall|t: int, l: int|
                    0 <= t < live@.len() && 0 <= l < final(self).entries@.len()
                        ==> (#[trigger] live@[t]).id < (#[trigger] final(self).entries@[l]).id)
                // ... bounded by the id counter and the oldest queued
                // id, as FIFO order demands.
                &&& (forall|t: int| 0 <= t < live@.len()
                    ==> (#[trigger] live@[t]).id < old(self).next_id
                        && live@[t].id >= old(self).entries@[0].id)
            },
    {
        let ghost initial = self.entries@;
        let n0 = self.entries.len();
        // Pruning pass: walk forward, dropping disconnected entries,
        // until `max_size` live entries stand at the front or the
        // queue is exhausted.
        let mut i: usize = 0;
        let mut pruned: usize = 0;
        while i < self.entries.len() && i < max_size
            invariant
                i <= self.entries@.len(),
                i <= max_size,
                n0 == initial.len(),
                self.entries@.len() + pruned == n0,
                ids_strictly_sorted(self.entries@),
                forall|k: int| 0 <= k < self.entries@.len()
                    ==> (#[trigger] self.entries@[k]).id < self.next_id,
                forall|k: int| 0 <= k < self.entries@.len()
                    ==> initial.contains(#[trigger] self.entries@[k]),
                self.next_id == old(self).next_id,
                self.next_batch_id == old(self).next_batch_id,
            decreases self.entries@.len() - i,
        {
            if self.entries[i].stream.is_closed() {
                let ghost before = self.entries@;
                let _dropped = self.entries.remove(i);
                pruned = pruned + 1;
                proof {
                    assert forall|k: int| 0 <= k < self.entries@.len()
                        implies initial.contains(#[trigger] self.entries@[k]) by {
                        if k < i {
                            assert(self.entries@[k] == before[k]);
                        } else {
                            assert(self.entries@[k] == before[k + 1]);
                        }
                    }
                    assert forall|a: int, b: int| 0 <= a < b < self.entries@.len()
                        implies self.entries@[a].id < self.entries@[b].id by {
                        let a0 = if a < i { a } else { a + 1 };
                        let b0 = if b < i { b } else { b + 1 };
                        assert(self.entries@[a] == before[a0]);
                        assert(self.entries@[b] == before[b0]);
                    }
                }
            } else {
                i = i + 1;
            }
        }
        // `i` live entries stand at the front now.
        if i == 0 {
            return (None, pruned);
        }
        match min_size {
            Some(m) => {
                if i < m {
                    return (None, pruned);
                }
            },
            None => {},
        }
        // Selection pass: move the first `i` entries into the batch.
        let ghost mid = self.entries@;
        let mut live: Vec<LiveEntry> = Vec::new();
        let mut requests: Vec<Request> = Vec::new();
        let mut k: usize = 0;
        while k < i
            invariant
                k <= i <= mid.len(),
                live@.len() == k,
                requests@.len() == k,
                self.entries@ =~= mid.subrange(k as int, mid.len() as int),
                ids_strictly_sorted(mid),
                forall|t: int| 0 <= t < k
                    ==> (#[trigger] live@[t]).id == mid[t].id
                        && live@[t].batch_started_at == now
                        && live@[t].stream == mid[t].stream
                        && live@[t].queued_at == mid[t].queued_at
                        && requests@[t].id == mid[t].id
                        && requests@[t].request == mid[t].request,
                self.next_id == old(self).next_id,
                self.next_batch_id == old(self).next_batch_id,
            decreases i - k,
        {
            let e = self.entries.remove(0);
            proof {
                assert(e == mid[k as int]);
                assert(self.entries@ =~= mid.subrange(k + 1, mid.len() as int));
            }
            let (le, req) = LiveEntry::begin_batch(e, now);
            let ghost gle = le;
            let ghost greq = req;
            live.push(le);
            requests.push(req);
            proof {
                assert forall|t: int| 0 <= t < k + 1
                    implies (#[trigger] live@[t]).id == mid[t].id
                        && live@[t].batch_started_at == now
                        && live@[t].stream == mid[t].stream
                        && live@[t].queued_at == mid[t].queued_at
                        && requests@[t].id == mid[t].id
                        && requests@[t].request == mid[t].request by {
                    if t == k {
                        assert(live@[t] == gle);
                        assert(requests@[t] == greq);
                    }
                }
            }
            k = k + 1;
        }
        let size = i;
        let batch = Batch { id: self.next_batch_id, requests, size };
        self.next_batch_id = self.next_batch_id + 1;
        proof {
            // The remaining queue is the unscanned suffix: still
            // sorted, still below `next_id`, still members of the old
            // queue.
            assert forall|k: int| 0 <= k < self.entries@.len()
                implies initial.contains(#[trigger] self.entries@[k])
                    && (#[trigger] self.entries@[k]).id < self.next_id by {
                assert(self.entries@[k] == mid[k + i]);
                assert(initial.contains(mid[k + i]));
            }
            assert forall|a: int, b: int| 0 <= a < b < self.entries@.len()
                implies self.entries@[a].id < self.entries@[b].id by {
                assert(self.entries@[a] == mid[a + i]);
                assert(self.entries@[b] == mid[b + i]);
            }
            assert forall|t: int| 0 <= t < live@.len()
                implies #[trigger] stems_from(old(self).entries@, live@[t], batch.requests@[t]) by {
                assert(initial == old(self).entries@);
                assert(old(self).entries@.contains(mid[t]));
                let j = choose|j: int|
                    0 <= j < old(self).entries@.len() && old(self).entries@[j] == mid[t];
                assert(0 <= j < old(self).entries@.len()
                    && live@[t].id == old(self).entries@[j].id
                    && live@[t].queued_at == old(self).entries@[j].queued_at
                    && live@[t].stream.sender() == old(self).entries@[j].stream.sender()
                    && batch.requests@[t].request == old(self).entries@[j].request);
            }
            assert forall|t: int, l: int|
                0 <= t < live@.len() && 0 <= l < self.entries@.len()
                implies (#[trigger] live@[t]).id < (#[trigger] self.entries@[l]).id by {
                assert(self.entries@[l] == mid[l + i]);
                assert(mid[t].id < mid[l + i].id);
            }
            assert forall|a: int, b: int| 0 <= a < b < live@.len()
                implies live@[a].id < live@[b].id by {
                assert(mid[a].id < mid[b].id);
            }
            assert forall|t: int| 0 <= t < live@.len()
                implies (#[trigger] live@[t]).id < old(self).next_id
                    && live@[t].id >= old(self).entries@[0].id by {
                assert(live@[t].id == mid[t].id);
                assert(old(self).entries@.contains(mid[t]));
                let j = choose|j: int|
                    0 <= j < old(self).entries@.len() && old(self).entries@[j] == mid[t];
                if j > 0 {
                    assert(old(self).entries@[0].id < old(self).entries@[j].id);
                }
            }
        }
        (Some((live, batch)), pruned)
    }
}

} // verus!
