//! The inference core: the admission gate, the request queue and the
//! dispatcher's batching state machine in one structure.
//!
//! HTTP handlers admit, validate and enqueue through the facade
//! methods; a single dispatcher drives `step`, which consumes one
//! awaited outcome (a notification, or a backend call's result) and
//! says which backend call to make next. All scheduling decisions —
//! batch assembly, the in-flight extension policy, abort on failure —
//! are made here; the caller only awaits and reports back.

use vstd::prelude::*;
use crate::stream::StreamItem;
use crate::dispatch::{
    all_fresh, all_open, check_gens_distinct, check_gens_target, check_no_prefill,
    count_terminal_gens, covers, delivered_some, gens_distinct, gens_target, no_prefill_payloads,
    send_error_all, send_generations,
};
use crate::entry::{Entry, LiveEntry};
use crate::queue::{live_ids_strictly_sorted, stems_from, Queue};
use crate::request::{Batch, Generation, ValidRequest};
use crate::stream::{ended_stream, errored_stream, open_stream, terminal_count, InferError};
use tokio::sync::mpsc::UnboundedSender;

verus! {

/// Where the dispatcher stands in its batching loop.
#[derive(Clone, Copy)]
pub enum Phase {
    /// No batch is running; the dispatcher awaits a notification.
    Idle,
    /// A freshly assembled batch sits in the backend's prefill call.
    Prefilling,
    /// The running batch waits while newly queued entries sit in an
    /// extension prefill call.
    Extending,
    /// The running batch sits in a decode call.
    Decoding,
}

/// One awaited outcome, handed to `step` by the dispatcher loop.
pub enum InferEvent {
    /// The facade appended at least one request since the last wait.
    Notified,
    /// The pending backend call returned: one generation per
    /// still-alive request, and a cached descriptor if part of the
    /// batch still generates.
    Completed { generations: Vec<Generation>, cached: Option<Batch> },
    /// The pending backend call failed.
    Failed { message: String },
}

/// What the dispatcher loop must do next.
pub enum Action {
    /// Await the next notification.
    Wait,
    /// Call `backend.prefill` with this batch.
    Prefill(Batch),
    /// Call `backend.decode` with these cached descriptors.
    Decode(Vec<Batch>),
}

/// Every batched id lies strictly below the bound.
pub open spec fn batched_below(v: Seq<LiveEntry>, b: int) -> bool {
    forall|i: int| 0 <= i < v.len() ==> (#[trigger] v[i]).id < b
}

/// The batch `b` and the live entries `v` were assembled from the
/// queue `q`: position by position, the entry and its request stem
/// from one queued entry, agree on the id, and carry the batch-start
/// mark taken now.
pub open spec fn batch_from_queue(q: Seq<Entry>, v: Seq<LiveEntry>, b: Batch, now: u64) -> bool {
    &&& b.size == v.len()
    &&& b.requests.len() == v.len()
    &&& forall|t: int| 0 <= t < v.len()
        ==> #[trigger] stems_from(q, v[t], b.requests[t]) && v[t].batch_started_at == now
            && v[t].id == b.requests[t].id
}

/// Ghost evidence of one dispatcher turn: the delivery chain over
/// the batch the event addressed, and the full histories of every
/// stream the turn closed.
pub struct StepTrace {
    /// One state of the addressed batch per delivered generation,
    /// starting from its state when the event arrived.
    pub trace: Seq<Seq<LiveEntry>>,
    /// The closed streams' complete histories.
    pub closed: Seq<Seq<StreamItem>>,
}

pub struct Infer {
    /// Configuration: cap on concurrently admitted requests.
    pub max_concurrent_requests: usize,
    /// Configuration: largest batch handed to `backend.prefill`.
    pub max_batch_size: usize,
    /// Configuration: decode steps after which a starving extension
    /// is accepted whatever its size.
    pub max_waiting_tokens: usize,
    /// Admission permits issued and not yet released.
    pub permits: usize,
    /// Permits whose requests are still being validated, not yet
    /// enqueued.
    pub admitted_pending: usize,
    /// Admitted requests awaiting a batch.
    pub queue: Queue,
    pub phase: Phase,
    /// The running batch's entries.
    pub view: Vec<LiveEntry>,
    /// Extension entries awaiting their prefill outcome.
    pub pending_view: Vec<LiveEntry>,
    /// The running batch's cached descriptor, held while an extension
    /// prefill is in flight.
    pub held_batches: Vec<Batch>,
    /// Decode steps since the running batch last took on entries.
    pub waiting_tokens: usize,
    /// Ghost: every batched id lies below this bound, every queued id
    /// at or above it.
    pub boundary: Ghost<int>,
}

impl Infer {
    /// How many admitted requests are alive: queued or batched.
    pub open spec fn live_len(self) -> nat {
        self.queue.entries@.len() + self.view@.len() + self.pending_view@.len()
    }

    /// The core's invariant. Admission accounting is exact — permits
    /// equal live entries plus holders still validating, and never
    /// exceed the cap. Batched ids lie below every queued id, each
    /// region in strictly increasing order, and every live stream is
    /// still open.
    pub open spec fn wf(self) -> bool {
        &&& 1 <= self.max_batch_size
        &&& self.queue.wf()
        &&& live_ids_strictly_sorted(self.view@)
        &&& live_ids_strictly_sorted(self.pending_view@)
        &&& all_open(self.view@)
        &&& all_fresh(self.pending_view@)
        &&& self.live_len() + self.admitted_pending == self.permits
        &&& self.permits <= self.max_concurrent_requests
        &&& batched_below(self.view@, self.boundary@)
        &&& batched_below(self.pending_view@, self.boundary@)
        &&& self.boundary@ <= self.queue.next_id
        &&& (forall|i: int| 0 <= i < self.queue.entries@.len()
            ==> (#[trigger] self.queue.entries@[i]).id >= self.boundary@)
        &&& (forall|i: int, j: int|
            0 <= i < self.view@.len() && 0 <= j < self.pending_view@.len()
                ==> self.view@[i].id < self.pending_view@[j].id)
        &&& match self.phase {
            Phase::Idle => self.view@.len() == 0 && self.pending_view@.len() == 0
                && self.held_batches@.len() == 0,
            Phase::Prefilling => all_fresh(self.view@) && self.pending_view@.len() == 0
                && self.held_batches@.len() == 0,
            Phase::Extending => self.held_batches@.len() == 1,
            Phase::Decoding => self.pending_view@.len() == 0 && self.held_batches@.len() == 0,
        }
    }

    /// A fresh core: nothing admitted, nothing queued, dispatcher
    /// idle.
    pub fn new(
        max_batch_size: usize,
        max_waiting_tokens: usize,
        max_concurrent_requests: usize,
    ) -> (inf: Infer)
        requires
            1 <= max_batch_size,
        ensures
            inf.wf(),
            inf.phase is Idle,
            inf.permits == 0,
            inf.admitted_pending == 0,
            inf.queue.entries@.len() == 0,
            inf.queue.next_id == 0,
            inf.max_batch_size == max_batch_size,
            inf.max_waiting_tokens == max_waiting_tokens,
            inf.max_concurrent_requests == max_concurrent_requests,
    {
        Infer {
            max_concurrent_requests,
            max_batch_size,
            max_waiting_tokens,
            permits: 0,
            admitted_pending: 0,
            queue: Queue::new(),
            phase: Phase::Idle,
            view: Vec::new(),
            pending_view: Vec::new(),
            held_batches: Vec::new(),
            waiting_tokens: 1,
            boundary: Ghost(0),
        }
    }

    /// Law: the admission gate never oversubscribes — a permit is
    /// granted exactly when the count of issued permits is below the
    /// cap, and it is held until its request's entry is destroyed.
    pub fn try_admit(&mut self) -> (ok: bool)
        requires
            old(self).wf(),
        ensures
            final(self).wf(),
            ok <==> old(self).permits < old(self).max_concurrent_requests,
            ok ==> *final(self) == (Infer {
                permits: (old(self).permits + 1) as usize,
                admitted_pending: (old(self).admitted_pending + 1) as usize,
                ..*old(self)
            }),
            !ok ==> *final(self) == *old(self),
    {
        if self.permits < self.max_concurrent_requests {
            self.permits = self.permits + 1;
            self.admitted_pending = self.admitted_pending + 1;
            true
        } else {
            false
        }
    }

    /// Releases a permit whose request never reached the queue
    /// (validation failed).
    pub fn release_admission(&mut self)
        requires
            old(self).wf(),
            old(self).admitted_pending >= 1,
        ensures
            final(self).wf(),
            *final(self) == (Infer {
                permits: (old(self).permits - 1) as usize,
                admitted_pending: (old(self).admitted_pending - 1) as usize,
                ..*old(self)
            }),
    {
        proof {
            assert(self.permits >= 1);
        }
        self.permits = self.permits - 1;
        self.admitted_pending = self.admitted_pending - 1;
    }

    /// Appends a validated, admitted request to the queue, turning
    /// its pending permit into a live entry. Returns the assigned id,
    /// strictly above every id assigned before.
    pub fn enqueue(
        &mut self,
        request: ValidRequest,
        response_tx: UnboundedSender<StreamItem>,
        now: u64,
    ) -> (id: u64)
        requires
            old(self).wf(),
            old(self).admitted_pending >= 1,
            old(self).queue.next_id < u64::MAX,
        ensures
            final(self).wf(),
            id == old(self).queue.next_id,
            final(self).queue.next_id == id + 1,
            final(self).permits == old(self).permits,
            final(self).admitted_pending == old(self).admitted_pending - 1,
            final(self).queue.entries@.len() == old(self).queue.entries@.len() + 1,
            final(self).queue.entries@.last().id == id,
            final(self).queue.entries@.last().queued_at == now,
            // the stored entry carries exactly the submitted payload
            // and channel, with nothing pushed on its stream yet.
            final(self).queue.entries@.last().request == request,
            final(self).queue.entries@.last().stream.sender() == response_tx,
            final(self).queue.entries@.last().stream.history() == Seq::<StreamItem>::empty(),
            final(self).phase == old(self).phase,
            final(self).view == old(self).view,
            final(self).pending_view == old(self).pending_view,
            final(self).max_batch_size == old(self).max_batch_size,
            forall|i: int| 0 <= i < old(self).queue.entries@.len()
                ==> (#[trigger] old(self).queue.entries@[i]).id < id,
    {
        self.admitted_pending = self.admitted_pending - 1;
        let id = self.queue.append(request, response_tx, now);
        proof {
            assert forall|i: int| 0 <= i < self.queue.entries@.len()
                implies (#[trigger] self.queue.entries@[i]).id >= self.boundary@ by {
                if i < old(self).queue.entries@.len() {
                    assert(self.queue.entries@[i] == old(self).queue.entries@[i]);
                } else {
                    assert(self.queue.entries@[i] == self.queue.entries@.last());
                }
            }
        }
        id
    }

    /// Tries to assemble a fresh batch from the queue; pruning may
    /// release permits of disconnected entries. On success the
    /// selected entries become the running batch and the backend must
    /// prefill it; otherwise the dispatcher goes idle.
    fn start_next_batch(&mut self, now: u64) -> (a: Action)
        requires
            old(self).wf(),
            old(self).view@.len() == 0,
            old(self).pending_view@.len() == 0,
            old(self).held_batches@.len() == 0,
            old(self).queue.next_batch_id < u64::MAX,
        ensures
            final(self).wf(),
            final(self).max_batch_size == old(self).max_batch_size,
            final(self).max_waiting_tokens == old(self).max_waiting_tokens,
            final(self).max_concurrent_requests == old(self).max_concurrent_requests,
            final(self).admitted_pending == old(self).admitted_pending,
            final(self).waiting_tokens == old(self).waiting_tokens,
            a is Wait ==> final(self).phase is Idle && final(self).queue.entries@.len() == 0,
            a matches Action::Prefill(b) ==> final(self).phase is Prefilling && 1 <= b.size
                && b.size <= old(self).max_batch_size && b.size == b.requests@.len()
                && b.id == old(self).queue.next_batch_id
                && #[trigger] batch_from_queue(
                old(self).queue.entries@,
                final(self).view@,
                b,
                now,
            ),
            !(a is Decode),
    {
        let ghost oldq = self.queue.entries@;
        let ghost bnd = self.boundary@;
        let (r, pruned) = self.queue.next_batch(None, self.max_batch_size, now);
        proof {
            assert(self.permits >= pruned);
        }
        self.permits = self.permits - pruned;
        match r {
            Some((live, batch)) => {
                proof {
                    assert(live@.len() >= 1);
                }
                let ghost newbnd = live@.last().id + 1;
                self.boundary = Ghost(newbnd);
                self.view = live;
                self.phase = Phase::Prefilling;
                proof {
                    assert forall|i: int| 0 <= i < self.view@.len()
                        implies (#[trigger] self.view@[i]).id < newbnd by {
                        if i < self.view@.len() - 1 {
                            assert(self.view@[i].id < self.view@[self.view@.len() - 1].id);
                        }
                    }
                    assert forall|i: int| 0 <= i < self.view@.len()
                        implies open_stream(#[trigger] self.view@[i].history()) by {
                        assert(self.view@[i].history().len() == 0);
                    }
                    assert forall|l: int| 0 <= l < self.queue.entries@.len()
                        implies (#[trigger] self.queue.entries@[l]).id >= newbnd by {
                        assert(self.view@[self.view@.len() - 1].id < self.queue.entries@[l].id);
                    }
                    assert(self.view@.last().id < old(self).queue.next_id);
                }
                Action::Prefill(batch)
            },
            None => {
                self.phase = Phase::Idle;
                proof {
                    assert forall|l: int| 0 <= l < self.queue.entries@.len()
                        implies (#[trigger] self.queue.entries@[l]).id >= bnd by {
                        assert(oldq.contains(self.queue.entries@[l]));
                        let j = choose|j: int|
                            0 <= j < oldq.len() && oldq[j] == self.queue.entries@[l];
                        assert(oldq[j].id >= bnd);
                    }
                }
                Action::Wait
            },
        }
    }

    /// Ends the running batch: any entry the backend never marked
    /// terminal is dropped — its stream closes abruptly — and its
    /// permit is released.
    fn finish_current_batch(&mut self)
        requires
            old(self).wf(),
            old(self).pending_view@.len() == 0,
            old(self).held_batches@.len() == 0,
        ensures
            final(self).wf(),
            final(self).view@.len() == 0,
            final(self).pending_view@.len() == 0,
            final(self).held_batches@.len() == 0,
            final(self).queue == old(self).queue,
            final(self).phase == old(self).phase,
            final(self).max_batch_size == old(self).max_batch_size,
            final(self).max_waiting_tokens == old(self).max_waiting_tokens,
            final(self).max_concurrent_requests == old(self).max_concurrent_requests,
            final(self).admitted_pending == old(self).admitted_pending,
            final(self).waiting_tokens == old(self).waiting_tokens,
    {
        let n = self.view.len();
        proof {
            assert(self.permits >= n);
        }
        self.permits = self.permits - n;
        self.view = Vec::new();
    }

    /// Aborts the running batch on a backend failure: every entry's
    /// stream receives exactly one `GenerationError`, the entries are
    /// destroyed and their permits released.
    fn fail_batch(&mut self, message: &String) -> (closed: Ghost<Seq<Seq<crate::stream::StreamItem>>>)
        requires
            old(self).wf(),
            old(self).pending_view@.len() == 0,
            old(self).held_batches@.len() == 0,
        ensures
            final(self).wf(),
            final(self).view@.len() == 0,
            final(self).pending_view@.len() == 0,
            final(self).held_batches@.len() == 0,
            final(self).queue == old(self).queue,
            final(self).phase == old(self).phase,
            final(self).max_batch_size == old(self).max_batch_size,
            final(self).max_waiting_tokens == old(self).max_waiting_tokens,
            final(self).max_concurrent_requests == old(self).max_concurrent_requests,
            final(self).admitted_pending == old(self).admitted_pending,
            final(self).waiting_tokens == old(self).waiting_tokens,
            closed@.len() == old(self).view@.len(),
            forall|h: int| 0 <= h < closed@.len()
                ==> errored_stream(#[trigger] closed@[h]) && terminal_count(closed@[h]) == 1
                    && closed@[h] == old(self).view@[old(self).view@.len() - 1 - h].history().push(
                    Err(InferError::GenerationError(*message)),
                ),
    {
        let n = self.view.len();
        proof {
            assert(self.permits >= n);
        }
        let closed = send_error_all(&mut self.view, message);
        self.permits = self.permits - n;
        closed
    }

    /// The in-flight extension policy, consulted between decode
    /// steps. Laws: an extension is attempted only when the running
    /// batch has shrunk to half the cap or less; while the batch has
    /// not starved newcomers (`waiting_tokens` under the bound), only
    /// additions of at least half the cap are accepted; afterwards
    /// any addition is.
    fn decide_next(&mut self, cached: Batch, now: u64) -> (a: Action)
        requires
            old(self).wf(),
            old(self).phase is Decoding,
            old(self).queue.next_batch_id < u64::MAX,
        ensures
            final(self).wf(),
            final(self).max_batch_size == old(self).max_batch_size,
            final(self).max_waiting_tokens == old(self).max_waiting_tokens,
            final(self).max_concurrent_requests == old(self).max_concurrent_requests,
            final(self).admitted_pending == old(self).admitted_pending,
            final(self).waiting_tokens == old(self).waiting_tokens,
            final(self).view@ == old(self).view@,
            a matches Action::Decode(bs) ==> final(self).phase is Decoding && bs@ =~= seq![cached],
            a matches Action::Prefill(b) ==> {
                &&& final(self).phase is Extending
                &&& final(self).held_batches@.len() == 1
                &&& final(self).held_batches@[0] == cached
                &&& cached.size <= old(self).max_batch_size / 2
                &&& 1 <= b.size
                &&& b.size <= old(self).max_batch_size - cached.size
                &&& b.size == b.requests@.len()
                &&& b.id == old(self).queue.next_batch_id
                &&& #[trigger] batch_from_queue(
                    old(self).queue.entries@,
                    final(self).pending_view@,
                    b,
                    now,
                )
                &&& (old(self).waiting_tokens < old(self).max_waiting_tokens
                    ==> b.size >= old(self).max_batch_size / 2)
            },
            !(a is Wait),
    {
        let size = cached.size;
        let half = self.max_batch_size / 2;
        if size <= half {
            let min_size = if self.waiting_tokens >= self.max_waiting_tokens {
                None
            } else {
                Some(half)
            };
            let budget = self.max_batch_size - size;
            let ghost oldq = self.queue.entries@;
            let ghost bnd = self.boundary@;
            let (r, pruned) = self.queue.next_batch(min_size, budget, now);
            proof {
                assert(self.permits >= pruned);
            }
            self.permits = self.permits - pruned;
            match r {
                Some((new_live, new_batch)) => {
                    proof {
                        assert(new_live@.len() >= 1);
                        assert(oldq.len() >= 1);
                    }
                    let ghost newbnd = new_live@.last().id + 1;
                    self.boundary = Ghost(newbnd);
                    self.pending_view = new_live;
                    self.held_batches.push(cached);
                    self.phase = Phase::Extending;
                    proof {
                        let last = self.pending_view@.len() - 1;
                        assert forall|i: int| 0 <= i < self.pending_view@.len()
                            implies (#[trigger] self.pending_view@[i]).id < newbnd by {
                            if i < last {
                                assert(self.pending_view@[i].id < self.pending_view@[last].id);
                            }
                        }
                        assert forall|i: int| 0 <= i < self.view@.len()
                            implies (#[trigger] self.view@[i]).id < newbnd by {
                            assert(self.view@[i].id < bnd);
                            assert(oldq[0].id >= bnd);
                            assert(self.pending_view@[last].id >= oldq[0].id);
                        }
                        assert forall|i: int, j: int|
                            0 <= i < self.view@.len() && 0 <= j < self.pending_view@.len()
                            implies self.view@[i].id < self.pending_view@[j].id by {
                            assert(self.view@[i].id < bnd);
                            assert(oldq[0].id >= bnd);
                            assert(self.pending_view@[j].id >= oldq[0].id);
                        }
                        assert forall|l: int| 0 <= l < self.queue.entries@.len()
                            implies (#[trigger] self.queue.entries@[l]).id >= newbnd by {
                            assert(self.pending_view@[last].id < self.queue.entries@[l].id);
                        }
                        assert(self.pending_view@.last().id < old(self).queue.next_id);
                    }
                    Action::Prefill(new_batch)
                },
                None => {
                    proof {
                        assert forall|l: int| 0 <= l < self.queue.entries@.len()
                            implies (#[trigger] self.queue.entries@[l]).id >= bnd by {
                            assert(oldq.contains(self.queue.entries@[l]));
                            let j = choose|j: int|
                                0 <= j < oldq.len() && oldq[j] == self.queue.entries@[l];
                            assert(oldq[j].id >= bnd);
                        }
                    }
                    let mut bs: Vec<Batch> = Vec::new();
                    bs.push(cached);
                    Action::Decode(bs)
                },
            }
        } else {
            let mut bs: Vec<Batch> = Vec::new();
            bs.push(cached);
            Action::Decode(bs)
        }
    }

    /// What `step` assumes of an event, reflecting the dispatcher
    /// protocol and the backend interface: a notification only while
    /// idle; results only while a call is pending; one generation per
    /// request, each targeting a member of the batch that was handed
    /// to the call; and no prompt tokens in decode results.
    pub open spec fn event_ok(self, event: InferEvent) -> bool {
        match event {
            InferEvent::Notified => self.phase is Idle,
            InferEvent::Completed { generations, cached } => {
                &&& !(self.phase is Idle)
                &&& gens_distinct(generations@)
                &&& (self.phase is Extending ==> gens_target(generations@, self.pending_view@))
                &&& ((self.phase is Prefilling || self.phase is Decoding) ==> gens_target(
                    generations@,
                    self.view@,
                ))
                &&& (self.phase is Decoding ==> no_prefill_payloads(generations@))
            },
            InferEvent::Failed { .. } => !(self.phase is Idle),
        }
    }

    /// Decides `event_ok` at run time, so the loop around the core
    /// can reject a backend reply that breaks the interface — the
    /// scheduler treats that as a programming error, never as data.
    pub fn event_admissible(&self, event: &InferEvent) -> (ok: bool)
        ensures
            ok == self.event_ok(*event),
    {
        match event {
            InferEvent::Notified => matches!(self.phase, Phase::Idle),
            InferEvent::Completed { generations, cached: _ } => {
                match self.phase {
                    Phase::Idle => false,
                    Phase::Prefilling => check_gens_distinct(generations) && check_gens_target(
                        generations,
                        &self.view,
                    ),
                    Phase::Extending => check_gens_distinct(generations) && check_gens_target(
                        generations,
                        &self.pending_view,
                    ),
                    Phase::Decoding => check_gens_distinct(generations) && check_gens_target(
                        generations,
                        &self.view,
                    ) && check_no_prefill(generations),
                }
            },
            InferEvent::Failed { .. } => !matches!(self.phase, Phase::Idle),
        }
    }

    /// One turn of the dispatcher: consume an awaited outcome, route
    /// whatever it carried, and decide the next backend call. The
    /// ghost result is the evidence of what the turn did to the
    /// streams: the per-generation delivery chain, and the closed
    /// histories, each of the regular shape with one terminal value.
    ///
    /// Laws kept by every turn, besides the invariant: no batch
    /// handed to `backend.prefill` exceeds `max_batch_size`; an
    /// in-flight extension is attempted only when the running batch
    /// has shrunk to `max_batch_size / 2` or less; and while
    /// `waiting_tokens` is under `max_waiting_tokens`, an accepted
    /// extension holds at least `max_batch_size / 2` entries.
    pub fn step(&mut self, event: InferEvent, now: u64) -> (r: (Action, Ghost<StepTrace>))
        requires
            old(self).wf(),
            old(self).event_ok(event),
            old(self).queue.next_batch_id < u64::MAX,
        ensures
            final(self).wf(),
            final(self).max_batch_size == old(self).max_batch_size,
            final(self).max_waiting_tokens == old(self).max_waiting_tokens,
            final(self).max_concurrent_requests == old(self).max_concurrent_requests,
            final(self).admitted_pending == old(self).admitted_pending,
            // The dispatcher never rests while admitted requests
            // wait: it waits only idle, over an empty queue.
            r.0 is Wait ==> final(self).phase is Idle && final(self).queue.entries@.len() == 0,
            r.0 matches Action::Prefill(b) ==> 1 <= b.size && b.size <= old(self).max_batch_size
                && b.size == b.requests@.len() && b.id == old(self).queue.next_batch_id
                && (final(self).phase is Prefilling || final(self).phase is Extending),
            // A primary prefill batch is the queue's front, moved into
            // the running batch with its payloads and marked now.
            r.0 matches Action::Prefill(b) ==> final(self).phase is Prefilling
                ==> batch_from_queue(old(self).queue.entries@, final(self).view@, b, now),
            // The extension policy, and the extension batch's
            // provenance.
            r.0 matches Action::Prefill(b) ==> final(self).phase is Extending ==> {
                &&& final(self).held_batches@.len() == 1
                &&& final(self).held_batches@[0].size <= old(self).max_batch_size / 2
                &&& b.size <= old(self).max_batch_size - final(self).held_batches@[0].size
                &&& (final(self).waiting_tokens < old(self).max_waiting_tokens ==> b.size
                    >= old(self).max_batch_size / 2)
                &&& batch_from_queue(old(self).queue.entries@, final(self).pending_view@, b, now)
            },
            r.0 matches Action::Decode(bs) ==> final(self).phase is Decoding && bs@.len() >= 1,
            // A backend result is fanned out, generation by
            // generation, over the batch the call addressed; exactly
            // the finished requests leave, their streams closed with
            // the regular shape.
            event matches InferEvent::Completed { generations, cached } ==> {
                &&& r.1@.trace.len() == generations@.len() + 1
                &&& ((old(self).phase is Prefilling || old(self).phase is Decoding)
                    ==> r.1@.trace[0] == old(self).view@)
                &&& (old(self).phase is Extending ==> r.1@.trace[0] == old(self).pending_view@)
                &&& (forall|g: int| 0 <= g < generations@.len()
                    ==> #[trigger] delivered_some(r.1@.trace[g], r.1@.trace[g + 1], generations@[g]))
                &&& r.1@.closed.len() == count_terminal_gens(generations@)
                &&& (forall|h: int| 0 <= h < r.1@.closed.len()
                    ==> ended_stream(#[trigger] r.1@.closed[h])
                        && terminal_count(r.1@.closed[h]) == 1)
                // The next decode carries exactly the cached
                // descriptor the call returned — after the held one,
                // when an extension merges.
                &&& (cached matches Some(c) ==> {
                    &&& ((old(self).phase is Prefilling || old(self).phase is Decoding) ==> {
                        &&& final(self).view@ == r.1@.trace[generations@.len() as int]
                        &&& (r.0 matches Action::Decode(bs) ==> bs@ =~= seq![c])
                    })
                    &&& (old(self).phase is Extending ==> {
                        &&& final(self).view@ == old(self).view@
                            + r.1@.trace[generations@.len() as int]
                        &&& (r.0 matches Action::Decode(bs) ==> bs@ =~= seq![
                            old(self).held_batches@[0],
                            c,
                        ])
                    })
                })
                &&& (cached is None && old(self).phase is Extending
                    ==> (r.0 matches Action::Decode(bs)
                    ==> bs@ =~= seq![old(self).held_batches@[0]]))
            },
            // A backend failure closes every stream of the addressed
            // batch with exactly one error carrying its message.
            event matches InferEvent::Failed { message } ==> {
                &&& r.1@.closed.len() == if old(self).phase is Extending {
                    old(self).pending_view@.len()
                } else {
                    old(self).view@.len()
                }
                &&& (old(self).phase is Extending ==> forall|h: int| 0 <= h < r.1@.closed.len()
                    ==> errored_stream(#[trigger] r.1@.closed[h])
                        && terminal_count(r.1@.closed[h]) == 1
                        && r.1@.closed[h] == old(self).pending_view@[old(
                        self,
                    ).pending_view@.len() - 1 - h].history().push(
                        Err(InferError::GenerationError(message)),
                    ))
                &&& (!(old(self).phase is Extending) ==> forall|h: int| 0 <= h < r.1@.closed.len()
                    ==> errored_stream(#[trigger] r.1@.closed[h])
                        && terminal_count(r.1@.closed[h]) == 1
                        && r.1@.closed[h] == old(self).view@[old(self).view@.len() - 1
                        - h].history().push(Err(InferError::GenerationError(message))))
                &&& (old(self).phase is Extending ==> (r.0 matches Action::Decode(bs)
                    ==> bs@ =~= seq![old(self).held_batches@[0]]))
            },
            // How the waiting counter moves: reset when a batch takes
            // on entries (a prefill or extension completing), counted
            // up per decode step, untouched otherwise.
            event is Notified ==> final(self).waiting_tokens == old(self).waiting_tokens,
            event matches InferEvent::Completed { .. }
                ==> ((old(self).phase is Prefilling || old(self).phase is Extending)
                ==> final(self).waiting_tokens == 1),
            event matches InferEvent::Completed { .. } ==> (old(self).phase is Decoding
                ==> final(self).waiting_tokens == if old(self).waiting_tokens < usize::MAX {
                    (old(self).waiting_tokens + 1) as usize
                } else {
                    old(self).waiting_tokens
                }),
            event matches InferEvent::Failed { .. } ==> (old(self).phase is Extending
                ==> final(self).waiting_tokens == 1),
            event matches InferEvent::Failed { .. } ==> (!(old(self).phase is Extending)
                ==> final(self).waiting_tokens == old(self).waiting_tokens),
    {
        match event {
            InferEvent::Notified => {
                let a = self.start_next_batch(now);
                let ghost st = StepTrace { trace: Seq::empty(), closed: Seq::empty() };
                (a, Ghost(st))
            },
            InferEvent::Failed { message } => {
                match self.phase {
                    Phase::Extending => {
                        let n = self.pending_view.len();
                        proof {
                            assert(self.permits >= n);
                        }
                        let closedg = send_error_all(&mut self.pending_view, &message);
                        self.permits = self.permits - n;
                        self.waiting_tokens = 1;
                        let b0 = match self.held_batches.pop() {
                            Some(b0) => b0,
                            None => {
                                proof {
                                    assert(false);
                                }
                                vstd::pervasive::unreached()
                            },
                        };
                        proof {
                            assert(b0 == old(self).held_batches@[0]);
                        }
                        self.phase = Phase::Decoding;
                        let mut bs: Vec<Batch> = Vec::new();
                        bs.push(b0);
                        proof {
                            assert(bs@ =~= seq![old(self).held_batches@[0]]);
                        }
                        let ghost st = StepTrace { trace: Seq::empty(), closed: closedg@ };
                        (Action::Decode(bs), Ghost(st))
                    },
                    _ => {
                        let closedg = self.fail_batch(&message);
                        let a = self.start_next_batch(now);
                        let ghost st = StepTrace { trace: Seq::empty(), closed: closedg@ };
                        (a, Ghost(st))
                    },
                }
            },
            InferEvent::Completed { generations, cached } => {
                match self.phase {
                    Phase::Idle => {
                        proof {
                            assert(false);
                        }
                        vstd::pervasive::unreached()
                    },
                    Phase::Prefilling => {
                        let ghost oldview = self.view@;
                        let (removed, closedg, traceg) = send_generations(
                            &mut self.view,
                            generations,
                        );
                        proof {
                            assert(self.permits >= removed);
                            assert forall|i: int| 0 <= i < self.view@.len()
                                implies (#[trigger] self.view@[i]).id < self.boundary@ by {
                                assert(covers(oldview, self.view@[i].id));
                                let k = choose|k: int|
                                    0 <= k < oldview.len() && oldview[k].id == self.view@[i].id;
                            }
                        }
                        self.permits = self.permits - removed;
                        self.waiting_tokens = 1;
                        self.phase = Phase::Decoding;
                        let ghost st = StepTrace { trace: traceg@, closed: closedg@ };
                        match cached {
                            Some(c) => (self.decide_next(c, now), Ghost(st)),
                            None => {
                                self.finish_current_batch();
                                let a = self.start_next_batch(now);
                                (a, Ghost(st))
                            },
                        }
                    },
                    Phase::Decoding => {
                        let ghost oldview = self.view@;
                        let (removed, closedg, traceg) = send_generations(
                            &mut self.view,
                            generations,
                        );
                        proof {
                            assert(self.permits >= removed);
                            assert forall|i: int| 0 <= i < self.view@.len()
                                implies (#[trigger] self.view@[i]).id < self.boundary@ by {
                                assert(covers(oldview, self.view@[i].id));
                                let k = choose|k: int|
                                    0 <= k < oldview.len() && oldview[k].id == self.view@[i].id;
                            }
                        }
                        self.permits = self.permits - removed;
                        if self.waiting_tokens < usize::MAX {
                            self.waiting_tokens = self.waiting_tokens + 1;
                        }
                        let ghost st = StepTrace { trace: traceg@, closed: closedg@ };
                        match cached {
                            Some(c) => (self.decide_next(c, now), Ghost(st)),
                            None => {
                                self.finish_current_batch();
                                let a = self.start_next_batch(now);
                                (a, Ghost(st))
                            },
                        }
                    },
                    Phase::Extending => {
                        let ghost oldpending = self.pending_view@;
                        let (removed, closedg, traceg) = send_generations(
                            &mut self.pending_view,
                            generations,
                        );
                        proof {
                            assert(self.permits >= removed);
                            assert forall|i: int| 0 <= i < self.pending_view@.len()
                                implies (#[trigger] self.pending_view@[i]).id < self.boundary@ by {
                                assert(covers(oldpending, self.pending_view@[i].id));
                                let k = choose|k: int|
                                    0 <= k < oldpending.len() && oldpending[k].id
                                        == self.pending_view@[i].id;
                            }
                            assert forall|i: int, j: int|
                                0 <= i < self.view@.len() && 0 <= j < self.pending_view@.len()
                                implies self.view@[i].id < self.pending_view@[j].id by {
                                assert(covers(oldpending, self.pending_view@[j].id));
                                let k = choose|k: int|
                                    0 <= k < oldpending.len() && oldpending[k].id
                                        == self.pending_view@[j].id;
                                assert(self.view@[i].id < oldpending[k].id);
                            }
                        }
                        self.permits = self.permits - removed;
                        self.waiting_tokens = 1;
                        let b0 = match self.held_batches.pop() {
                            Some(b0) => b0,
                            None => {
                                proof {
                                    assert(false);
                                }
                                vstd::pervasive::unreached()
                            },
                        };
                        proof {
                            assert(b0 == old(self).held_batches@[0]);
                        }
                        let ghost st = StepTrace { trace: traceg@, closed: closedg@ };
                        match cached {
                            Some(c) => {
                                // Merge: the extension joins the
                                // running batch, and its cached
                                // descriptor joins the decode call.
                                let ghost gc = c;
                                let ghost v0 = self.view@;
                                let ghost p0 = self.pending_view@;
                                self.view.append(&mut self.pending_view);
                                proof {
                                    assert forall|x: int, y: int| 0 <= x < y < self.view@.len()
                                        implies self.view@[x].id < self.view@[y].id by {
                                        if y < v0.len() {
                                            assert(self.view@[x] == v0[x]
                                                && self.view@[y] == v0[y]);
                                        } else if x >= v0.len() {
                                            assert(self.view@[x] == p0[x - v0.len()]
                                                && self.view@[y] == p0[y - v0.len()]);
                                        } else {
                                            assert(self.view@[x] == v0[x]
                                                && self.view@[y] == p0[y - v0.len()]);
                                        }
                                    }
                                    assert forall|x: int| 0 <= x < self.view@.len()
                                        implies open_stream((#[trigger] self.view@[x]).history())
                                            && self.view@[x].id < self.boundary@ by {
                                        if x < v0.len() {
                                            assert(self.view@[x] == v0[x]);
                                        } else {
                                            assert(self.view@[x] == p0[x - v0.len()]);
                                        }
                                    }
                                }
                                self.phase = Phase::Decoding;
                                let mut bs: Vec<Batch> = Vec::new();
                                bs.push(b0);
                                bs.push(c);
                                proof {
                                    assert(bs@ =~= seq![old(self).held_batches@[0], gc]);
                                }
                                (Action::Decode(bs), Ghost(st))
                            },
                            None => {
                                // The whole extension finished within
                                // its prefill: drop what is left of
                                // it and carry on with the running
                                // batch alone.
                                let n = self.pending_view.len();
                                proof {
                                    assert(self.permits >= n);
                                }
                                self.permits = self.permits - n;
                                self.pending_view = Vec::new();
                                self.phase = Phase::Decoding;
                                let mut bs: Vec<Batch> = Vec::new();
                                bs.push(b0);
                                proof {
                                    assert(bs@ =~= seq![old(self).held_batches@[0]]);
                                }
                                (Action::Decode(bs), Ghost(st))
                            },
                        }
                    },
                }
            },
        }
    }

    /// How many requests wait in the queue.
    pub fn queue_len(&self) -> (n: usize)
        ensures
            n == self.queue.entries@.len(),
    {
        self.queue.entries.len()
    }

    /// How many entries participate in the running batch, the
    /// extension in flight included.
    pub fn batch_len(&self) -> (n: usize)
        requires
            self.wf(),
        ensures
            n == self.view@.len() + self.pending_view@.len(),
    {
        self.view.len() + self.pending_view.len()
    }

    /// How many admission permits are out.
    pub fn permits_in_use(&self) -> (n: usize)
        ensures
            n == self.permits,
    {
        self.permits
    }

    /// Decode steps since the running batch last took on entries.
    pub fn waiting_count(&self) -> (n: usize)
        ensures
            n == self.waiting_tokens,
    {
        self.waiting_tokens
    }

    /// Whether the dispatcher awaits a notification.
    pub fn is_idle(&self) -> (b: bool)
        ensures
            b == (self.phase is Idle),
    {
        matches!(self.phase, Phase::Idle)
    }

    /// Whether one more request can be enqueued without exhausting
    /// the id counter — in practice always, but stated, not assumed.
    pub fn can_assign_id(&self) -> (b: bool)
        ensures
            b == (self.queue.next_id < u64::MAX),
    {
        self.queue.next_id < u64::MAX
    }

    /// Whether one more batch can be assembled without exhausting the
    /// batch-id counter.
    pub fn can_assign_batch_id(&self) -> (b: bool)
        ensures
            b == (self.queue.next_batch_id < u64::MAX),
    {
        self.queue.next_batch_id < u64::MAX
    }

    /// Law: permits issued never exceed the configured cap, so the
    /// number of permits held by live entries never does either.
    pub proof fn lemma_admission_bound(inf: Infer)
        requires
            inf.wf(),
        ensures
            inf.permits <= inf.max_concurrent_requests,
            inf.live_len() <= inf.max_concurrent_requests,
    {
    }
}

} // verus!
