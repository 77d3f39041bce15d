//! The scheduler: per-hook FIFO queues, idle-worker tracking, health
//! counters and the lock/unlock/stop interlock. All state is owned by one
//! value; the surrounding process drives it one command at a time and runs
//! the scripts the workers accept.
//!
//! Two ghost histories record, per hook, the ids enqueued and the ids
//! delivered to workers. Well-formedness ties them to the queues:
//! `enqueued[h] == delivered[h] + still queued`, which is at once the
//! conservation law (no job lost or duplicated) and per-hook FIFO order.

use vstd::prelude::*;

use crate::errors::{ErrorKind, FisherError, FisherResult};
use crate::hooks::{has_hook_id, Hooks};
use crate::jobs::Job;
use crate::worker::{ProcessResult, Worker};

verus! {

/// The scheduler's lifecycle: dispatch happens only in `Running`;
/// `Stopping` is terminal.
#[derive(Clone, Copy, PartialEq, Eq, Structural, Debug)]
pub enum SchedulerState {
    Running,
    Locked,
    Stopping,
}

/// What `lock` does to the lifecycle state.
pub open spec fn lock_transition(st: SchedulerState) -> SchedulerState {
    if st is Stopping {
        SchedulerState::Stopping
    } else {
        SchedulerState::Locked
    }
}

/// What `unlock` does to the lifecycle state.
pub open spec fn unlock_transition(st: SchedulerState) -> SchedulerState {
    if st is Stopping {
        SchedulerState::Stopping
    } else {
        SchedulerState::Running
    }
}

/// Locking any number of times and unlocking as often leaves a scheduler
/// that was not stopping in `Running`; in particular
/// lock, lock, unlock, unlock is a round trip.
pub proof fn lemma_lock_unlock_round_trip(st: SchedulerState)
    requires
        !(st is Stopping),
    ensures
        unlock_transition(unlock_transition(lock_transition(lock_transition(st)))) is Running,
{
}

/// The health counters the facade reports.
#[derive(Clone, Copy, PartialEq, Eq, Structural, Debug)]
pub struct HealthDetails {
    /// Jobs waiting in the queues.
    pub queued: usize,
    /// Jobs currently executing.
    pub executing: usize,
    /// Workers currently busy.
    pub workers_busy: usize,
}

/// One hook's FIFO queue and its running count.
pub struct HookQueue {
    /// The hook the queue belongs to.
    pub hook_id: u64,
    /// Whether several jobs of this hook may run at once.
    pub parallel: bool,
    /// Pending jobs, oldest first.
    pub jobs: Vec<Job>,
    /// How many jobs of this hook are executing right now.
    pub running: usize,
}

/// A queue may hand out its head: it is non-empty and either parallel or
/// not already running a job.
pub open spec fn queue_eligible(q: HookQueue) -> bool {
    q.jobs@.len() > 0 && (q.parallel || q.running == 0)
}

/// The ids of a job sequence, in order.
pub open spec fn job_ids(jobs: Seq<Job>) -> Seq<u64> {
    jobs.map_values(|j: Job| j.id)
}

/// Whether some queue in `qs` belongs to hook `h`.
pub open spec fn has_queue(qs: Seq<HookQueue>, h: u64) -> bool {
    exists|i: int| 0 <= i < qs.len() && (#[trigger] qs[i]).hook_id == h
}

/// The index of hook `h`'s queue; meaningful under `has_queue` and
/// uniqueness of hook ids.
pub open spec fn queue_index_of(qs: Seq<HookQueue>, h: u64) -> int {
    choose|i: int| 0 <= i < qs.len() && (#[trigger] qs[i]).hook_id == h
}

/// 1 when the worker is busy.
pub open spec fn busy_contrib(w: Worker) -> int {
    if w.currently_running is Some {
        1
    } else {
        0
    }
}

/// How many workers of `ws` are busy.
pub open spec fn count_busy(ws: Seq<Worker>) -> int
    decreases ws.len(),
{
    if ws.len() == 0 {
        0
    } else {
        count_busy(ws.drop_last()) + busy_contrib(ws.last())
    }
}

/// 1 when the worker is busy with hook `h`.
pub open spec fn running_contrib(w: Worker, h: u64) -> int {
    if w.currently_running == Some(h) {
        1
    } else {
        0
    }
}

/// How many workers of `ws` are busy with hook `h`.
pub open spec fn count_running(ws: Seq<Worker>, h: u64) -> int
    decreases ws.len(),
{
    if ws.len() == 0 {
        0
    } else {
        count_running(ws.drop_last(), h) + running_contrib(ws.last(), h)
    }
}

/// The busy count lies between zero and the pool size, and never exceeds
/// it by hook either.
pub proof fn lemma_count_bounds(ws: Seq<Worker>, h: u64)
    ensures
        0 <= count_busy(ws) <= ws.len(),
        0 <= count_running(ws, h) <= count_busy(ws),
    decreases ws.len(),
{
    if ws.len() > 0 {
        lemma_count_bounds(ws.drop_last(), h);
    }
}

/// Replacing one worker changes the counts by the difference of the
/// contributions.
pub proof fn lemma_count_update(ws: Seq<Worker>, i: int, w: Worker, h: u64)
    requires
        0 <= i < ws.len(),
    ensures
        count_busy(ws.update(i, w)) == count_busy(ws) - busy_contrib(ws[i]) + busy_contrib(w),
        count_running(ws.update(i, w), h) == count_running(ws, h) - running_contrib(ws[i], h)
            + running_contrib(w, h),
    decreases ws.len(),
{
    let ws2 = ws.update(i, w);
    if i == ws.len() - 1 {
        assert(ws2.drop_last() =~= ws.drop_last());
        assert(ws2.last() == w);
    } else {
        assert(ws2.drop_last() =~= ws.drop_last().update(i, w));
        assert(ws2.last() == ws.last());
        lemma_count_update(ws.drop_last(), i, w, h);
    }
}

/// A pool whose workers are all busy counts full.
pub proof fn lemma_count_busy_full(ws: Seq<Worker>)
    requires
        forall|i: int| 0 <= i < ws.len() ==> (#[trigger] ws[i]).busy_spec(),
    ensures
        count_busy(ws) == ws.len(),
    decreases ws.len(),
{
    if ws.len() > 0 {
        assert(forall|i: int|
            0 <= i < ws.drop_last().len() ==> (#[trigger] ws.drop_last()[i]).busy_spec());
        lemma_count_busy_full(ws.drop_last());
    }
}

/// A pool with an idle slot is not fully busy.
pub proof fn lemma_count_busy_idle_at(ws: Seq<Worker>, i: int)
    requires
        0 <= i < ws.len(),
        ws[i].currently_running is None,
    ensures
        count_busy(ws) < ws.len(),
    decreases ws.len(),
{
    if i == ws.len() - 1 {
        lemma_count_bounds(ws.drop_last(), 0);
    } else {
        lemma_count_busy_idle_at(ws.drop_last(), i);
    }
}

/// A worker busy with `h` makes the count for `h` positive.
pub proof fn lemma_count_running_busy_at(ws: Seq<Worker>, i: int, h: u64)
    requires
        0 <= i < ws.len(),
        ws[i].currently_running == Some(h),
    ensures
        count_running(ws, h) >= 1,
    decreases ws.len(),
{
    if i == ws.len() - 1 {
        lemma_count_bounds(ws.drop_last(), h);
    } else {
        lemma_count_running_busy_at(ws.drop_last(), i, h);
    }
}

/// With no busy worker, every per-hook count is zero and every worker is
/// idle.
pub proof fn lemma_count_busy_zero(ws: Seq<Worker>)
    requires
        count_busy(ws) == 0,
    ensures
        forall|i: int| 0 <= i < ws.len() ==> !(#[trigger] ws[i]).busy_spec(),
        forall|h: u64| count_running(ws, h) == 0,
    decreases ws.len(),
{
    if ws.len() > 0 {
        lemma_count_bounds(ws.drop_last(), 0);
        lemma_count_busy_zero(ws.drop_last());
        assert forall|h: u64| count_running(ws, h) == 0 by {
            lemma_count_bounds(ws, h);
        }
        assert forall|i: int| 0 <= i < ws.len() implies !(#[trigger] ws[i]).busy_spec() by {
            if i < ws.len() - 1 {
                assert(ws.drop_last()[i] == ws[i]);
            }
        }
    }
}

/// Pools whose workers are pairwise equally busy count the same.
pub proof fn lemma_count_pointwise(ws1: Seq<Worker>, ws2: Seq<Worker>, h: u64)
    requires
        ws1.len() == ws2.len(),
        forall|i: int|
            0 <= i < ws1.len() ==> (#[trigger] ws1[i]).currently_running == (
            #[trigger] ws2[i]).currently_running,
    ensures
        count_busy(ws1) == count_busy(ws2),
        count_running(ws1, h) == count_running(ws2, h),
    decreases ws1.len(),
{
    if ws1.len() > 0 {
        lemma_count_pointwise(ws1.drop_last(), ws2.drop_last(), h);
    }
}

/// Jobs waiting across all queues.
pub open spec fn queued_total(qs: Seq<HookQueue>) -> int
    decreases qs.len(),
{
    if qs.len() == 0 {
        0
    } else {
        queued_total(qs.drop_last()) + qs.last().jobs@.len()
    }
}

/// Jobs executing across all queues.
pub open spec fn running_total(qs: Seq<HookQueue>) -> int
    decreases qs.len(),
{
    if qs.len() == 0 {
        0
    } else {
        running_total(qs.drop_last()) + qs.last().running
    }
}

/// Each queue's share bounds the totals from below.
pub proof fn lemma_totals_at(qs: Seq<HookQueue>, i: int)
    requires
        0 <= i < qs.len(),
    ensures
        queued_total(qs) >= qs[i].jobs@.len(),
        running_total(qs) >= qs[i].running,
        queued_total(qs) >= 0,
        running_total(qs) >= 0,
    decreases qs.len(),
{
    lemma_totals_nonneg(qs);
    if i == qs.len() - 1 {
        lemma_totals_nonneg(qs.drop_last());
    } else {
        lemma_totals_at(qs.drop_last(), i);
    }
}

/// The totals are sums of non-negative shares.
pub proof fn lemma_totals_nonneg(qs: Seq<HookQueue>)
    ensures
        queued_total(qs) >= 0,
        running_total(qs) >= 0,
    decreases qs.len(),
{
    if qs.len() > 0 {
        lemma_totals_nonneg(qs.drop_last());
    }
}

/// Replacing one queue changes the totals by the difference of the shares.
pub proof fn lemma_totals_update(qs: Seq<HookQueue>, i: int, q: HookQueue)
    requires
        0 <= i < qs.len(),
    ensures
        queued_total(qs.update(i, q)) == queued_total(qs) - qs[i].jobs@.len() + q.jobs@.len(),
        running_total(qs.update(i, q)) == running_total(qs) - qs[i].running + q.running,
    decreases qs.len(),
{
    let qs2 = qs.update(i, q);
    if i == qs.len() - 1 {
        assert(qs2.drop_last() =~= qs.drop_last());
        assert(qs2.last() == q);
    } else {
        assert(qs2.drop_last() =~= qs.drop_last().update(i, q));
        assert(qs2.last() == qs.last());
        lemma_totals_update(qs.drop_last(), i, q);
    }
}

/// A list of queues none of which runs anything sums to zero running jobs.
pub proof fn lemma_running_total_zero(qs: Seq<HookQueue>)
    requires
        forall|i: int| 0 <= i < qs.len() ==> (#[trigger] qs[i]).running == 0,
    ensures
        running_total(qs) == 0,
    decreases qs.len(),
{
    if qs.len() > 0 {
        assert(forall|i: int|
            0 <= i < qs.drop_last().len() ==> (#[trigger] qs.drop_last()[i]).running == 0);
        lemma_running_total_zero(qs.drop_last());
    }
}

/// The queues of `qs` whose hooks the snapshot `cur` still has, in order.
pub open spec fn kept_queues(qs: Seq<HookQueue>, cur: Seq<crate::hooks::Hook>) -> Seq<HookQueue>
    decreases qs.len(),
{
    if qs.len() == 0 {
        Seq::empty()
    } else {
        kept_queues(qs.drop_last(), cur) + if has_hook_id(cur, qs.last().hook_id) {
            seq![qs.last()]
        } else {
            Seq::empty()
        }
    }
}

/// Every kept queue is a queue of `qs` whose hook the snapshot has.
pub proof fn lemma_kept_sub(qs: Seq<HookQueue>, cur: Seq<crate::hooks::Hook>)
    ensures
        forall|j: int|
            0 <= j < kept_queues(qs, cur).len() ==> has_hook_id(
                cur,
                (#[trigger] kept_queues(qs, cur)[j]).hook_id,
            ) && (exists|i: int| 0 <= i < qs.len() && qs[i] == kept_queues(qs, cur)[j]),
    decreases qs.len(),
{
    if qs.len() > 0 {
        lemma_kept_sub(qs.drop_last(), cur);
        let k = kept_queues(qs, cur);
        let kd = kept_queues(qs.drop_last(), cur);
        assert forall|j: int| 0 <= j < k.len() implies has_hook_id(
            cur,
            (#[trigger] k[j]).hook_id,
        ) && (exists|i: int| 0 <= i < qs.len() && qs[i] == k[j]) by {
            if j < kd.len() {
                assert(k[j] == kd[j]);
                let i = choose|i: int| 0 <= i < qs.drop_last().len() && qs.drop_last()[i] == kd[j];
                assert(qs[i] == k[j]);
            } else {
                assert(k[j] == qs.last());
                assert(qs[qs.len() - 1] == k[j]);
            }
        }
    }
}

/// Distinct hooks in the queues stay distinct among the kept ones.
pub proof fn lemma_kept_unique(qs: Seq<HookQueue>, cur: Seq<crate::hooks::Hook>)
    requires
        forall|i: int, j: int|
            0 <= i < j < qs.len() ==> (#[trigger] qs[i]).hook_id != (#[trigger] qs[j]).hook_id,
    ensures
        forall|a: int, b: int|
            0 <= a < b < kept_queues(qs, cur).len() ==> (#[trigger] kept_queues(qs, cur)[a]).hook_id
                != (#[trigger] kept_queues(qs, cur)[b]).hook_id,
    decreases qs.len(),
{
    if qs.len() > 0 {
        lemma_kept_unique(qs.drop_last(), cur);
        lemma_kept_sub(qs.drop_last(), cur);
        let k = kept_queues(qs, cur);
        let kd = kept_queues(qs.drop_last(), cur);
        assert forall|a: int, b: int|
            0 <= a < b < k.len() implies (#[trigger] k[a]).hook_id != (#[trigger] k[b]).hook_id by {
            if b < kd.len() {
                assert(k[a] == kd[a] && k[b] == kd[b]);
            } else {
                assert(k[b] == qs.last());
                assert(k[a] == kd[a]);
                let i = choose|i: int|
                    0 <= i < qs.drop_last().len() && qs.drop_last()[i] == kd[a];
                assert(qs[i] == k[a]);
                assert(qs[i].hook_id != qs[qs.len() - 1].hook_id);
            }
        }
    }
}

/// A queue whose hook the snapshot keeps is among the kept queues.
pub proof fn lemma_kept_complete(qs: Seq<HookQueue>, cur: Seq<crate::hooks::Hook>)
    ensures
        forall|i: int|
            0 <= i < qs.len() && has_hook_id(cur, (#[trigger] qs[i]).hook_id) ==> (exists|j: int|
                0 <= j < kept_queues(qs, cur).len() && kept_queues(qs, cur)[j] == qs[i]),
    decreases qs.len(),
{
    if qs.len() > 0 {
        lemma_kept_complete(qs.drop_last(), cur);
        let k = kept_queues(qs, cur);
        let kd = kept_queues(qs.drop_last(), cur);
        assert forall|i: int|
            0 <= i < qs.len() && has_hook_id(cur, (#[trigger] qs[i]).hook_id) implies (exists|
        j: int|
            0 <= j < k.len() && k[j] == qs[i]) by {
            if i < qs.len() - 1 {
                assert(qs.drop_last()[i] == qs[i]);
                let j = choose|j: int| 0 <= j < kd.len() && kd[j] == qs.drop_last()[i];
                assert(k[j] == qs[i]);
            } else {
                assert(k[k.len() - 1] == qs[i]);
            }
        }
    }
}

/// A queue list's total splits off its first element.
pub proof fn lemma_queued_total_first(qs: Seq<HookQueue>)
    requires
        qs.len() > 0,
    ensures
        queued_total(qs) == qs[0].jobs@.len() + queued_total(qs.drop_first()),
    decreases qs.len(),
{
    if qs.len() == 1 {
        assert(qs.drop_first() =~= Seq::<HookQueue>::empty());
        assert(qs.drop_last() =~= Seq::<HookQueue>::empty());
    } else {
        lemma_queued_total_first(qs.drop_last());
        assert(qs.drop_last()[0] == qs[0]);
        assert(qs.drop_first().drop_last() =~= qs.drop_last().drop_first());
        assert(qs.drop_first().last() == qs.last());
    }
}

/// One queue is well-formed with respect to the pool and the histories.
pub open spec fn queue_wf(
    q: HookQueue,
    ws: Seq<Worker>,
    enq: Map<u64, Seq<u64>>,
    del: Map<u64, Seq<u64>>,
) -> bool {
    &&& forall|k: int| 0 <= k < q.jobs@.len() ==> (#[trigger] q.jobs@[k]).hook_id == q.hook_id
    &&& q.running as int == count_running(ws, q.hook_id)
    &&& (!q.parallel ==> q.running <= 1)
    &&& enq.contains_key(q.hook_id)
    &&& del.contains_key(q.hook_id)
    &&& enq[q.hook_id] == del[q.hook_id] + job_ids(q.jobs@)
}

/// Two queue lists describe the same hooks in the same order.
pub open spec fn queues_same_hooks(a: Seq<HookQueue>, b: Seq<HookQueue>) -> bool {
    &&& b.len() == a.len()
    &&& forall|i: int|
        0 <= i < a.len() ==> (#[trigger] b[i]).hook_id == a[i].hook_id && b[i].parallel
            == a[i].parallel
}

/// `queues_same_hooks` is transitive.
pub proof fn lemma_queues_same_hooks_trans(a: Seq<HookQueue>, b: Seq<HookQueue>, c: Seq<HookQueue>)
    requires
        queues_same_hooks(a, b),
        queues_same_hooks(b, c),
    ensures
        queues_same_hooks(a, c),
{
    assert forall|i: int|
        0 <= i < a.len() implies (#[trigger] c[i]).hook_id == a[i].hook_id && c[i].parallel
        == a[i].parallel by {
        assert(b[i].hook_id == a[i].hook_id && b[i].parallel == a[i].parallel);
    }
}

/// Every recorded delivery history of `a` persists as a prefix in `b`:
/// deliveries are only ever appended.
pub open spec fn deliveries_extend(a: Map<u64, Seq<u64>>, b: Map<u64, Seq<u64>>) -> bool {
    forall|h: u64|
        #[trigger] a.contains_key(h) ==> b.contains_key(h) && a[h].is_prefix_of(b[h])
}

/// `deliveries_extend` is reflexive.
pub proof fn lemma_deliveries_extend_refl(a: Map<u64, Seq<u64>>)
    ensures
        deliveries_extend(a, a),
{
    assert forall|h: u64| #[trigger] a.contains_key(h) implies a.contains_key(h)
        && a[h].is_prefix_of(a[h]) by {
        assert(a[h] =~= a[h].subrange(0, a[h].len() as int));
    }
}

/// `deliveries_extend` is transitive.
pub proof fn lemma_deliveries_extend_trans(
    a: Map<u64, Seq<u64>>,
    b: Map<u64, Seq<u64>>,
    c: Map<u64, Seq<u64>>,
)
    requires
        deliveries_extend(a, b),
        deliveries_extend(b, c),
    ensures
        deliveries_extend(a, c),
{
    assert forall|h: u64| #[trigger] a.contains_key(h) implies c.contains_key(h)
        && a[h].is_prefix_of(c[h]) by {
        assert(b.contains_key(h));
        assert(a[h] =~= c[h].subrange(0, a[h].len() as int));
    }
}

/// The scheduler, the heart of the system.
pub struct Scheduler {
    /// The fixed worker pool; a worker's id is its index.
    pub workers: Vec<Worker>,
    /// One FIFO queue per hook of the current snapshot.
    pub queues: Vec<HookQueue>,
    /// The lifecycle state.
    pub state: SchedulerState,
    /// Index of the queue served last, the round-robin cursor.
    pub last_served: usize,
    /// Jobs waiting across all queues.
    pub queued_count: usize,
    /// Completions recorded since the pool started; never decreases.
    pub total_processed: u64,
    /// Optional per-hook queue cap; `None` leaves the queues unbounded.
    pub queue_cap: Option<usize>,
    /// Per hook, the ids enqueued, in arrival order.
    pub enqueued: Ghost<Map<u64, Seq<u64>>>,
    /// Per hook, the ids delivered to workers, in dispatch order.
    pub delivered: Ghost<Map<u64, Seq<u64>>>,
}

impl Scheduler {
    /// The state invariant every operation preserves.
    pub open spec fn wf(&self) -> bool {
        &&& forall|i: int|
            0 <= i < self.workers@.len() ==> (#[trigger] self.workers@[i]).id == i as u64
        &&& forall|i: int, j: int|
            0 <= i < j < self.queues@.len() ==> (#[trigger] self.queues@[i]).hook_id != (
            #[trigger] self.queues@[j]).hook_id
        &&& forall|i: int|
            0 <= i < self.queues@.len() ==> queue_wf(
                #[trigger] self.queues@[i],
                self.workers@,
                self.enqueued@,
                self.delivered@,
            )
        &&& forall|i: int|
            0 <= i < self.workers@.len() ==> ((#[trigger] self.workers@[i]).currently_running
                matches Some(h) ==> has_queue(self.queues@, h))
        &&& running_total(self.queues@) == count_busy(self.workers@)
        &&& self.queued_count as int == queued_total(self.queues@)
        &&& (self.state is Stopping || (forall|i: int|
            0 <= i < self.workers@.len() ==> !(#[trigger] self.workers@[i]).should_stop))
        &&& (self.queues@.len() == 0 ==> self.last_served == 0)
        &&& (self.queues@.len() > 0 ==> self.last_served < self.queues@.len())
    }

    /// Dispatch can move nothing more: no queue may hand out a job, or no
    /// worker is free to take one. Every operation that dispatches leaves a
    /// running scheduler in this state, so jobs never wait on an idle pool.
    pub open spec fn dispatch_done(&self) -> bool {
        ||| forall|i: int|
            0 <= i < self.queues@.len() ==> !queue_eligible(#[trigger] self.queues@[i])
        ||| count_busy(self.workers@) == self.workers@.len()
    }

    /// All workers told to stop and none still busy.
    pub open spec fn fully_stopped(&self) -> bool {
        forall|i: int|
            0 <= i < self.workers@.len() ==> (#[trigger] self.workers@[i]).should_stop && !(
            self.workers@[i]).busy_spec()
    }

    /// A pool of `max_threads` idle workers and one empty queue per hook of
    /// the snapshot, running and unlocked.
    pub fn new(max_threads: usize, hooks: &Hooks, queue_cap: Option<usize>) -> (r: Scheduler)
        requires
            max_threads >= 1,
            hooks.wf(),
        ensures
            r.wf(),
            r.state is Running,
            r.workers@.len() == max_threads,
            r.queues@.len() == hooks.hook_seq().len(),
            forall|i: int|
                0 <= i < r.queues@.len() ==> (#[trigger] r.queues@[i]).hook_id
                    == hooks.hook_seq()[i].id && r.queues@[i].parallel
                    == hooks.hook_seq()[i].parallel && r.queues@[i].jobs@.len() == 0
                    && r.queues@[i].running == 0,
            r.queued_count == 0,
            r.total_processed == 0,
            r.queue_cap == queue_cap,
            count_busy(r.workers@) == 0,
    {
        let mut workers: Vec<Worker> = Vec::new();
        let mut i: usize = 0;
        while i < max_threads
            invariant
                i <= max_threads,
                workers@.len() == i,
                forall|j: int|
                    0 <= j < i ==> (#[trigger] workers@[j]).id == j as u64 && workers@[j].currently_running
                        is None && !workers@[j].should_stop,
                count_busy(workers@) == 0,
            decreases max_threads - i,
        {
            let ghost before = workers@;
            let w = Worker::new(i as u64);
            let ghost wg = w;
            workers.push(w);
            proof {
                assert(workers@.drop_last() =~= before);
                assert(workers@.last() == wg);
            }
            i = i + 1;
        }
        let mut queues: Vec<HookQueue> = Vec::new();
        let ghost mut enq: Map<u64, Seq<u64>> = Map::empty();
        let ghost mut del: Map<u64, Seq<u64>> = Map::empty();
        let mut k: usize = 0;
        while k < hooks.len()
            invariant
                hooks.wf(),
                k <= hooks.hook_seq().len(),
                queues@.len() == k,
                forall|j: int|
                    0 <= j < k ==> (#[trigger] queues@[j]).hook_id == hooks.hook_seq()[j].id
                        && queues@[j].parallel == hooks.hook_seq()[j].parallel
                        && queues@[j].jobs@.len() == 0 && queues@[j].running == 0,
                forall|j: int|
                    0 <= j < k ==> enq.contains_key(#[trigger] queues@[j].hook_id)
                        && del.contains_key(queues@[j].hook_id) && enq[queues@[j].hook_id]
                        =~= Seq::<u64>::empty() && del[queues@[j].hook_id] =~= Seq::<u64>::empty(),
                queued_total(queues@) == 0,
                running_total(queues@) == 0,
            decreases hooks.hook_seq().len() - k,
        {
            let h = hooks.hook_at(k);
            let ghost before = queues@;
            let q = HookQueue { hook_id: h.id, parallel: h.parallel, jobs: Vec::new(), running: 0 };
            let ghost qg = q;
            proof {
                enq = enq.insert(h.id, Seq::<u64>::empty());
                del = del.insert(h.id, Seq::<u64>::empty());
            }
            queues.push(q);
            proof {
                assert(queues@.drop_last() =~= before);
                assert(queues@.last() == qg);
            }
            k = k + 1;
        }
        let r = Scheduler {
            workers,
            queues,
            state: SchedulerState::Running,
            last_served: 0,
            queued_count: 0,
            total_processed: 0,
            queue_cap,
            enqueued: Ghost(enq),
            delivered: Ghost(del),
        };
        proof {
            assert forall|i2: int| 0 <= i2 < r.queues@.len() implies queue_wf(
                #[trigger] r.queues@[i2],
                r.workers@,
                r.enqueued@,
                r.delivered@,
            ) by {
                lemma_count_busy_zero(r.workers@);
                assert(r.delivered@[r.queues@[i2].hook_id] + job_ids(r.queues@[i2].jobs@)
                    =~= Seq::<u64>::empty());
                assert(r.enqueued@[r.queues@[i2].hook_id] =~= Seq::<u64>::empty());
            }
        }
        r
    }

    /// The health counters: what waits, what runs, who is busy. Executing
    /// jobs and busy workers agree by well-formedness.
    pub fn health(&self) -> (r: HealthDetails)
        requires
            self.wf(),
        ensures
            r.queued as int == queued_total(self.queues@),
            r.executing as int == running_total(self.queues@),
            r.workers_busy as int == count_busy(self.workers@),
            r.executing == r.workers_busy,
    {
        let mut busy: usize = 0;
        let mut i: usize = 0;
        proof {
            assert(count_busy(self.workers@.take(0)) == 0);
        }
        while i < self.workers.len()
            invariant
                i <= self.workers@.len(),
                busy <= i,
                busy as int == count_busy(self.workers@.take(i as int)),
            decreases self.workers@.len() - i,
        {
            proof {
                assert(self.workers@.take(i + 1).drop_last() =~= self.workers@.take(i as int));
                assert(self.workers@.take(i + 1).last() == self.workers@[i as int]);
            }
            if self.workers[i].busy() {
                busy = busy + 1;
            }
            i = i + 1;
        }
        proof {
            assert(self.workers@.take(i as int) =~= self.workers@);
        }
        HealthDetails { queued: self.queued_count, executing: busy, workers_busy: busy }
    }

    /// The queue of hook `h`, if the snapshot has one.
    fn find_queue(&self, h: u64) -> (r: Option<usize>)
        ensures
            match r {
                Some(i) => i < self.queues@.len() && self.queues@[i as int].hook_id == h,
                None => !has_queue(self.queues@, h),
            },
    {
        let mut i: usize = 0;
        while i < self.queues.len()
            invariant
                i <= self.queues@.len(),
                forall|j: int| 0 <= j < i ==> (#[trigger] self.queues@[j]).hook_id != h,
            decreases self.queues@.len() - i,
        {
            if self.queues[i].hook_id == h {
                return Some(i);
            }
            i = i + 1;
        }
        None
    }

    /// The next queue to serve: the first eligible one in round-robin
    /// order, starting just past the queue served last.
    fn pick_queue(&self) -> (r: Option<usize>)
        requires
            self.wf(),
        ensures
            match r {
                Some(i) => i < self.queues@.len() && queue_eligible(self.queues@[i as int]) && (
                i > self.last_served ==> forall|j: int|
                    self.last_served < j < i ==> !queue_eligible(#[trigger] self.queues@[j])) && (i
                    <= self.last_served ==> (forall|j: int|
                    self.last_served < j < self.queues@.len() ==> !queue_eligible(
                        #[trigger] self.queues@[j],
                    )) && (forall|j: int|
                    0 <= j < i ==> !queue_eligible(#[trigger] self.queues@[j]))),
                None => forall|i: int|
                    0 <= i < self.queues@.len() ==> !queue_eligible(#[trigger] self.queues@[i]),
            },
    {
        let n = self.queues.len();
        if n == 0 {
            return None;
        }
        let start = self.last_served;
        let mut i: usize = start + 1;
        while i < n
            invariant
                self.wf(),
                n == self.queues@.len(),
                start == self.last_served,
                start < n,
                start + 1 <= i <= n,
                forall|j: int|
                    start + 1 <= j < i ==> !queue_eligible(#[trigger] self.queues@[j]),
            decreases n - i,
        {
            let q = &self.queues[i];
            if q.jobs.len() > 0 && (q.parallel || q.running == 0) {
                return Some(i);
            }
            i = i + 1;
        }
        let mut k: usize = 0;
        while k <= start
            invariant
                self.wf(),
                n == self.queues@.len(),
                start == self.last_served,
                start < n,
                k <= start + 1,
                forall|j: int|
                    start + 1 <= j < n ==> !queue_eligible(#[trigger] self.queues@[j]),
                forall|j: int| 0 <= j < k ==> !queue_eligible(#[trigger] self.queues@[j]),
            decreases start + 1 - k,
        {
            let q = &self.queues[k];
            if q.jobs.len() > 0 && (q.parallel || q.running == 0) {
                return Some(k);
            }
            k = k + 1;
        }
        None
    }

    /// The idle worker with the lowest id, if any; a worker's id is its
    /// index.
    fn pick_worker(&self) -> (r: Option<usize>)
        ensures
            match r {
                Some(i) => i < self.workers@.len() && self.workers@[i as int].currently_running
                    is None && (forall|j: int|
                    0 <= j < i ==> (#[trigger] self.workers@[j]).busy_spec()),
                None => forall|i: int|
                    0 <= i < self.workers@.len() ==> (#[trigger] self.workers@[i]).busy_spec(),
            },
    {
        let mut i: usize = 0;
        while i < self.workers.len()
            invariant
                i <= self.workers@.len(),
                forall|j: int| 0 <= j < i ==> (#[trigger] self.workers@[j]).busy_spec(),
            decreases self.workers@.len() - i,
        {
            if !self.workers[i].busy() {
                return Some(i);
            }
            i = i + 1;
        }
        None
    }

    /// Hands queued jobs to idle workers until nothing more may move:
    /// round-robin across eligible hooks, lowest idle worker first. Does
    /// nothing unless the scheduler is running.
    pub fn dispatch(&mut self)
        requires
            old(self).wf(),
        ensures
            final(self).wf(),
            final(self).state == old(self).state,
            final(self).total_processed == old(self).total_processed,
            final(self).queue_cap == old(self).queue_cap,
            final(self).enqueued@ == old(self).enqueued@,
            final(self).workers@.len() == old(self).workers@.len(),
            final(self).queued_count <= old(self).queued_count,
            queues_same_hooks(old(self).queues@, final(self).queues@),
            deliveries_extend(old(self).delivered@, final(self).delivered@),
            !(old(self).state is Running) ==> *final(self) == *old(self),
            final(self).state is Running ==> final(self).dispatch_done(),
            (forall|i: int|
                0 <= i < old(self).queues@.len() ==> !queue_eligible(#[trigger] old(self).queues@[i]))
                ==> *final(self) == *old(self),
            count_busy(old(self).workers@) == old(self).workers@.len() ==> *final(self) == *old(
                self,
            ),
    {
        if !(self.state == SchedulerState::Running) {
            return;
        }
        proof {
            assert(deliveries_extend(old(self).delivered@, self.delivered@));
        }
        match self.pick_queue() {
            Some(_) => {},
            None => {
                // no queue may hand out a job: dispatch is at its fixpoint
                return ;
            },
        }
        let first_worker = match self.pick_worker() {
            Some(w) => w,
            None => {
                proof {
                    lemma_count_busy_full(self.workers@);
                }
                return ;
            },
        };
        proof {
            lemma_count_busy_idle_at(self.workers@, first_worker as int);
        }
        loop
            invariant
                self.wf(),
                old(self).wf(),
                old(self).state is Running,
                self.state is Running,
                self.total_processed == old(self).total_processed,
                self.queue_cap == old(self).queue_cap,
                self.enqueued@ == old(self).enqueued@,
                self.workers@.len() == old(self).workers@.len(),
                self.queued_count <= old(self).queued_count,
                queues_same_hooks(old(self).queues@, self.queues@),
                deliveries_extend(old(self).delivered@, self.delivered@),
                exists|i: int|
                    0 <= i < old(self).queues@.len() && queue_eligible(
                        #[trigger] old(self).queues@[i],
                    ),
                count_busy(old(self).workers@) < old(self).workers@.len(),
            decreases queued_total(self.queues@),
        {
            proof {
                lemma_totals_nonneg(self.queues@);
            }
            let pick = match self.pick_queue() {
                Some(p) => p,
                None => {
                    // no queue may hand out a job: dispatch is at its
                    // fixpoint
                    return ;
                },
            };
            let widx = match self.pick_worker() {
                Some(w) => w,
                None => {
                    proof {
                        lemma_count_busy_full(self.workers@);
                    }
                    return ;
                },
            };
            let ghost qs0 = self.queues@;
            let ghost ws0 = self.workers@;
            let ghost del0 = self.delivered@;
            let h = self.queues[pick].hook_id;
            proof {
                lemma_totals_at(qs0, pick as int);
                lemma_count_bounds(ws0, h);
                lemma_count_busy_idle_at(ws0, widx as int);
                assert(queue_wf(qs0[pick as int], ws0, self.enqueued@, del0));
                assert(qs0[pick as int].running as int == count_running(ws0, h));
                assert(count_running(ws0, h) < ws0.len());
            }
            let wlen = self.workers.len();
            proof {
                assert(ws0.len() == wlen);
            }
            let newrun = self.queues[pick].running + 1;
            let job = self.queues[pick].jobs.remove(0);
            self.queues[pick].running = newrun;
            self.queued_count = self.queued_count - 1;
            self.last_served = pick;
            proof {
                self.delivered@ = del0.insert(h, del0[h].push(job.id));
            }
            let ghost qs1 = self.queues@;
            let ghost del1 = self.delivered@;
            let res = self.workers[widx].process(job);
            match res {
                ProcessResult::Executing => {},
                ProcessResult::Rejected(_) => {
                    proof {
                        assert(!ws0[widx as int].should_stop);
                        assert(false);
                    }
                },
            }
            proof {
                let ws1 = self.workers@;
                let q0 = qs0[pick as int];
                let q1 = qs1[pick as int];
                assert(qs1 =~= qs0.update(pick as int, q1));
                assert(job == q0.jobs@[0]);
                assert(job.hook_id == h);
                assert(ws1 =~= ws0.update(widx as int, ws1[widx as int]));
                lemma_totals_update(qs0, pick as int, q1);
                lemma_count_update(ws0, widx as int, ws1[widx as int], h);
                // the traces stay balanced for the picked hook
                assert(job_ids(q0.jobs@)[0] == job.id);
                assert(del0[h].push(job.id) + job_ids(q1.jobs@) =~= del0[h] + job_ids(q0.jobs@));
                // and untouched for every other hook
                assert forall|i2: int| 0 <= i2 < qs1.len() implies queue_wf(
                    #[trigger] qs1[i2],
                    ws1,
                    self.enqueued@,
                    del1,
                ) by {
                    lemma_count_update(ws0, widx as int, ws1[widx as int], qs1[i2].hook_id);
                    if i2 != pick as int {
                        assert(qs0[i2].hook_id != h);
                    }
                }
                // every busy worker still has a queue
                assert forall|i2: int|
                    0 <= i2 < ws1.len() implies ((#[trigger] ws1[i2]).currently_running matches Some(
                    h2,
                ) ==> has_queue(qs1, h2)) by {
                    if ws1[i2].currently_running is Some {
                        if i2 == widx as int {
                            assert(qs1[pick as int].hook_id == h);
                        } else {
                            let h2 = ws0[i2].currently_running->Some_0;
                            let w = choose|j: int|
                                0 <= j < qs0.len() && (#[trigger] qs0[j]).hook_id == h2;
                            assert(qs1[w].hook_id == h2);
                        }
                    }
                }
                // the delivery history only grew
                assert forall|h2: u64| #[trigger] del0.contains_key(h2) implies del1.contains_key(
                    h2,
                ) && del0[h2].is_prefix_of(del1[h2]) by {
                    if h2 == h {
                        assert(del0[h2] =~= del1[h2].subrange(0, del0[h2].len() as int));
                    } else {
                        assert(del0[h2] =~= del1[h2].subrange(0, del0[h2].len() as int));
                    }
                }
                lemma_deliveries_extend_trans(old(self).delivered@, del0, del1);
            }
        }
    }

    /// Suspends dispatch; jobs keep accumulating in the queues. Idempotent.
    pub fn lock(&mut self)
        requires
            old(self).wf(),
        ensures
            final(self).wf(),
            final(self).state == lock_transition(old(self).state),
            final(self).workers == old(self).workers,
            final(self).queues == old(self).queues,
            final(self).queued_count == old(self).queued_count,
            final(self).total_processed == old(self).total_processed,
            final(self).enqueued == old(self).enqueued,
            final(self).delivered == old(self).delivered,
            final(self).last_served == old(self).last_served,
            final(self).queue_cap == old(self).queue_cap,
    {
        if self.state == SchedulerState::Stopping {
            return;
        }
        self.state = SchedulerState::Locked;
    }

    /// Resumes dispatch and drains what accumulated while locked.
    /// Idempotent; a stopping scheduler stays stopping.
    pub fn unlock(&mut self)
        requires
            old(self).wf(),
        ensures
            final(self).wf(),
            final(self).state == unlock_transition(old(self).state),
            final(self).total_processed == old(self).total_processed,
            final(self).queue_cap == old(self).queue_cap,
            final(self).enqueued@ == old(self).enqueued@,
            final(self).workers@.len() == old(self).workers@.len(),
            queues_same_hooks(old(self).queues@, final(self).queues@),
            deliveries_extend(old(self).delivered@, final(self).delivered@),
            old(self).state is Stopping ==> *final(self) == *old(self),
            !(old(self).state is Stopping) ==> final(self).state is Running
                && final(self).dispatch_done(),
    {
        if self.state == SchedulerState::Stopping {
            proof {
                lemma_deliveries_extend_refl(self.delivered@);
            }
            return;
        }
        self.state = SchedulerState::Running;
        self.dispatch();
    }

    /// Whether the queue at index `qi` refuses another job.
    pub open spec fn over_cap(&self, qi: int) -> bool {
        self.queued_count == usize::MAX || (self.queue_cap matches Some(c)
            && self.queues@[qi].jobs@.len() >= c)
    }

    /// Whether the scheduler takes a job of hook `h`: it is not stopping,
    /// the hook has a queue, and neither the hook's cap nor the machine's
    /// is reached.
    pub open spec fn accepts_hook(&self, h: u64) -> bool {
        &&& !(self.state is Stopping)
        &&& has_queue(self.queues@, h)
        &&& !self.over_cap(queue_index_of(self.queues@, h))
    }

    /// Whether the scheduler takes `job`; only its hook decides.
    pub open spec fn accepts(&self, job: Job) -> bool {
        self.accepts_hook(job.hook_id)
    }

    /// Appends `job` to its hook's queue and, when running, dispatches.
    /// Accepted if and only if the scheduler is not stopping, the hook is
    /// known, and no queue cap is hit; the error says which was the case.
    /// A locked scheduler persists the job and dispatches nothing.
    pub fn enqueue(&mut self, job: Job) -> (r: FisherResult<()>)
        requires
            old(self).wf(),
        ensures
            final(self).wf(),
            final(self).state == old(self).state,
            final(self).total_processed == old(self).total_processed,
            final(self).queue_cap == old(self).queue_cap,
            final(self).workers@.len() == old(self).workers@.len(),
            final(self).queued_count <= old(self).queued_count + 1,
            queues_same_hooks(old(self).queues@, final(self).queues@),
            deliveries_extend(old(self).delivered@, final(self).delivered@),
            r is Ok <==> old(self).accepts(job),
            (old(self).accepts(job) && old(self).state is Running)
                ==> final(self).dispatch_done(),
            old(self).state is Stopping ==> (r is Err && r->Err_0.kind is ShutdownTimeout
                && *final(self) == *old(self)),
            (!(old(self).state is Stopping) && !has_queue(old(self).queues@, job.hook_id)) ==> (r
                is Err && r->Err_0.kind is HookNotFound && *final(self) == *old(self)),
            (!(old(self).state is Stopping) && has_queue(old(self).queues@, job.hook_id)
                && old(self).over_cap(queue_index_of(old(self).queues@, job.hook_id))) ==> (r
                is Err && r->Err_0.kind is Backpressure && *final(self) == *old(self)),
            old(self).accepts(job) ==> final(self).enqueued@ == old(self).enqueued@.insert(
                job.hook_id,
                old(self).enqueued@[job.hook_id].push(job.id),
            ),
            (old(self).accepts(job) && old(self).state is Locked) ==> (final(self).workers == old(
                self,
            ).workers && final(self).delivered@ == old(self).delivered@ && final(self).queues@[
                queue_index_of(old(self).queues@, job.hook_id)
            ].jobs@ == old(self).queues@[queue_index_of(old(self).queues@, job.hook_id)].jobs@.push(
                job,
            ) && (forall|i: int|
                0 <= i < old(self).queues@.len() && i != queue_index_of(
                    old(self).queues@,
                    job.hook_id,
                ) ==> final(self).queues@[i] == old(self).queues@[i])),
    {
        proof {
            lemma_deliveries_extend_refl(self.delivered@);
        }
        if self.state == SchedulerState::Stopping {
            return Err(FisherError::new(ErrorKind::ShutdownTimeout));
        }
        let h = job.hook_id;
        let qi = match self.find_queue(h) {
            Some(q) => q,
            None => {
                return Err(FisherError::new(ErrorKind::HookNotFound(job.hook_name)));
            },
        };
        proof {
            // the found index is the index the contracts name
            let ci = queue_index_of(self.queues@, h);
            assert(0 <= ci < self.queues@.len() && self.queues@[ci].hook_id == h);
            if ci != qi as int {
                assert(false);
            }
        }
        if self.queued_count == usize::MAX {
            return Err(FisherError::new(ErrorKind::Backpressure));
        }
        let over = match self.queue_cap {
            Some(c) => self.queues[qi].jobs.len() >= c,
            None => false,
        };
        if over {
            return Err(FisherError::new(ErrorKind::Backpressure));
        }
        let ghost qs0 = self.queues@;
        let ghost enq0 = self.enqueued@;
        let ghost jg = job;
        let ghost jobs0 = self.queues@[qi as int].jobs@;
        self.queues[qi].jobs.push(job);
        self.queued_count = self.queued_count + 1;
        proof {
            self.enqueued@ = enq0.insert(h, enq0[h].push(jg.id));
            let qs1 = self.queues@;
            let q1 = qs1[qi as int];
            assert(qs1 =~= qs0.update(qi as int, q1));
            lemma_totals_update(qs0, qi as int, q1);
            assert(queue_wf(qs0[qi as int], self.workers@, enq0, self.delivered@));
            assert(enq0[h].push(jg.id) =~= self.delivered@[h] + job_ids(q1.jobs@));
            assert forall|i2: int| 0 <= i2 < qs1.len() implies queue_wf(
                #[trigger] qs1[i2],
                self.workers@,
                self.enqueued@,
                self.delivered@,
            ) by {
                if i2 != qi as int {
                    assert(qs0[i2].hook_id != h);
                }
            }
            assert forall|i2: int|
                0 <= i2 < self.workers@.len() implies ((
            #[trigger] self.workers@[i2]).currently_running matches Some(h2) ==> has_queue(
                qs1,
                h2,
            )) by {
                if self.workers@[i2].currently_running is Some {
                    let h2 = self.workers@[i2].currently_running->Some_0;
                    let w = choose|j: int| 0 <= j < qs0.len() && (#[trigger] qs0[j]).hook_id == h2;
                    assert(qs1[w].hook_id == h2);
                }
            }
        }
        if self.state == SchedulerState::Running {
            self.dispatch();
        }
        Ok(())
    }

    /// Records that the worker at `worker_idx` finished its job: the worker
    /// is released, the hook's running count and the processed total move,
    /// and dispatch runs again (which may hand the released worker a new
    /// job). A completion reported by an unknown or idle worker is the
    /// fatal accounting error. When dispatch cannot move jobs — locked or
    /// stopping — the release is the whole effect: the worker ends idle
    /// (and is told to stop while stopping), its hook's running count drops
    /// by one, and queues, histories and counters stay as they were.
    pub fn job_ended(&mut self, worker_idx: usize) -> (r: FisherResult<()>)
        requires
            old(self).wf(),
            old(self).total_processed < u64::MAX,
        ensures
            final(self).wf(),
            final(self).state == old(self).state,
            final(self).queue_cap == old(self).queue_cap,
            final(self).enqueued@ == old(self).enqueued@,
            final(self).workers@.len() == old(self).workers@.len(),
            final(self).queued_count <= old(self).queued_count,
            queues_same_hooks(old(self).queues@, final(self).queues@),
            deliveries_extend(old(self).delivered@, final(self).delivered@),
            r is Ok <==> (worker_idx < old(self).workers@.len() && old(self).workers@[
                worker_idx as int
            ].busy_spec()),
            r is Err ==> (*final(self) == *old(self) && r->Err_0.kind
                is InternalInvariantViolation),
            r is Ok ==> final(self).total_processed == old(self).total_processed + 1,
            final(self).total_processed >= old(self).total_processed,
            (r is Ok && old(self).state is Running) ==> final(self).dispatch_done(),
            (r is Ok && (!(old(self).state is Running) || queued_total(old(self).queues@) == 0))
                ==> ({
                let h = old(self).workers@[worker_idx as int].currently_running->Some_0;
                let qi = queue_index_of(old(self).queues@, h);
                &&& !final(self).workers@[worker_idx as int].busy_spec()
                &&& final(self).workers@[worker_idx as int].id == old(self).workers@[
                    worker_idx as int
                ].id
                &&& final(self).workers@[worker_idx as int].inbox == old(self).workers@[
                    worker_idx as int
                ].inbox
                &&& final(self).workers@[worker_idx as int].should_stop == (old(self).state
                    is Stopping)
                &&& (forall|j: int|
                    0 <= j < old(self).workers@.len() && j != worker_idx ==> final(self).workers@[j]
                        == old(self).workers@[j])
                &&& final(self).queues@[qi].running + 1 == old(self).queues@[qi].running
                &&& final(self).queues@[qi].jobs == old(self).queues@[qi].jobs
                &&& (forall|i: int|
                    0 <= i < old(self).queues@.len() && i != qi ==> final(self).queues@[i] == old(
                        self,
                    ).queues@[i])
                &&& final(self).delivered@ == old(self).delivered@
                &&& final(self).queued_count == old(self).queued_count
            }),
    {
        proof {
            lemma_deliveries_extend_refl(self.delivered@);
        }
        if worker_idx >= self.workers.len() {
            return Err(FisherError::new(ErrorKind::InternalInvariantViolation));
        }
        let cr = self.workers[worker_idx].currently_running();
        let h = match cr {
            Some(h) => h,
            None => {
                return Err(FisherError::new(ErrorKind::InternalInvariantViolation));
            },
        };
        let ghost ws0 = self.workers@;
        let ghost qs0 = self.queues@;
        self.workers[worker_idx].mark_idle();
        if self.state == SchedulerState::Stopping {
            self.workers[worker_idx].stop();
        }
        let ghost ws1 = self.workers@;
        let qi = match self.find_queue(h) {
            Some(q) => q,
            None => {
                proof {
                    assert(has_queue(qs0, h));
                    assert(false);
                }
                return Err(FisherError::new(ErrorKind::InternalInvariantViolation));
            },
        };
        proof {
            assert(queue_wf(qs0[qi as int], ws0, self.enqueued@, self.delivered@));
            lemma_count_running_busy_at(ws0, worker_idx as int, h);
            // the found index is the index the contracts name
            let ci = queue_index_of(qs0, h);
            assert(0 <= ci < qs0.len() && qs0[ci].hook_id == h);
            if ci != qi as int {
                assert(false);
            }
        }
        let newrun = self.queues[qi].running - 1;
        self.queues[qi].running = newrun;
        self.total_processed = self.total_processed + 1;
        proof {
            let qs1 = self.queues@;
            let q1 = qs1[qi as int];
            assert(qs1 =~= qs0.update(qi as int, q1));
            assert(ws1 =~= ws0.update(worker_idx as int, ws1[worker_idx as int]));
            lemma_totals_update(qs0, qi as int, q1);
            lemma_count_update(ws0, worker_idx as int, ws1[worker_idx as int], h);
            assert forall|i2: int| 0 <= i2 < qs1.len() implies queue_wf(
                #[trigger] qs1[i2],
                ws1,
                self.enqueued@,
                self.delivered@,
            ) by {
                lemma_count_update(ws0, worker_idx as int, ws1[worker_idx as int], qs1[i2].hook_id);
                if i2 != qi as int {
                    assert(qs0[i2].hook_id != h);
                }
            }
            assert forall|i2: int|
                0 <= i2 < ws1.len() implies ((#[trigger] ws1[i2]).currently_running matches Some(
                h2,
            ) ==> has_queue(qs1, h2)) by {
                if ws1[i2].currently_running is Some {
                    let h2 = ws1[i2].currently_running->Some_0;
                    assert(ws0[i2].currently_running == Some(h2));
                    let w = choose|j: int| 0 <= j < qs0.len() && (#[trigger] qs0[j]).hook_id == h2;
                    assert(qs1[w].hook_id == h2);
                }
            }
            // with nothing queued, the release is the whole effect: the
            // dispatch below can move no job
            if queued_total(qs0) == 0 {
                assert forall|i2: int|
                    0 <= i2 < self.queues@.len() implies !queue_eligible(
                    #[trigger] self.queues@[i2],
                ) by {
                    lemma_totals_at(self.queues@, i2);
                }
            }
        }
        self.dispatch();
        Ok(())
    }

    /// Conservation and per-hook FIFO. For every hook of the snapshot, the
    /// ids enqueued are exactly the ids delivered to workers followed by
    /// the ids still queued, in arrival order: no job is lost or
    /// duplicated, a queued job disappears only with its hook's queue, and
    /// the delivery order of a hook's jobs is their enqueue order — the
    /// delivery history is a prefix of the arrival history.
    #[verifier::spinoff_prover]
    pub proof fn lemma_conservation_and_fifo(&self, i: int)
        requires
            self.wf(),
            0 <= i < self.queues@.len(),
        ensures
            self.enqueued@[self.queues@[i].hook_id] == self.delivered@[self.queues@[i].hook_id]
                + job_ids(self.queues@[i].jobs@),
            self.delivered@[self.queues@[i].hook_id].is_prefix_of(
                self.enqueued@[self.queues@[i].hook_id],
            ),
    {
        assert(queue_wf(self.queues@[i], self.workers@, self.enqueued@, self.delivered@));
        let h = self.queues@[i].hook_id;
        let del = self.delivered@[h];
        let ids = job_ids(self.queues@[i].jobs@);
        assert(del.is_prefix_of(del + ids)) by {
            assert(del =~= (del + ids).subrange(0, del.len() as int));
        }
    }

    /// The worker invariant: a worker's busy flag is raised by `dispatch`
    /// handing it a job and lowered only when `job_ended` records the
    /// completion; while it is raised, the job's hook has a queue and that
    /// queue's running share counts the worker.
    pub proof fn lemma_worker_accounting(&self, i: int)
        requires
            self.wf(),
            0 <= i < self.workers@.len(),
            self.workers@[i].busy_spec(),
        ensures
            has_queue(self.queues@, self.workers@[i].currently_running->Some_0),
            self.queues@[queue_index_of(
                self.queues@,
                self.workers@[i].currently_running->Some_0,
            )].running >= 1,
    {
        let h = self.workers@[i].currently_running->Some_0;
        let qi = queue_index_of(self.queues@, h);
        assert(0 <= qi < self.queues@.len() && self.queues@[qi].hook_id == h);
        assert(queue_wf(self.queues@[qi], self.workers@, self.enqueued@, self.delivered@));
        lemma_count_running_busy_at(self.workers@, i, h);
    }

    /// A non-parallel hook never runs two jobs at once: its queue's share
    /// and the number of workers busy with it are both at most one.
    pub proof fn lemma_non_parallel_serialized(&self, i: int)
        requires
            self.wf(),
            0 <= i < self.queues@.len(),
            !self.queues@[i].parallel,
        ensures
            self.queues@[i].running <= 1,
            count_running(self.workers@, self.queues@[i].hook_id) <= 1,
    {
        assert(queue_wf(self.queues@[i], self.workers@, self.enqueued@, self.delivered@));
    }

    /// Executing jobs and busy workers agree, and the pool size bounds
    /// both.
    pub proof fn lemma_pool_bound(&self)
        requires
            self.wf(),
        ensures
            0 <= running_total(self.queues@) == count_busy(self.workers@) <= self.workers@.len(),
    {
        lemma_count_bounds(self.workers@, 0);
    }

    /// A pool of one worker serializes every hook globally, whatever the
    /// parallel flags say.
    pub proof fn lemma_single_worker_serializes(&self)
        requires
            self.wf(),
            self.workers@.len() == 1,
        ensures
            running_total(self.queues@) <= 1,
            forall|i: int| 0 <= i < self.queues@.len() ==> (#[trigger] self.queues@[i]).running <= 1,
    {
        lemma_count_bounds(self.workers@, 0);
        assert forall|i: int|
            0 <= i < self.queues@.len() implies (#[trigger] self.queues@[i]).running <= 1 by {
            assert(queue_wf(self.queues@[i], self.workers@, self.enqueued@, self.delivered@));
            lemma_count_bounds(self.workers@, self.queues@[i].hook_id);
        }
    }

    /// Brings the queue set in line with the snapshot after a reload:
    /// queues of removed hooks are dropped with their pending jobs, queues
    /// of surviving hooks keep their jobs, order, flag and histories, and
    /// every new hook gets an empty queue with a fresh history. Callers
    /// hold the scheduler locked and let running jobs drain first.
    #[verifier::rlimit(50)]
    pub fn cleanup(&mut self, current: &Hooks)
        requires
            old(self).wf(),
            current.wf(),
            old(self).state is Locked,
            count_busy(old(self).workers@) == 0,
        ensures
            final(self).wf(),
            final(self).state == old(self).state,
            final(self).workers == old(self).workers,
            final(self).total_processed == old(self).total_processed,
            final(self).queue_cap == old(self).queue_cap,
            forall|i: int|
                0 <= i < final(self).queues@.len() ==> has_hook_id(
                    current.hook_seq(),
                    (#[trigger] final(self).queues@[i]).hook_id,
                ),
            forall|k: int|
                0 <= k < current.hook_seq().len() ==> has_queue(
                    final(self).queues@,
                    (#[trigger] current.hook_seq()[k]).id,
                ),
            forall|i: int|
                0 <= i < old(self).queues@.len() && has_hook_id(
                    current.hook_seq(),
                    (#[trigger] old(self).queues@[i]).hook_id,
                ) ==> final(self).enqueued@[old(self).queues@[i].hook_id] == old(self).enqueued@[
                    old(self).queues@[i].hook_id
                ] && final(self).delivered@[old(self).queues@[i].hook_id] == old(self).delivered@[
                    old(self).queues@[i].hook_id
                ],
            forall|i: int|
                0 <= i < old(self).queues@.len() && has_hook_id(
                    current.hook_seq(),
                    (#[trigger] old(self).queues@[i]).hook_id,
                ) ==> (exists|j: int|
                    0 <= j < final(self).queues@.len() && #[trigger] final(self).queues@[j] == old(
                        self,
                    ).queues@[i]),
    {
        let ghost qs0 = self.queues@;
        let ghost ws0 = self.workers@;
        let ghost cur = current.hook_seq();
        proof {
            lemma_count_busy_zero(ws0);
            assert(qs0.take(0) =~= Seq::<HookQueue>::empty());
        }
        let mut kept: Vec<HookQueue> = Vec::new();
        let ghost mut p: int = 0;
        while self.queues.len() > 0
            invariant
                current.wf(),
                cur == current.hook_seq(),
                qs0 == old(self).queues@,
                0 <= p <= qs0.len(),
                self.queues@ == qs0.skip(p),
                kept@ == kept_queues(qs0.take(p), cur),
                self.workers == old(self).workers,
                self.state == old(self).state,
                self.enqueued == old(self).enqueued,
                self.delivered == old(self).delivered,
                self.total_processed == old(self).total_processed,
                self.queue_cap == old(self).queue_cap,
                self.queued_count as int == queued_total(self.queues@) + queued_total(kept@),
            decreases self.queues@.len(),
        {
            let ghost rem0 = self.queues@;
            proof {
                assert(rem0[0] == qs0[p]);
                lemma_queued_total_first(rem0);
                lemma_totals_nonneg(rem0.drop_first());
                lemma_totals_nonneg(kept@);
                assert(qs0.take(p + 1).drop_last() =~= qs0.take(p));
                assert(qs0.take(p + 1).last() == qs0[p]);
            }
            let q = self.queues.remove(0);
            let ghost qg = q;
            proof {
                assert(self.queues@ =~= qs0.skip(p + 1));
            }
            if current.contains_id(q.hook_id) {
                let ghost kept0 = kept@;
                kept.push(q);
                proof {
                    assert(kept@ =~= kept0 + seq![qg]);
                    assert(kept@.drop_last() =~= kept0);
                    assert(kept@.last() == qg);
                    assert(kept@ == kept_queues(qs0.take(p + 1), cur));
                }
            } else {
                let n = q.jobs.len();
                self.queued_count = self.queued_count - n;
                proof {
                    assert(kept@ =~= kept@ + Seq::<HookQueue>::empty());
                    assert(kept@ == kept_queues(qs0.take(p + 1), cur));
                }
            }
            proof {
                p = p + 1;
            }
        }
        proof {
            assert(qs0.take(p) =~= qs0);
            assert(kept@ == kept_queues(qs0, cur));
            lemma_kept_sub(qs0, cur);
            lemma_kept_unique(qs0, cur);
            lemma_kept_complete(qs0, cur);
            // every kept queue is a queue of the old snapshot, so its
            // history is balanced and nothing of it runs
            assert forall|j: int| 0 <= j < kept@.len() implies queue_wf(
                #[trigger] kept@[j],
                ws0,
                self.enqueued@,
                self.delivered@,
            ) && kept@[j].running == 0 by {
                let i = choose|i: int| 0 <= i < qs0.len() && qs0[i] == kept@[j];
                assert(queue_wf(qs0[i], ws0, old(self).enqueued@, old(self).delivered@));
                lemma_count_busy_zero(ws0);
            }
        }
        let mut k: usize = 0;
        while k < current.len()
            invariant
                old(self).wf(),
                current.wf(),
                count_busy(old(self).workers@) == 0,
                ws0 == old(self).workers@,
                qs0 == old(self).queues@,
                k <= current.hook_seq().len(),
                self.workers == old(self).workers,
                self.state == old(self).state,
                self.total_processed == old(self).total_processed,
                self.queue_cap == old(self).queue_cap,
                self.queued_count as int == queued_total(kept@),
                forall|j: int|
                    0 <= j < kept@.len() ==> has_hook_id(
                        current.hook_seq(),
                        (#[trigger] kept@[j]).hook_id,
                    ),
                forall|i: int|
                    0 <= i < qs0.len() && has_hook_id(
                        current.hook_seq(),
                        (#[trigger] qs0[i]).hook_id,
                    ) ==> (exists|j: int| 0 <= j < kept@.len() && kept@[j] == qs0[i]),
                forall|a: int, b: int|
                    0 <= a < b < kept@.len() ==> (#[trigger] kept@[a]).hook_id != (
                    #[trigger] kept@[b]).hook_id,
                forall|k2: int|
                    0 <= k2 < k ==> has_queue(kept@, (#[trigger] current.hook_seq()[k2]).id),
                forall|j: int|
                    0 <= j < kept@.len() ==> queue_wf(
                        #[trigger] kept@[j],
                        ws0,
                        self.enqueued@,
                        self.delivered@,
                    ) && kept@[j].running == 0,
                forall|i: int|
                    0 <= i < qs0.len() && has_hook_id(
                        current.hook_seq(),
                        (#[trigger] qs0[i]).hook_id,
                    ) ==> self.enqueued@[qs0[i].hook_id] == old(self).enqueued@[qs0[i].hook_id]
                        && self.delivered@[qs0[i].hook_id] == old(self).delivered@[qs0[i].hook_id],
            decreases current.hook_seq().len() - k,
        {
            let hid = current.hook_at(k).id;
            let parallel = current.hook_at(k).parallel;
            let mut found = false;
            let mut t: usize = 0;
            while t < kept.len()
                invariant
                    t <= kept@.len(),
                    k < current.hook_seq().len(),
                    hid == current.hook_seq()[k as int].id,
                    found == exists|j: int| 0 <= j < t && (#[trigger] kept@[j]).hook_id == hid,
                decreases kept@.len() - t,
            {
                if kept[t].hook_id == hid {
                    found = true;
                }
                t = t + 1;
            }
            if !found {
                let ghost kept0 = kept@;
                let nq = HookQueue { hook_id: hid, parallel, jobs: Vec::new(), running: 0 };
                let ghost nqg = nq;
                kept.push(nq);
                proof {
                    self.enqueued@ = self.enqueued@.insert(hid, Seq::<u64>::empty());
                    self.delivered@ = self.delivered@.insert(hid, Seq::<u64>::empty());
                    assert(kept@.drop_last() =~= kept0);
                    assert(kept@.last() == nqg);
                    assert(Seq::<u64>::empty() =~= Seq::<u64>::empty() + job_ids(nqg.jobs@));
                    lemma_count_busy_zero(ws0);
                    lemma_count_bounds(ws0, hid);
                    // the fresh histories live under the new hook's id,
                    // never under a surviving hook's
                    assert forall|i2: int|
                        0 <= i2 < qs0.len() && has_hook_id(
                            current.hook_seq(),
                            (#[trigger] qs0[i2]).hook_id,
                        ) implies self.enqueued@[qs0[i2].hook_id] == old(self).enqueued@[
                        qs0[i2].hook_id
                    ] && self.delivered@[qs0[i2].hook_id] == old(self).delivered@[
                        qs0[i2].hook_id
                    ] by {
                        let j = choose|j: int| 0 <= j < kept0.len() && kept0[j] == qs0[i2];
                        assert(kept0[j].hook_id != hid);
                    }
                }
            }
            k = k + 1;
        }
        self.queues = kept;
        self.last_served = 0;
        proof {
            assert(count_busy(self.workers@) == 0);
            lemma_count_busy_zero(self.workers@);
            assert(forall|i: int|
                0 <= i < self.queues@.len() ==> (#[trigger] self.queues@[i]).running == 0);
            lemma_running_total_zero(self.queues@);
        }
    }

    /// Enters the terminal `Stopping` state and tells every worker to exit;
    /// a busy worker finishes its current job first. With no job executing,
    /// the pool is fully stopped at once.
    pub fn stop(&mut self)
        requires
            old(self).wf(),
        ensures
            final(self).wf(),
            final(self).state is Stopping,
            final(self).queues == old(self).queues,
            final(self).enqueued@ == old(self).enqueued@,
            final(self).delivered@ == old(self).delivered@,
            final(self).total_processed == old(self).total_processed,
            final(self).queued_count == old(self).queued_count,
            final(self).workers@.len() == old(self).workers@.len(),
            forall|i: int|
                0 <= i < old(self).workers@.len() ==> (#[trigger] final(self).workers@[i]).id
                    == old(self).workers@[i].id && final(self).workers@[i].currently_running == old(
                    self,
                ).workers@[i].currently_running && final(self).workers@[i].should_stop,
            count_busy(old(self).workers@) == 0 ==> final(self).fully_stopped(),
    {
        self.state = SchedulerState::Stopping;
        let mut i: usize = 0;
        while i < self.workers.len()
            invariant
                old(self).wf(),
                i <= self.workers@.len(),
                self.workers@.len() == old(self).workers@.len(),
                self.state is Stopping,
                self.queues == old(self).queues,
                self.enqueued == old(self).enqueued,
                self.delivered == old(self).delivered,
                self.total_processed == old(self).total_processed,
                self.queued_count == old(self).queued_count,
                self.queue_cap == old(self).queue_cap,
                self.last_served == old(self).last_served,
                forall|j: int|
                    0 <= j < self.workers@.len() ==> (#[trigger] self.workers@[j]).id == old(
                        self,
                    ).workers@[j].id && self.workers@[j].currently_running == old(self).workers@[
                        j
                    ].currently_running && self.workers@[j].inbox == old(self).workers@[j].inbox,
                forall|j: int| 0 <= j < i ==> (#[trigger] self.workers@[j]).should_stop,
            decreases self.workers@.len() - i,
        {
            self.workers[i].stop();
            i = i + 1;
        }
        proof {
            let ws0 = old(self).workers@;
            let ws1 = self.workers@;
            assert forall|i2: int| 0 <= i2 < self.queues@.len() implies queue_wf(
                #[trigger] self.queues@[i2],
                ws1,
                self.enqueued@,
                self.delivered@,
            ) by {
                assert(queue_wf(old(self).queues@[i2], ws0, self.enqueued@, self.delivered@));
                lemma_count_pointwise(ws0, ws1, self.queues@[i2].hook_id);
            }
            lemma_count_pointwise(ws0, ws1, 0);
            if count_busy(ws0) == 0 {
                lemma_count_busy_zero(ws0);
            }
        }
    }
}

} // verus!
