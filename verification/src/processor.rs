//! The processor facade: the one surface the HTTP front-end sees. It owns
//! the scheduler and the current hook snapshot, turns requests into jobs
//! through the pipeline, assigns job ids, and on each completion emits the
//! status jobs the snapshot subscribes to.

use vstd::prelude::*;

use crate::errors::{FisherError, FisherResult};
use crate::hooks::{status_targets, Hook, Hooks};
use crate::jobs::{is_status_job_for, spec_event_of, status_jobs, Job};
use crate::pipeline::{decide, process_request, RequestOutcome};
use crate::request::Request;
use crate::scheduler::{
    count_busy, deliveries_extend, has_queue, lemma_deliveries_extend_trans,
    lemma_queues_same_hooks_trans, queues_same_hooks, HealthDetails, Scheduler,
};

verus! {

/// What the facade answered to one inbound request.
pub enum HandleOutcome {
    /// A job was built and enqueued, under this id.
    Queued(u64),
    /// The request was acknowledged and dropped (a ping), with the reason.
    Ignored(String),
    /// The request was rejected by the pipeline, with the reason.
    Invalid(String),
    /// The pipeline accepted but the scheduler refused the job; the error
    /// says whether it was stopping, the hook had no queue, or a cap hit.
    Refused(FisherError),
}

/// The arrival histories after the status jobs of `targets` were enqueued
/// in order, under ids counted up from `first_id`.
pub open spec fn with_status_arrivals(
    enq: Map<u64, Seq<u64>>,
    targets: Seq<Hook>,
    first_id: u64,
) -> Map<u64, Seq<u64>>
    decreases targets.len(),
{
    if targets.len() == 0 {
        enq
    } else {
        with_status_arrivals(
            enq.insert(targets[0].id, enq[targets[0].id].push(first_id)),
            targets.drop_first(),
            ((first_id + 1) as u64),
        )
    }
}

/// No status job for `targets` can be refused by `s`: the scheduler is not
/// stopping, the queues are uncapped with room in the machine counter, and
/// every target hook has a queue.
pub open spec fn status_delivery_assured(s: Scheduler, targets: Seq<Hook>) -> bool {
    &&& !(s.state is Stopping)
    &&& s.queue_cap is None
    &&& s.queued_count + targets.len() <= usize::MAX
    &&& forall|k: int| 0 <= k < targets.len() ==> has_queue(s.queues@, (#[trigger] targets[k]).id)
}

/// The facade over the scheduler and the current snapshot.
pub struct Processor {
    /// The scheduler owning queues and workers.
    pub scheduler: Scheduler,
    /// The snapshot requests are resolved against.
    pub hooks: Hooks,
    /// The id the next created job receives.
    pub next_job_id: u64,
}

impl Processor {
    pub open spec fn wf(&self) -> bool {
        &&& self.scheduler.wf()
        &&& self.hooks.wf()
    }

    /// A fresh pool of `max_threads` workers over the given snapshot: one
    /// empty queue per hook, nothing running, nothing processed.
    pub fn new(max_threads: usize, hooks: Hooks, queue_cap: Option<usize>) -> (r: Processor)
        requires
            max_threads >= 1,
            hooks.wf(),
        ensures
            r.wf(),
            r.scheduler.state is Running,
            r.scheduler.workers@.len() == max_threads,
            r.scheduler.queued_count == 0,
            r.scheduler.total_processed == 0,
            count_busy(r.scheduler.workers@) == 0,
            r.hooks == hooks,
            r.next_job_id == 0,
            r.scheduler.queues@.len() == hooks.hook_seq().len(),
            forall|i: int|
                0 <= i < r.scheduler.queues@.len() ==> (#[trigger] r.scheduler.queues@[i]).hook_id
                    == hooks.hook_seq()[i].id && r.scheduler.queues@[i].parallel
                    == hooks.hook_seq()[i].parallel && r.scheduler.queues@[i].jobs@.len() == 0
                    && r.scheduler.queues@[i].running == 0,
    {
        let scheduler = Scheduler::new(max_threads, &hooks, queue_cap);
        Processor { scheduler, hooks, next_job_id: 0 }
    }

    /// Resolves one inbound request: the pipeline classifies and validates
    /// it against the named hook, and an accepted job is enqueued under a
    /// fresh id, recorded in its hook's arrival history.
    pub fn handle_request(&mut self, hook_name: &str, req: Request) -> (r: HandleOutcome)
        requires
            old(self).wf(),
            old(self).next_job_id < u64::MAX,
        ensures
            final(self).wf(),
            final(self).hooks == old(self).hooks,
            final(self).scheduler.state == old(self).scheduler.state,
            final(self).scheduler.total_processed == old(self).scheduler.total_processed,
            !old(self).hooks@.contains_key(hook_name@) ==> (r is Invalid && *final(self) == *old(
                self,
            )),
            old(self).hooks@.contains_key(hook_name@) && old(self).hooks@[hook_name@].providers@.len()
                > 0 && decide(old(self).hooks@[hook_name@].providers@, req) is Ping ==> (r
                is Ignored && *final(self) == *old(self)),
            old(self).hooks@.contains_key(hook_name@) && old(self).hooks@[hook_name@].providers@.len()
                > 0 && decide(old(self).hooks@[hook_name@].providers@, req) is Rejected ==> (r
                is Invalid && *final(self) == *old(self)),
            old(self).hooks@.contains_key(hook_name@) && (old(self).hooks@[hook_name@].providers@.len()
                == 0 || decide(old(self).hooks@[hook_name@].providers@, req) is Accept) ==> {
                let h = old(self).hooks@[hook_name@].id;
                &&& (old(self).scheduler.accepts_hook(h) <==> (r matches HandleOutcome::Queued(id)
                    && id == old(self).next_job_id))
                &&& (old(self).scheduler.accepts_hook(h) ==> final(self).next_job_id == old(
                    self,
                ).next_job_id + 1)
                &&& (old(self).scheduler.accepts_hook(h) ==> final(self).scheduler.enqueued@ == old(
                    self,
                ).scheduler.enqueued@.insert(
                    h,
                    old(self).scheduler.enqueued@[h].push(old(self).next_job_id),
                ))
                &&& ((old(self).scheduler.accepts_hook(h) && old(self).scheduler.state is Running)
                    ==> final(self).scheduler.dispatch_done())
                &&& (!old(self).scheduler.accepts_hook(h) ==> r is Refused)
            },
    {
        let outcome = process_request(&self.hooks, hook_name, req, self.next_job_id);
        match outcome {
            RequestOutcome::Ignored(reason) => HandleOutcome::Ignored(reason),
            RequestOutcome::Invalid(reason) => HandleOutcome::Invalid(reason),
            RequestOutcome::Accepted(job) => {
                let id = job.id;
                match self.scheduler.enqueue(job) {
                    Ok(_) => {
                        self.next_job_id = self.next_job_id + 1;
                        HandleOutcome::Queued(id)
                    },
                    Err(e) => HandleOutcome::Refused(e),
                }
            },
        }
    }

    /// Records one completion: the scheduler releases the worker, the
    /// status jobs the snapshot subscribes to are enqueued under fresh ids
    /// in snapshot order, and dispatch runs again. A status job raises no
    /// further status jobs, and where no status job can be refused, the
    /// arrival histories grow by exactly the subscribed hooks' jobs. A
    /// completion from an unknown or idle worker is the fatal accounting
    /// error and changes nothing.
    pub fn record_completion(&mut self, worker_idx: usize, job: &Job, success: bool) -> (r:
        FisherResult<()>)
        requires
            old(self).wf(),
            old(self).scheduler.total_processed < u64::MAX,
            old(self).next_job_id + old(self).hooks.hook_seq().len() <= u64::MAX,
        ensures
            final(self).wf(),
            final(self).hooks == old(self).hooks,
            final(self).scheduler.state == old(self).scheduler.state,
            final(self).scheduler.queue_cap == old(self).scheduler.queue_cap,
            queues_same_hooks(old(self).scheduler.queues@, final(self).scheduler.queues@),
            deliveries_extend(old(self).scheduler.delivered@, final(self).scheduler.delivered@),
            r is Ok <==> (worker_idx < old(self).scheduler.workers@.len()
                && old(self).scheduler.workers@[worker_idx as int].busy_spec()),
            r is Err ==> (*final(self) == *old(self) && r->Err_0.kind
                is InternalInvariantViolation),
            r is Ok ==> final(self).scheduler.total_processed
                == old(self).scheduler.total_processed + 1,
            final(self).scheduler.total_processed >= old(self).scheduler.total_processed,
            (r is Ok && old(self).scheduler.state is Running)
                ==> final(self).scheduler.dispatch_done(),
            r is Ok ==> final(self).next_job_id as int == old(self).next_job_id + (if job.is_status {
                0int
            } else {
                status_targets(
                    old(self).hooks.hook_seq(),
                    spec_event_of(success),
                    job.hook_name@,
                ).len() as int
            }),
            (r is Ok && job.is_status)
                ==> final(self).scheduler.enqueued@ == old(self).scheduler.enqueued@,
            (r is Ok && !job.is_status && status_delivery_assured(
                old(self).scheduler,
                status_targets(old(self).hooks.hook_seq(), spec_event_of(success), job.hook_name@),
            )) ==> final(self).scheduler.enqueued@ == with_status_arrivals(
                old(self).scheduler.enqueued@,
                status_targets(old(self).hooks.hook_seq(), spec_event_of(success), job.hook_name@),
                old(self).next_job_id,
            ),
    {
        let ghost targets = status_targets(
            old(self).hooks.hook_seq(),
            spec_event_of(success),
            job.hook_name@,
        );
        let ghost enq_base = old(self).scheduler.enqueued@;
        let ghost first_id = old(self).next_job_id;
        let ghost assured = status_delivery_assured(old(self).scheduler, targets);
        match self.scheduler.job_ended(worker_idx) {
            Ok(_) => {},
            Err(e) => {
                return Err(e);
            },
        }
        proof {
            // the surviving queue set still has every target's queue
            if assured {
                assert forall|k2: int|
                    0 <= k2 < targets.len() implies has_queue(
                    self.scheduler.queues@,
                    (#[trigger] targets[k2]).id,
                ) by {
                    let w = choose|i: int|
                        0 <= i < old(self).scheduler.queues@.len() && (
                        #[trigger] old(self).scheduler.queues@[i]).hook_id == targets[k2].id;
                    assert(self.scheduler.queues@[w].hook_id == targets[k2].id);
                }
            }
            assert(targets.skip(0) =~= targets);
        }
        let mut sjobs = status_jobs(&self.hooks, job, success, self.next_job_id);
        let ghost sj0 = sjobs@;
        self.next_job_id = self.next_job_id + (sjobs.len() as u64);
        let ghost mut k: int = 0;
        while sjobs.len() > 0
            invariant
                self.scheduler.wf(),
                self.hooks.wf(),
                self.hooks == old(self).hooks,
                self.scheduler.state == old(self).scheduler.state,
                self.scheduler.queue_cap == old(self).scheduler.queue_cap,
                self.scheduler.total_processed == old(self).scheduler.total_processed + 1,
                self.next_job_id as int == old(self).next_job_id + sj0.len(),
                first_id == old(self).next_job_id,
                first_id + sj0.len() <= u64::MAX,
                enq_base == old(self).scheduler.enqueued@,
                targets == status_targets(
                    old(self).hooks.hook_seq(),
                    spec_event_of(success),
                    job.hook_name@,
                ),
                assured == status_delivery_assured(old(self).scheduler, targets),
                sj0.len() == (if job.is_status {
                    0int
                } else {
                    targets.len() as int
                }),
                forall|k2: int|
                    0 <= k2 < sj0.len() ==> is_status_job_for(
                        #[trigger] sj0[k2],
                        targets[k2],
                        *job,
                        success,
                        ((first_id + k2) as u64),
                    ),
                0 <= k <= sj0.len(),
                sjobs@ == sj0.skip(k),
                queues_same_hooks(old(self).scheduler.queues@, self.scheduler.queues@),
                deliveries_extend(old(self).scheduler.delivered@, self.scheduler.delivered@),
                self.scheduler.state is Running ==> self.scheduler.dispatch_done(),
                job.is_status ==> self.scheduler.enqueued@ == enq_base,
                self.scheduler.queued_count as int <= old(self).scheduler.queued_count + k,
                assured ==> with_status_arrivals(enq_base, targets, first_id)
                    == with_status_arrivals(
                    self.scheduler.enqueued@,
                    targets.skip(k),
                    ((first_id + k) as u64),
                ),
                assured ==> forall|k2: int|
                    k <= k2 < targets.len() ==> has_queue(
                        self.scheduler.queues@,
                        (#[trigger] targets[k2]).id,
                    ),
            decreases sjobs@.len(),
        {
            let ghost pre = self.scheduler;
            let sj = sjobs.remove(0);
            proof {
                assert(sjobs@ =~= sj0.skip(k + 1));
                assert(sj == sj0[k]);
            }
            let res = self.scheduler.enqueue(sj);
            proof {
                lemma_queues_same_hooks_trans(
                    old(self).scheduler.queues@,
                    pre.queues@,
                    self.scheduler.queues@,
                );
                lemma_deliveries_extend_trans(
                    old(self).scheduler.delivered@,
                    pre.delivered@,
                    self.scheduler.delivered@,
                );
                if assured {
                    // this status job could not be refused
                    assert(sj.hook_id == targets[k].id && sj.id == ((first_id + k) as u64));
                    assert(has_queue(pre.queues@, sj.hook_id));
                    assert(pre.queued_count < usize::MAX);
                    assert(pre.accepts(sj));
                    assert(res is Ok);
                    // one more arrival folds into the histories
                    assert(targets.skip(k)[0] == targets[k]);
                    assert(targets.skip(k).drop_first() =~= targets.skip(k + 1));
                    assert forall|k2: int|
                        k + 1 <= k2 < targets.len() implies has_queue(
                        self.scheduler.queues@,
                        (#[trigger] targets[k2]).id,
                    ) by {
                        let w = choose|i: int|
                            0 <= i < pre.queues@.len() && (#[trigger] pre.queues@[i]).hook_id
                                == targets[k2].id;
                        assert(self.scheduler.queues@[w].hook_id == targets[k2].id);
                    }
                }
                k = k + 1;
            }
        }
        proof {
            if assured && !job.is_status {
                assert(targets.skip(k) =~= Seq::<Hook>::empty());
            }
        }
        Ok(())
    }

    /// The health counters, as the scheduler keeps them.
    pub fn health(&self) -> (r: HealthDetails)
        requires
            self.wf(),
        ensures
            r.queued as int == crate::scheduler::queued_total(self.scheduler.queues@),
            r.executing as int == crate::scheduler::running_total(self.scheduler.queues@),
            r.workers_busy as int == count_busy(self.scheduler.workers@),
    {
        self.scheduler.health()
    }
}

} // verus!
