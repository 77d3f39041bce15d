//! The host-facing configuration builder and the running instance: collect
//! hooks and operator environment, start the pool, reload the hook set
//! without dropping in-flight work, and stop gracefully.

use vstd::prelude::*;

use crate::errors::{ErrorKind, FisherError, FisherResult};
use crate::hooks::{has_hook_id, Hook, Hooks};
use crate::kvmap::KvMap;
use crate::processor::Processor;
use crate::scheduler::{count_busy, deliveries_extend, has_queue, queues_same_hooks, unlock_transition};
use crate::utils::parse_env;

verus! {

/// The configuration a host assembles before starting the pool.
pub struct Fisher {
    /// How many workers the pool gets; at least one is needed to start.
    pub max_threads: u16,
    /// How many proxies stand before the HTTP front-end.
    pub behind_proxies: u8,
    /// The address the front-end binds, as text.
    pub bind: String,
    /// Whether the health endpoint is served.
    pub enable_health: bool,
    /// The operator-configured static environment for every job.
    pub environment: KvMap,
    /// The hooks registered so far.
    pub hooks: Hooks,
}

impl Fisher {
    pub fn new() -> (r: Fisher)
        ensures
            r.max_threads == 1,
            r.behind_proxies == 0,
            r.bind@ == "127.0.0.1:8000"@,
            r.enable_health,
            r.environment@ == Map::<Seq<char>, Seq<char>>::empty(),
            r.hooks.wf(),
            r.hooks.hook_seq() == Seq::<Hook>::empty(),
    {
        Fisher {
            max_threads: 1,
            behind_proxies: 0,
            bind: "127.0.0.1:8000".to_owned(),
            enable_health: true,
            environment: KvMap::new(),
            hooks: Hooks::new(),
        }
    }

    /// Adds one operator environment entry; a later entry for the same key
    /// wins.
    pub fn env(&mut self, key: String, value: String)
        ensures
            final(self).environment@ == old(self).environment@.insert(key@, value@),
            final(self).hooks == old(self).hooks,
            final(self).max_threads == old(self).max_threads,
    {
        self.environment.insert(key, value);
    }

    /// Adds one operator environment entry given as `KEY=VALUE`.
    pub fn raw_env(&mut self, env: &str) -> (r: FisherResult<()>)
        ensures
            r is Ok <==> env@.contains('='),
            r is Err ==> *final(self) == *old(self),
            r is Ok ==> (exists|i: int|
                0 <= i < env@.len() && #[trigger] env@[i] == '=' && (forall|j: int|
                    0 <= j < i ==> env@[j] != '=') && final(self).environment@ == old(
                    self,
                ).environment@.insert(env@.subrange(0, i), env@.subrange(i + 1, env@.len() as int))),
            final(self).hooks == old(self).hooks,
            final(self).max_threads == old(self).max_threads,
    {
        match parse_env(env) {
            Ok((key, value)) => {
                self.environment.insert(key, value);
                Ok(())
            },
            Err(e) => Err(e),
        }
    }

    /// Registers a hook, refusing a duplicate name or id.
    pub fn add_hook(&mut self, hook: Hook) -> (r: FisherResult<()>)
        requires
            old(self).hooks.wf(),
        ensures
            final(self).hooks.wf(),
            r is Ok <==> (forall|i: int|
                0 <= i < old(self).hooks.hook_seq().len() ==> (#[trigger] old(
                    self,
                ).hooks.hook_seq()[i]).name@ != hook.name@ && old(self).hooks.hook_seq()[i].id
                    != hook.id),
            r is Ok ==> final(self).hooks.hook_seq() == old(self).hooks.hook_seq().push(hook),
            r is Err ==> *final(self) == *old(self) && r->Err_0.kind is InvalidHookConfig,
            final(self).environment == old(self).environment,
            final(self).max_threads == old(self).max_threads,
    {
        self.hooks.insert(hook)
    }

    /// The names of the registered hooks, in registration order.
    pub fn hook_names(&self) -> (r: Vec<String>)
        ensures
            r@.len() == self.hooks.hook_seq().len(),
            forall|i: int|
                0 <= i < r@.len() ==> #[trigger] r@[i]@ == self.hooks.hook_seq()[i].name@,
    {
        self.hooks.names()
    }

    /// Starts the pool over the registered hooks. Fails exactly when no
    /// worker was configured.
    pub fn start(self, queue_cap: Option<usize>) -> (r: FisherResult<RunningFisher>)
        requires
            self.hooks.wf(),
        ensures
            r is Ok <==> self.max_threads >= 1,
            r is Err ==> r->Err_0.kind is InvalidHookConfig,
            r is Ok ==> {
                let rf = r->Ok_0;
                &&& rf.wf()
                &&& rf.processor.scheduler.state is Running
                &&& rf.processor.scheduler.workers@.len() == self.max_threads
                &&& rf.processor.scheduler.total_processed == 0
                &&& rf.processor.scheduler.queued_count == 0
                &&& count_busy(rf.processor.scheduler.workers@) == 0
                &&& rf.processor.hooks == self.hooks
                &&& rf.processor.next_job_id == 0
                &&& rf.environment == self.environment
                &&& rf.processor.scheduler.queues@.len() == self.hooks.hook_seq().len()
                &&& (forall|i: int|
                    0 <= i < rf.processor.scheduler.queues@.len() ==> (
                    #[trigger] rf.processor.scheduler.queues@[i]).hook_id
                        == self.hooks.hook_seq()[i].id && rf.processor.scheduler.queues@[i].parallel
                        == self.hooks.hook_seq()[i].parallel
                        && rf.processor.scheduler.queues@[i].jobs@.len() == 0
                        && rf.processor.scheduler.queues@[i].running == 0)
            },
    {
        if self.max_threads == 0 {
            return Err(
                FisherError::new(
                    ErrorKind::InvalidHookConfig("at least one worker is needed".to_owned()),
                ),
            );
        }
        let processor = Processor::new(self.max_threads as usize, self.hooks, queue_cap);
        Ok(RunningFisher { processor, environment: self.environment })
    }
}

/// A started instance: the processor plus the operator environment the
/// host merges into every job's script environment.
pub struct RunningFisher {
    /// The facade owning scheduler and snapshot.
    pub processor: Processor,
    /// The operator-configured static environment.
    pub environment: KvMap,
}

impl RunningFisher {
    pub open spec fn wf(&self) -> bool {
        self.processor.wf()
    }

    /// Swaps in a freshly collected hook set, or keeps the old one when the
    /// collection failed (`None`). Dispatch is locked around the swap, the
    /// queues of removed hooks are dropped with their pending jobs while
    /// the queues and histories of surviving hooks are kept, and unlocking
    /// resumes dispatch. The host drains in-flight jobs before calling, as
    /// the scheduler's cleanup demands quiescence; a failed collection
    /// leaves the snapshot, the queue set and every arrival history as
    /// they were.
    pub fn reload(&mut self, recollected: Option<Hooks>) -> (r: FisherResult<()>)
        requires
            old(self).wf(),
            !(old(self).processor.scheduler.state is Stopping),
            count_busy(old(self).processor.scheduler.workers@) == 0,
            (recollected matches Some(h) ==> h.wf()),
        ensures
            final(self).wf(),
            final(self).processor.scheduler.state == unlock_transition(
                old(self).processor.scheduler.state,
            ),
            final(self).processor.scheduler.state is Running,
            final(self).processor.scheduler.dispatch_done(),
            final(self).processor.scheduler.total_processed == old(
                self,
            ).processor.scheduler.total_processed,
            final(self).processor.scheduler.queue_cap == old(self).processor.scheduler.queue_cap,
            final(self).processor.next_job_id == old(self).processor.next_job_id,
            r is Ok <==> recollected is Some,
            recollected is None ==> final(self).processor.hooks == old(self).processor.hooks,
            recollected is None ==> (queues_same_hooks(
                old(self).processor.scheduler.queues@,
                final(self).processor.scheduler.queues@,
            ) && final(self).processor.scheduler.enqueued@ == old(
                self,
            ).processor.scheduler.enqueued@ && deliveries_extend(
                old(self).processor.scheduler.delivered@,
                final(self).processor.scheduler.delivered@,
            )),
            recollected matches Some(h) ==> final(self).processor.hooks == h,
            recollected matches Some(h) ==> (forall|i: int|
                0 <= i < final(self).processor.scheduler.queues@.len() ==> has_hook_id(
                    h.hook_seq(),
                    (#[trigger] final(self).processor.scheduler.queues@[i]).hook_id,
                )),
            recollected matches Some(h) ==> (forall|k: int|
                0 <= k < h.hook_seq().len() ==> has_queue(
                    final(self).processor.scheduler.queues@,
                    (#[trigger] h.hook_seq()[k]).id,
                )),
            recollected matches Some(h) ==> (forall|i: int|
                0 <= i < old(self).processor.scheduler.queues@.len() && has_hook_id(
                    h.hook_seq(),
                    (#[trigger] old(self).processor.scheduler.queues@[i]).hook_id,
                ) ==> final(self).processor.scheduler.enqueued@[old(
                    self,
                ).processor.scheduler.queues@[i].hook_id] == old(self).processor.scheduler.enqueued@[
                    old(self).processor.scheduler.queues@[i].hook_id
                ] && old(self).processor.scheduler.delivered@[old(
                    self,
                ).processor.scheduler.queues@[i].hook_id].is_prefix_of(
                    final(self).processor.scheduler.delivered@[old(
                        self,
                    ).processor.scheduler.queues@[i].hook_id],
                )),
            r is Err ==> r->Err_0.kind is InvalidHookConfig,
            final(self).environment == old(self).environment,
    {
        self.processor.scheduler.lock();
        match recollected {
            Some(h) => {
                self.processor.hooks = h;
                self.processor.scheduler.cleanup(&self.processor.hooks);
                let ghost sc = self.processor.scheduler;
                self.processor.scheduler.unlock();
                proof {
                    let qs0 = old(self).processor.scheduler.queues@;
                    let qc = sc.queues@;
                    let qf = self.processor.scheduler.queues@;
                    // the queue set the cleanup left is the queue set the
                    // resumed dispatch works on, hook for hook
                    assert forall|i: int| 0 <= i < qf.len() implies has_hook_id(
                        self.processor.hooks.hook_seq(),
                        (#[trigger] qf[i]).hook_id,
                    ) by {
                        assert(qf[i].hook_id == qc[i].hook_id);
                    }
                    assert forall|k: int|
                        0 <= k < self.processor.hooks.hook_seq().len() implies has_queue(
                        qf,
                        (#[trigger] self.processor.hooks.hook_seq()[k]).id,
                    ) by {
                        let w = choose|j: int|
                            0 <= j < qc.len() && (#[trigger] qc[j]).hook_id
                                == self.processor.hooks.hook_seq()[k].id;
                        assert(qf[w].hook_id == self.processor.hooks.hook_seq()[k].id);
                    }
                    // surviving hooks keep their arrival history; their
                    // delivery history only grows with the resumed dispatch
                    assert forall|i: int|
                        0 <= i < qs0.len() && has_hook_id(
                            self.processor.hooks.hook_seq(),
                            (#[trigger] qs0[i]).hook_id,
                        ) implies self.processor.scheduler.enqueued@[qs0[i].hook_id] == old(
                        self,
                    ).processor.scheduler.enqueued@[qs0[i].hook_id] && old(
                        self,
                    ).processor.scheduler.delivered@[qs0[i].hook_id].is_prefix_of(
                        self.processor.scheduler.delivered@[qs0[i].hook_id],
                    ) by {
                        let hid = qs0[i].hook_id;
                        let j = choose|j: int| 0 <= j < qc.len() && qc[j] == qs0[i];
                        assert(crate::scheduler::queue_wf(qc[j], sc.workers@, sc.enqueued@, sc.delivered@));
                        assert(sc.delivered@.contains_key(hid));
                        assert(sc.delivered@[hid].is_prefix_of(
                            self.processor.scheduler.delivered@[hid],
                        ));
                    }
                }
                Ok(())
            },
            None => {
                self.processor.scheduler.unlock();
                Err(
                    FisherError::new(
                        ErrorKind::InvalidHookConfig("hook collection failed".to_owned()),
                    ),
                )
            },
        }
    }

    /// Stops the pool: no further job is accepted or dispatched, and every
    /// worker is told to exit once idle. A busy worker keeps its in-flight
    /// job — running scripts are never cancelled — and queues, histories
    /// and counters stay as they were. With nothing executing, the pool is
    /// fully stopped at once.
    pub fn stop(&mut self) -> (r: FisherResult<()>)
        requires
            old(self).wf(),
        ensures
            final(self).wf(),
            r is Ok,
            final(self).processor.scheduler.state is Stopping,
            final(self).processor.hooks == old(self).processor.hooks,
            final(self).processor.next_job_id == old(self).processor.next_job_id,
            final(self).environment == old(self).environment,
            final(self).processor.scheduler.queues == old(self).processor.scheduler.queues,
            final(self).processor.scheduler.enqueued@ == old(self).processor.scheduler.enqueued@,
            final(self).processor.scheduler.delivered@ == old(self).processor.scheduler.delivered@,
            final(self).processor.scheduler.total_processed == old(
                self,
            ).processor.scheduler.total_processed,
            final(self).processor.scheduler.queued_count == old(
                self,
            ).processor.scheduler.queued_count,
            final(self).processor.scheduler.workers@.len() == old(
                self,
            ).processor.scheduler.workers@.len(),
            forall|i: int|
                0 <= i < old(self).processor.scheduler.workers@.len() ==> (#[trigger] final(self).processor.scheduler.workers@[i]).id == old(self).processor.scheduler.workers@[
                    i
                ].id && final(self).processor.scheduler.workers@[i].currently_running == old(
                    self,
                ).processor.scheduler.workers@[i].currently_running && final(self).processor.scheduler.workers@[i].should_stop,
            count_busy(old(self).processor.scheduler.workers@) == 0 ==> final(self).processor.scheduler.fully_stopped(),
    {
        self.processor.scheduler.stop();
        Ok(())
    }
}

} // verus!
