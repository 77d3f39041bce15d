//! Jobs: one runnable instance of a hook, never mutated after creation, and
//! the environment a worker hands the hook script.

use vstd::prelude::*;

use crate::hooks::{status_targets, Hook, StatusEventKind};
use crate::kvmap::KvMap;
use crate::request::Request;

verus! {

/// A runnable unit: a hook bound to a classified request and the
/// environment its provider produced.
pub struct Job {
    /// Unique id assigned at creation.
    pub id: u64,
    /// The id of the hook this job runs.
    pub hook_id: u64,
    /// The name of the hook this job runs.
    pub hook_name: String,
    /// The script path of the hook, fixed at creation.
    pub script: String,
    /// The request that triggered the job.
    pub request: Request,
    /// The environment the matched provider built, empty without a provider.
    pub provider_env: KvMap,
    /// True for a synthesized status job; such a job raises no further
    /// status events.
    pub is_status: bool,
}

/// The environment handed to a job's script. Later entries win, so the
/// provider's keys beat the inherited process keys, the operator's keys
/// beat the provider's, and the reserved keys are set last.
pub fn job_environment(
    job: &Job,
    process_env: &KvMap,
    operator_env: &KvMap,
    body_path: &str,
) -> (r: KvMap)
    ensures
        r@ == process_env@.union_prefer_right(job.provider_env@).union_prefer_right(
            operator_env@,
        ).insert("FISHER_REQUEST_BODY"@, body_path@).insert(
            "FISHER_REQUEST_IP"@,
            job.request.source@,
        ).insert("FISHER_HOOK_NAME"@, job.hook_name@),
{
    let mut env = KvMap::new();
    env.append_all(process_env);
    env.append_all(&job.provider_env);
    env.append_all(operator_env);
    proof {
        assert(Map::<Seq<char>, Seq<char>>::empty().union_prefer_right(process_env@)
            =~= process_env@);
    }
    env.insert("FISHER_REQUEST_BODY".to_owned(), body_path.to_owned());
    env.insert("FISHER_REQUEST_IP".to_owned(), job.request.source.clone());
    env.insert("FISHER_HOOK_NAME".to_owned(), job.hook_name.clone());
    env
}

/// The environment of a synthesized status job: which event fired and
/// which hook was observed.
pub open spec fn spec_status_env(observed: Seq<char>, success: bool) -> Map<Seq<char>, Seq<char>> {
    Map::<Seq<char>, Seq<char>>::empty().insert(
        "FISHER_STATUS_EVENT"@,
        if success {
            "job_completed"@
        } else {
            "job_failed"@
        },
    ).insert("FISHER_STATUS_HOOK"@, observed)
}

/// Builds the environment of a status job observing `observed`.
pub fn status_env(observed: &String, success: bool) -> (r: KvMap)
    ensures
        r@ == spec_status_env(observed@, success),
{
    let mut env = KvMap::new();
    let event: String = if success {
        "job_completed".to_owned()
    } else {
        "job_failed".to_owned()
    };
    env.insert("FISHER_STATUS_EVENT".to_owned(), event);
    env.insert("FISHER_STATUS_HOOK".to_owned(), observed.clone());
    env
}

/// The event kind a completion raises.
pub open spec fn spec_event_of(success: bool) -> StatusEventKind {
    if success {
        StatusEventKind::JobCompleted
    } else {
        StatusEventKind::JobFailed
    }
}

/// Whether `sj` is the status job that hook `h` receives when `finished`
/// ends with `success`, under id `id`.
pub open spec fn is_status_job_for(sj: Job, h: Hook, finished: Job, success: bool, id: u64) -> bool {
    &&& sj.id == id
    &&& sj.hook_id == h.id
    &&& sj.hook_name@ == h.name@
    &&& sj.script@ == h.script@
    &&& sj.provider_env@ == spec_status_env(finished.hook_name@, success)
    &&& sj.is_status
    &&& sj.request.headers@ == Map::<Seq<char>, Seq<char>>::empty()
    &&& sj.request.params@ == Map::<Seq<char>, Seq<char>>::empty()
    &&& sj.request.body@ == Seq::<char>::empty()
}

/// The status jobs a completion raises: one per hook of the snapshot that
/// subscribes to the event for the finished hook's name, in snapshot order,
/// with ids counted up from `first_id`. A status job raises none, which
/// keeps status events from feeding back.
pub fn status_jobs(hooks: &crate::hooks::Hooks, finished: &Job, success: bool, first_id: u64) -> (r:
    Vec<Job>)
    requires
        first_id + hooks.hook_seq().len() <= u64::MAX,
    ensures
        r@.len() <= hooks.hook_seq().len(),
        finished.is_status ==> r@.len() == 0,
        !finished.is_status ==> {
            let targets = status_targets(
                hooks.hook_seq(),
                spec_event_of(success),
                finished.hook_name@,
            );
            &&& r@.len() == targets.len()
            &&& forall|k: int|
                0 <= k < r@.len() ==> is_status_job_for(
                    #[trigger] r@[k],
                    targets[k],
                    *finished,
                    success,
                    (first_id + k) as u64,
                )
        },
{
    let mut out: Vec<Job> = Vec::new();
    if finished.is_status {
        return out;
    }
    let event = if success {
        StatusEventKind::JobCompleted
    } else {
        StatusEventKind::JobFailed
    };
    let mut i: usize = 0;
    proof {
        assert(status_targets(hooks.hook_seq().take(0), event, finished.hook_name@)
            =~= Seq::<Hook>::empty());
    }
    while i < hooks.len()
        invariant
            i <= hooks.hook_seq().len(),
            first_id + hooks.hook_seq().len() <= u64::MAX,
            event == spec_event_of(success),
            !finished.is_status,
            ({
                let targets = status_targets(
                    hooks.hook_seq().take(i as int),
                    event,
                    finished.hook_name@,
                );
                &&& out@.len() == targets.len()
                &&& out@.len() <= i
                &&& forall|k: int|
                    0 <= k < out@.len() ==> is_status_job_for(
                        #[trigger] out@[k],
                        targets[k],
                        *finished,
                        success,
                        (first_id + k) as u64,
                    )
            }),
        decreases hooks.hook_seq().len() - i,
    {
        let h = hooks.hook_at(i);
        proof {
            assert(hooks.hook_seq().take(i + 1).drop_last() =~= hooks.hook_seq().take(i as int));
            assert(hooks.hook_seq().take(i + 1).last() == hooks.hook_seq()[i as int]);
        }
        if crate::hooks::hook_subscribes(h, event, finished.hook_name.as_str()) {
            let id = first_id + (out.len() as u64);
            let sj = Job {
                id,
                hook_id: h.id,
                hook_name: h.name.clone(),
                script: h.script.clone(),
                request: Request {
                    headers: KvMap::new(),
                    params: KvMap::new(),
                    source: String::new(),
                    body: String::new(),
                },
                provider_env: status_env(&finished.hook_name, success),
                is_status: true,
            };
            out.push(sj);
        }
        i = i + 1;
    }
    proof {
        assert(hooks.hook_seq().take(i as int) =~= hooks.hook_seq());
        crate::hooks::lemma_status_targets_len(hooks.hook_seq(), event, finished.hook_name@);
    }
    out
}

} // verus!
