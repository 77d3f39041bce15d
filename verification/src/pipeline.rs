//! The request pipeline: given a hook name and a request, decide whether a
//! job is built, the request is acknowledged as a ping, or it is rejected.
//! The decision walks the hook's provider bindings in order; the first
//! binding that classifies the request as executable and validates it wins.

use vstd::prelude::*;

use crate::hooks::Hooks;
use crate::jobs::Job;
use crate::kvmap::KvMap;
use crate::providers::{provider_env, provider_request_type, provider_validates, HookProvider};
use crate::request::{Request, RequestType};

verus! {

/// What the ordered provider bindings decide about a request.
pub enum Decision {
    /// The binding that classified the request as executable and validated
    /// it; bindings before it passed.
    Accept(HookProvider),
    /// Some binding classified the request as a ping before any accepted.
    Ping,
    /// No binding accepted the request.
    Rejected,
}

/// The decision of the bindings `ps` on `req`, in order: a binding that
/// classifies the request as invalid, or classifies it as executable but
/// fails to validate it, passes to the next; a ping short-circuits.
pub open spec fn decide(ps: Seq<HookProvider>, req: Request) -> Decision
    decreases ps.len(),
{
    if ps.len() == 0 {
        Decision::Rejected
    } else {
        let p = ps[0];
        let rt = provider_request_type(p.provider.kind, req, p.config@);
        if rt is Ping {
            Decision::Ping
        } else if rt is ExecuteHook && provider_validates(p.provider.kind, req, p.config@) {
            Decision::Accept(p)
        } else {
            decide(ps.drop_first(), req)
        }
    }
}

/// The pipeline's outcome for one request.
pub enum RequestOutcome {
    /// A job was built and may be enqueued.
    Accepted(Job),
    /// The request is acknowledged and dropped, with the reason.
    Ignored(String),
    /// The request is rejected, with the reason.
    Invalid(String),
}

/// Whether `j` is the job the pipeline builds for `hook` from `req` under
/// `job_id`, with the environment of the accepted binding (or none).
pub open spec fn is_pipeline_job(
    j: Job,
    hook: crate::hooks::Hook,
    req: Request,
    job_id: u64,
    env: Map<Seq<char>, Seq<char>>,
) -> bool {
    &&& j.id == job_id
    &&& j.hook_id == hook.id
    &&& j.hook_name@ == hook.name@
    &&& j.script@ == hook.script@
    &&& j.request == req
    &&& j.provider_env@ == env
    &&& !j.is_status
}

/// Classifies and validates `req` against the hook named `hook_name` and
/// builds the job on success. A missing hook or a request no binding
/// accepts is invalid; a ping is ignored; a hook without bindings accepts
/// every request and carries no provider environment.
pub fn process_request(hooks: &Hooks, hook_name: &str, req: Request, job_id: u64) -> (r:
    RequestOutcome)
    ensures
        !hooks@.contains_key(hook_name@) ==> r is Invalid,
        hooks@.contains_key(hook_name@) && hooks@[hook_name@].providers@.len() == 0 ==> (r matches
            RequestOutcome::Accepted(j) && is_pipeline_job(
            j,
            hooks@[hook_name@],
            req,
            job_id,
            Map::<Seq<char>, Seq<char>>::empty(),
        )),
        hooks@.contains_key(hook_name@) && hooks@[hook_name@].providers@.len() > 0 ==> (match decide(
            hooks@[hook_name@].providers@,
            req,
        ) {
            Decision::Ping => r is Ignored,
            Decision::Rejected => r is Invalid,
            Decision::Accept(p) => (r matches RequestOutcome::Accepted(j) && is_pipeline_job(
                j,
                hooks@[hook_name@],
                req,
                job_id,
                provider_env(p.provider.kind, req, p.config@),
            )),
        }),
{
    let hook = match hooks.get(hook_name) {
        Some(h) => h,
        None => {
            return RequestOutcome::Invalid("no such hook".to_owned());
        },
    };
    if hook.providers.len() == 0 {
        return RequestOutcome::Accepted(
            Job {
                id: job_id,
                hook_id: hook.id,
                hook_name: hook.name.clone(),
                script: hook.script.clone(),
                request: req,
                provider_env: KvMap::new(),
                is_status: false,
            },
        );
    }
    let mut i: usize = 0;
    proof {
        assert(hook.providers@.skip(0) =~= hook.providers@);
    }
    while i < hook.providers.len()
        invariant
            hooks@.contains_key(hook_name@),
            *hook == hooks@[hook_name@],
            i <= hook.providers@.len(),
            decide(hook.providers@, req) == decide(hook.providers@.skip(i as int), req),
        decreases hook.providers@.len() - i,
    {
        proof {
            assert(hook.providers@.skip(i as int)[0] == hook.providers@[i as int]);
            assert(hook.providers@.skip(i as int).drop_first() =~= hook.providers@.skip(i + 1));
        }
        let p = &hook.providers[i];
        let rt = p.request_type(&req);
        if rt == RequestType::Ping {
            return RequestOutcome::Ignored("ping".to_owned());
        }
        if rt == RequestType::ExecuteHook && p.validate(&req) {
            let env = p.env(&req);
            return RequestOutcome::Accepted(
                Job {
                    id: job_id,
                    hook_id: hook.id,
                    hook_name: hook.name.clone(),
                    script: hook.script.clone(),
                    request: req,
                    provider_env: env,
                    is_status: false,
                },
            );
        }
        i = i + 1;
    }
    RequestOutcome::Invalid("no provider accepted the request".to_owned())
}

} // verus!
