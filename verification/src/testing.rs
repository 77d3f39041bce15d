//! A self-contained testing environment: the sample provider factory, a
//! dummy request, and a hook set mirroring the sample scripts, built in
//! memory so tests need no filesystem.

use vstd::prelude::*;

use crate::errors::FisherResult;
use crate::hooks::{Hook, Hooks, StatusEventKind, StatusSubscription};
use crate::jobs::Job;
use crate::kvmap::KvMap;
use crate::pipeline::{decide, Decision};
use crate::providers::{provider_env, Provider, ProviderKind};
use crate::request::{Request, RequestType};

verus! {

/// A request from localhost with no headers, parameters or body.
pub fn dummy_request() -> (r: Request)
    ensures
        r.headers@ == Map::<Seq<char>, Seq<char>>::empty(),
        r.params@ == Map::<Seq<char>, Seq<char>>::empty(),
        r.source@ == "127.0.0.1"@,
        r.body@ == Seq::<char>::empty(),
{
    Request {
        headers: KvMap::new(),
        params: KvMap::new(),
        source: "127.0.0.1".to_owned(),
        body: String::new(),
    }
}

/// Builds providers of one kind from a hook's configuration string.
pub struct ProviderFactory {
    pub kind: ProviderKind,
}

impl ProviderFactory {
    /// A provider over the checked configuration; fails exactly when the
    /// provider rejects the configuration.
    pub fn create(&self, name: &str, config: &str) -> (r: FisherResult<Provider>)
        ensures
            r is Ok <==> crate::providers::provider_config_ok(self.kind, config@),
            r is Ok ==> r->Ok_0.kind == self.kind && r->Ok_0.name@ == name@,
    {
        let provider = Provider::new(name.to_owned(), self.kind);
        match provider.check_config(config) {
            Ok(_) => Ok(provider),
            Err(e) => Err(e),
        }
    }
}

/// The factory of the provider the tests bind to their hooks.
pub fn testing_provider_factory() -> (r: ProviderFactory)
    ensures
        r.kind == ProviderKind::Testing,
{
    ProviderFactory { kind: ProviderKind::Testing }
}

/// One sample hook bound to the testing provider, not parallel, without a
/// status subscription.
fn sample_hook(id: u64, name: &str, script: &str) -> (r: Hook)
    ensures
        r.id == id,
        r.name@ == name@,
        r.script@ == script@,
        r.providers@.len() == 1,
        r.providers@[0].provider.kind == ProviderKind::Testing,
        !r.parallel,
        r.status is None,
    {
    let provider = Provider::new("Testing".to_owned(), ProviderKind::Testing);
    let bound = match crate::providers::HookProvider::new(provider, "{}".to_owned()) {
        Ok(b) => b,
        Err(_) => {
            proof {
                reveal_strlit("{}");
                reveal_strlit("FAIL");
                assert("{}"@.len() != "FAIL"@.len());
                assert(false);
            }
            vstd::pervasive::unreached()
        },
    };
    let mut providers: Vec<crate::providers::HookProvider> = Vec::new();
    providers.push(bound);
    Hook {
        id,
        name: name.to_owned(),
        script: script.to_owned(),
        providers,
        parallel: false,
        status: None,
    }
}

/// The in-memory testing environment: the sample hook set, and the
/// directories a test asks to have removed when it is done.
pub struct TestingEnv {
    /// The sample hook snapshot.
    pub hooks: Hooks,
    /// Paths the host removes on cleanup.
    pub remove_dirs: Vec<String>,
}

impl TestingEnv {
    /// The sample hook set: four hooks bound to the testing provider and
    /// one hook subscribed to the status events of `trigger-status`.
    pub fn new() -> (r: TestingEnv)
        ensures
            r.hooks.wf(),
            r.hooks@.contains_key("example"@),
            r.hooks@.contains_key("failing"@),
            r.hooks@.contains_key("jobs-details"@),
            r.hooks@.contains_key("trigger-status"@),
            r.hooks@.contains_key("status-example"@),
            r.remove_dirs@.len() == 0,
    {
        let mut hooks = Hooks::new();
        let h1 = sample_hook(0, "example", "example.sh");
        let h2 = sample_hook(1, "failing", "failing.sh");
        let h3 = sample_hook(2, "jobs-details", "jobs-details.sh");
        let h4 = sample_hook(3, "trigger-status", "trigger-status.sh");
        let mut events: Vec<StatusEventKind> = Vec::new();
        events.push(StatusEventKind::JobCompleted);
        events.push(StatusEventKind::JobFailed);
        let mut observed: Vec<String> = Vec::new();
        observed.push("trigger-status".to_owned());
        let h5 = Hook {
            id: 4,
            name: "status-example".to_owned(),
            script: "status-example.sh".to_owned(),
            providers: Vec::new(),
            parallel: false,
            status: Some(StatusSubscription { events, hooks: observed }),
        };
        proof {
            reveal_strlit("example");
            reveal_strlit("failing");
            reveal_strlit("jobs-details");
            reveal_strlit("trigger-status");
            reveal_strlit("status-example");
            assert("example"@.len() == 7);
            assert("failing"@.len() == 7);
            assert("jobs-details"@.len() == 12);
            assert("trigger-status"@.len() == 14);
            assert("status-example"@.len() == 14);
            assert("example"@[0] == 'e');
            assert("failing"@[0] == 'f');
            assert("trigger-status"@[0] == 't');
            assert("status-example"@[0] == 's');
            assert("example"@ != "failing"@);
            assert("example"@ != "jobs-details"@);
            assert("example"@ != "trigger-status"@);
            assert("example"@ != "status-example"@);
            assert("failing"@ != "jobs-details"@);
            assert("failing"@ != "trigger-status"@);
            assert("failing"@ != "status-example"@);
            assert("jobs-details"@ != "trigger-status"@);
            assert("jobs-details"@ != "status-example"@);
            assert("trigger-status"@ != "status-example"@);
        }
        let r1 = hooks.insert(h1);
        let r2 = hooks.insert(h2);
        let r3 = hooks.insert(h3);
        let r4 = hooks.insert(h4);
        let r5 = hooks.insert(h5);
        proof {
            assert(r1 is Ok && r2 is Ok && r3 is Ok && r4 is Ok && r5 is Ok);
        }
        TestingEnv { hooks, remove_dirs: Vec::new() }
    }

    /// Asks for one more path to be removed on cleanup; the paths already
    /// listed stay listed, in order. Nothing is removed by this call
    /// itself.
    pub fn delete_also(&mut self, path: &str)
        ensures
            final(self).remove_dirs@.len() == old(self).remove_dirs@.len() + 1,
            final(self).remove_dirs@.last()@ == path@,
            forall|j: int|
                0 <= j < old(self).remove_dirs@.len() ==> final(self).remove_dirs@[j] == old(
                    self,
                ).remove_dirs@[j],
            final(self).hooks == old(self).hooks,
    {
        self.remove_dirs.push(path.to_owned());
    }

    /// The paths the host should remove when the test is done.
    pub fn remove_paths(&self) -> (r: &Vec<String>)
        ensures
            r == &self.remove_dirs,
    {
        &self.remove_dirs
    }

    /// Builds a job for `hook_name` carrying exactly `req`, whether or not
    /// a binding validates the request: the first accepting binding
    /// supplies the environment; without one the environment is empty.
    pub fn create_job(&self, hook_name: &str, req: Request, job_id: u64) -> (r: Job)
        requires
            self.hooks@.contains_key(hook_name@),
        ensures
            r.id == job_id,
            r.hook_id == self.hooks@[hook_name@].id,
            r.hook_name@ == self.hooks@[hook_name@].name@,
            r.script@ == self.hooks@[hook_name@].script@,
            r.request == req,
            !r.is_status,
            (decide(self.hooks@[hook_name@].providers@, req) matches Decision::Accept(p)
                ==> r.provider_env@ == provider_env(p.provider.kind, req, p.config@)),
            (!(decide(self.hooks@[hook_name@].providers@, req) is Accept) ==> r.provider_env@
                == Map::<Seq<char>, Seq<char>>::empty()),
    {
        let hook = match self.hooks.get(hook_name) {
            Some(h) => h,
            None => {
                proof {
                    assert(false);
                }
                vstd::pervasive::unreached()
            },
        };
        proof {
            assert(hook.providers@.skip(0) =~= hook.providers@);
        }
        let mut i: usize = 0;
        while i < hook.providers.len()
            invariant
                self.hooks@.contains_key(hook_name@),
                *hook == self.hooks@[hook_name@],
                i <= hook.providers@.len(),
                decide(hook.providers@, req) == decide(hook.providers@.skip(i as int), req),
            decreases hook.providers@.len() - i,
        {
            proof {
                assert(hook.providers@.skip(i as int)[0] == hook.providers@[i as int]);
                assert(hook.providers@.skip(i as int).drop_first() =~= hook.providers@.skip(i + 1));
            }
            let p = &hook.providers[i];
            let rt = p.request_type(&req);
            if rt == RequestType::Ping {
                return Job {
                    id: job_id,
                    hook_id: hook.id,
                    hook_name: hook.name.clone(),
                    script: hook.script.clone(),
                    request: req,
                    provider_env: KvMap::new(),
                    is_status: false,
                };
            }
            if rt == RequestType::ExecuteHook && p.validate(&req) {
                let env = p.env(&req);
                return Job {
                    id: job_id,
                    hook_id: hook.id,
                    hook_name: hook.name.clone(),
                    script: hook.script.clone(),
                    request: req,
                    provider_env: env,
                    is_status: false,
                };
            }
            i = i + 1;
        }
        proof {
            assert(hook.providers@.skip(hook.providers@.len() as int)
                =~= Seq::<crate::providers::HookProvider>::empty());
        }
        Job {
            id: job_id,
            hook_id: hook.id,
            hook_name: hook.name.clone(),
            script: hook.script.clone(),
            request: req,
            provider_env: KvMap::new(),
            is_status: false,
        }
    }
}

/// The recorded outcome of one health exchange: `None` when the expected
/// health reply arrived, else what went wrong.
pub struct NextHealthCheck {
    pub error: Option<String>,
}

impl NextHealthCheck {
    pub fn new(error: Option<String>) -> (r: NextHealthCheck)
        ensures
            r.error == error,
    {
        NextHealthCheck { error }
    }

    /// `None` when the exchange went as expected, else the failure text.
    pub fn check(&self) -> (r: Option<&String>)
        ensures
            r is Some <==> self.error is Some,
            r matches Some(m) ==> (self.error matches Some(e) && *m == e),
    {
        self.error.as_ref()
    }
}

} // verus!
