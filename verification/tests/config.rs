use fisher::errors::ErrorKind;
use fisher::fisher::Fisher;
use fisher::hooks::hook_subscribes;
use fisher::hooks::StatusEventKind;
use fisher::jobs::job_environment;
use fisher::kvmap::KvMap;
use fisher::pipeline::{process_request, RequestOutcome};
use fisher::scheduler::SchedulerState;
use fisher::testing::{dummy_request, testing_provider_factory, NextHealthCheck, TestingEnv};
use fisher::utils::parse_env;

#[test]
fn parse_env_splits_at_first_equals() {
    let (k, v) = parse_env("KEY=VALUE").unwrap_or_else(|_| unreachable!());
    assert_eq!(k, "KEY");
    assert_eq!(v, "VALUE");

    let (k, v) = parse_env("A=B=C").unwrap_or_else(|_| unreachable!());
    assert_eq!(k, "A");
    assert_eq!(v, "B=C");

    let (k, v) = parse_env("=X").unwrap_or_else(|_| unreachable!());
    assert_eq!(k, "");
    assert_eq!(v, "X");

    let err = match parse_env("NOEQUALS") {
        Err(e) => e,
        Ok(_) => unreachable!(),
    };
    assert!(matches!(err.kind(), ErrorKind::InvalidHookConfig(_)));
}

#[test]
fn fisher_defaults_and_env() {
    let mut f = Fisher::new();
    assert_eq!(f.max_threads, 1);
    assert_eq!(f.behind_proxies, 0);
    assert_eq!(f.bind, "127.0.0.1:8000");
    assert!(f.enable_health);
    f.env("FOO".to_string(), "1".to_string());
    assert!(f.raw_env("BAR=2").is_ok());
    assert!(f.raw_env("BROKEN").is_err());
    assert_eq!(f.environment.get(&"FOO".to_string()).unwrap().as_str(), "1");
    assert_eq!(f.environment.get(&"BAR".to_string()).unwrap().as_str(), "2");
}

#[test]
fn fisher_needs_one_worker() {
    let mut f = Fisher::new();
    f.max_threads = 0;
    let err = match f.start(None) {
        Err(e) => e,
        Ok(_) => unreachable!(),
    };
    assert!(matches!(err.kind(), ErrorKind::InvalidHookConfig(_)));
}

#[test]
fn fisher_rejects_duplicate_hooks() {
    let env = TestingEnv::new();
    let mut f = Fisher::new();
    let job = env.create_job("example", dummy_request(), 1);
    assert_eq!(job.hook_name, "example");
    // two hooks under one name cannot both register
    let mut again = TestingEnv::new();
    let h1 = match again.hooks.get("example") {
        Some(h) => fisher::hooks::Hook {
            id: 100,
            name: h.name.clone(),
            script: h.script.clone(),
            providers: Vec::new(),
            parallel: false,
            status: None,
        },
        None => unreachable!(),
    };
    let h2 = fisher::hooks::Hook {
        id: 100,
        name: "other".to_string(),
        script: "other.sh".to_string(),
        providers: Vec::new(),
        parallel: false,
        status: None,
    };
    assert!(f.add_hook(h1).is_ok());
    // same id is refused as well as the same name
    let err = match f.add_hook(h2) {
        Err(e) => e,
        Ok(_) => unreachable!(),
    };
    assert!(matches!(err.kind(), ErrorKind::InvalidHookConfig(_)));
    assert_eq!(f.hook_names().len(), 1);
}

#[test]
fn reload_swaps_and_restores_running() {
    let env = TestingEnv::new();
    let mut f = Fisher::new();
    f.max_threads = 2;
    for name in ["one", "two"] {
        let h = fisher::hooks::Hook {
            id: if name == "one" { 0 } else { 1 },
            name: name.to_string(),
            script: format!("{}.sh", name),
            providers: Vec::new(),
            parallel: false,
            status: None,
        };
        assert!(f.add_hook(h).is_ok());
    }
    let mut running = match f.start(None) {
        Ok(r) => r,
        Err(_) => unreachable!(),
    };
    // a failed collection keeps the old snapshot
    assert!(running.reload(None).is_err());
    assert!(running.processor.hooks.get("one").is_some());
    assert_eq!(running.processor.scheduler.state, SchedulerState::Running);
    // a successful collection swaps it
    assert!(running.reload(Some(env.hooks)).is_ok());
    assert!(running.processor.hooks.get("one").is_none());
    assert!(running.processor.hooks.get("example").is_some());
    assert_eq!(running.processor.scheduler.state, SchedulerState::Running);
    // stopping is terminal
    assert!(running.stop().is_ok());
    assert_eq!(running.processor.scheduler.state, SchedulerState::Stopping);
}

#[test]
fn pipeline_outcomes() {
    let env = TestingEnv::new();
    // unknown hook
    match process_request(&env.hooks, "missing", dummy_request(), 1) {
        RequestOutcome::Invalid(_) => {}
        _ => unreachable!(),
    }
    // ping short-circuits
    let mut ping = dummy_request();
    ping.params
        .insert("request_type".to_string(), "ping".to_string());
    match process_request(&env.hooks, "example", ping, 2) {
        RequestOutcome::Ignored(reason) => assert_eq!(reason, "ping"),
        _ => unreachable!(),
    }
    // a failing validation rejects the request
    let mut bad = dummy_request();
    bad.params
        .insert("secret".to_string(), "wrong".to_string());
    match process_request(&env.hooks, "example", bad, 3) {
        RequestOutcome::Invalid(_) => {}
        _ => unreachable!(),
    }
    // a hook without bindings accepts everything
    match process_request(&env.hooks, "status-example", dummy_request(), 4) {
        RequestOutcome::Accepted(job) => {
            assert_eq!(job.hook_name, "status-example");
            assert!(job.provider_env.is_empty());
        }
        _ => unreachable!(),
    }
    // a validating request builds the job
    match process_request(&env.hooks, "example", dummy_request(), 5) {
        RequestOutcome::Accepted(job) => {
            assert_eq!(job.id, 5);
            assert!(!job.is_status);
        }
        _ => unreachable!(),
    }
}

#[test]
fn job_environment_precedence() {
    let env = TestingEnv::new();
    let mut job = env.create_job("example", dummy_request(), 7);
    job.provider_env
        .insert("FROM_PROVIDER".to_string(), "provider".to_string());
    job.provider_env
        .insert("SHARED".to_string(), "provider".to_string());
    let mut process_env = KvMap::new();
    process_env.insert("SHARED".to_string(), "process".to_string());
    process_env.insert("FROM_PROCESS".to_string(), "process".to_string());
    let mut operator_env = KvMap::new();
    operator_env.insert("SHARED".to_string(), "operator".to_string());
    let merged = job_environment(&job, &process_env, &operator_env, "/tmp/body");
    // operator keys win over provider keys; provider keys win over process keys
    assert_eq!(merged.get(&"SHARED".to_string()).unwrap().as_str(), "operator");
    assert_eq!(
        merged.get(&"FROM_PROVIDER".to_string()).unwrap().as_str(),
        "provider"
    );
    assert_eq!(
        merged.get(&"FROM_PROCESS".to_string()).unwrap().as_str(),
        "process"
    );
    // the reserved keys are set last
    assert_eq!(
        merged.get(&"FISHER_REQUEST_BODY".to_string()).unwrap().as_str(),
        "/tmp/body"
    );
    assert_eq!(
        merged.get(&"FISHER_REQUEST_IP".to_string()).unwrap().as_str(),
        "127.0.0.1"
    );
    assert_eq!(
        merged.get(&"FISHER_HOOK_NAME".to_string()).unwrap().as_str(),
        "example"
    );
}

#[test]
fn request_duplicate_keeps_contents() {
    let mut req = dummy_request();
    req.params.insert("secret".to_string(), "testing".to_string());
    let copy = req.duplicate();
    assert_eq!(copy.source, req.source);
    assert_eq!(copy.body, req.body);
    assert_eq!(
        copy.params.get(&"secret".to_string()).unwrap().as_str(),
        "testing"
    );
    assert!(copy.headers.is_empty());
}

#[test]
fn snapshot_lookup_by_name() {
    let env = TestingEnv::new();
    assert!(env.hooks.contains_name("example"));
    assert!(!env.hooks.contains_name("missing"));
    assert_eq!(env.hooks.len(), 5);
    assert_eq!(env.hooks.names().len(), 5);
    assert!(env.hooks.contains_id(0));
    assert!(!env.hooks.contains_id(99));
}

#[test]
fn create_job_builds_without_validation() {
    let env = TestingEnv::new();
    // the accepting binding supplies the environment (here: empty)
    let accepted = env.create_job("example", dummy_request(), 1);
    assert_eq!(accepted.hook_name, "example");
    assert!(accepted.provider_env.is_empty());
    assert!(!accepted.is_status);
    // a request no binding validates still becomes a job, with no
    // provider environment
    let mut bad = dummy_request();
    bad.params
        .insert("secret".to_string(), "wrong".to_string());
    let unvalidated = env.create_job("example", bad, 2);
    assert_eq!(unvalidated.id, 2);
    assert_eq!(unvalidated.hook_name, "example");
    assert!(unvalidated.provider_env.is_empty());
    assert_eq!(
        unvalidated
            .request
            .params
            .get(&"secret".to_string())
            .unwrap()
            .as_str(),
        "wrong"
    );
}

#[test]
fn testing_environment_pieces() {
    let factory = testing_provider_factory();
    assert!(factory.create("Testing", "{}").is_ok());
    assert!(factory.create("Testing", "FAIL").is_err());

    let mut env = TestingEnv::new();
    assert!(env.hooks.get("example").is_some());
    assert!(env.hooks.get("failing").is_some());
    assert!(env.hooks.get("jobs-details").is_some());
    assert!(env.hooks.get("trigger-status").is_some());
    assert!(env.hooks.get("status-example").is_some());
    assert!(env.remove_paths().is_empty());
    env.delete_also("/tmp/somewhere");
    assert_eq!(env.remove_paths().len(), 1);

    let watcher = env.hooks.get("status-example").unwrap();
    assert!(hook_subscribes(
        watcher,
        StatusEventKind::JobCompleted,
        "trigger-status"
    ));
    assert!(hook_subscribes(
        watcher,
        StatusEventKind::JobFailed,
        "trigger-status"
    ));
    assert!(!hook_subscribes(
        watcher,
        StatusEventKind::JobFailed,
        "example"
    ));

    let check = NextHealthCheck::new(None);
    assert!(check.check().is_none());
    let check = NextHealthCheck::new(Some("wrong input".to_string()));
    assert_eq!(check.check().unwrap().as_str(), "wrong input");
}
