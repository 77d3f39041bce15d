use fisher::errors::ErrorKind;
use fisher::hooks::{Hook, Hooks, StatusEventKind, StatusSubscription};
use fisher::jobs::Job;
use fisher::kvmap::KvMap;
use fisher::processor::{HandleOutcome, Processor};
use fisher::providers::{HookProvider, Provider, ProviderKind};
use fisher::fisher::Fisher;
use fisher::scheduler::{Scheduler, SchedulerState};
use fisher::testing::dummy_request;
use fisher::worker::{ProcessResult, Worker};

fn plain_hook(id: u64, name: &str, parallel: bool) -> Hook {
    let provider = Provider::new("Testing".to_string(), ProviderKind::Testing);
    let bound = match HookProvider::new(provider, "{}".to_string()) {
        Ok(b) => b,
        Err(_) => unreachable!(),
    };
    Hook {
        id,
        name: name.to_string(),
        script: format!("{}.sh", name),
        providers: vec![bound],
        parallel,
        status: None,
    }
}

fn watcher_hook(id: u64, name: &str, observed: &str, events: Vec<StatusEventKind>) -> Hook {
    Hook {
        id,
        name: name.to_string(),
        script: format!("{}.sh", name),
        providers: Vec::new(),
        parallel: false,
        status: Some(StatusSubscription {
            events,
            hooks: vec![observed.to_string()],
        }),
    }
}

fn snapshot(hooks: Vec<Hook>) -> Hooks {
    let mut s = Hooks::new();
    for h in hooks {
        assert!(s.insert(h).is_ok());
    }
    s
}

fn job_for(id: u64, hook: &Hook) -> Job {
    Job {
        id,
        hook_id: hook.id,
        hook_name: hook.name.clone(),
        script: hook.script.clone(),
        request: dummy_request(),
        provider_env: KvMap::new(),
        is_status: false,
    }
}

/// Takes the job of the first worker holding one, reports its completion,
/// and returns the job id; None when no worker holds a job.
fn run_one(s: &mut Scheduler) -> Option<u64> {
    let n = s.workers.len();
    for i in 0..n {
        if let Some(job) = s.workers[i].take_job() {
            let id = job.id;
            assert!(s.job_ended(i).is_ok());
            return Some(id);
        }
    }
    None
}

#[test]
fn basic_dispatch_fifo() {
    let echo = plain_hook(0, "echo", false);
    let hooks = snapshot(vec![plain_hook(0, "echo", false)]);
    let mut s = Scheduler::new(2, &hooks, None);
    for id in 1..=3u64 {
        assert!(s.enqueue(job_for(id, &echo)).is_ok());
        assert!(s.health().workers_busy <= 2);
    }
    let mut order = Vec::new();
    while let Some(id) = run_one(&mut s) {
        order.push(id);
    }
    assert_eq!(order, vec![1, 2, 3]);
    let h = s.health();
    assert_eq!(h.queued, 0);
    assert_eq!(h.executing, 0);
    assert_eq!(s.total_processed, 3);
}

#[test]
fn non_parallel_hook_serializes() {
    let slow = plain_hook(0, "slow", false);
    let hooks = snapshot(vec![plain_hook(0, "slow", false)]);
    let mut s = Scheduler::new(4, &hooks, None);
    for id in 1..=5u64 {
        assert!(s.enqueue(job_for(id, &slow)).is_ok());
    }
    // despite four workers, only one job of the hook runs at a time
    let mut order = Vec::new();
    loop {
        let h = s.health();
        if h.executing == 0 {
            break;
        }
        assert_eq!(h.executing, 1);
        match run_one(&mut s) {
            Some(id) => order.push(id),
            None => break,
        }
    }
    assert_eq!(order, vec![1, 2, 3, 4, 5]);
}

#[test]
fn parallel_hook_uses_all_workers() {
    let fast = plain_hook(0, "fast", true);
    let hooks = snapshot(vec![plain_hook(0, "fast", true)]);
    let mut s = Scheduler::new(4, &hooks, None);
    for id in 1..=4u64 {
        assert!(s.enqueue(job_for(id, &fast)).is_ok());
    }
    let h = s.health();
    assert_eq!(h.executing, 4);
    assert_eq!(h.workers_busy, 4);
    assert_eq!(h.queued, 0);
}

#[test]
fn single_worker_serializes_parallel_hooks() {
    let fast = plain_hook(0, "fast", true);
    let hooks = snapshot(vec![plain_hook(0, "fast", true)]);
    let mut s = Scheduler::new(1, &hooks, None);
    for id in 1..=3u64 {
        assert!(s.enqueue(job_for(id, &fast)).is_ok());
        assert!(s.health().executing <= 1);
    }
    let mut order = Vec::new();
    while let Some(id) = run_one(&mut s) {
        order.push(id);
    }
    assert_eq!(order, vec![1, 2, 3]);
}

#[test]
fn lock_suspends_dispatch_and_keeps_jobs() {
    let echo = plain_hook(0, "echo", true);
    let hooks = snapshot(vec![plain_hook(0, "echo", true)]);
    let mut s = Scheduler::new(2, &hooks, None);
    s.lock();
    assert_eq!(s.state, SchedulerState::Locked);
    for id in 1..=3u64 {
        assert!(s.enqueue(job_for(id, &echo)).is_ok());
    }
    let h = s.health();
    assert_eq!(h.queued, 3);
    assert_eq!(h.executing, 0);
    assert_eq!(h.workers_busy, 0);
    s.unlock();
    assert_eq!(s.state, SchedulerState::Running);
    let h = s.health();
    assert_eq!(h.executing, 2);
    assert_eq!(h.queued, 1);
}

#[test]
fn lock_twice_unlock_twice_is_running() {
    let hooks = snapshot(vec![plain_hook(0, "echo", false)]);
    let mut s = Scheduler::new(1, &hooks, None);
    s.lock();
    s.lock();
    s.unlock();
    s.unlock();
    assert_eq!(s.state, SchedulerState::Running);
}

#[test]
fn total_processed_is_monotone() {
    let echo = plain_hook(0, "echo", false);
    let hooks = snapshot(vec![plain_hook(0, "echo", false)]);
    let mut s = Scheduler::new(2, &hooks, None);
    let mut last = s.total_processed;
    for id in 1..=4u64 {
        assert!(s.enqueue(job_for(id, &echo)).is_ok());
        assert!(s.total_processed >= last);
        last = s.total_processed;
        run_one(&mut s);
        assert!(s.total_processed >= last);
        last = s.total_processed;
    }
    assert_eq!(s.total_processed, 4);
}

#[test]
fn empty_hook_set_boundaries() {
    let hooks = snapshot(Vec::new());
    let mut s = Scheduler::new(2, &hooks, None);
    let h = s.health();
    assert_eq!(h.queued, 0);
    assert_eq!(h.executing, 0);
    assert_eq!(h.workers_busy, 0);
    let orphan = plain_hook(9, "ghost", false);
    let err = match s.enqueue(job_for(1, &orphan)) {
        Err(e) => e,
        Ok(_) => unreachable!(),
    };
    assert!(matches!(err.kind(), ErrorKind::HookNotFound(_)));
    s.stop();
    for w in s.workers.iter() {
        assert!(w.should_stop);
        assert!(!w.busy());
    }
}

#[test]
fn backpressure_on_queue_cap() {
    let echo = plain_hook(0, "echo", false);
    let hooks = snapshot(vec![plain_hook(0, "echo", false)]);
    // one worker, cap of one queued job per hook
    let mut s = Scheduler::new(1, &hooks, Some(1));
    assert!(s.enqueue(job_for(1, &echo)).is_ok()); // dispatched at once
    assert!(s.enqueue(job_for(2, &echo)).is_ok()); // fills the queue
    let err = match s.enqueue(job_for(3, &echo)) {
        Err(e) => e,
        Ok(_) => unreachable!(),
    };
    assert!(matches!(err.kind(), ErrorKind::Backpressure));
}

#[test]
fn stop_refuses_enqueue_and_drains() {
    let long = plain_hook(0, "long", true);
    let hooks = snapshot(vec![plain_hook(0, "long", true)]);
    let mut s = Scheduler::new(3, &hooks, None);
    for id in 1..=3u64 {
        assert!(s.enqueue(job_for(id, &long)).is_ok());
    }
    assert_eq!(s.health().executing, 3);
    s.stop();
    assert_eq!(s.state, SchedulerState::Stopping);
    let err = match s.enqueue(job_for(4, &long)) {
        Err(e) => e,
        Ok(_) => unreachable!(),
    };
    assert!(matches!(err.kind(), ErrorKind::ShutdownTimeout));
    // the running jobs still complete
    let mut done = 0;
    while run_one(&mut s).is_some() {
        done += 1;
    }
    assert_eq!(done, 3);
    for w in s.workers.iter() {
        assert!(w.should_stop);
        assert!(!w.busy());
    }
}

#[test]
fn completion_from_idle_worker_is_fatal() {
    let hooks = snapshot(vec![plain_hook(0, "echo", false)]);
    let mut s = Scheduler::new(1, &hooks, None);
    let err = match s.job_ended(0) {
        Err(e) => e,
        Ok(_) => unreachable!(),
    };
    assert!(matches!(err.kind(), ErrorKind::InternalInvariantViolation));
    let err = match s.job_ended(7) {
        Err(e) => e,
        Ok(_) => unreachable!(),
    };
    assert!(matches!(err.kind(), ErrorKind::InternalInvariantViolation));
}

#[test]
fn cleanup_drops_removed_hook_queues() {
    let a = plain_hook(0, "a", false);
    let hooks = snapshot(vec![plain_hook(0, "a", false), plain_hook(1, "b", false)]);
    let mut s = Scheduler::new(1, &hooks, None);
    for id in 1..=4u64 {
        assert!(s.enqueue(job_for(id, &a)).is_ok());
    }
    // one runs, three queued for hook a
    assert_eq!(s.health().executing, 1);
    assert_eq!(s.health().queued, 3);
    s.lock();
    // drain the in-flight job; the lock keeps the rest queued
    assert!(run_one(&mut s).is_some());
    assert_eq!(s.health().executing, 0);
    // hook a is removed by the reload
    let new_hooks = snapshot(vec![plain_hook(1, "b", false)]);
    s.cleanup(&new_hooks);
    s.unlock();
    // the queued jobs of the removed hook are gone, never dispatched
    assert_eq!(s.health().queued, 0);
    assert_eq!(s.health().executing, 0);
    let err = match s.enqueue(job_for(9, &a)) {
        Err(e) => e,
        Ok(_) => unreachable!(),
    };
    assert!(matches!(err.kind(), ErrorKind::HookNotFound(_)));
    // the surviving hook still accepts work
    let b = plain_hook(1, "b", false);
    assert!(s.enqueue(job_for(10, &b)).is_ok());
}

#[test]
fn status_event_fires_watcher_once() {
    let hooks = snapshot(vec![
        plain_hook(0, "flaky", false),
        watcher_hook(1, "watcher", "flaky", vec![StatusEventKind::JobFailed]),
    ]);
    let mut p = Processor::new(2, hooks, None);
    let outcome = p.handle_request("flaky", dummy_request());
    let id = match outcome {
        HandleOutcome::Queued(id) => id,
        _ => unreachable!(),
    };
    // the worker executes the flaky job, which fails
    let job = p.scheduler.workers[0].take_job().unwrap();
    assert_eq!(job.id, id);
    assert!(p.record_completion(0, &job, false).is_ok());
    // exactly one watcher job was synthesized and dispatched
    let status_job = p.scheduler.workers[0].take_job().unwrap();
    assert_eq!(status_job.hook_name, "watcher");
    assert!(status_job.is_status);
    assert_eq!(
        status_job
            .provider_env
            .get(&"FISHER_STATUS_EVENT".to_string())
            .unwrap()
            .as_str(),
        "job_failed"
    );
    assert_eq!(
        status_job
            .provider_env
            .get(&"FISHER_STATUS_HOOK".to_string())
            .unwrap()
            .as_str(),
        "flaky"
    );
    // a status job's completion raises no further status job
    assert!(p.record_completion(0, &status_job, true).is_ok());
    assert!(p.scheduler.workers[0].take_job().is_none());
    assert!(p.scheduler.workers[1].take_job().is_none());
    assert_eq!(p.health().queued, 0);
}

#[test]
fn watcher_ignores_successful_completion() {
    let hooks = snapshot(vec![
        plain_hook(0, "flaky", false),
        watcher_hook(1, "watcher", "flaky", vec![StatusEventKind::JobFailed]),
    ]);
    let mut p = Processor::new(1, hooks, None);
    match p.handle_request("flaky", dummy_request()) {
        HandleOutcome::Queued(_) => {}
        _ => unreachable!(),
    }
    let job = p.scheduler.workers[0].take_job().unwrap();
    assert!(p.record_completion(0, &job, true).is_ok());
    // success raises job_completed, which the watcher did not subscribe to
    assert!(p.scheduler.workers[0].take_job().is_none());
    assert_eq!(p.health().queued, 0);
}

#[test]
fn reload_mid_flight_discards_removed_hook() {
    let mut f = Fisher::new();
    assert!(f.add_hook(plain_hook(0, "a", false)).is_ok());
    assert!(f.add_hook(plain_hook(1, "b", false)).is_ok());
    let mut running = match f.start(None) {
        Ok(r) => r,
        Err(_) => unreachable!(),
    };
    let a = plain_hook(0, "a", false);
    for id in 1..=10u64 {
        assert!(running.processor.scheduler.enqueue(job_for(id, &a)).is_ok());
    }
    // three jobs complete; dispatch keeps feeding the single worker
    for _ in 0..3 {
        assert!(run_one(&mut running.processor.scheduler).is_some());
    }
    // drain the in-flight job under the lock, then reload without hook a
    running.processor.scheduler.lock();
    assert!(run_one(&mut running.processor.scheduler).is_some());
    let new_hooks = snapshot(vec![plain_hook(1, "b", false)]);
    assert!(running.reload(Some(new_hooks)).is_ok());
    // the queued jobs of the removed hook are gone and never dispatched
    assert_eq!(running.processor.scheduler.health().queued, 0);
    assert_eq!(running.processor.scheduler.health().executing, 0);
    let err = match running.processor.scheduler.enqueue(job_for(99, &a)) {
        Err(e) => e,
        Ok(_) => unreachable!(),
    };
    assert!(matches!(err.kind(), ErrorKind::HookNotFound(_)));
}

#[test]
fn worker_rejects_when_busy_or_stopping() {
    let echo = plain_hook(0, "echo", false);
    let mut w = Worker::new(0);
    assert!(!w.busy());
    match w.process(job_for(1, &echo)) {
        ProcessResult::Executing => {}
        ProcessResult::Rejected(_) => unreachable!(),
    }
    assert!(w.busy());
    assert_eq!(w.currently_running(), Some(0));
    // a busy worker hands a second job straight back
    match w.process(job_for(2, &echo)) {
        ProcessResult::Rejected(job) => assert_eq!(job.id, 2),
        ProcessResult::Executing => unreachable!(),
    }
    let taken = w.take_job().unwrap();
    assert_eq!(taken.id, 1);
    assert!(w.busy());
    w.mark_idle();
    assert!(!w.busy());
    // a stopping worker accepts nothing more
    w.stop();
    match w.process(job_for(3, &echo)) {
        ProcessResult::Rejected(job) => assert_eq!(job.id, 3),
        ProcessResult::Executing => unreachable!(),
    }
}

#[test]
fn round_robin_alternates_hooks() {
    let a = plain_hook(0, "a", false);
    let b = plain_hook(1, "b", false);
    let hooks = snapshot(vec![plain_hook(0, "a", false), plain_hook(1, "b", false)]);
    let mut s = Scheduler::new(1, &hooks, None);
    s.lock();
    assert!(s.enqueue(job_for(1, &a)).is_ok());
    assert!(s.enqueue(job_for(2, &a)).is_ok());
    assert!(s.enqueue(job_for(3, &b)).is_ok());
    assert!(s.enqueue(job_for(4, &b)).is_ok());
    s.unlock();
    let mut order = Vec::new();
    while let Some(id) = run_one(&mut s) {
        order.push(id);
    }
    // per-hook FIFO holds whatever the interleaving
    let order_a: Vec<u64> = order
        .iter()
        .cloned()
        .filter(|id| *id == 1 || *id == 2)
        .collect();
    let order_b: Vec<u64> = order
        .iter()
        .cloned()
        .filter(|id| *id == 3 || *id == 4)
        .collect();
    assert_eq!(order_a, vec![1, 2]);
    assert_eq!(order_b, vec![3, 4]);
    assert_eq!(order.len(), 4);
}
