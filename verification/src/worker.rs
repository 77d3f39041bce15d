//! One execution slot of the pool. A worker is idle or busy with one hook's
//! job; a submitted job sits in a one-slot inbox until the executing side
//! takes it, and the busy flag stays set from submission until the
//! scheduler records the completion.

use vstd::prelude::*;

use crate::jobs::Job;

verus! {

/// What `process` did with a submitted job.
pub enum ProcessResult {
    /// The worker was busy or stopping; the job comes back untouched.
    Rejected(Job),
    /// The worker accepted the job and will execute it.
    Executing,
}

/// A long-lived execution slot running one job at a time.
pub struct Worker {
    /// Unique id; in a pool, a worker's id is its index.
    pub id: u64,
    /// The hook id of the job this worker is executing, if any.
    pub currently_running: Option<u64>,
    /// The one-slot inbox holding a submitted job not yet taken.
    pub inbox: Option<Job>,
    /// Set when the pool is stopping; the worker accepts no further job.
    pub should_stop: bool,
}

impl Worker {
    /// Busy means a job was submitted and its completion not yet recorded.
    pub open spec fn busy_spec(&self) -> bool {
        self.currently_running is Some
    }

    pub fn new(id: u64) -> (r: Worker)
        ensures
            r.id == id,
            r.currently_running is None,
            r.inbox is None,
            !r.should_stop,
    {
        Worker { id, currently_running: None, inbox: None, should_stop: false }
    }

    pub fn id(&self) -> (r: u64)
        ensures
            r == self.id,
    {
        self.id
    }

    pub fn currently_running(&self) -> (r: Option<u64>)
        ensures
            r == self.currently_running,
    {
        self.currently_running
    }

    pub fn busy(&self) -> (r: bool)
        ensures
            r == self.busy_spec(),
    {
        self.currently_running.is_some()
    }

    /// Submits a job. A busy or stopping worker rejects it; an idle one
    /// becomes busy with the job's hook and keeps the job in its inbox.
    pub fn process(&mut self, job: Job) -> (r: ProcessResult)
        ensures
            final(self).id == old(self).id,
            final(self).should_stop == old(self).should_stop,
            (old(self).should_stop || old(self).busy_spec()) ==> (r == ProcessResult::Rejected(job)
                && *final(self) == *old(self)),
            (!old(self).should_stop && !old(self).busy_spec()) ==> (r is Executing
                && final(self).currently_running == Some(job.hook_id)
                && final(self).inbox == Some(job)),
    {
        if self.should_stop {
            return ProcessResult::Rejected(job);
        }
        if self.currently_running.is_some() {
            return ProcessResult::Rejected(job);
        }
        self.currently_running = Some(job.hook_id);
        self.inbox = Some(job);
        ProcessResult::Executing
    }

    /// The executing side takes the submitted job; the worker stays busy.
    pub fn take_job(&mut self) -> (r: Option<Job>)
        ensures
            r == old(self).inbox,
            final(self).inbox is None,
            final(self).id == old(self).id,
            final(self).currently_running == old(self).currently_running,
            final(self).should_stop == old(self).should_stop,
    {
        self.inbox.take()
    }

    /// The scheduler releases the worker after recording a completion.
    pub fn mark_idle(&mut self)
        ensures
            final(self).currently_running is None,
            final(self).id == old(self).id,
            final(self).inbox == old(self).inbox,
            final(self).should_stop == old(self).should_stop,
    {
        self.currently_running = None;
    }

    /// Tells the worker to exit once it is parked.
    pub fn stop(&mut self)
        ensures
            final(self).should_stop,
            final(self).id == old(self).id,
            final(self).inbox == old(self).inbox,
            final(self).currently_running == old(self).currently_running,
    {
        self.should_stop = true;
    }
}

} // verus!
