//! A verified model of a webhook job dispatcher: hooks bound to providers,
//! a request pipeline that turns validated requests into jobs, and a
//! scheduler that dispatches jobs to a bounded worker pool with per-hook
//! FIFO ordering, lock/unlock interlocks for safe reload, and graceful stop.

pub mod errors;
pub mod fisher;
pub mod hooks;
pub mod jobs;
pub mod kvmap;
pub mod pipeline;
pub mod processor;
pub mod providers;
pub mod request;
pub mod scheduler;
pub mod testing;
pub mod utils;
pub mod worker;
