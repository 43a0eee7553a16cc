//! The core of an async executor.
//!
//! An executor keeps tasks that are ready to be run in queues, and hands them out to tickers and
//! runners, which sleep while there are none. This crate is the part of it that decides: which
//! task is run next, which ticker sleeps and which is woken, and what is stolen from whom.
//!
//! Tasks are numbers here, and wakers are of any type. Futures, locks and threads stay outside:
//! whoever holds the lock of an executor calls its functions, and wakes the wakers that they hand
//! out after letting go of the lock.
//!
//! - [`queue`]: task queues and how tasks are stolen from one into another.
//! - [`active`]: the tasks that have not finished.
//! - [`sleepers`]: the list of sleeping tickers.
//! - [`state`]: what the tickers and runners of an executor share.
//! - [`ticker`] and [`runner`]: waiting for tasks, without and with a local queue.
//! - [`run`] and [`spawn`]: running an executor, and spawning many tasks.
//! - [`executor`] and [`local`]: the two executors.
//! - [`debug`]: what an executor shows of itself.
//! - [`laws`]: what holds of all this together.

pub mod active;
pub mod debug;
pub mod executor;
pub mod laws;
pub mod local;
pub mod queue;
pub mod random;
pub mod run;
pub mod runner;
pub mod sleepers;
pub mod spawn;
pub mod state;
pub mod ticker;

pub use executor::Executor;
pub use local::LocalExecutor;
