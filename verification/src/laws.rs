//! What holds of an executor as a whole.
//!
//! The functions say what each of them does; here are the properties that follow for several of
//! them together, and what each call is for.
//!
//! What calls are for:
//!
//! - [`effects`]: relations between the lists and queues of two states.
//! - [`calls`]: spawning, scheduling, finishing and trying to run tasks.
//! - [`polls`]: tickers and the list of sleeping ones.
//! - [`working`]: runners and what they steal.
//! - [`turns`]: running an executor, and the turns of other futures.
//! - [`handover`]: a ticker that is taken off the list has its waker handed out.
//! - [`flag`] and [`shown`]: the flag, and what is counted and shown.
//!
//! What follows for several of them:
//!
//! - [`sleeping`] and [`sleepers`]: sleeping tickers, their identifiers and notifications.
//! - [`wakeups`]: no task waits in the global queue while tickers sleep and none is notified.
//! - [`runners`]: a runner with tasks of its own is awake.
//! - [`tasks`]: no task is lost or run twice.
//! - [`active`] and [`spawning`]: which tasks are active, and spawning many.
//! - [`stealing`]: work stealing.
//! - [`validity`]: tickers and runners can go on whatever others do.
//! - [`history`]: what holds after any sequence of actions.
//! - [`system`]: an executor together with its runners, over any sequence of calls: no task waits
//!   for nobody.

pub mod active;
pub mod calls;
pub mod effects;
pub mod flag;
pub mod handover;
pub mod history;
pub mod polls;
pub mod runners;
pub mod shown;
pub mod sleepers;
pub mod sleeping;
pub mod spawning;
pub mod stealing;
pub mod system;
pub mod tasks;
pub mod turns;
pub mod validity;
pub mod wakeups;
pub mod working;
