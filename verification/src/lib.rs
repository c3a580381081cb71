//! A fixed-size worker pool, as a sequential core: the queue of jobs, the
//! state of every worker and the shutdown protocol, with the guarantees of
//! the hand-off proved. Threads, locks and the blocking itself belong to
//! whoever drives the core; every step they take on it is a call here.
pub mod guarantees;
pub mod protocol;
pub mod threadpool;
pub mod worker;

pub use protocol::{PoolEvent, PoolView};
pub use threadpool::{Received, ShutdownError, ThreadPool};
pub use worker::{JoinError, Worker, WorkerEvent, WorkerState};
