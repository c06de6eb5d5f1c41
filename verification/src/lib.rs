//! A task-processing engine built from single-owner actors.
//!
//! Work items enter a request queue, a pool of workers maps each one to a
//! result, and the results wait in a second queue until they are polled.
//! Every piece of mutable state has exactly one owner; this crate holds the
//! decisions those owners make, each with a proved contract, and the laws of
//! the pipeline that follow from them.

pub mod cancel;
pub mod errors;
pub mod pipeline;
pub mod queue;
pub mod schedule;
pub mod service;
pub mod task;
pub mod tasks;

pub use cancel::{settle, Raced};
pub use errors::{Error, SchedulerError};
pub use queue::{Command, Handler, IntoServer, Queue, Server};
pub use schedule::{JobId, Schedule};
pub use task::{fn_task, FnTask, IntoTaskRunner, Step, Task, TaskRunner};
pub use tasks::OneWay;
