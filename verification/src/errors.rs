//! The failures that the engine reports to its callers.

use vstd::prelude::*;

verus! {

/// Why the cron engine refused an operation on the schedule.
#[derive(Debug, Clone, Copy, PartialEq, Eq, Structural)]
pub enum SchedulerError {
    /// The cron expression of a new job could not be read.
    InvalidExpression,
    /// No job with the given id is registered.
    UnknownJob,
    /// The engine failed to add or remove the job.
    Engine,
}

/// An error of the engine.
#[derive(Debug, Clone, Copy, PartialEq, Eq, Structural)]
pub enum Error {
    /// The loop that owns a mailbox has exited.
    ChannelClosed,
    /// The cron engine rejected an add or a remove.
    Scheduler(SchedulerError),
}

impl Error {
    /// Turns what came back over a channel into an outcome: a value that
    /// arrived is passed on, and a missing one means that the other end of
    /// the channel is gone.
    pub fn closed_unless<V>(arrived: Option<V>) -> (res: Result<V, Error>)
        ensures
            res == match arrived {
                Some(v) => Ok::<V, Error>(v),
                None => Err::<V, Error>(Error::ChannelClosed),
            },
    {
        match arrived {
            Some(v) => Ok(v),
            None => Err(Error::ChannelClosed),
        }
    }
}

} // verus!
