//! Cooperative cancellation: every loop of the engine runs as a race between
//! its work and the shutdown signal.

use crate::errors::Error;
use vstd::prelude::*;

verus! {

/// How the race between a loop and the shutdown signal ended.
#[derive(Debug, Clone, Copy)]
pub enum Raced {
    /// The signal came first; the loop's unfinished work is abandoned.
    Cancelled,
    /// The loop ended by itself, with this outcome.
    Finished(Result<(), Error>),
}

/// The outcome of a loop that was raced against the shutdown signal. A
/// cancelled loop ends well, whatever it left undone; a loop that ended by
/// itself hands on its own outcome.
pub fn settle(raced: Raced) -> (res: Result<(), Error>)
    ensures
        res == match raced {
            Raced::Cancelled => Ok::<(), Error>(()),
            Raced::Finished(outcome) => outcome,
        },
{
    match raced {
        Raced::Cancelled => Ok(()),
        Raced::Finished(outcome) => outcome,
    }
}

} // verus!
