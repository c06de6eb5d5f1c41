//! A pair of handles: one queue to pull from and one to push to.

use crate::queue::Handler;
use vstd::prelude::*;

verus! {

/// The two ends between which work flows one way: items are pulled from the
/// first queue and pushed to the second. A worker holds the request queue
/// and the result queue in this order, a client the other way round.
#[derive(Debug)]
#[verifier::reject_recursive_types(TPull)]
#[verifier::reject_recursive_types(TPush)]
pub struct OneWay<TPull, TPush> {
    pull: Handler<TPull>,
    push: Handler<TPush>,
}

impl<TPull, TPush> OneWay<TPull, TPush> {
    /// The handle of the queue that is pulled from.
    pub closed spec fn source(&self) -> Handler<TPull> {
        self.pull
    }

    /// The handle of the queue that is pushed to.
    pub closed spec fn sink(&self) -> Handler<TPush> {
        self.push
    }

    /// Pairs the two handles.
    pub fn new(pull: Handler<TPull>, push: Handler<TPush>) -> (pair: Self)
        ensures
            pair.source() == pull,
            pair.sink() == push,
    {
        Self { pull, push }
    }

    /// The handle to pull through.
    pub fn pull_handle(&self) -> (handle: &Handler<TPull>)
        ensures
            *handle == self.source(),
    {
        &self.pull
    }

    /// The handle to push through.
    pub fn push_handle(&self) -> (handle: &Handler<TPush>)
        ensures
            *handle == self.sink(),
    {
        &self.push
    }
}

impl<T, Q> Clone for OneWay<T, Q> {
    /// One more pair of handles to the same two mailboxes, in the same
    /// direction.
    fn clone(&self) -> (other: Self)
        ensures
            other.source().channel() == self.source().channel(),
            other.sink().channel() == self.sink().channel(),
    {
        Self { pull: self.pull.clone(), push: self.push.clone() }
    }
}

} // verus!
