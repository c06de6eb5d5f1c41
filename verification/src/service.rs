//! Putting a pipeline together: two queue actors and the worker between them.

use crate::queue::{IntoServer, Queue, Server};
use crate::task::{IntoTaskRunner, TaskRunner};
use crate::tasks::OneWay;
use std::collections::VecDeque;
use vstd::prelude::*;

verus! {

/// The depth of the mailbox of each actor of a pipeline.
pub const MAILBOX_DEPTH: usize = 10;

/// The parts of a pipeline, not yet running.
#[derive(Debug)]
#[verifier::reject_recursive_types(A)]
#[verifier::reject_recursive_types(B)]
pub struct Runner<Q, A, T, B, F> {
    task_q: Server<Q, A>,
    res_q: Server<T, B>,
    task: TaskRunner<A, B, F>,
}

impl<Q: Queue<A>, A, T: Queue<B>, B, F> Runner<Q, A, T, B, F> {
    /// The actor that owns the request queue.
    pub closed spec fn requests(&self) -> Server<Q, A> {
        self.task_q
    }

    /// The actor that owns the result queue.
    pub closed spec fn results(&self) -> Server<T, B> {
        self.res_q
    }

    /// The worker, of which the pool is made by cloning.
    pub closed spec fn worker(&self) -> TaskRunner<A, B, F> {
        self.task
    }

    /// Takes the pipeline apart, so that each part can run as a loop of its
    /// own.
    pub fn into_parts(self) -> (parts: (Server<Q, A>, Server<T, B>, TaskRunner<A, B, F>))
        ensures
            parts.0 == self.requests(),
            parts.1 == self.results(),
            parts.2 == self.worker(),
    {
        (self.task_q, self.res_q, self.task)
    }
}

/// A pipeline over the two given queues, which keep what they hold, and the
/// given transform; with it the client's pair of handles. The client pushes
/// where the worker pulls and pulls where the worker pushes.
pub fn new<T, Q, A, B, F>(task_q: A, res_q: B, task: F) -> (made: (
    Runner<A, T, B, Q, F>,
    OneWay<Q, T>,
)) where A: Queue<T>, B: Queue<Q>, F: IntoTaskRunner<T, Q> + Clone
    ensures
        made.0.requests()@ == task_q.order(),
        made.0.results()@ == res_q.order(),
        made.0.worker().transform() == task,
        made.1.sink().channel() == made.0.worker().ends().source().channel(),
        made.1.source().channel() == made.0.worker().ends().sink().channel(),
{
    let (t_s, t_h) = task_q.into_server(MAILBOX_DEPTH);
    let (r_s, r_h) = res_q.into_server(MAILBOX_DEPTH);
    let task_oneway = OneWay::new(t_h.clone(), r_h.clone());
    let task = task.into_task_runner(task_oneway);
    let runner = Runner { task_q: t_s, res_q: r_s, task };
    (runner, OneWay::new(r_h, t_h))
}

/// A pipeline over two empty first-in-first-out queues in memory.
pub fn new_inmemory<T, Q, F>(task: F) -> (made: (
    Runner<VecDeque<T>, T, VecDeque<Q>, Q, F>,
    OneWay<Q, T>,
)) where F: IntoTaskRunner<T, Q> + Clone
    ensures
        made.0.requests()@ == Seq::<T>::empty(),
        made.0.results()@ == Seq::<Q>::empty(),
        made.0.worker().transform() == task,
        made.1.sink().channel() == made.0.worker().ends().source().channel(),
        made.1.source().channel() == made.0.worker().ends().sink().channel(),
{
    new(VecDeque::new(), VecDeque::new(), task)
}

} // verus!
