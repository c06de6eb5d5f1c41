//! Transforms and the workers that apply them.

use crate::errors::Error;
use crate::tasks::OneWay;
use vstd::prelude::*;

verus! {

/// A transform from requests to responses.
pub trait Task<T, Q>: Sized {
    /// The requests on which the transform runs to its end.
    spec fn accepts(&self, req: T) -> bool;

    /// Whether `res` is a response that the transform may give to `req`.
    spec fn maps(&self, req: T, res: Q) -> bool;

    /// Applies the transform.
    fn run(&self, req: T) -> (res: Q)
        requires
            self.accepts(req),
        ensures
            self.maps(req, res),
    ;
}

/// A plain function or closure as a transform.
#[derive(Debug, Clone)]
pub struct FnTask<F> {
    inner: F,
}

impl<F> FnTask<F> {
    /// The function that the transform applies.
    pub closed spec fn func(&self) -> F {
        self.inner
    }
}

/// Wraps `f` as a transform: one that runs where `f` may be called and gives
/// what `f` gives.
pub fn fn_task<F, T, Q>(f: F) -> (task: FnTask<F>) where F: Fn(T) -> Q
    ensures
        task.func() == f,
        forall|req: T| #[trigger] task.accepts(req) == f.requires((req,)),
        forall|req: T, res: Q| #[trigger] task.maps(req, res) == f.ensures((req,), res),
{
    FnTask { inner: f }
}

impl<F: Fn(T) -> Q, T, Q> Task<T, Q> for FnTask<F> {
    open spec fn accepts(&self, req: T) -> bool {
        self.func().requires((req,))
    }

    open spec fn maps(&self, req: T, res: Q) -> bool {
        self.func().ensures((req,), res)
    }

    fn run(&self, req: T) -> (res: Q) {
        (self.inner)(req)
    }
}

/// What a worker does next.
#[derive(Debug)]
pub enum Step<Q> {
    /// Ask the request queue for an item.
    Poll,
    /// Hand this response to the result queue.
    Push(Q),
    /// Leave the loop with this outcome.
    Stop(Result<(), Error>),
}

/// A worker: it asks the request queue for an item, applies its transform
/// and hands the response to the result queue, time and again.
#[derive(Debug)]
#[verifier::reject_recursive_types(T)]
#[verifier::reject_recursive_types(Q)]
pub struct TaskRunner<T, Q, F> {
    task: F,
    queues: OneWay<T, Q>,
}

impl<T, Q, F: Clone> Clone for TaskRunner<T, Q, F> {
    /// One more worker between the same two mailboxes, whose transform is a
    /// clone of this one's.
    fn clone(&self) -> (other: Self)
        ensures
            cloned(self.transform(), other.transform()),
            other.ends().source().channel() == self.ends().source().channel(),
            other.ends().sink().channel() == self.ends().sink().channel(),
    {
        TaskRunner { task: self.task.clone(), queues: self.queues.clone() }
    }
}

/// Anything that can be turned into a worker.
pub trait IntoTaskRunner<T, Q>: Sized {
    /// The worker that applies `self` between the two queues of `queues`.
    fn into_task_runner(self, queues: OneWay<T, Q>) -> (runner: TaskRunner<T, Q, Self>)
        ensures
            runner.transform() == self,
            runner.ends() == queues,
    ;
}

impl<F, T, Q> IntoTaskRunner<T, Q> for F where F: Task<T, Q> + Sized {
    fn into_task_runner(self, queues: OneWay<T, Q>) -> (runner: TaskRunner<T, Q, Self>) {
        TaskRunner { task: self, queues }
    }
}

impl<T, Q, F> TaskRunner<T, Q, F> {
    /// The transform that the worker applies.
    pub closed spec fn transform(&self) -> F {
        self.task
    }

    /// The handles of the queues that the worker stands between.
    pub closed spec fn ends(&self) -> OneWay<T, Q> {
        self.queues
    }

    /// The handles through which the worker asks for items and hands over
    /// responses.
    pub fn queues(&self) -> (queues: &OneWay<T, Q>)
        ensures
            *queues == self.ends(),
    {
        &self.queues
    }
}

impl<T, Q, F: Task<T, Q>> TaskRunner<T, Q, F> {
    /// The worker's move once the request queue has answered. An item is
    /// transformed and its response is to be pushed. An empty queue, or a
    /// failed request, has the worker ask again at once.
    pub fn on_polled(&self, polled: Result<Option<T>, Error>) -> (step: Step<Q>)
        requires
            match polled {
                Ok(Some(req)) => self.transform().accepts(req),
                _ => true,
            },
        ensures
            match polled {
                Ok(Some(req)) => match step {
                    Step::Push(res) => self.transform().maps(req, res),
                    _ => false,
                },
                _ => step == Step::<Q>::Poll,
            },
    {
        match polled {
            Ok(Some(req)) => Step::Push(self.task.run(req)),
            _ => Step::Poll,
        }
    }

    /// The worker's move once the result queue has taken, or refused, a
    /// response: it asks for the next item, or stops with the error of the
    /// refusal.
    pub fn on_pushed(&self, pushed: Result<(), Error>) -> (step: Step<Q>)
        ensures
            step == match pushed {
                Ok(_) => Step::<Q>::Poll,
                Err(e) => Step::<Q>::Stop(Err(e)),
            },
    {
        match pushed {
            Ok(_) => Step::Poll,
            Err(e) => Step::Stop(Err(e)),
        }
    }
}

} // verus!
