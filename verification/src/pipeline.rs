//! The pipeline as a whole: a request queue, a pool of workers and a result
//! queue, seen as one state that moves with each message that a mailbox
//! takes. The laws of the engine are stated and proved over this state, with
//! the same functions in which the actors' own contracts speak.

use crate::queue::{front, rest, Queue};
use crate::task::Task;
use vstd::multiset::*;
use vstd::prelude::*;
use vstd::seq_lib::*;

verus! {

/// A message that reaches one of the two mailboxes. The order of a sequence
/// of events is the order of arrival, which is all that the actors go by.
pub enum Event<T, Q> {
    /// A producer's item reaches the request queue.
    Submit(T),
    /// The request of the worker with this index reaches the request queue.
    /// The second field says what becomes of the item handed out, if one is:
    /// the response that the worker's transform gives to it, or nothing
    /// where the transform does not run to its end on it.
    Pull(nat, Option<Q>),
    /// The response that this worker holds reaches the result queue.
    Push(nat),
    /// A consumer's request reaches the result queue.
    Poll,
}

/// The state of a pipeline, with the record of what has passed through it.
pub struct Pipeline<T, Q> {
    /// The request queue, in the order in which its items will leave.
    pub requests: Seq<T>,
    /// For each worker, the response that it has computed and not yet pushed.
    pub holding: Seq<Option<Q>>,
    /// The result queue, in the order in which its items will leave.
    pub results: Seq<Q>,
    /// Every item submitted so far, in the order of arrival.
    pub submitted: Seq<T>,
    /// Every item handed to a worker so far, in the order of handing out.
    pub taken: Seq<T>,
    /// Every response handed to a consumer so far.
    pub polled: Seq<Q>,
}

/// The responses that the workers hold.
pub open spec fn held<Q>(holding: Seq<Option<Q>>) -> Multiset<Q>
    decreases holding.len(),
{
    if holding.len() == 0 {
        Multiset::empty()
    } else {
        match holding.last() {
            Some(res) => held(holding.drop_last()).insert(res),
            None => held(holding.drop_last()),
        }
    }
}

/// Whether an event can happen in a state: a worker asks only while its
/// hands are empty, computes only what its transform gives, loses an item
/// only where its transform fails on it, and pushes only what it holds.
pub open spec fn enabled<F: Task<T, Q>, T, Q>(task: F, s: Pipeline<T, Q>, e: Event<T, Q>) -> bool {
    match e {
        Event::Submit(_) => true,
        Event::Pull(w, out) => w < s.holding.len() && s.holding[w as int] is None && (
        s.requests.len() > 0 ==> match out {
            Some(res) => task.accepts(s.requests[0]) && task.maps(s.requests[0], res),
            None => !task.accepts(s.requests[0]),
        }),
        Event::Push(w) => w < s.holding.len() && s.holding[w as int] is Some,
        Event::Poll => true,
    }
}

/// The state after an event. An event that cannot happen changes nothing,
/// and neither does a request to an empty queue.
pub open spec fn step<A: Queue<T>, B: Queue<Q>, F: Task<T, Q>, T, Q>(
    task: F,
    s: Pipeline<T, Q>,
    e: Event<T, Q>,
) -> Pipeline<T, Q> {
    if !enabled(task, s, e) {
        s
    } else {
        match e {
            Event::Submit(item) => Pipeline {
                requests: A::placed(s.requests, item),
                submitted: s.submitted.push(item),
                ..s
            },
            Event::Pull(w, out) => if front(s.requests) is None {
                s
            } else {
                Pipeline {
                    requests: rest(s.requests),
                    holding: s.holding.update(w as int, out),
                    taken: s.taken.push(s.requests[0]),
                    ..s
                }
            },
            Event::Push(w) => Pipeline {
                holding: s.holding.update(w as int, None),
                results: B::placed(s.results, s.holding[w as int]->0),
                ..s
            },
            Event::Poll => if front(s.results) is None {
                s
            } else {
                Pipeline {
                    results: rest(s.results),
                    polled: s.polled.push(s.results[0]),
                    ..s
                }
            },
        }
    }
}

/// What a consumer's request is answered with in a state.
pub open spec fn answer<T, Q>(s: Pipeline<T, Q>) -> Option<Q> {
    front(s.results)
}

/// The state after a sequence of events, from `start`.
pub open spec fn run_from<A: Queue<T>, B: Queue<Q>, F: Task<T, Q>, T, Q>(
    task: F,
    start: Pipeline<T, Q>,
    events: Seq<Event<T, Q>>,
) -> Pipeline<T, Q>
    decreases events.len(),
{
    if events.len() == 0 {
        start
    } else {
        step::<A, B, F, T, Q>(
            task,
            run_from::<A, B, F, T, Q>(task, start, events.drop_last()),
            events.last(),
        )
    }
}

/// The identity transform: it runs on every request and gives exactly that
/// request back.
pub open spec fn is_identity<F: Task<T, T>, T>(task: F) -> bool {
    forall|req: T, res: T|
        task.accepts(req) && (#[trigger] task.maps(req, res) <==> res == req)
}

/// A first-in-first-out discipline: a new item goes behind all that wait.
pub open spec fn is_fifo<A: Queue<T>, T>() -> bool {
    forall|order: Seq<T>, item: T| #[trigger] A::placed(order, item) == order.push(item)
}

/// Everything that is inside the pipeline: what waits for a worker, what the
/// workers hold, and what waits to be polled.
pub open spec fn within<T>(s: Pipeline<T, T>) -> Multiset<T> {
    s.requests.to_multiset().add(held(s.holding)).add(s.results.to_multiset())
}

/// What a record has gained since it stood at `before`.
pub open spec fn since<T>(before: Seq<T>, now: Seq<T>) -> Seq<T> {
    now.skip(before.len() as int)
}

/// Nothing waits and nothing is held.
pub open spec fn at_rest<T, Q>(s: Pipeline<T, Q>) -> bool {
    s.requests.len() == 0 && held(s.holding).len() == 0 && s.results.len() == 0
}

/// The response in the hands of the only worker, as a sequence.
pub open spec fn in_hand<Q>(holding: Seq<Option<Q>>) -> Seq<Q> {
    if holding.len() == 1 && holding[0] is Some {
        seq![holding[0]->0]
    } else {
        Seq::empty()
    }
}

proof fn lemma_nothing_waits<T>(order: Seq<T>)
    requires
        order.len() == 0,
    ensures
        order.to_multiset() =~= Multiset::<T>::empty(),
{
    to_multiset_len(order);
    lemma_multiset_empty_len(order.to_multiset());
}

proof fn lemma_front_rest<T>(order: Seq<T>)
    requires
        order.len() > 0,
    ensures
        order.to_multiset() =~= rest(order).to_multiset().insert(order[0]),
        order =~= seq![order[0]] + rest(order),
{
    broadcast use group_multiset_axioms;

    assert(order.remove(0) =~= order.skip(1));
    to_multiset_remove(order, 0);
    order.to_multiset_ensures();
    assert(order.contains(order[0]));
    assert(order.to_multiset().count(order[0]) > 0);
}

proof fn lemma_held_update<Q>(holding: Seq<Option<Q>>, w: int, now: Option<Q>)
    requires
        0 <= w < holding.len(),
    ensures
        holding[w] is None && now is Some ==> held(holding.update(w, now)) =~= held(
            holding,
        ).insert(now->0),
        holding[w] is Some && now is None ==> held(holding).count(holding[w]->0) > 0 && held(
            holding.update(w, now),
        ) =~= held(holding).remove(holding[w]->0),
    decreases holding.len(),
{
    broadcast use group_multiset_axioms;

    let after = holding.update(w, now);
    if w == holding.len() - 1 {
        assert(after.drop_last() =~= holding.drop_last());
    } else {
        assert(after.drop_last() =~= holding.drop_last().update(w, now));
        assert(after.last() == holding.last());
        lemma_held_update(holding.drop_last(), w, now);
    }
}

proof fn lemma_empty_hands<Q>(holding: Seq<Option<Q>>)
    requires
        forall|w: int| 0 <= w < holding.len() ==> holding[w] is None,
    ensures
        held(holding) =~= Multiset::<Q>::empty(),
    decreases holding.len(),
{
    if holding.len() > 0 {
        lemma_empty_hands(holding.drop_last());
    }
}

proof fn lemma_run_first<A: Queue<T>, B: Queue<Q>, F: Task<T, Q>, T, Q>(
    task: F,
    s: Pipeline<T, Q>,
    e: Event<T, Q>,
    then: Seq<Event<T, Q>>,
)
    ensures
        run_from::<A, B, F, T, Q>(task, s, seq![e] + then) == run_from::<A, B, F, T, Q>(
            task,
            step::<A, B, F, T, Q>(task, s, e),
            then,
        ),
    decreases then.len(),
{
    let all = seq![e] + then;
    if then.len() == 0 {
        assert(all.drop_last() =~= Seq::<Event<T, Q>>::empty());
        assert(all.last() == e);
        assert(run_from::<A, B, F, T, Q>(task, s, all.drop_last()) == s);
    } else {
        assert(all.drop_last() =~= seq![e] + then.drop_last());
        assert(all.last() == then.last());
        lemma_run_first::<A, B, F, T, Q>(task, s, e, then.drop_last());
    }
}

proof fn lemma_run_on<A: Queue<T>, B: Queue<Q>, F: Task<T, Q>, T, Q>(
    task: F,
    s: Pipeline<T, Q>,
    first: Seq<Event<T, Q>>,
    then: Seq<Event<T, Q>>,
)
    ensures
        run_from::<A, B, F, T, Q>(task, s, first + then) == run_from::<A, B, F, T, Q>(
            task,
            run_from::<A, B, F, T, Q>(task, s, first),
            then,
        ),
    decreases then.len(),
{
    let all = first + then;
    if then.len() == 0 {
        assert(all =~= first);
    } else {
        assert(all.drop_last() =~= first + then.drop_last());
        assert(all.last() == then.last());
        lemma_run_on::<A, B, F, T, Q>(task, s, first, then.drop_last());
    }
}

proof fn lemma_drain<A: Queue<T>, B: Queue<T>, F: Task<T, T>, T>(task: F, s: Pipeline<T, T>) -> (more:
    Seq<Event<T, T>>)
    requires
        is_identity(task),
        s.holding.len() >= 1,
    ensures
        forall|i: int| 0 <= i < more.len() ==> !(more[i] is Submit),
        at_rest(run_from::<A, B, F, T, T>(task, s, more)),
        run_from::<A, B, F, T, T>(task, s, more).submitted == s.submitted,
    decreases 3 * s.requests.len() + 2 * held(s.holding).len() + s.results.len(),
{
    broadcast use group_multiset_axioms;

    if s.results.len() > 0 {
        let e = Event::<T, T>::Poll;
        let tail = lemma_drain::<A, B, F, T>(task, step::<A, B, F, T, T>(task, s, e));
        lemma_run_first::<A, B, F, T, T>(task, s, e, tail);
        seq![e] + tail
    } else if exists|w: int| 0 <= w < s.holding.len() && s.holding[w] is Some {
        let w = choose|w: int| 0 <= w < s.holding.len() && s.holding[w] is Some;
        let e = Event::<T, T>::Push(w as nat);
        let n = step::<A, B, F, T, T>(task, s, e);
        lemma_held_update(s.holding, w, None);
        B::placed_keeps(s.results, s.holding[w]->0);
        to_multiset_len(s.results);
        to_multiset_len(n.results);
        assert(n.results.len() == s.results.len() + 1);
        assert(held(n.holding).len() == held(s.holding).len() - 1);
        let tail = lemma_drain::<A, B, F, T>(task, n);
        lemma_run_first::<A, B, F, T, T>(task, s, e, tail);
        seq![e] + tail
    } else if s.requests.len() > 0 {
        let e = Event::<T, T>::Pull(0, Some(s.requests[0]));
        let n = step::<A, B, F, T, T>(task, s, e);
        assert(s.holding[0] is None);
        assert(task.maps(s.requests[0], s.requests[0]) && task.accepts(s.requests[0]));
        assert(enabled(task, s, e));
        lemma_held_update(s.holding, 0, Some(s.requests[0]));
        assert(held(n.holding).len() == held(s.holding).len() + 1);
        let tail = lemma_drain::<A, B, F, T>(task, n);
        lemma_run_first::<A, B, F, T, T>(task, s, e, tail);
        seq![e] + tail
    } else {
        lemma_empty_hands(s.holding);
        Seq::empty()
    }
}

/// The records only grow, and the workers stay the same: whatever happens,
/// each record is what it was at the start followed by what it has gained.
pub proof fn law_records_grow<A: Queue<T>, B: Queue<Q>, F: Task<T, Q>, T, Q>(
    task: F,
    start: Pipeline<T, Q>,
    events: Seq<Event<T, Q>>,
)
    ensures
        ({
            let end = run_from::<A, B, F, T, Q>(task, start, events);
            &&& end.holding.len() == start.holding.len()
            &&& end.submitted == start.submitted + since(start.submitted, end.submitted)
            &&& end.taken == start.taken + since(start.taken, end.taken)
            &&& end.polled == start.polled + since(start.polled, end.polled)
        }),
    decreases events.len(),
{
    let end = run_from::<A, B, F, T, Q>(task, start, events);
    if events.len() > 0 {
        law_records_grow::<A, B, F, T, Q>(task, start, events.drop_last());
    }
    assert(end.submitted =~= start.submitted + since(start.submitted, end.submitted));
    assert(end.taken =~= start.taken + since(start.taken, end.taken));
    assert(end.polled =~= start.polled + since(start.polled, end.polled));
}

/// Conservation: under the identity transform, from any state of the
/// pipeline (so also from queues that hold items before the first submit)
/// and whatever the order in which submits, workers' moves and polls arrive,
/// nothing is lost, copied or made up: what is inside the pipeline together
/// with what has been polled since the start is what was inside at the start
/// together with what has been submitted since. Once the pipeline is at
/// rest, what has been polled is all of that; from an empty start it is, as
/// a multiset, exactly what was submitted.
pub proof fn law_conservation<A: Queue<T>, B: Queue<T>, F: Task<T, T>, T>(
    task: F,
    start: Pipeline<T, T>,
    events: Seq<Event<T, T>>,
)
    requires
        is_identity(task),
    ensures
        ({
            let end = run_from::<A, B, F, T, T>(task, start, events);
            let arrived = since(start.submitted, end.submitted).to_multiset();
            let left = since(start.polled, end.polled).to_multiset();
            &&& within(end).add(left) == within(start).add(arrived)
            &&& at_rest(end) ==> left == within(start).add(arrived)
            &&& at_rest(end) && within(start).len() == 0 ==> left == arrived
        }),
    decreases events.len(),
{
    broadcast use group_multiset_axioms;
    broadcast use to_multiset_build;

    let s = run_from::<A, B, F, T, T>(task, start, events);
    let arrived = since(start.submitted, s.submitted).to_multiset();
    let left = since(start.polled, s.polled).to_multiset();
    if events.len() == 0 {
        lemma_nothing_waits(since(start.submitted, s.submitted));
        lemma_nothing_waits(since(start.polled, s.polled));
        assert(within(s).add(left) =~= within(start).add(arrived));
    } else {
        let p = run_from::<A, B, F, T, T>(task, start, events.drop_last());
        let e = events.last();
        let p_arrived = since(start.submitted, p.submitted);
        let p_left = since(start.polled, p.polled);
        law_conservation::<A, B, F, T>(task, start, events.drop_last());
        law_records_grow::<A, B, F, T, T>(task, start, events.drop_last());
        assert(s == step::<A, B, F, T, T>(task, p, e));
        if enabled(task, p, e) {
            match e {
                Event::Submit(item) => {
                    A::placed_keeps(p.requests, item);
                    assert(since(start.submitted, s.submitted) =~= p_arrived.push(item));
                    assert(within(s) =~= within(p).insert(item));
                    assert(arrived =~= p_arrived.to_multiset().insert(item));
                    assert(left == p_left.to_multiset());
                    assert(within(p).add(p_left.to_multiset()) == within(start).add(
                        p_arrived.to_multiset(),
                    ));
                    assert(within(s).add(left) =~= within(p).add(p_left.to_multiset()).insert(item));
                    assert(within(start).add(arrived) =~= within(start).add(
                        p_arrived.to_multiset(),
                    ).insert(item));
                },
                Event::Pull(w, out) => {
                    if p.requests.len() > 0 {
                        lemma_front_rest(p.requests);
                        assert(task.maps(p.requests[0], p.requests[0]));
                        lemma_held_update(p.holding, w as int, out);
                        assert(out == Some(p.requests[0]));
                        assert(within(s) =~= within(p));
                    }
                },
                Event::Push(w) => {
                    lemma_held_update(p.holding, w as int, None);
                    B::placed_keeps(p.results, p.holding[w as int]->0);
                    assert(within(s) =~= within(p));
                },
                Event::Poll => {
                    if p.results.len() > 0 {
                        lemma_front_rest(p.results);
                        assert(since(start.polled, s.polled) =~= p_left.push(p.results[0]));
                        assert(within(p) =~= within(s).insert(p.results[0]));
                        assert(left =~= p_left.to_multiset().insert(p.results[0]));
                    }
                },
            }
        }
        assert(within(s).add(left) =~= within(start).add(arrived));
    }
    if at_rest(s) {
        lemma_nothing_waits(s.requests);
        lemma_nothing_waits(s.results);
        lemma_multiset_empty_len(held(s.holding));
        assert(within(s).add(left) =~= left);
        if within(start).len() == 0 {
            lemma_multiset_empty_len(within(start));
            assert(within(start).add(arrived) =~= arrived);
        }
    }
}

/// Nothing is stuck: under the identity transform, and with at least one
/// worker, every state that the pipeline can reach can be brought to rest by
/// moves of the workers and polls alone, with no further submit; and then
/// what has been polled since the start is, as a multiset, what was inside
/// at the start together with what was submitted. The moves that do so are
/// returned.
pub proof fn law_drains<A: Queue<T>, B: Queue<T>, F: Task<T, T>, T>(
    task: F,
    start: Pipeline<T, T>,
    events: Seq<Event<T, T>>,
) -> (more: Seq<Event<T, T>>)
    requires
        is_identity(task),
        start.holding.len() >= 1,
    ensures
        forall|i: int| 0 <= i < more.len() ==> !(more[i] is Submit),
        ({
            let s = run_from::<A, B, F, T, T>(task, start, events);
            let end = run_from::<A, B, F, T, T>(task, start, events + more);
            &&& at_rest(end)
            &&& end.submitted == s.submitted
            &&& since(start.polled, end.polled).to_multiset() == within(start).add(
                since(start.submitted, s.submitted).to_multiset(),
            )
        }),
{
    let s = run_from::<A, B, F, T, T>(task, start, events);
    law_records_grow::<A, B, F, T, T>(task, start, events);
    let more = lemma_drain::<A, B, F, T>(task, s);
    lemma_run_on::<A, B, F, T, T>(task, start, events, more);
    law_conservation::<A, B, F, T>(task, start, events + more);
    more
}

/// Empty-poll idempotence: a poll of an empty result queue is answered with
/// nothing and leaves the whole pipeline as it was, however often it is
/// repeated.
pub proof fn law_empty_poll<A: Queue<T>, B: Queue<Q>, F: Task<T, Q>, T, Q>(
    task: F,
    s: Pipeline<T, Q>,
    times: nat,
)
    requires
        s.results.len() == 0,
    ensures
        answer(s) is None,
        run_from::<A, B, F, T, Q>(task, s, Seq::new(times, |i: int| Event::<T, Q>::Poll)) == s,
    decreases times,
{
    let polls = Seq::new(times, |i: int| Event::<T, Q>::Poll);
    if times > 0 {
        assert(polls.drop_last() =~= Seq::new((times - 1) as nat, |i: int| Event::<T, Q>::Poll));
        law_empty_poll::<A, B, F, T, Q>(task, s, (times - 1) as nat);
    }
}

/// The items that a pipeline with one worker will hand to its consumers, in
/// the order in which it will do so, if nothing more is submitted: those
/// among the results, then the one in the worker's hands, then those that
/// wait.
pub open spec fn in_line<T>(s: Pipeline<T, T>) -> Seq<T> {
    s.results + in_hand(s.holding) + s.requests
}

/// First in, first out: with one worker, first-in-first-out queues and the
/// identity transform, from any state of the pipeline, the items polled
/// since the start followed by those in line now are those in line at the
/// start followed by the items submitted since, in that order. So results
/// are polled in the order of submission.
pub proof fn law_single_worker_fifo<A: Queue<T>, B: Queue<T>, F: Task<T, T>, T>(
    task: F,
    start: Pipeline<T, T>,
    events: Seq<Event<T, T>>,
)
    requires
        is_identity(task),
        is_fifo::<A, T>(),
        is_fifo::<B, T>(),
        start.holding.len() == 1,
    ensures
        ({
            let end = run_from::<A, B, F, T, T>(task, start, events);
            let arrived = since(start.submitted, end.submitted);
            let left = since(start.polled, end.polled);
            &&& left + in_line(end) == in_line(start) + arrived
            &&& left == (in_line(start) + arrived).take(left.len() as int)
        }),
    decreases events.len(),
{
    let s = run_from::<A, B, F, T, T>(task, start, events);
    let arrived = since(start.submitted, s.submitted);
    let left = since(start.polled, s.polled);
    law_records_grow::<A, B, F, T, T>(task, start, events);
    if events.len() == 0 {
        assert(left + in_line(s) =~= in_line(start) + arrived);
    } else {
        let p = run_from::<A, B, F, T, T>(task, start, events.drop_last());
        let e = events.last();
        let p_arrived = since(start.submitted, p.submitted);
        let p_left = since(start.polled, p.polled);
        law_single_worker_fifo::<A, B, F, T>(task, start, events.drop_last());
        law_records_grow::<A, B, F, T, T>(task, start, events.drop_last());
        assert(s == step::<A, B, F, T, T>(task, p, e));
        assert(p_left + in_line(p) == in_line(start) + p_arrived);
        if enabled(task, p, e) {
            match e {
                Event::Submit(item) => {
                    assert(A::placed(p.requests, item) == p.requests.push(item));
                    assert(arrived =~= p_arrived.push(item));
                    assert(left == p_left);
                    assert(in_line(s) =~= in_line(p).push(item));
                    assert(left + in_line(s) =~= (p_left + in_line(p)).push(item));
                    assert(in_line(start) + arrived =~= (in_line(start) + p_arrived).push(item));
                },
                Event::Pull(w, out) => {
                    if p.requests.len() > 0 {
                        lemma_front_rest(p.requests);
                        assert(task.maps(p.requests[0], p.requests[0]));
                        assert(out == Some(p.requests[0]));
                        assert(in_hand(p.holding) =~= Seq::<T>::empty());
                        assert(in_hand(s.holding) =~= seq![p.requests[0]]);
                        assert(in_line(s) =~= in_line(p));
                    }
                },
                Event::Push(w) => {
                    assert(B::placed(p.results, p.holding[0]->0) == p.results.push(
                        p.holding[0]->0,
                    ));
                    assert(in_hand(p.holding) =~= seq![p.holding[0]->0]);
                    assert(in_hand(s.holding) =~= Seq::<T>::empty());
                    assert(in_line(s) =~= in_line(p));
                },
                Event::Poll => {
                    if p.results.len() > 0 {
                        lemma_front_rest(p.results);
                        assert(left =~= p_left.push(p.results[0]));
                        assert(in_line(p) =~= seq![p.results[0]] + in_line(s));
                        assert(left + in_line(s) =~= p_left + in_line(p));
                    }
                },
            }
        }
        assert(left + in_line(s) =~= in_line(start) + arrived);
    }
    assert(left =~= (left + in_line(s)).take(left.len() as int));
}

/// Mutual exclusion: whatever the transform, the number of workers and the
/// order of their requests, from any state of the pipeline, each item is
/// handed out at most once: the items taken since the start and those that
/// still wait are, as a multiset, the items that waited at the start and
/// those submitted since. Where these are distinct, no item is taken twice.
pub proof fn law_taken_once<A: Queue<T>, B: Queue<Q>, F: Task<T, Q>, T, Q>(
    task: F,
    start: Pipeline<T, Q>,
    events: Seq<Event<T, Q>>,
)
    ensures
        ({
            let end = run_from::<A, B, F, T, Q>(task, start, events);
            let arrived = since(start.submitted, end.submitted);
            let handed = since(start.taken, end.taken);
            &&& handed.to_multiset().add(end.requests.to_multiset())
                == start.requests.to_multiset().add(arrived.to_multiset())
            &&& (start.requests + arrived).no_duplicates() ==> handed.no_duplicates()
        }),
    decreases events.len(),
{
    broadcast use group_multiset_axioms;
    broadcast use to_multiset_build;

    let s = run_from::<A, B, F, T, Q>(task, start, events);
    let arrived = since(start.submitted, s.submitted);
    let handed = since(start.taken, s.taken);
    let both = handed.to_multiset().add(s.requests.to_multiset());
    let offered = start.requests.to_multiset().add(arrived.to_multiset());
    if events.len() == 0 {
        lemma_nothing_waits(handed);
        lemma_nothing_waits(arrived);
        assert(both =~= offered);
    } else {
        let p = run_from::<A, B, F, T, Q>(task, start, events.drop_last());
        let e = events.last();
        let p_arrived = since(start.submitted, p.submitted);
        let p_handed = since(start.taken, p.taken);
        let p_both = p_handed.to_multiset().add(p.requests.to_multiset());
        let p_offered = start.requests.to_multiset().add(p_arrived.to_multiset());
        law_taken_once::<A, B, F, T, Q>(task, start, events.drop_last());
        assert(p_both == p_offered);
        law_records_grow::<A, B, F, T, Q>(task, start, events.drop_last());
        assert(s == step::<A, B, F, T, Q>(task, p, e));
        if enabled(task, p, e) {
            match e {
                Event::Submit(item) => {
                    A::placed_keeps(p.requests, item);
                    assert(arrived =~= p_arrived.push(item));
                    assert(handed == p_handed);
                    assert(both =~= p_both.insert(item));
                    assert(offered =~= p_offered.insert(item));
                },
                Event::Pull(w, out) => {
                    if p.requests.len() > 0 {
                        lemma_front_rest(p.requests);
                        assert(handed =~= p_handed.push(p.requests[0]));
                        assert(arrived == p_arrived);
                        assert(both =~= p_both);
                    }
                },
                Event::Push(w) => {},
                Event::Poll => {},
            }
        }
        assert(both =~= offered);
    }
    if (start.requests + arrived).no_duplicates() {
        lemma_multiset_commutative(start.requests, arrived);
        (start.requests + arrived).lemma_multiset_has_no_duplicates();
        assert forall|x: T| handed.to_multiset().contains(x) implies handed.to_multiset().count(
            x,
        ) == 1 by {
            assert(both.count(x) == handed.to_multiset().count(x) + s.requests.to_multiset().count(
                x,
            ));
            assert(offered.contains(x));
        }
        handed.lemma_multiset_has_no_duplicates_conv();
    }
}

} // verus!
