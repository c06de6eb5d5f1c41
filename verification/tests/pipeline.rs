use std::collections::{HashSet, VecDeque};

use time_sigil::errors::Error;
use time_sigil::queue::{reply_outcome, Command, Handler, IntoServer, Queue, Server, MAX_DEPTH};
use time_sigil::service::{new, new_inmemory, MAILBOX_DEPTH};
use time_sigil::task::{fn_task, Step, Task, TaskRunner};
use time_sigil::tasks::OneWay;
use tokio::sync::oneshot;

/// Lets the actor take every command that waits in its mailbox.
fn pump<Q: Queue<T>, T>(server: &mut Server<Q, T>) -> Result<(), Error> {
    while let Ok(cmd) = server.mailbox().try_recv() {
        server.on_received(Some(cmd))?;
    }
    Ok(())
}

/// Sends an item through a handle; false where the mailbox is full or gone.
fn give<T>(handle: &Handler<T>, item: T) -> bool {
    handle.sender().try_send(Command::Enque(item)).is_ok()
}

/// Sends a request for the next item through a handle.
fn ask<T>(handle: &Handler<T>) -> oneshot::Receiver<Option<T>> {
    let (tx, rx) = oneshot::channel();
    assert!(handle.sender().try_send(Command::Deque(tx)).is_ok());
    rx
}

/// A request through the handle, answered by the actor at once.
fn poll<Q: Queue<T>, T>(server: &mut Server<Q, T>, handle: &Handler<T>) -> Option<T> {
    let mut rx = ask(handle);
    assert_eq!(pump(server), Ok(()));
    rx.try_recv().expect("the actor replies to every request")
}

fn submit<Q: Queue<T>, T>(server: &mut Server<Q, T>, handle: &Handler<T>, item: T) {
    assert!(give(handle, item));
    assert_eq!(pump(server), Ok(()));
}

/// One full turn of a worker: ask, transform, push. Returns whether an item
/// was processed.
fn work<A: Queue<T>, B: Queue<Q>, T, Q, F: Task<T, Q>>(
    worker: &TaskRunner<T, Q, F>,
    requests: &mut Server<A, T>,
    results: &mut Server<B, Q>,
) -> bool {
    let polled = poll(requests, worker.queues().pull_handle());
    match worker.on_polled(Ok(polled)) {
        Step::Push(res) => {
            let sent = give(worker.queues().push_handle(), res);
            let pushed = Error::closed_unless(if sent { Some(()) } else { None });
            assert!(matches!(worker.on_pushed(pushed), Step::Poll));
            assert_eq!(pump(results), Ok(()));
            true
        }
        Step::Poll => false,
        Step::Stop(_) => panic!("a worker does not stop on an answer of the queue"),
    }
}

#[test]
fn four_workers_add_one() {
    let (runner, handler) = new(
        VecDeque::<i32>::new(),
        VecDeque::<i32>::new(),
        fn_task(|x: i32| x + 1),
    );
    let (mut requests, mut results, worker) = runner.into_parts();
    let pool = vec![worker.clone(), worker.clone(), worker.clone(), worker];

    submit(&mut requests, handler.push_handle(), 0);
    for w in &pool {
        work(w, &mut requests, &mut results);
    }

    let mut seen = 0;
    while let Some(x) = poll(&mut results, handler.pull_handle()) {
        assert_eq!(x, 1);
        seen += 1;
    }
    assert_eq!(seen, 1);
}

#[test]
fn pipeline_keeps_the_queues_it_is_given() {
    let (runner, client) = new(
        VecDeque::from(vec![7, 8]),
        VecDeque::from(vec!["kept".to_string()]),
        fn_task(|x: i32| x.to_string()),
    );
    let (mut requests, mut results, worker) = runner.into_parts();
    assert_eq!(poll(&mut results, client.pull_handle()), Some("kept".to_string()));
    assert_eq!(poll(&mut results, client.pull_handle()), None);
    assert!(work(&worker, &mut requests, &mut results));
    assert!(work(&worker, &mut requests, &mut results));
    assert!(!work(&worker, &mut requests, &mut results));
    assert_eq!(poll(&mut results, client.pull_handle()), Some("7".to_string()));
    assert_eq!(poll(&mut results, client.pull_handle()), Some("8".to_string()));
    assert_eq!(poll(&mut results, client.pull_handle()), None);
}

#[test]
fn mailbox_of_a_pipeline_holds_ten_messages() {
    assert_eq!(MAILBOX_DEPTH, 10);
    let (runner, client) = new_inmemory::<u8, u8, _>(fn_task(|x: u8| x));
    let (mut requests, _results, _worker) = runner.into_parts();
    for item in 0..10u8 {
        assert!(give(client.push_handle(), item));
    }
    assert!(!give(client.push_handle(), 10));
    assert_eq!(pump(&mut requests), Ok(()));
    assert!(give(client.push_handle(), 10));
}

#[test]
fn mailbox_has_the_depth_it_was_made_with() {
    assert_eq!(MAX_DEPTH, usize::MAX / 8);
    let (mut server, handle) = VecDeque::<u8>::new().into_server(2);
    assert!(give(&handle, 1));
    assert!(give(&handle, 2));
    assert!(!give(&handle, 3));
    assert_eq!(poll_after_pump(&mut server, &handle), Some(1));
}

fn poll_after_pump(server: &mut Server<VecDeque<u8>, u8>, handle: &Handler<u8>) -> Option<u8> {
    assert_eq!(pump(server), Ok(()));
    poll(server, handle)
}

#[test]
fn cloned_handles_share_one_mailbox() {
    let (mut server, handle) = Server::new(VecDeque::<&str>::new(), 4);
    let other = handle.clone();
    assert!(give(&handle, "first"));
    assert!(give(&other, "second"));
    assert!(give(&handle, "third"));
    assert_eq!(poll(&mut server, &other), Some("first"));
    assert_eq!(poll(&mut server, &handle), Some("second"));
    assert_eq!(poll(&mut server, &other), Some("third"));
    assert_eq!(poll(&mut server, &handle), None);
}

#[test]
fn handle_fails_once_the_actor_is_gone() {
    let (server, handle) = Server::new(VecDeque::<u8>::new(), 4);
    drop(server);
    assert!(!give(&handle, 1));
}

#[test]
fn one_way_pairs_keep_their_direction() {
    let (mut left, left_handle) = Server::new(VecDeque::<u8>::new(), 4);
    let (mut right, right_handle) = Server::new(VecDeque::<char>::new(), 4);
    let pair = OneWay::new(left_handle, right_handle);
    let copy = pair.clone();
    assert!(give(copy.push_handle(), 'x'));
    assert!(give(pair.pull_handle(), 9));
    assert_eq!(poll(&mut right, pair.push_handle()), Some('x'));
    assert_eq!(poll(&mut left, copy.pull_handle()), Some(9));
}

#[test]
fn conservation_with_identity_transform() {
    let (runner, client) = new_inmemory::<u32, u32, _>(fn_task(|x: u32| x));
    let (mut requests, mut results, worker) = runner.into_parts();
    let pool = vec![worker.clone(), worker.clone(), worker];
    let inputs: Vec<u32> = vec![5, 3, 5, 9, 1, 3, 3];

    // Each worker takes an item before any of them pushes, so that responses
    // reach the result queue out of step with the submissions.
    let mut polled: Vec<u32> = Vec::new();
    let mut next = 0;
    while next < inputs.len() || polled.len() < inputs.len() {
        for _ in 0..2 {
            if next < inputs.len() {
                submit(&mut requests, client.push_handle(), inputs[next]);
                next += 1;
            }
        }
        let mut in_hand: Vec<(usize, u32)> = Vec::new();
        for (i, w) in pool.iter().enumerate() {
            let got = poll(&mut requests, w.queues().pull_handle());
            if let Step::Push(res) = w.on_polled(Ok(got)) {
                in_hand.push((i, res));
            }
        }
        while let Some((i, res)) = in_hand.pop() {
            submit(&mut results, pool[i].queues().push_handle(), res);
        }
        if let Some(res) = poll(&mut results, client.pull_handle()) {
            polled.push(res);
        }
    }
    assert_eq!(poll(&mut requests, client.push_handle()), None);
    assert_eq!(poll(&mut results, client.pull_handle()), None);

    let mut expected = inputs.clone();
    expected.sort();
    polled.sort();
    assert_eq!(polled, expected);
}

#[test]
fn empty_poll_is_idempotent() {
    let (runner, client) = new_inmemory::<i64, i64, _>(fn_task(|x: i64| x));
    let (mut requests, mut results, worker) = runner.into_parts();
    for _ in 0..5 {
        assert_eq!(poll(&mut results, client.pull_handle()), None);
    }
    // The empty polls have left no trace: the pipeline works as if untouched.
    submit(&mut requests, client.push_handle(), 42);
    assert!(work(&worker, &mut requests, &mut results));
    assert_eq!(poll(&mut results, client.pull_handle()), Some(42));
    for _ in 0..3 {
        assert_eq!(poll(&mut results, client.pull_handle()), None);
    }
}

#[test]
fn single_worker_keeps_submission_order() {
    let (runner, client) = new_inmemory::<&str, &str, _>(fn_task(|x: &'static str| x));
    let (mut requests, mut results, worker) = runner.into_parts();
    submit(&mut requests, client.push_handle(), "a");
    submit(&mut requests, client.push_handle(), "b");
    assert!(work(&worker, &mut requests, &mut results));
    assert!(work(&worker, &mut requests, &mut results));
    assert!(!work(&worker, &mut requests, &mut results));
    assert_eq!(poll(&mut results, client.pull_handle()), Some("a"));
    assert_eq!(poll(&mut results, client.pull_handle()), Some("b"));
    assert_eq!(poll(&mut results, client.pull_handle()), None);
}

#[test]
fn eight_workers_never_share_an_item() {
    let (runner, client) =
        new_inmemory::<u32, (usize, u32), _>(fn_task(|x: u32| (0usize, x)));
    let (mut requests, _results, worker) = runner.into_parts();
    let mut pool = Vec::new();
    for _ in 0..8 {
        pool.push(worker.clone());
    }
    for item in 0..1000u32 {
        submit(&mut requests, client.push_handle(), item);
    }
    let mut marked: HashSet<u32> = HashSet::new();
    let mut taken = 0;
    let mut turn = 0;
    loop {
        // Eight requests wait in the mailbox together before any is answered.
        let mut waiting = Vec::new();
        for k in 0..8 {
            let w = &pool[(turn * 5 + k * 3) % 8];
            waiting.push((w, ask(w.queues().pull_handle())));
        }
        turn += 1;
        assert_eq!(pump(&mut requests), Ok(()));
        let mut idle = 0;
        for (w, mut rx) in waiting {
            let got = rx.try_recv().expect("the actor replies to every request");
            match w.on_polled(Ok(got)) {
                Step::Push((_, item)) => {
                    assert!(marked.insert(item), "item {} was handed out twice", item);
                    taken += 1;
                }
                Step::Poll => idle += 1,
                Step::Stop(_) => panic!("a worker does not stop on an answer of the queue"),
            }
        }
        if idle == 8 {
            break;
        }
    }
    assert_eq!(taken, 1000);
    assert_eq!(marked.len(), 1000);
}

#[test]
fn worker_asks_again_on_empty_or_failed_request() {
    let (runner, _client) = new_inmemory::<u8, u8, _>(fn_task(|x: u8| x + 1));
    let (_requests, _results, worker) = runner.into_parts();
    assert!(matches!(worker.on_polled(Ok(None)), Step::Poll));
    assert!(matches!(worker.on_polled(Err(Error::ChannelClosed)), Step::Poll));
    assert!(matches!(worker.on_polled(Ok(Some(4))), Step::Push(5)));
}

#[test]
fn worker_stops_when_result_queue_is_closed() {
    let (runner, _client) = new_inmemory::<u8, u8, _>(fn_task(|x: u8| x));
    let (_requests, _results, worker) = runner.into_parts();
    assert!(matches!(worker.on_pushed(Ok(())), Step::Poll));
    assert!(matches!(
        worker.on_pushed(Err(Error::ChannelClosed)),
        Step::Stop(Err(Error::ChannelClosed))
    ));
}

#[test]
fn fn_task_applies_the_function() {
    let task = fn_task(|x: i32| x * 3 - 1);
    assert_eq!(task.run(4), 11);
    assert_eq!(task.clone().run(-2), -7);
}

#[test]
fn reply_reaches_a_waiting_requester() {
    let (mut server, handle) = Server::new(VecDeque::from(vec![11, 12]), 4);
    let (tx, mut rx) = oneshot::channel();
    assert_eq!(server.on_received(Some(Command::Deque(tx))), Ok(()));
    assert_eq!(rx.try_recv(), Ok(Some(11)));
    assert_eq!(poll(&mut server, &handle), Some(12));
}

#[test]
fn reply_to_a_vanished_requester_closes_the_actor() {
    let (mut server, handle) = Server::new(VecDeque::from(vec![11, 12]), 4);
    let (tx, rx) = oneshot::channel();
    drop(rx);
    assert_eq!(
        server.on_received(Some(Command::Deque(tx))),
        Err(Error::ChannelClosed)
    );
    // The item offered to the vanished requester has left the queue.
    assert_eq!(poll(&mut server, &handle), Some(12));
}

#[test]
fn silent_mailbox_changes_nothing() {
    let (mut server, handle) = Server::new(VecDeque::from(vec![1u8]), 1);
    assert_eq!(server.on_received(None), Ok(()));
    assert_eq!(poll(&mut server, &handle), Some(1));
}

#[test]
fn reply_outcome_maps_refusal_to_channel_closed() {
    assert_eq!(reply_outcome::<u8>(Ok(())), Ok(()));
    assert_eq!(reply_outcome(Err(Some(3u8))), Err(Error::ChannelClosed));
    assert_eq!(reply_outcome::<u8>(Err(None)), Err(Error::ChannelClosed));
}

#[test]
fn vecdeque_is_first_in_first_out() {
    let mut q: VecDeque<char> = VecDeque::new();
    assert_eq!(Queue::deque(&mut q), None);
    Queue::enque(&mut q, 'x');
    Queue::enque(&mut q, 'y');
    Queue::enque(&mut q, 'z');
    assert_eq!(Queue::deque(&mut q), Some('x'));
    assert_eq!(Queue::deque(&mut q), Some('y'));
    assert_eq!(Queue::deque(&mut q), Some('z'));
    assert_eq!(Queue::deque(&mut q), None);
}

#[test]
fn take_hands_out_the_front_item() {
    let (mut server, handle) = Server::new(VecDeque::from(vec!['p', 'q']), 2);
    assert_eq!(server.take(), Some('p'));
    assert_eq!(poll(&mut server, &handle), Some('q'));
    assert_eq!(server.take(), None);
    assert_eq!(server.take(), None);
    submit(&mut server, &handle, 'r');
    assert_eq!(server.take(), Some('r'));
}
