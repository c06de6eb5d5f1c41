//! The queue actor: one owner of a backing queue that applies the commands
//! of its mailbox one after the other.

use crate::errors::Error;
use std::collections::VecDeque;
use tokio::sync::{mpsc, oneshot};
use vstd::prelude::*;
use vstd::seq_lib::*;

verus! {

/// The item that a queue hands out next, given the order in which its items
/// will leave: the first one, or nothing where the queue is empty.
pub open spec fn front<T>(order: Seq<T>) -> Option<T> {
    if order.len() == 0 {
        None
    } else {
        Some(order[0])
    }
}

/// The order that is left once `front` has been handed out.
pub open spec fn rest<T>(order: Seq<T>) -> Seq<T> {
    if order.len() == 0 {
        order
    } else {
        order.skip(1)
    }
}

/// The capability of a backing queue. A discipline (first in first out, a
/// stack, a priority order) is fixed by `placed`: where a new item goes among
/// those that wait.
pub trait Queue<T>: Sized {
    /// The waiting items, in the order in which `deque` will hand them out.
    spec fn order(&self) -> Seq<T>;

    /// The order after `item` has joined the items of `order`.
    spec fn placed(order: Seq<T>, item: T) -> Seq<T>;

    /// Placing an item adds exactly that item: nothing is lost or copied.
    proof fn placed_keeps(order: Seq<T>, item: T)
        ensures
            Self::placed(order, item).to_multiset() == order.to_multiset().insert(item),
    ;

    /// Adds an item.
    fn enque(&mut self, item: T)
        ensures
            final(self).order() == Self::placed(old(self).order(), item),
    ;

    /// Hands out the next item, or nothing where the queue is empty; it never
    /// waits for an item to come.
    fn deque(&mut self) -> (res: Option<T>)
        ensures
            res == front(old(self).order()),
            final(self).order() == rest(old(self).order()),
    ;
}

impl<T> Queue<T> for VecDeque<T> {
    open spec fn order(&self) -> Seq<T> {
        self@
    }

    open spec fn placed(order: Seq<T>, item: T) -> Seq<T> {
        order.push(item)
    }

    proof fn placed_keeps(order: Seq<T>, item: T) {
        broadcast use to_multiset_build;
    }

    fn enque(&mut self, item: T) {
        self.push_back(item)
    }

    fn deque(&mut self) -> (res: Option<T>) {
        self.pop_front()
    }
}

#[verifier::external_type_specification]
#[verifier::external_body]
#[verifier::reject_recursive_types(T)]
pub struct ExReplySender<T>(oneshot::Sender<T>);

#[verifier::external_type_specification]
#[verifier::external_body]
#[verifier::reject_recursive_types(T)]
pub struct ExMailboxSender<T>(mpsc::Sender<T>);

#[verifier::external_type_specification]
#[verifier::external_body]
#[verifier::reject_recursive_types(T)]
pub struct ExMailboxReceiver<T>(mpsc::Receiver<T>);

/// The deepest mailbox that the channel behind it can be made with.
pub const MAX_DEPTH: usize = usize::MAX / 8;

/// A message in the mailbox of a queue actor.
#[derive(Debug)]
#[verifier::reject_recursive_types(T)]
pub enum Command<T> {
    /// Add the item; nothing is answered.
    Enque(T),
    /// Hand out the next item over the enclosed reply channel.
    Deque(oneshot::Sender<Option<T>>),
}

/// `tokio::sync::oneshot::Sender::send`: offers `item` to the receiving end
/// of the reply channel. Where that end is already gone the call fails and
/// gives the very same value back.
#[verifier::external_body]
fn send_reply<T>(tx: oneshot::Sender<Option<T>>, item: Option<T>) -> (sent: Result<(), Option<T>>)
    ensures
        match sent {
            Ok(_) => true,
            Err(back) => back == item,
        },
{
    tx.send(item)
}

/// What the actor's loop does once a reply has been offered: it goes on
/// where the reply was taken, and ends with `ChannelClosed` where the
/// requester had gone.
pub fn reply_outcome<T>(sent: Result<(), Option<T>>) -> (res: Result<(), Error>)
    ensures
        res == match sent {
            Ok(_) => Ok::<(), Error>(()),
            Err(_) => Err::<(), Error>(Error::ChannelClosed),
        },
{
    match sent {
        Ok(_) => Ok(()),
        Err(_) => Err(Error::ChannelClosed),
    }
}

/// `tokio::sync::mpsc::channel`: the two ends of a new bounded channel that
/// holds `depth` messages. Nothing is claimed of the ends; the depths on
/// which the call would panic, zero and those beyond `MAX_DEPTH`, are left
/// out.
#[verifier::external_body]
fn open_mailbox<T>(depth: usize) -> (ends: (mpsc::Sender<Command<T>>, mpsc::Receiver<Command<T>>))
    requires
        0 < depth <= MAX_DEPTH,
{
    mpsc::channel(depth)
}

/// `tokio::sync::mpsc::Sender::clone`: one more sending end of the same
/// channel. The clone is claimed to be the same sending end as the one it was
/// made from: both hold the one shared channel, and nothing tells them
/// apart.
#[verifier::external_body]
fn share_mailbox<T>(tx: &mpsc::Sender<Command<T>>) -> (other: mpsc::Sender<Command<T>>)
    ensures
        other == *tx,
{
    tx.clone()
}

/// The owner of one backing queue, with the receiving end of its mailbox.
/// Its view is the order in which the waiting items will leave.
#[derive(Debug)]
#[verifier::reject_recursive_types(T)]
pub struct Server<Q, T> {
    queue: Q,
    rx: mpsc::Receiver<Command<T>>,
}

impl<Q: Queue<T>, T> View for Server<Q, T> {
    type V = Seq<T>;

    closed spec fn view(&self) -> Seq<T> {
        self.queue.order()
    }
}

impl<Q: Queue<T>, T> Server<Q, T> {
    /// An actor that owns `queue`, and a handle to its mailbox, which holds
    /// `channels` messages before a sender has to wait.
    pub fn new(queue: Q, channels: usize) -> (made: (Server<Q, T>, Handler<T>))
        requires
            0 < channels <= MAX_DEPTH,
        ensures
            made.0@ == queue.order(),
    {
        let (tx, rx) = open_mailbox(channels);
        let handler = Handler { tx };
        let server = Server { queue, rx };
        (server, handler)
    }

    /// The receiving end of the mailbox, for the loop that waits on it: a
    /// borrow of the actor's own receiving end, so that what the loop does
    /// to it is what becomes of the actor's. The queue is out of its reach.
    pub fn mailbox(&mut self) -> (rx: &mut mpsc::Receiver<Command<T>>)
        ensures
            *rx == old(self).inbox(),
            final(self).inbox() == *final(rx),
            final(self)@ == old(self)@,
    {
        &mut self.rx
    }

    /// The receiving end of the actor's mailbox.
    pub closed spec fn inbox(&self) -> mpsc::Receiver<Command<T>> {
        self.rx
    }

    /// Takes the next item out of the queue: what a `Deque` is answered
    /// with. Nothing comes from an empty queue, which stays as it was.
    pub fn take(&mut self) -> (item: Option<T>)
        ensures
            item == front(old(self)@),
            final(self)@ == rest(old(self)@),
            final(self).inbox() == old(self).inbox(),
    {
        self.queue.deque()
    }

    /// One turn of the actor's loop on what its mailbox gave. An `Enque`
    /// places the item and always succeeds. A `Deque` offers what `take`
    /// gives on the reply channel; the turn fails with `ChannelClosed` only
    /// where that offer is refused. A mailbox that gave nothing changes
    /// nothing.
    pub fn on_received(&mut self, received: Option<Command<T>>) -> (res: Result<(), Error>)
        ensures
            final(self).inbox() == old(self).inbox(),
            match received {
                Some(Command::Enque(item)) => final(self)@ == Q::placed(old(self)@, item)
                    && res is Ok,
                Some(Command::Deque(_)) => final(self)@ == rest(old(self)@) && (res is Err
                    ==> res == Err::<(), Error>(Error::ChannelClosed)),
                None => final(self)@ == old(self)@ && res is Ok,
            },
    {
        match received {
            Some(Command::Enque(item)) => {
                self.queue.enque(item);
                Ok(())
            },
            Some(Command::Deque(tx)) => {
                let item = self.take();
                reply_outcome(send_reply(tx, item))
            },
            None => Ok(()),
        }
    }
}

/// Every backing queue can be given its actor.
pub trait IntoServer<T>: Queue<T> {
    /// An actor that owns this queue, and a handle to its mailbox of
    /// `channels` messages.
    fn into_server(self, channels: usize) -> (made: (Server<Self, T>, Handler<T>))
        requires
            0 < channels <= MAX_DEPTH,
        ensures
            made.0@ == self.order(),
    ;
}

impl<Q: Queue<T>, T> IntoServer<T> for Q {
    fn into_server(self, channels: usize) -> (made: (Server<Self, T>, Handler<T>)) {
        Server::new(self, channels)
    }
}

/// A shareable capability to send commands to the mailbox of one queue
/// actor. It gives no access to the queue itself.
#[derive(Debug)]
#[verifier::reject_recursive_types(T)]
pub struct Handler<T> {
    tx: mpsc::Sender<Command<T>>,
}

impl<T> Clone for Handler<T> {
    /// One more handle to the same mailbox: the sending end is shared, the
    /// queue is not copied.
    fn clone(&self) -> (other: Self)
        ensures
            other.channel() == self.channel(),
    {
        Handler { tx: share_mailbox(&self.tx) }
    }
}

impl<T> Handler<T> {
    /// The sending end that the handle wraps.
    pub closed spec fn channel(&self) -> mpsc::Sender<Command<T>> {
        self.tx
    }

    /// The sending end of the mailbox, for the caller that waits on it.
    pub fn sender(&self) -> (tx: &mpsc::Sender<Command<T>>)
        ensures
            *tx == self.channel(),
    {
        &self.tx
    }
}

} // verus!
