//! A player's queue of membership events, fed by the registry and drained by
//! the player's connection.

use crate::state::ConnectionUpdate;
use tokio::sync::mpsc::{UnboundedReceiver, UnboundedSender};
use vstd::prelude::*;

verus! {

#[verifier::external_type_specification]
#[verifier::external_body]
#[verifier::reject_recursive_types(T)]
pub struct ExUnboundedSender<T>(UnboundedSender<T>);

#[verifier::external_type_specification]
#[verifier::external_body]
#[verifier::reject_recursive_types(T)]
pub struct ExUnboundedReceiver<T>(UnboundedReceiver<T>);

/// Relies on tokio::sync::mpsc::unbounded_channel: a new channel, as its
/// sending and receiving halves.
#[verifier::external_body]
fn new_channel() -> (UnboundedSender<ConnectionUpdate>, UnboundedReceiver<ConnectionUpdate>) {
    tokio::sync::mpsc::unbounded_channel()
}

/// Relies on tokio's UnboundedSender::send, which never waits. When the
/// receiving half is gone the event is dropped: nobody is left to read it.
#[verifier::external_body]
fn hand_over(tx: &UnboundedSender<ConnectionUpdate>, update: ConnectionUpdate) {
    let _ = tx.send(update);
}

/// The sending half of a player's event queue, with the events handed to it.
pub struct Outbox {
    tx: UnboundedSender<ConnectionUpdate>,
    sent: Ghost<Seq<ConnectionUpdate>>,
}

impl View for Outbox {
    type V = Seq<ConnectionUpdate>;

    /// Every event handed to this queue, oldest first.
    closed spec fn view(&self) -> Seq<ConnectionUpdate> {
        self.sent@
    }
}

impl Outbox {
    /// A new queue with nothing handed to it, and its receiving half.
    pub fn open() -> (r: (Outbox, UnboundedReceiver<ConnectionUpdate>))
        ensures
            r.0@ == Seq::<ConnectionUpdate>::empty(),
    {
        let (tx, rx) = new_channel();
        (Outbox { tx, sent: Ghost(Seq::empty()) }, rx)
    }

    /// Hands `update` to the queue.
    pub fn post(&mut self, update: ConnectionUpdate)
        ensures
            final(self)@ == old(self)@.push(update),
    {
        let ghost u = update;
        hand_over(&self.tx, update);
        self.sent = Ghost(self.sent@.push(u));
    }
}

} // verus!
