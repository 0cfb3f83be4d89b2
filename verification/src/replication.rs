//! Writes announced to subscribers.
use vstd::prelude::*;
use tokio::sync::broadcast::{Receiver, Sender};

verus! {

/// A write, as it is announced.
#[derive(Clone, Debug)]
pub struct ReplicationEvent {
    pub operation: String,
    pub key: String,
    pub value: Option<String>,
}

/// A write, as it is announced, with its strings taken as character
/// sequences.
pub struct EventView {
    pub operation: Seq<char>,
    pub key: Seq<char>,
    pub value: Option<Seq<char>>,
}

impl View for ReplicationEvent {
    type V = EventView;

    open spec fn view(&self) -> EventView {
        EventView {
            operation: self.operation@,
            key: self.key@,
            value: match self.value {
                Some(v) => Some(v@),
                None => None,
            },
        }
    }
}

#[verifier::external_type_specification]
#[verifier::external_body]
#[verifier::reject_recursive_types(T)]
pub struct ExSender<T>(Sender<T>);

#[verifier::external_type_specification]
#[verifier::external_body]
#[verifier::reject_recursive_types(T)]
pub struct ExReceiver<T>(Receiver<T>);

/// The number of announcements a slow subscriber may fall behind by.
pub const CHANNEL_CAPACITY: usize = 1024;

/// An announcement as plain values: operation, key and value.
pub type EventParts = (Seq<char>, Seq<char>, Option<Seq<char>>);

/// The parts of an announcement.
pub open spec fn event_parts(e: EventView) -> EventParts {
    (e.operation, e.key, e.value)
}

/// The announcements handed to `send` through this sender, in order.
/// Whether a receiver was there to take each one is not part of it.
pub uninterp spec fn announced(sender: Sender<ReplicationEvent>) -> Seq<EventParts>;

/// Where a receiver stands on a sender's channel: `None` when it is not a
/// receiver of that channel, otherwise the number of announcements handed
/// to the channel before it subscribed (it receives those that come after).
pub uninterp spec fn joined_at(
    receiver: Receiver<ReplicationEvent>,
    sender: Sender<ReplicationEvent>,
) -> Option<nat>;

/// Trusted: `tokio::sync::broadcast::channel` with the given capacity; the
/// receiver it also makes is dropped. Nothing has been announced on the new
/// channel.
#[verifier::external_body]
fn open_channel(capacity: usize) -> (sender: Sender<ReplicationEvent>)
    requires
        0 < capacity <= usize::MAX / 2,
    ensures
        announced(sender) =~= Seq::empty(),
{
    tokio::sync::broadcast::channel(capacity).0
}

/// Trusted: `Sender::send`, which hands the event to the channel; whether a
/// receiver was there to take it is not reported. Receivers of the channel
/// stay where they were.
#[verifier::external_body]
fn send_event(sender: &mut Sender<ReplicationEvent>, event: ReplicationEvent)
    ensures
        announced(*final(sender)) == announced(*old(sender)).push(event_parts(event@)),
        forall|r: Receiver<ReplicationEvent>|
            #[trigger] joined_at(r, *final(sender)) == joined_at(r, *old(sender)),
{
    let _ = sender.send(event);
}

/// Trusted: `Sender::subscribe`, a receiver of the events sent after this
/// call.
#[verifier::external_body]
fn subscribe_to(sender: &Sender<ReplicationEvent>) -> (r: Receiver<ReplicationEvent>)
    ensures
        joined_at(r, *sender) == Some(announced(*sender).len()),
{
    sender.subscribe()
}

/// A channel that announces each write to every subscriber.
pub struct ReplicationBus {
    sender: Sender<ReplicationEvent>,
}

impl ReplicationBus {
    /// The announcements made on this bus, in order.
    pub closed spec fn events(&self) -> Seq<EventParts> {
        announced(self.sender)
    }

    /// The receiver listens on this bus and receives the announcements made
    /// from the `start`-th on.
    pub closed spec fn listens(&self, r: Receiver<ReplicationEvent>, start: nat) -> bool {
        joined_at(r, self.sender) == Some(start)
    }

    /// A bus with room for `CHANNEL_CAPACITY` unread announcements, and none
    /// made yet.
    pub fn new() -> (bus: ReplicationBus)
        ensures
            bus.events() == Seq::<EventParts>::empty(),
    {
        ReplicationBus { sender: open_channel(CHANNEL_CAPACITY) }
    }

    /// Announces an event; with no subscriber nobody receives it. Every
    /// receiver keeps its place.
    pub fn publish(&mut self, event: ReplicationEvent)
        ensures
            final(self).events() == old(self).events().push(event_parts(event@)),
            forall|r: Receiver<ReplicationEvent>, n: nat|
                #[trigger] final(self).listens(r, n) == old(self).listens(r, n),
    {
        send_event(&mut self.sender, event);
    }

    /// A receiver of the events announced from now on.
    pub fn subscribe(&self) -> (r: Receiver<ReplicationEvent>)
        ensures
            self.listens(r, self.events().len()),
    {
        subscribe_to(&self.sender)
    }
}

} // verus!
