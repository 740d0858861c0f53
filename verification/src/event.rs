//! Event envelopes and the FIFO event queue.
//!
//! An event carries an optional sender, an optional target and a payload; an
//! omitted target means broadcast. The queue keeps strict arrival order: no
//! priority, no reordering, no deduplication.

use vstd::prelude::*;
use crate::object::ObjectRef;

verus! {

/// An immutable event envelope.
#[derive(Clone)]
pub struct Event<E> {
    sender: Option<ObjectRef>,
    target: Option<ObjectRef>,
    data: E,
}

impl<E> Event<E> {
    /// The object the event came from, if one was recorded.
    pub closed spec fn sender_spec(&self) -> Option<ObjectRef> {
        self.sender
    }

    /// The object the event is addressed to; `None` means broadcast.
    pub closed spec fn target_spec(&self) -> Option<ObjectRef> {
        self.target
    }

    /// The payload.
    pub closed spec fn data_spec(&self) -> E {
        self.data
    }

    /// The object the event came from, if one was recorded.
    pub fn sender(&self) -> (r: Option<ObjectRef>)
        ensures
            r == self.sender_spec(),
    {
        self.sender
    }

    /// The object the event is addressed to; `None` means broadcast.
    pub fn target(&self) -> (r: Option<ObjectRef>)
        ensures
            r == self.target_spec(),
    {
        self.target
    }

    /// Read the payload.
    pub fn data(&self) -> (r: &E)
        ensures
            *r == self.data_spec(),
    {
        &self.data
    }

    /// Take the payload out of the envelope.
    pub fn into_inner(self) -> (r: E)
        ensures
            r == self.data_spec(),
    {
        self.data
    }
}

/// Builder for an event envelope: set the optional sender and target, then
/// hand the result to a queue.
pub struct Builder<E>(Event<E>);

impl<E> Builder<E> {
    /// The envelope as built so far.
    pub closed spec fn event_spec(&self) -> Event<E> {
        self.0
    }

    /// Start an envelope around a payload, with no sender and no target.
    pub fn new(data: E) -> (r: Builder<E>)
        ensures
            r.event_spec().sender_spec() is None,
            r.event_spec().target_spec() is None,
            r.event_spec().data_spec() == data,
    {
        Builder(Event { data, sender: None, target: None })
    }

    /// Record the sending object.
    pub fn sender(self, sender: ObjectRef) -> (r: Builder<E>)
        ensures
            r.event_spec().sender_spec() == Some(sender),
            r.event_spec().target_spec() == self.event_spec().target_spec(),
            r.event_spec().data_spec() == self.event_spec().data_spec(),
    {
        let mut b = self;
        b.0.sender = Some(sender);
        b
    }

    /// Address the event to one object instead of broadcasting it.
    pub fn target(self, target: ObjectRef) -> (r: Builder<E>)
        ensures
            r.event_spec().target_spec() == Some(target),
            r.event_spec().sender_spec() == self.event_spec().sender_spec(),
            r.event_spec().data_spec() == self.event_spec().data_spec(),
    {
        let mut b = self;
        b.0.target = Some(target);
        b
    }

    /// The finished envelope.
    pub fn into_inner(self) -> (r: Event<E>)
        ensures
            r == self.event_spec(),
    {
        self.0
    }
}

/// FIFO queue of event envelopes.
pub struct EventManager<E> {
    events: Vec<Event<E>>,
}

impl<E> View for EventManager<E> {
    type V = Seq<Event<E>>;

    closed spec fn view(&self) -> Seq<Event<E>> {
        self.events@
    }
}

impl<E> EventManager<E> {
    /// An empty queue.
    pub fn new() -> (r: EventManager<E>)
        ensures
            r@ == Seq::<Event<E>>::empty(),
    {
        EventManager { events: Vec::new() }
    }

    /// Append the built envelope at the back of the queue.
    pub fn send(&mut self, event: Builder<E>)
        ensures
            final(self)@ == old(self)@.push(event.event_spec()),
    {
        self.events.push(event.into_inner());
    }

    /// Pop the oldest envelope, if the queue is not empty.
    pub fn poll(&mut self) -> (r: Option<Event<E>>)
        ensures
            match r {
                Some(ev) => old(self)@.len() > 0 && ev == old(self)@[0] && final(self)@ == old(
                    self,
                )@.remove(0),
                None => old(self)@.len() == 0 && final(self)@ == old(self)@,
            },
    {
        if self.events.len() == 0 {
            None
        } else {
            Some(self.events.remove(0))
        }
    }

    /// How many envelopes are waiting.
    pub fn len(&self) -> (n: usize)
        ensures
            n == self@.len(),
    {
        self.events.len()
    }

    /// Whether the queue is empty.
    pub fn is_empty(&self) -> (b: bool)
        ensures
            b == (self@.len() == 0),
    {
        self.events.len() == 0
    }
}

} // verus!
