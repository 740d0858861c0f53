//! Structural events: spawn, destroy and enable requests.
//!
//! These travel on their own queue, kept apart from the regular per-object
//! event queue, so that the scene can fully apply every structural mutation
//! before any update or event dispatch iterates the object storage.

use vstd::prelude::*;
use crate::event::Builder;
use crate::object::ObjectRef;
use crate::scene::Interface;

verus! {

/// What a structural event asks for.
pub enum Type<I: Interface> {
    /// Toggle the target's enabled bit.
    EnableObject(bool),
    /// Destroy the target object.
    RemoveObject,
    /// Construct a new object from the carried factory.
    SpawnObject(I::Factory),
}

/// A structural event: the request plus whether the sender asked to be
/// notified once it is applied.
pub struct Event<I: Interface> {
    pub notify: bool,
    pub ty: Type<I>,
}

/// Addressing information for a structural request: the optional sender, the
/// optional target, and whether to notify the sender.
pub struct EventInfo {
    sender: Option<ObjectRef>,
    target: Option<ObjectRef>,
    notify: bool,
}

impl EventInfo {
    /// The recorded sender.
    pub closed spec fn sender_spec(&self) -> Option<ObjectRef> {
        self.sender
    }

    /// The recorded target.
    pub closed spec fn target_spec(&self) -> Option<ObjectRef> {
        self.target
    }

    /// Whether the sender asked to be notified.
    pub closed spec fn notify_spec(&self) -> bool {
        self.notify
    }

    /// No sender, no target, no notification.
    pub fn new() -> (r: EventInfo)
        ensures
            r.sender_spec() is None,
            r.target_spec() is None,
            !r.notify_spec(),
    {
        EventInfo { sender: None, target: None, notify: false }
    }

    /// Record the sending object.
    pub fn sender(self, sender: ObjectRef) -> (r: EventInfo)
        ensures
            r.sender_spec() == Some(sender),
            r.target_spec() == self.target_spec(),
            r.notify_spec() == self.notify_spec(),
    {
        let mut info = self;
        info.sender = Some(sender);
        info
    }

    /// Name the object the request is about.
    pub fn target(self, target: ObjectRef) -> (r: EventInfo)
        ensures
            r.target_spec() == Some(target),
            r.sender_spec() == self.sender_spec(),
            r.notify_spec() == self.notify_spec(),
    {
        let mut info = self;
        info.target = Some(target);
        info
    }

    /// Ask to be notified once the request is applied.
    pub fn notify(self) -> (r: EventInfo)
        ensures
            r.notify_spec(),
            r.sender_spec() == self.sender_spec(),
            r.target_spec() == self.target_spec(),
    {
        let mut info = self;
        info.notify = true;
        info
    }

    /// Wrap a structural request into an envelope carrying this addressing.
    pub(crate) fn into_event<I: Interface>(self, ty: Type<I>) -> (r: Builder<Event<I>>)
        ensures
            r.event_spec().sender_spec() == self.sender_spec(),
            r.event_spec().target_spec() == self.target_spec(),
            r.event_spec().data_spec().notify == self.notify_spec(),
            r.event_spec().data_spec().ty == ty,
    {
        let ev = Event { notify: self.notify, ty };
        let mut builder = Builder::new(ev);
        if let Some(sender) = self.sender {
            builder = builder.sender(sender);
        }
        if let Some(target) = self.target {
            builder = builder.target(target);
        }
        builder
    }
}

} // verus!
