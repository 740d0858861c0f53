//! Deferred object construction.
//!
//! A factory wraps a pending construction request as a value that can sit in
//! the structural event queue and be invoked later with a freshly assigned
//! handle, once the scene's drain phase has exclusive access to scene state.

use vstd::prelude::*;
use crate::event::Event;
use crate::object::{Object, ObjectRef};
use crate::scene::{Interface, State};

verus! {

/// A queued construction request: invoked by the structural drain with the
/// new object's handle, it builds the object. `can_update_object` classifies
/// the object as updatable without constructing it.
pub trait Factory<I: Interface>: Sized {
    /// Build the object under its final handle.
    fn spawn(self, ctx: &mut State<I>, state: &I::AppState, this: ObjectRef) -> (r: I::Object)
        requires
            old(ctx).cm_inv(),
        ensures
            final(ctx).tree_spec() == old(ctx).tree_spec(),
            old(ctx).cm_inv() ==> final(ctx).cm_inv(),
    ;

    /// Whether the object to be built will take part in the per-frame update.
    fn can_update_object(&self) -> bool;
}

/// An object that does nothing and never updates.
pub struct NullObject;

impl<I: Interface> Object<I> for NullObject {
    fn on_event(&mut self, _ctx: &mut State<I>, _state: &I::AppState, _event: &Event<I::Event>) {
    }

    fn on_remove(&mut self, _ctx: &mut State<I>, _state: &I::AppState) {
    }

    fn on_update(&mut self, _ctx: &mut State<I>, _state: &I::AppState) {
    }

    fn class(&self) -> &'static str {
        "null"
    }
}

impl<I: Interface> crate::object::New<I> for NullObject {
    type Arguments = ();

    fn new(_ctx: &mut State<I>, _state: &I::AppState, _this: ObjectRef, _args: ()) -> (r:
        NullObject) {
        NullObject
    }

    fn will_update(_args: &()) -> bool {
        false
    }
}

/// A factory that builds [`NullObject`]s.
pub struct NullFactory;

impl<I: Interface<Object = NullObject>> Factory<I> for NullFactory {
    fn spawn(self, _ctx: &mut State<I>, _state: &I::AppState, _this: ObjectRef) -> (r: NullObject)
    {
        NullObject
    }

    fn can_update_object(&self) -> bool {
        false
    }
}

} // verus!
