//! Object layer: the object capability set and deferred construction.

pub mod factory;
pub mod registry;
pub mod storage;

use vstd::prelude::*;
use crate::event::Event;
use crate::scene::{Interface, State};

verus! {

/// Handle for a live object instance; also serves as the entity handle that
/// components are attached to.
pub type ObjectRef = u32;

/// Implemented by values that know their own handle.
pub trait Index {
    /// The handle of this object.
    fn index(&self) -> ObjectRef;
}

/// The object capability set: every dynamic object a scene manages reacts to
/// events, to removal and to the per-frame update, and names its class.
///
/// The hooks receive the scene state and may queue events or structural
/// requests and work with the component manager; none of them can reshape the
/// object index itself, which only the scene's structural drain may do — that
/// is what each hook's contract states.
pub trait Object<I: Interface>: Sized {
    /// React to one event envelope.
    fn on_event(&mut self, ctx: &mut State<I>, state: &I::AppState, event: &Event<I::Event>)
        requires
            old(ctx).cm_inv(),
        ensures
            final(ctx).tree_spec() == old(ctx).tree_spec(),
            old(ctx).cm_inv() ==> final(ctx).cm_inv(),
    ;

    /// Last call before the object's slot is freed; component cleanup for its
    /// handle is cascaded by the scene around this hook.
    fn on_remove(&mut self, ctx: &mut State<I>, state: &I::AppState)
        requires
            old(ctx).cm_inv(),
        ensures
            final(ctx).tree_spec() == old(ctx).tree_spec(),
            old(ctx).cm_inv() ==> final(ctx).cm_inv(),
    ;

    /// One step of the per-frame update.
    fn on_update(&mut self, ctx: &mut State<I>, state: &I::AppState)
        requires
            old(ctx).cm_inv(),
        ensures
            final(ctx).tree_spec() == old(ctx).tree_spec(),
            old(ctx).cm_inv() ==> final(ctx).cm_inv(),
    ;

    /// The class name the object is registered under.
    fn class(&self) -> &'static str;
}

/// Construction contract for one concrete object type: an arguments value, a
/// constructor invoked with a freshly assigned handle, and a predicate that
/// classifies the object as updatable before it is ever constructed.
pub trait New<I: Interface>: Object<I> {
    /// What the constructor needs.
    type Arguments;

    /// Build the object inside the scene, under its final handle.
    fn new(ctx: &mut State<I>, state: &I::AppState, this: ObjectRef, args: Self::Arguments) -> (r:
        Self)
        requires
            old(ctx).cm_inv(),
        ensures
            final(ctx).tree_spec() == old(ctx).tree_spec(),
            old(ctx).cm_inv() ==> final(ctx).cm_inv(),
    ;

    /// Whether an object built from these arguments takes part in the
    /// per-frame update; decided without running the constructor.
    fn will_update(args: &Self::Arguments) -> bool;
}

} // verus!
