//! System layer: per-frame logic that runs before any object update.
//!
//! Systems may enqueue structural and regular events but never mutate the
//! object storage or index directly; the contract on `Update` states exactly
//! that.

use vstd::prelude::*;
use crate::scene::{Common, Interface};

verus! {

/// Marker for a system type.
pub trait System {}

/// The per-frame hook of a system or of the system manager that composes
/// them: it may work with the components and queue events, but the object
/// index is not its to change.
pub trait Update<I: Interface> {
    /// Run once per frame, before the structural drain.
    fn update(&mut self, ctx: &mut Common<I>, state: &I::AppState)
        requires
            old(ctx).cm_inv(),
        ensures
            final(ctx).tree_spec() == old(ctx).tree_spec(),
            old(ctx).cm_inv() ==> final(ctx).cm_inv(),
    ;
}

/// The empty system manager: no systems at all.
impl<I: Interface> Update<I> for () {
    fn update(&mut self, _ctx: &mut Common<I>, _state: &I::AppState) {
    }
}

/// Access to one system inside a system manager.
pub trait SystemProvider<TSystem> {
    /// The held system.
    spec fn system_spec(&self) -> TSystem;

    /// Read the system.
    fn system(&self) -> (r: &TSystem)
        ensures
            *r == self.system_spec(),
    ;

    /// Work with the system.
    fn system_mut(&mut self) -> (r: &mut TSystem)
        ensures
            *r == old(self).system_spec(),
            final(self).system_spec() == *final(r),
    ;
}

/// Compile-time tag naming a system type.
pub struct SystemType<TSystem: System> {
    tag: core::marker::PhantomData<TSystem>,
}

impl<TSystem: System> SystemType<TSystem> {
    /// The tag for `TSystem`.
    pub fn new() -> (r: SystemType<TSystem>) {
        SystemType { tag: core::marker::PhantomData }
    }
}

/// Every system type can name its own tag.
pub trait SystemTypeProvider<TSystem: System> {
    /// The tag for `TSystem`.
    fn class() -> SystemType<TSystem>;
}

impl<TSystem: System> SystemTypeProvider<TSystem> for TSystem {
    fn class() -> SystemType<TSystem> {
        SystemType::<TSystem>::new()
    }
}

/// Tag-indexed access to one system inside a system manager.
pub trait SystemPart<TSystem: System> {
    /// The held system.
    spec fn part_system(&self) -> TSystem;

    /// Read the system the tag names.
    fn get(&self, tag: SystemType<TSystem>) -> (r: &TSystem)
        ensures
            *r == self.part_system(),
    ;

    /// Work with the system the tag names.
    fn get_mut(&mut self, tag: SystemType<TSystem>) -> (r: &mut TSystem)
        ensures
            *r == old(self).part_system(),
            final(self).part_system() == *final(r),
    ;
}

impl<TSystem: System, TSystemList: SystemProvider<TSystem>> SystemPart<TSystem> for TSystemList {
    open spec fn part_system(&self) -> TSystem {
        self.system_spec()
    }

    fn get(&self, _tag: SystemType<TSystem>) -> (r: &TSystem) {
        self.system()
    }

    fn get_mut(&mut self, _tag: SystemType<TSystem>) -> (r: &mut TSystem) {
        self.system_mut()
    }
}

/// Read one system out of a system list.
pub fn get_system<TSystemList: SystemProvider<TSystem>, TSystem>(systems: &TSystemList) -> (r:
    &TSystem)
    ensures
        *r == systems.system_spec(),
{
    systems.system()
}

/// Work with one system of a system list.
pub fn get_system_mut<TSystemList: SystemProvider<TSystem>, TSystem>(
    systems: &mut TSystemList,
) -> (r: &mut TSystem)
    ensures
        *r == old(systems).system_spec(),
        final(systems).system_spec() == *final(r),
{
    systems.system_mut()
}

} // verus!
