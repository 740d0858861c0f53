//! Component layer: typed handles into component pools.

pub mod attachments;
pub mod interface;
pub mod basic_pool;
pub mod grouped_pool;

use vstd::prelude::*;
use crate::component::interface::ComponentPool;

verus! {

/// Opaque handle to one live component instance: a slot index plus a type tag
/// that exists for compile-time safety only. Equality is by slot index alone.
pub struct ComponentRef<T> {
    index: usize,
    tag: core::marker::PhantomData<T>,
}

impl<T> ComponentRef<T> {
    /// The slot this handle points at.
    pub closed spec fn idx(self) -> usize {
        self.index
    }

    pub fn new(index: usize) -> (r: ComponentRef<T>)
        ensures
            r.idx() == index,
    {
        ComponentRef { index, tag: core::marker::PhantomData }
    }

    /// The slot index carried by this handle.
    pub fn index(&self) -> (i: usize)
        ensures
            i == self.idx(),
    {
        self.index
    }
}

impl<T> Clone for ComponentRef<T> {
    fn clone(&self) -> (r: Self)
        ensures
            r.idx() == self.idx(),
    {
        ComponentRef { index: self.index, tag: core::marker::PhantomData }
    }
}

impl<T> Copy for ComponentRef<T> {}

impl<T> PartialEq for ComponentRef<T> {
    fn eq(&self, other: &Self) -> (r: bool) {
        self.index == other.index
    }
}

impl<T> vstd::std_specs::cmp::PartialEqSpecImpl for ComponentRef<T> {
    open spec fn obeys_eq_spec() -> bool {
        true
    }

    open spec fn eq_spec(&self, other: &Self) -> bool {
        self.idx() == other.idx()
    }
}

/// The container of all component pools: one call clears every component
/// attached to an entity, fanning out to each pool.
///
/// A slot is named here by a pool tag and a slot index, so one manager can
/// speak about several pools at once.
pub trait ComponentManager: Sized {
    /// The slots attached to the entity, across all pools.
    spec fn attached(&self, entity: crate::object::ObjectRef) -> Set<(int, usize)>;

    /// Whether a slot holds a live component.
    spec fn slot_live(&self, s: (int, usize)) -> bool;

    /// The manager's internal invariant.
    spec fn inv(&self) -> bool;

    /// Remove every component attached to the entity, in every pool: nothing
    /// stays attached to it, and every slot that was attached to it is dead.
    fn clear_components(&mut self, entity: crate::object::ObjectRef)
        requires
            old(self).inv(),
        ensures
            final(self).inv(),
            final(self).attached(entity) == Set::<(int, usize)>::empty(),
            forall|s: (int, usize)|
                old(self).attached(entity).contains(s) ==> !final(self).slot_live(s),
    ;
}

impl<T> ComponentManager for basic_pool::BasicComponentPool<T> {
    open spec fn attached(&self, entity: crate::object::ObjectRef) -> Set<(int, usize)> {
        Set::new(
            |s: (int, usize)|
                s.0 == 0 && attachments::att_refs(self.atts(), entity).contains(s.1),
        )
    }

    open spec fn slot_live(&self, s: (int, usize)) -> bool {
        s.0 == 0 && basic_pool::occupied(self.slots(), s.1 as int)
    }

    open spec fn inv(&self) -> bool {
        self.wf()
    }

    fn clear_components(&mut self, entity: crate::object::ObjectRef) {
        let ghost m0 = self.atts();
        self.clear(entity);
        proof {
            assert(ComponentManager::attached(self, entity) =~= Set::<(int, usize)>::empty())
                by {
                assert(!attachments::att_has(self.atts(), entity));
            }
            assert forall|s: (int, usize)|
                ComponentManager::attached(&*old(self), entity).contains(s) implies !self.slot_live(
                s,
            ) by {
                let k = choose|k: int|
                    0 <= k < attachments::att_refs(m0, entity).len() && attachments::att_refs(
                        m0,
                        entity,
                    )[k] == s.1;
                assert(!basic_pool::occupied(
                    self.slots(),
                    attachments::att_refs(m0, entity)[k] as int,
                ));
            }
        }
    }
}

impl<T> ComponentManager for grouped_pool::GroupComponentPool<T> {
    open spec fn attached(&self, entity: crate::object::ObjectRef) -> Set<(int, usize)> {
        Set::new(
            |s: (int, usize)|
                s.0 == 0 && attachments::att_refs(self.atts(), entity).contains(s.1),
        )
    }

    open spec fn slot_live(&self, s: (int, usize)) -> bool {
        s.0 == 0 && basic_pool::occupied(self.slots(), s.1 as int)
    }

    open spec fn inv(&self) -> bool {
        self.wf()
    }

    fn clear_components(&mut self, entity: crate::object::ObjectRef) {
        let ghost m0 = self.atts();
        self.clear(entity);
        proof {
            assert(ComponentManager::attached(self, entity) =~= Set::<(int, usize)>::empty())
                by {
                assert(!attachments::att_has(self.atts(), entity));
            }
            assert forall|s: (int, usize)|
                ComponentManager::attached(&*old(self), entity).contains(s) implies !self.slot_live(
                s,
            ) by {
                let k = choose|k: int|
                    0 <= k < attachments::att_refs(m0, entity).len() && attachments::att_refs(
                        m0,
                        entity,
                    )[k] == s.1;
                assert(!basic_pool::occupied(
                    self.slots(),
                    attachments::att_refs(m0, entity)[k] as int,
                ));
            }
        }
    }
}

/// Store a component through a manager's pool; first-fit slot reuse as the
/// pool itself promises.
pub fn add_component<M: interface::ComponentManager<T>, T: interface::Component>(
    mgr: &mut M,
    comp: T,
) -> (r: ComponentRef<T>)
    requires
        old(mgr).pool_spec().pool_inv(),
        old(mgr).pool_spec().view_slots().len() < usize::MAX,
    ensures
        final(mgr).pool_spec().pool_inv(),
        r.idx() <= old(mgr).pool_spec().view_slots().len(),
        forall|j: int| 0 <= j < r.idx() ==> old(mgr).pool_spec().view_slots()[j] is Some,
        r.idx() < old(mgr).pool_spec().view_slots().len() ==> old(
            mgr,
        ).pool_spec().view_slots()[r.idx() as int] is None && final(mgr).pool_spec().view_slots()
            == old(mgr).pool_spec().view_slots().update(r.idx() as int, Some(comp)),
        r.idx() == old(mgr).pool_spec().view_slots().len() ==> final(mgr).pool_spec().view_slots()
            == old(mgr).pool_spec().view_slots().push(Some(comp)),
        basic_pool::occupied_count(final(mgr).pool_spec().view_slots())
            == basic_pool::occupied_count(old(mgr).pool_spec().view_slots()) + 1,
        final(mgr).pool_spec().view_atts() == old(mgr).pool_spec().view_atts(),
{
    mgr.pool_mut().add(comp)
}

/// Read one component through a manager's pool.
pub fn get_component<'a, M: interface::ComponentManager<T>, T: interface::Component>(
    mgr: &'a M,
    r: ComponentRef<T>,
) -> (res: &'a T)
    requires
        mgr.pool_spec().pool_inv(),
        basic_pool::occupied(mgr.pool_spec().view_slots(), r.idx() as int),
    ensures
        *res == mgr.pool_spec().view_slots()[r.idx() as int]->0,
{
    mgr.pool().get(r)
}

/// Write one component through a manager's pool; only that slot's value
/// changes.
pub fn get_component_mut<'a, M: interface::ComponentManager<T>, T: interface::Component>(
    mgr: &'a mut M,
    r: ComponentRef<T>,
) -> (res: &'a mut T)
    requires
        old(mgr).pool_spec().pool_inv(),
        basic_pool::occupied(old(mgr).pool_spec().view_slots(), r.idx() as int),
    ensures
        *res == old(mgr).pool_spec().view_slots()[r.idx() as int]->0,
        final(mgr).pool_spec().view_slots() == old(mgr).pool_spec().view_slots().update(
            r.idx() as int,
            Some(*final(res)),
        ),
        final(mgr).pool_spec().view_atts() == old(mgr).pool_spec().view_atts(),
        final(mgr).pool_spec().pool_inv(),
{
    mgr.pool_mut().get_mut(r)
}

/// Remove one component through a manager's pool.
pub fn remove_component<M: interface::ComponentManager<T>, T: interface::Component>(
    mgr: &mut M,
    r: ComponentRef<T>,
)
    requires
        old(mgr).pool_spec().pool_inv(),
        basic_pool::occupied(old(mgr).pool_spec().view_slots(), r.idx() as int),
    ensures
        final(mgr).pool_spec().pool_inv(),
        final(mgr).pool_spec().view_slots() == basic_pool::trim_tail(
            old(mgr).pool_spec().view_slots().update(r.idx() as int, None),
        ),
        basic_pool::occupied_count(final(mgr).pool_spec().view_slots())
            == basic_pool::occupied_count(old(mgr).pool_spec().view_slots()) - 1,
        final(mgr).pool_spec().view_atts() =~= attachments::att_detach(
            old(mgr).pool_spec().view_atts(),
            r.idx(),
        ),
{
    mgr.pool_mut().remove(r)
}

/// Read the whole pool for one component type.
pub fn get_component_pool<'a, M: interface::ComponentManager<T>, T: interface::Component>(
    mgr: &'a M,
) -> (res: &'a T::Pool)
    ensures
        *res == mgr.pool_spec(),
{
    mgr.pool()
}

/// Work with the whole pool for one component type.
pub fn get_component_pool_mut<'a, M: interface::ComponentManager<T>, T: interface::Component>(
    mgr: &'a mut M,
) -> (res: &'a mut T::Pool)
    ensures
        *res == old(mgr).pool_spec(),
        final(mgr).pool_spec() == *final(res),
{
    mgr.pool_mut()
}

} // verus!
