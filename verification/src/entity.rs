//! Entity view: sugar over a component manager for one entity handle.

use vstd::prelude::*;
use crate::component::ComponentRef;
use crate::component::attachments::{att_attach, att_has, att_refs};
use crate::component::basic_pool::{occupied, occupied_count};
use crate::component::interface::{Attachments, Component, ComponentManager, ComponentPool};
use crate::object::ObjectRef;

verus! {

/// A component manager paired with one entity handle, so that repeated
/// operations on that entity need not repeat the handle.
pub struct Entity<'a, CM> {
    mgr: &'a mut CM,
    entity: ObjectRef,
}

impl<'a, CM> Entity<'a, CM> {
    /// The entity this view works on.
    pub closed spec fn entity_spec(&self) -> ObjectRef {
        self.entity
    }

    /// The manager as it stands now.
    pub closed spec fn mgr_spec(&self) -> CM {
        *self.mgr
    }

    /// View an entity of the managed scene.
    pub fn new(mgr: &'a mut CM, entity: ObjectRef) -> (r: Entity<'a, CM>)
        ensures
            r.entity_spec() == entity,
            r.mgr_spec() == *old(mgr),
    {
        Entity { mgr, entity }
    }

    /// View another entity of the same manager, for the lifetime of the
    /// borrow.
    pub fn aquire(&mut self, other: ObjectRef) -> (r: Entity<CM>)
        ensures
            r.entity_spec() == other,
            r.mgr_spec() == old(self).mgr_spec(),
    {
        Entity { mgr: self.mgr, entity: other }
    }
}

/// Component operations on one entity: what the pools and the attachment
/// index offer, with the entity handle filled in.
pub trait EntityPart<T: Component, CM: ComponentManager<T>> where T::Pool: Attachments<T> {
    /// The entity this view works on.
    spec fn part_entity(&self) -> ObjectRef;

    /// The manager as it stands now.
    spec fn part_mgr(&self) -> CM;

    /// Store a component and attach it to this entity in one step.
    fn add(&mut self, comp: T) -> (r: ComponentRef<T>)
        requires
            old(self).part_mgr().pool_spec().pool_inv(),
            old(self).part_mgr().pool_spec().view_slots().len() < usize::MAX,
        ensures
            final(self).part_entity() == old(self).part_entity(),
            final(self).part_mgr().pool_spec().pool_inv(),
            occupied(final(self).part_mgr().pool_spec().view_slots(), r.idx() as int),
            occupied_count(final(self).part_mgr().pool_spec().view_slots()) == occupied_count(
                old(self).part_mgr().pool_spec().view_slots(),
            ) + 1,
            final(self).part_mgr().pool_spec().view_atts() =~= att_attach(
                old(self).part_mgr().pool_spec().view_atts(),
                old(self).part_entity(),
                r.idx(),
            ),
    ;

    /// Read one of this entity's components.
    fn get(&self, r: ComponentRef<T>) -> (res: &T)
        requires
            self.part_mgr().pool_spec().pool_inv(),
            occupied(self.part_mgr().pool_spec().view_slots(), r.idx() as int),
        ensures
            *res == self.part_mgr().pool_spec().view_slots()[r.idx() as int]->0,
    ;

    /// Remove one of this entity's components from its pool.
    fn remove(&mut self, r: ComponentRef<T>)
        requires
            old(self).part_mgr().pool_spec().pool_inv(),
            occupied(old(self).part_mgr().pool_spec().view_slots(), r.idx() as int),
        ensures
            final(self).part_entity() == old(self).part_entity(),
            final(self).part_mgr().pool_spec().pool_inv(),
            !occupied(final(self).part_mgr().pool_spec().view_slots(), r.idx() as int),
            occupied_count(final(self).part_mgr().pool_spec().view_slots()) == occupied_count(
                old(self).part_mgr().pool_spec().view_slots(),
            ) - 1,
    ;

    /// Every component attached to this entity, in attachment order.
    fn list(&self) -> (res: Option<Vec<ComponentRef<T>>>)
        requires
            self.part_mgr().pool_spec().pool_inv(),
        ensures
            match res {
                Some(v) => att_has(
                    self.part_mgr().pool_spec().view_atts(),
                    self.part_entity(),
                ) && v@.len() == att_refs(
                    self.part_mgr().pool_spec().view_atts(),
                    self.part_entity(),
                ).len() && forall|k: int|
                    0 <= k < v@.len() ==> (#[trigger] v@[k]).idx() == att_refs(
                        self.part_mgr().pool_spec().view_atts(),
                        self.part_entity(),
                    )[k],
                None => !att_has(self.part_mgr().pool_spec().view_atts(), self.part_entity()),
            },
    ;

    /// The first component attached to this entity, if any.
    fn get_first(&self) -> (res: Option<&T>)
        requires
            self.part_mgr().pool_spec().pool_inv(),
        ensures
            match res {
                Some(v) => att_refs(
                    self.part_mgr().pool_spec().view_atts(),
                    self.part_entity(),
                ).len() > 0 && *v == self.part_mgr().pool_spec().view_slots()[att_refs(
                    self.part_mgr().pool_spec().view_atts(),
                    self.part_entity(),
                )[0] as int]->0,
                None => att_refs(
                    self.part_mgr().pool_spec().view_atts(),
                    self.part_entity(),
                ).len() == 0,
            },
    ;
}

impl<'a, T: Component, CM: ComponentManager<T>> EntityPart<T, CM> for Entity<'a, CM> where
    T::Pool: Attachments<T>,
 {
    open spec fn part_entity(&self) -> ObjectRef {
        self.entity_spec()
    }

    open spec fn part_mgr(&self) -> CM {
        self.mgr_spec()
    }

    fn add(&mut self, comp: T) -> (r: ComponentRef<T>) {
        let r = self.mgr.pool_mut().add(comp);
        self.mgr.pool_mut().attach(self.entity, r);
        r
    }

    fn get(&self, r: ComponentRef<T>) -> (res: &T) {
        self.mgr.pool().get(r)
    }

    fn remove(&mut self, r: ComponentRef<T>) {
        proof {
            crate::component::basic_pool::lemma_trim_tail_is_prefix(
                old(self).part_mgr().pool_spec().view_slots().update(r.idx() as int, None),
            );
        }
        self.mgr.pool_mut().remove(r);
    }

    fn list(&self) -> (res: Option<Vec<ComponentRef<T>>>) {
        self.mgr.pool().list(self.entity)
    }

    fn get_first(&self) -> (res: Option<&T>) {
        self.mgr.pool().get_first(self.entity)
    }
}

} // verus!
