//! Component interfaces: the pool contract, attachment access, and the
//! per-type pool binding.

use vstd::prelude::*;
use crate::component::ComponentRef;
use crate::component::attachments::{att_attach, att_clear, att_detach, att_has, att_refs};
use crate::component::basic_pool::{BasicComponentPool, occupied, occupied_count, trim_tail};
use crate::component::grouped_pool::GroupComponentPool;
use crate::object::ObjectRef;

verus! {

/// A component: a plain data record statically bound to exactly one pool
/// strategy.
pub trait Component: Sized {
    /// The pool type that stores instances of this component.
    type Pool: ComponentPool<Self>;
}

/// An allocation pool for one type of component: dense slot storage with
/// first-fit reuse, counted occupancy, and entity attachments.
pub trait ComponentPool<T>: Sized {
    /// The slot array.
    spec fn view_slots(&self) -> Seq<Option<T>>;

    /// The entity-attachment relation over the slots.
    spec fn view_atts(&self) -> Map<ObjectRef, Seq<usize>>;

    /// The pool's internal invariant.
    spec fn pool_inv(&self) -> bool;

    /// A fresh, empty pool.
    fn new() -> (r: Self)
        ensures
            r.pool_inv(),
            r.view_slots() == Seq::<Option<T>>::empty(),
            r.view_atts() == Map::<ObjectRef, Seq<usize>>::empty(),
    ;

    /// Store a component in the first free slot, scanning forward from slot
    /// zero, or append a slot when none is free.
    fn add(&mut self, comp: T) -> (r: ComponentRef<T>)
        requires
            old(self).pool_inv(),
            old(self).view_slots().len() < usize::MAX,
        ensures
            final(self).pool_inv(),
            r.idx() <= old(self).view_slots().len(),
            forall|j: int| 0 <= j < r.idx() ==> old(self).view_slots()[j] is Some,
            r.idx() < old(self).view_slots().len() ==> old(self).view_slots()[r.idx() as int]
                is None && final(self).view_slots() == old(self).view_slots().update(
                r.idx() as int,
                Some(comp),
            ),
            r.idx() == old(self).view_slots().len() ==> final(self).view_slots() == old(
                self,
            ).view_slots().push(Some(comp)),
            occupied_count(final(self).view_slots()) == occupied_count(old(self).view_slots()) + 1,
            final(self).view_atts() == old(self).view_atts(),
    ;

    /// Empty the slot the handle names, trim the tail of the array, and
    /// detach the slot from its entity, if it had one.
    fn remove(&mut self, r: ComponentRef<T>)
        requires
            old(self).pool_inv(),
            occupied(old(self).view_slots(), r.idx() as int),
        ensures
            final(self).pool_inv(),
            final(self).view_slots() == trim_tail(
                old(self).view_slots().update(r.idx() as int, None),
            ),
            occupied_count(final(self).view_slots()) == occupied_count(old(self).view_slots()) - 1,
            final(self).view_atts() =~= att_detach(old(self).view_atts(), r.idx()),
    ;

    /// The number of live components in the pool.
    fn len(&self) -> (n: usize)
        requires
            self.pool_inv(),
        ensures
            n == occupied_count(self.view_slots()),
    ;

    /// Read the component in an occupied slot.
    fn get(&self, r: ComponentRef<T>) -> (res: &T)
        requires
            self.pool_inv(),
            occupied(self.view_slots(), r.idx() as int),
        ensures
            *res == self.view_slots()[r.idx() as int]->0,
    ;

    /// Borrow the component in an occupied slot for writing; only that
    /// slot's value changes, and the slot stays occupied.
    fn get_mut(&mut self, r: ComponentRef<T>) -> (res: &mut T)
        requires
            old(self).pool_inv(),
            occupied(old(self).view_slots(), r.idx() as int),
        ensures
            *res == old(self).view_slots()[r.idx() as int]->0,
            final(self).view_slots() == old(self).view_slots().update(
                r.idx() as int,
                Some(*final(res)),
            ),
            final(self).view_atts() == old(self).view_atts(),
            final(self).pool_inv(),
    ;
}

/// Attachment access of a pool: relate its slots to entity handles, list or
/// clear an entity's components, and find the first one.
pub trait Attachments<T>: ComponentPool<T> {
    /// Attach an occupied slot to an entity; the last attach wins.
    fn attach(&mut self, entity: ObjectRef, r: ComponentRef<T>)
        requires
            old(self).pool_inv(),
            occupied(old(self).view_slots(), r.idx() as int),
        ensures
            final(self).pool_inv(),
            final(self).view_slots() == old(self).view_slots(),
            final(self).view_atts() =~= att_attach(old(self).view_atts(), entity, r.idx()),
    ;

    /// Every slot attached to the entity, as handles, in attachment order;
    /// `None` when nothing is attached to the entity.
    fn list(&self, entity: ObjectRef) -> (res: Option<Vec<ComponentRef<T>>>)
        requires
            self.pool_inv(),
        ensures
            match res {
                Some(v) => att_has(self.view_atts(), entity) && v@.len() == att_refs(
                    self.view_atts(),
                    entity,
                ).len() && forall|k: int|
                    0 <= k < v@.len() ==> (#[trigger] v@[k]).idx() == att_refs(
                        self.view_atts(),
                        entity,
                    )[k],
                None => !att_has(self.view_atts(), entity),
            },
    ;

    /// Remove every component attached to the entity from the pool and drop
    /// the entity from the attachment index.
    fn clear(&mut self, entity: ObjectRef)
        requires
            old(self).pool_inv(),
        ensures
            final(self).pool_inv(),
            final(self).view_atts() =~= att_clear(old(self).view_atts(), entity),
            forall|k: int|
                0 <= k < att_refs(old(self).view_atts(), entity).len() ==> !occupied(
                    final(self).view_slots(),
                    #[trigger] att_refs(old(self).view_atts(), entity)[k] as int,
                ),
            occupied_count(final(self).view_slots()) == occupied_count(old(self).view_slots())
                - att_refs(old(self).view_atts(), entity).len(),
    ;

    /// Read the first component attached to the entity, if any.
    fn get_first(&self, entity: ObjectRef) -> (res: Option<&T>)
        requires
            self.pool_inv(),
        ensures
            match res {
                Some(v) => att_refs(self.view_atts(), entity).len() > 0 && *v
                    == self.view_slots()[att_refs(self.view_atts(), entity)[0] as int]->0,
                None => att_refs(self.view_atts(), entity).len() == 0,
            },
    ;
}

impl<T> ComponentPool<T> for BasicComponentPool<T> {
    open spec fn view_slots(&self) -> Seq<Option<T>> {
        self.slots()
    }

    open spec fn view_atts(&self) -> Map<ObjectRef, Seq<usize>> {
        self.atts()
    }

    open spec fn pool_inv(&self) -> bool {
        self.wf()
    }

    fn new() -> (r: Self) {
        BasicComponentPool::new()
    }

    fn add(&mut self, comp: T) -> (r: ComponentRef<T>) {
        BasicComponentPool::add(self, comp)
    }

    fn remove(&mut self, r: ComponentRef<T>) {
        BasicComponentPool::remove(self, r)
    }

    fn len(&self) -> (n: usize) {
        BasicComponentPool::len(self)
    }

    fn get(&self, r: ComponentRef<T>) -> (res: &T) {
        BasicComponentPool::get(self, r)
    }

    fn get_mut(&mut self, r: ComponentRef<T>) -> (res: &mut T) {
        BasicComponentPool::get_mut(self, r)
    }
}

impl<T> Attachments<T> for BasicComponentPool<T> {
    fn attach(&mut self, entity: ObjectRef, r: ComponentRef<T>) {
        BasicComponentPool::attach(self, entity, r)
    }

    fn list(&self, entity: ObjectRef) -> (res: Option<Vec<ComponentRef<T>>>) {
        BasicComponentPool::list(self, entity)
    }

    fn clear(&mut self, entity: ObjectRef) {
        BasicComponentPool::clear(self, entity)
    }

    fn get_first(&self, entity: ObjectRef) -> (res: Option<&T>) {
        BasicComponentPool::get_first(self, entity)
    }
}

impl<T> ComponentPool<T> for GroupComponentPool<T> {
    open spec fn view_slots(&self) -> Seq<Option<T>> {
        self.slots()
    }

    open spec fn view_atts(&self) -> Map<ObjectRef, Seq<usize>> {
        self.atts()
    }

    open spec fn pool_inv(&self) -> bool {
        self.wf()
    }

    fn new() -> (r: Self) {
        GroupComponentPool::new()
    }

    fn add(&mut self, comp: T) -> (r: ComponentRef<T>) {
        GroupComponentPool::add(self, comp)
    }

    fn remove(&mut self, r: ComponentRef<T>) {
        GroupComponentPool::remove(self, r)
    }

    fn len(&self) -> (n: usize) {
        GroupComponentPool::len(self)
    }

    fn get(&self, r: ComponentRef<T>) -> (res: &T) {
        GroupComponentPool::get(self, r)
    }

    fn get_mut(&mut self, r: ComponentRef<T>) -> (res: &mut T) {
        GroupComponentPool::get_mut(self, r)
    }
}

impl<T> Attachments<T> for GroupComponentPool<T> {
    fn attach(&mut self, entity: ObjectRef, r: ComponentRef<T>) {
        GroupComponentPool::attach(self, entity, r)
    }

    fn list(&self, entity: ObjectRef) -> (res: Option<Vec<ComponentRef<T>>>) {
        GroupComponentPool::list(self, entity)
    }

    fn clear(&mut self, entity: ObjectRef) {
        GroupComponentPool::clear(self, entity)
    }

    fn get_first(&self, entity: ObjectRef) -> (res: Option<&T>) {
        GroupComponentPool::get_first(self, entity)
    }
}

/// Compile-time tag naming a component type.
pub struct ComponentType<T: Component> {
    tag: core::marker::PhantomData<T>,
}

impl<T: Component> ComponentType<T> {
    /// The tag for `T`.
    pub fn new() -> (r: ComponentType<T>) {
        ComponentType { tag: core::marker::PhantomData }
    }
}

/// Every component type can name its own tag.
pub trait ComponentTypeProvider<T: Component> {
    /// The tag for `T`.
    fn class() -> ComponentType<T>;
}

impl<T: Component> ComponentTypeProvider<T> for T {
    fn class() -> ComponentType<T> {
        ComponentType::<T>::new()
    }
}

/// Access to the pool for one component type inside a component manager.
pub trait ComponentManager<T: Component> {
    /// The pool.
    spec fn pool_spec(&self) -> T::Pool;

    /// Read the pool.
    fn pool(&self) -> (r: &T::Pool)
        ensures
            *r == self.pool_spec(),
    ;

    /// Work with the pool.
    fn pool_mut(&mut self) -> (r: &mut T::Pool)
        ensures
            *r == old(self).pool_spec(),
            final(self).pool_spec() == *final(r),
    ;
}

} // verus!
