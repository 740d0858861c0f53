//! The scene: owner of the object instances, the event queues and the
//! per-frame update protocol.
//!
//! One `update` call runs four phases in strict order: the system manager,
//! the structural-event drain, the object update pass, and the regular event
//! drain. Structural mutation happens only in the drain, so no phase ever
//! iterates a collection while changing its membership.

pub mod event;

use vstd::prelude::*;
use crate::component::ComponentManager;
use crate::event::{Builder, Event, EventManager};
use crate::object::{Object, ObjectRef};
use crate::object::factory::Factory;
use crate::object::storage::{ObjectStorage, ObjectTree};
use crate::scene::event::{EventInfo, Type};
use crate::system::Update;

verus! {

/// The types one scene is built from: its event payload, the application
/// state handed through every call, the component manager, the system
/// manager, the concrete object type and its factory.
pub trait Interface: Sized {
    /// Payload type of regular events.
    type Event;

    /// Read-only application state threaded through every hook.
    type AppState;

    /// The container of all component pools.
    type ComponentManager: ComponentManager;

    /// Runs the systems once per frame, in fixed composition order; expected
    /// to implement [`Update`].
    type SystemManager;

    /// The concrete object type the scene stores; expected to implement
    /// [`Object`].
    type Object;

    /// The deferred construction request for `Object`; expected to implement
    /// [`Factory`].
    type Factory;
}

/// The state every system and object can reach: the component manager, the
/// two event queues and the object index.
pub struct Common<I: Interface> {
    component_manager: I::ComponentManager,
    event_manager: EventManager<I::Event>,
    system_event_manager: EventManager<event::Event<I>>,
    tree: ObjectTree,
}

impl<I: Interface> Common<I> {
    /// The object index.
    pub closed spec fn tree_spec(&self) -> ObjectTree {
        self.tree
    }

    /// The component manager.
    pub closed spec fn cm_spec(&self) -> I::ComponentManager {
        self.component_manager
    }

    /// The component manager's own invariant holds.
    pub open spec fn cm_inv(&self) -> bool {
        self.cm_spec().inv()
    }

    /// The regular event queue.
    pub closed spec fn events_spec(&self) -> Seq<Event<I::Event>> {
        self.event_manager@
    }

    /// The structural event queue.
    pub closed spec fn sys_events_spec(&self) -> Seq<Event<event::Event<I>>> {
        self.system_event_manager@
    }

    /// Read the component manager.
    pub fn components(&self) -> (r: &I::ComponentManager)
        ensures
            *r == self.cm_spec(),
    {
        &self.component_manager
    }

    /// Work with the component manager; the object index and both queues are
    /// untouched.
    pub fn components_mut(&mut self) -> (r: &mut I::ComponentManager)
        ensures
            *r == old(self).cm_spec(),
            final(self).cm_spec() == *final(r),
            final(self).tree_spec() == old(self).tree_spec(),
            final(self).events_spec() == old(self).events_spec(),
            final(self).sys_events_spec() == old(self).sys_events_spec(),
    {
        &mut self.component_manager
    }

    /// Work with the regular event queue; the component manager, the object
    /// index and the structural queue are untouched.
    pub fn event_manager(&mut self) -> (r: &mut EventManager<I::Event>)
        ensures
            *r == old(self).events_queue_at_call(),
            final(self).events_spec() == final(r)@,
            final(self).cm_spec() == old(self).cm_spec(),
            final(self).tree_spec() == old(self).tree_spec(),
            final(self).sys_events_spec() == old(self).sys_events_spec(),
    {
        &mut self.event_manager
    }

    /// The regular event queue as a value (for relating a borrow to it).
    pub closed spec fn events_queue_at_call(&self) -> EventManager<I::Event> {
        self.event_manager
    }

    /// Read the object index.
    pub fn objects(&self) -> (r: &ObjectTree)
        ensures
            *r == self.tree_spec(),
    {
        &self.tree
    }

    /// Queue a request to toggle an object's enabled bit; it is applied in
    /// the next structural drain.
    pub fn enable_object(&mut self, info: EventInfo, enable: bool)
        ensures
            final(self).sys_events_spec().len() == old(self).sys_events_spec().len() + 1,
            final(self).sys_events_spec().drop_last() == old(self).sys_events_spec(),
            final(self).sys_events_spec().last().sender_spec() == info.sender_spec(),
            final(self).sys_events_spec().last().target_spec() == info.target_spec(),
            final(self).sys_events_spec().last().data_spec().notify == info.notify_spec(),
            final(self).sys_events_spec().last().data_spec().ty == Type::<I>::EnableObject(enable),
            final(self).cm_spec() == old(self).cm_spec(),
            final(self).tree_spec() == old(self).tree_spec(),
            final(self).events_spec() == old(self).events_spec(),
    {
        let ty = Type::EnableObject(enable);
        self.system_event_manager.send(info.into_event(ty));
        proof {
            assert(final(self).sys_events_spec().drop_last() =~= old(self).sys_events_spec());
        }
    }

    /// Queue a request to destroy an object; it is applied in the next
    /// structural drain.
    pub fn remove_object(&mut self, info: EventInfo)
        ensures
            final(self).sys_events_spec().len() == old(self).sys_events_spec().len() + 1,
            final(self).sys_events_spec().drop_last() == old(self).sys_events_spec(),
            final(self).sys_events_spec().last().sender_spec() == info.sender_spec(),
            final(self).sys_events_spec().last().target_spec() == info.target_spec(),
            final(self).sys_events_spec().last().data_spec().notify == info.notify_spec(),
            final(self).sys_events_spec().last().data_spec().ty == Type::<I>::RemoveObject,
            final(self).cm_spec() == old(self).cm_spec(),
            final(self).tree_spec() == old(self).tree_spec(),
            final(self).events_spec() == old(self).events_spec(),
    {
        let ty = Type::RemoveObject;
        self.system_event_manager.send(info.into_event(ty));
        proof {
            assert(final(self).sys_events_spec().drop_last() =~= old(self).sys_events_spec());
        }
    }

    /// Queue a construction request; the factory is invoked in the next
    /// structural drain, with a freshly assigned handle.
    pub fn spawn_object(&mut self, info: EventInfo, factory: I::Factory)
        ensures
            final(self).sys_events_spec().len() == old(self).sys_events_spec().len() + 1,
            final(self).sys_events_spec().drop_last() == old(self).sys_events_spec(),
            final(self).sys_events_spec().last().sender_spec() == info.sender_spec(),
            final(self).sys_events_spec().last().target_spec() == info.target_spec(),
            final(self).sys_events_spec().last().data_spec().notify == info.notify_spec(),
            final(self).sys_events_spec().last().data_spec().ty == Type::<I>::SpawnObject(factory),
            final(self).cm_spec() == old(self).cm_spec(),
            final(self).tree_spec() == old(self).tree_spec(),
            final(self).events_spec() == old(self).events_spec(),
    {
        let ty = Type::SpawnObject(factory);
        self.system_event_manager.send(info.into_event(ty));
        proof {
            assert(final(self).sys_events_spec().drop_last() =~= old(self).sys_events_spec());
        }
    }
}

/// The full scene state as objects see it: the common state plus the system
/// manager.
pub struct State<I: Interface> {
    common: Common<I>,
    systems: I::SystemManager,
}

impl<I: Interface> State<I> {
    /// The object index.
    pub closed spec fn tree_spec(&self) -> ObjectTree {
        self.common.tree_spec()
    }

    /// The component manager.
    pub closed spec fn cm_spec(&self) -> I::ComponentManager {
        self.common.cm_spec()
    }

    /// The component manager's own invariant holds.
    pub open spec fn cm_inv(&self) -> bool {
        self.cm_spec().inv()
    }

    /// The regular event queue.
    pub closed spec fn events_spec(&self) -> Seq<Event<I::Event>> {
        self.common.events_spec()
    }

    /// The structural event queue.
    pub closed spec fn sys_events_spec(&self) -> Seq<Event<event::Event<I>>> {
        self.common.sys_events_spec()
    }

    /// The system manager.
    pub closed spec fn systems_spec(&self) -> I::SystemManager {
        self.systems
    }

    /// Read the component manager.
    pub fn components(&self) -> (r: &I::ComponentManager)
        ensures
            *r == self.cm_spec(),
    {
        self.common.components()
    }

    /// Work with the component manager; the object index and both queues are
    /// untouched.
    pub fn components_mut(&mut self) -> (r: &mut I::ComponentManager)
        ensures
            *r == old(self).cm_spec(),
            final(self).cm_spec() == *final(r),
            final(self).tree_spec() == old(self).tree_spec(),
            final(self).events_spec() == old(self).events_spec(),
            final(self).sys_events_spec() == old(self).sys_events_spec(),
            final(self).systems_spec() == old(self).systems_spec(),
    {
        self.common.components_mut()
    }

    /// Read the object index.
    pub fn objects(&self) -> (r: &ObjectTree)
        ensures
            *r == self.tree_spec(),
    {
        self.common.objects()
    }

    /// Read the system manager.
    pub fn systems(&self) -> (r: &I::SystemManager)
        ensures
            *r == self.systems_spec(),
    {
        &self.systems
    }

    /// Work with the system manager; everything else is untouched.
    pub fn systems_mut(&mut self) -> (r: &mut I::SystemManager)
        ensures
            *r == old(self).systems_spec(),
            final(self).systems_spec() == *final(r),
            final(self).cm_spec() == old(self).cm_spec(),
            final(self).tree_spec() == old(self).tree_spec(),
            final(self).events_spec() == old(self).events_spec(),
            final(self).sys_events_spec() == old(self).sys_events_spec(),
    {
        &mut self.systems
    }

    /// Queue a regular event; it is dispatched in this or the next frame's
    /// event drain.
    pub fn send_event(&mut self, event: Builder<I::Event>)
        ensures
            final(self).events_spec() == old(self).events_spec().push(event.event_spec()),
            final(self).cm_spec() == old(self).cm_spec(),
            final(self).tree_spec() == old(self).tree_spec(),
            final(self).sys_events_spec() == old(self).sys_events_spec(),
            final(self).systems_spec() == old(self).systems_spec(),
    {
        self.common.event_manager.send(event);
    }

    /// Queue a request to toggle an object's enabled bit.
    pub fn enable_object(&mut self, info: EventInfo, enable: bool)
        ensures
            final(self).sys_events_spec().len() == old(self).sys_events_spec().len() + 1,
            final(self).sys_events_spec().drop_last() == old(self).sys_events_spec(),
            final(self).sys_events_spec().last().sender_spec() == info.sender_spec(),
            final(self).sys_events_spec().last().target_spec() == info.target_spec(),
            final(self).sys_events_spec().last().data_spec().notify == info.notify_spec(),
            final(self).sys_events_spec().last().data_spec().ty == Type::<I>::EnableObject(enable),
            final(self).tree_spec() == old(self).tree_spec(),
            final(self).cm_spec() == old(self).cm_spec(),
            final(self).events_spec() == old(self).events_spec(),
            final(self).systems_spec() == old(self).systems_spec(),
    {
        self.common.enable_object(info, enable);
    }

    /// Queue a request to destroy an object.
    pub fn remove_object(&mut self, info: EventInfo)
        ensures
            final(self).sys_events_spec().len() == old(self).sys_events_spec().len() + 1,
            final(self).sys_events_spec().drop_last() == old(self).sys_events_spec(),
            final(self).sys_events_spec().last().sender_spec() == info.sender_spec(),
            final(self).sys_events_spec().last().target_spec() == info.target_spec(),
            final(self).sys_events_spec().last().data_spec().notify == info.notify_spec(),
            final(self).sys_events_spec().last().data_spec().ty == Type::<I>::RemoveObject,
            final(self).tree_spec() == old(self).tree_spec(),
            final(self).cm_spec() == old(self).cm_spec(),
            final(self).events_spec() == old(self).events_spec(),
            final(self).systems_spec() == old(self).systems_spec(),
    {
        self.common.remove_object(info);
    }

    /// Queue a construction request.
    pub fn spawn_object(&mut self, info: EventInfo, factory: I::Factory)
        ensures
            final(self).sys_events_spec().len() == old(self).sys_events_spec().len() + 1,
            final(self).sys_events_spec().drop_last() == old(self).sys_events_spec(),
            final(self).sys_events_spec().last().sender_spec() == info.sender_spec(),
            final(self).sys_events_spec().last().target_spec() == info.target_spec(),
            final(self).sys_events_spec().last().data_spec().notify == info.notify_spec(),
            final(self).sys_events_spec().last().data_spec().ty == Type::<I>::SpawnObject(factory),
            final(self).tree_spec() == old(self).tree_spec(),
            final(self).cm_spec() == old(self).cm_spec(),
            final(self).events_spec() == old(self).events_spec(),
            final(self).systems_spec() == old(self).systems_spec(),
    {
        self.common.spawn_object(info, factory);
    }
}

/// A scene: the state every hook can reach, the object storage, and the
/// working set of handles that receive the per-frame update.
pub struct Scene<I: Interface> {
    state: State<I>,
    objects: ObjectStorage<I::Object>,
    updatable: Vec<ObjectRef>,
    init_updatable: Vec<ObjectRef>,
}

impl<I: Interface> Scene<I> {
    /// The object index.
    pub closed spec fn tree_spec(&self) -> ObjectTree {
        self.state.tree_spec()
    }

    /// The object storage's slots.
    pub closed spec fn slots_spec(&self) -> Seq<Option<I::Object>> {
        self.objects.slots()
    }

    /// The component manager.
    pub closed spec fn cm_spec(&self) -> I::ComponentManager {
        self.state.cm_spec()
    }

    /// The handles that receive `on_update` each frame.
    pub closed spec fn updatable_spec(&self) -> Seq<ObjectRef> {
        self.updatable@
    }

    /// The handles that were classified updatable when constructed; disabling
    /// and re-enabling restores updatability from this record.
    pub closed spec fn ever_updatable_spec(&self) -> Seq<ObjectRef> {
        self.init_updatable@
    }

    /// The index mirrors the storage (a handle exists exactly when its slot
    /// is occupied), the update sets name live objects only, and every
    /// updatable object was constructed updatable.
    pub closed spec fn wf(&self) -> bool {
        &&& self.state.common.tree.wf()
        &&& self.state.common.component_manager.inv()
        &&& self.objects.slots().len() <= u32::MAX
        &&& forall|r: ObjectRef|
            self.state.common.tree.live_seq().contains(r) <==> crate::component::basic_pool::occupied(
                self.objects.slots(),
                r as int,
            )
        &&& forall|j: int|
            0 <= j < self.objects.slots().len() && self.objects.slots()[j] is Some
                ==> self.state.common.tree.live_seq().contains(j as ObjectRef)
        &&& self.updatable@.no_duplicates()
        &&& self.init_updatable@.no_duplicates()
        &&& forall|k: int|
            0 <= k < self.updatable@.len() ==> self.init_updatable@.contains(
                #[trigger] self.updatable@[k],
            )
        &&& forall|k: int|
            0 <= k < self.init_updatable@.len() ==> self.state.common.tree.live_seq().contains(
                #[trigger] self.init_updatable@[k],
            )
    }

    /// The scene state as a value (for relating a borrow to it).
    pub closed spec fn state_at_call(&self) -> State<I> {
        self.state
    }
}

/// What applying one enable request to the scene changes: nothing at all for
/// a handle that names no live object; otherwise the target's enabled bit
/// becomes the flag, no other object's bit moves, existence and classes are
/// untouched, disabling removes the target from the updatable working set,
/// and enabling restores updatability exactly when the object was classified
/// updatable at construction.
pub open spec fn enable_applied<I: Interface>(
    pre: Scene<I>,
    post: Scene<I>,
    target: ObjectRef,
    flag: bool,
) -> bool {
    &&& post.slots_spec() == pre.slots_spec()
    &&& post.cm_spec() == pre.cm_spec()
    &&& post.state_at_call().events_spec() == pre.state_at_call().events_spec()
    &&& post.state_at_call().sys_events_spec() == pre.state_at_call().sys_events_spec()
    &&& post.state_at_call().systems_spec() == pre.state_at_call().systems_spec()
    &&& post.tree_spec().live_seq() == pre.tree_spec().live_seq()
    &&& post.tree_spec().classes() == pre.tree_spec().classes()
    &&& post.ever_updatable_spec() == pre.ever_updatable_spec()
    &&& !pre.tree_spec().live_seq().contains(target) ==> post == pre
    &&& pre.tree_spec().live_seq().contains(target) ==> {
        &&& post.tree_spec().enabled_seq().contains(target) == flag
        &&& forall|r: ObjectRef|
            r != target ==> post.tree_spec().enabled_seq().contains(r) == pre.tree_spec(
            ).enabled_seq().contains(r)
        &&& (!flag ==> post.updatable_spec() == pre.updatable_spec().remove_value(target))
        &&& (flag ==> post.updatable_spec() == (if pre.ever_updatable_spec().contains(target)
            && !pre.updatable_spec().contains(target) {
            pre.updatable_spec().push(target)
        } else {
            pre.updatable_spec()
        }))
    }
}

/// What applying one destroy request to the scene changes: nothing at all for
/// a handle that names no live object; otherwise the handle stops existing,
/// its slot is freed (no other slot's occupancy moves), it leaves the enabled
/// set and both update sets, and no component is attached to it any more.
pub open spec fn destroy_applied<I: Interface>(
    pre: Scene<I>,
    post: Scene<I>,
    target: ObjectRef,
) -> bool {
    &&& !pre.tree_spec().live_seq().contains(target) ==> post == pre
    &&& pre.tree_spec().live_seq().contains(target) ==> {
        &&& post.tree_spec().live_seq() == pre.tree_spec().live_seq().remove_value(target)
        &&& !post.tree_spec().live_seq().contains(target)
        &&& !crate::component::basic_pool::occupied(post.slots_spec(), target as int)
        &&& post.slots_spec().len() == pre.slots_spec().len()
        &&& forall|j: int|
            0 <= j < post.slots_spec().len() && j != target
                ==> crate::component::basic_pool::occupied(post.slots_spec(), j)
                == crate::component::basic_pool::occupied(pre.slots_spec(), j)
        &&& post.tree_spec().enabled_seq() == pre.tree_spec().enabled_seq().remove_value(target)
        &&& post.updatable_spec() == pre.updatable_spec().remove_value(target)
        &&& post.ever_updatable_spec() == pre.ever_updatable_spec().remove_value(target)
        &&& post.cm_spec().attached(target) == Set::<(int, usize)>::empty()
    }
}

/// What applying one construction request changes: the new handle was not
/// live and now is, its slot is occupied (no other slot's occupancy moves),
/// it is registered under its object's class, it is not enabled, and it joins
/// both update sets exactly when the factory classified it updatable.
pub open spec fn spawn_applied<I: Interface>(
    pre: Scene<I>,
    post: Scene<I>,
    n: ObjectRef,
    updatable: bool,
) -> bool {
    &&& !pre.tree_spec().live_seq().contains(n)
    &&& post.tree_spec().live_seq() == pre.tree_spec().live_seq().push(n)
    &&& crate::component::basic_pool::occupied(post.slots_spec(), n as int)
    &&& post.tree_spec().enabled_seq() == pre.tree_spec().enabled_seq()
    &&& post.updatable_spec() == (if updatable {
        pre.updatable_spec().push(n)
    } else {
        pre.updatable_spec()
    })
    &&& post.ever_updatable_spec() == (if updatable {
        pre.ever_updatable_spec().push(n)
    } else {
        pre.ever_updatable_spec()
    })
    &&& forall|j: int|
        0 <= j < pre.slots_spec().len() && j != n ==> crate::component::basic_pool::occupied(
            post.slots_spec(),
            j,
        ) == crate::component::basic_pool::occupied(pre.slots_spec(), j)
    &&& exists|cls: Seq<char>|
        post.tree_spec().classes() == pre.tree_spec().classes().insert(
            cls,
            crate::object::storage::class_refs(pre.tree_spec().classes(), cls).push(n),
        )
}

/// A construction request either spawned an object classified by the given
/// updatable bit, or was dropped with the scene unchanged (only possible when
/// the storage cannot name another slot).
pub open spec fn spawn_outcome<I: Interface>(
    pre: Scene<I>,
    post: Scene<I>,
    updatable: bool,
) -> bool {
    post == pre || exists|n: ObjectRef| spawn_applied(pre, post, n, updatable)
}

impl<I: Interface> Scene<I> where
    I::SystemManager: Update<I>,
    I::Object: Object<I>,
    I::Factory: Factory<I>,
 {
    /// A scene over the given component and system managers, with no objects
    /// and empty queues.
    pub fn new(component_manager: I::ComponentManager, systems: I::SystemManager) -> (r: Scene<I>)
        requires
            component_manager.inv(),
        ensures
            r.wf(),
            r.cm_spec() == component_manager,
            r.state_at_call().systems_spec() == systems,
            r.slots_spec() == Seq::<Option<I::Object>>::empty(),
            r.tree_spec().live_seq() == Seq::<ObjectRef>::empty(),
            r.tree_spec().enabled_seq() == Seq::<ObjectRef>::empty(),
            r.updatable_spec() == Seq::<ObjectRef>::empty(),
            r.ever_updatable_spec() == Seq::<ObjectRef>::empty(),
            r.state_at_call().events_spec() == Seq::<Event<I::Event>>::empty(),
            r.state_at_call().sys_events_spec() == Seq::<Event<event::Event<I>>>::empty(),
    {
        let (objects, tree) = ObjectStorage::new();
        Scene {
            state: State {
                common: Common {
                    component_manager,
                    event_manager: EventManager::new(),
                    system_event_manager: EventManager::new(),
                    tree,
                },
                systems,
            },
            objects,
            updatable: Vec::new(),
            init_updatable: Vec::new(),
        }
    }

    /// Queue a construction request from outside the frame loop; the factory
    /// runs during the next update's structural drain.
    pub fn spawn_object(&mut self, factory: I::Factory)
        requires
            old(self).wf(),
        ensures
            final(self).wf(),
            final(self).state_at_call().sys_events_spec().len() == old(
                self,
            ).state_at_call().sys_events_spec().len() + 1,
            final(self).state_at_call().sys_events_spec().drop_last() == old(
                self,
            ).state_at_call().sys_events_spec(),
            final(self).state_at_call().sys_events_spec().last().sender_spec() is None,
            final(self).state_at_call().sys_events_spec().last().target_spec() is None,
            !final(self).state_at_call().sys_events_spec().last().data_spec().notify,
            final(self).state_at_call().sys_events_spec().last().data_spec().ty
                == Type::<I>::SpawnObject(factory),
            final(self).tree_spec() == old(self).tree_spec(),
            final(self).slots_spec() == old(self).slots_spec(),
            final(self).updatable_spec() == old(self).updatable_spec(),
            final(self).ever_updatable_spec() == old(self).ever_updatable_spec(),
    {
        self.state.common.spawn_object(EventInfo::new(), factory);
    }

    /// Take the component manager back out of the scene.
    pub fn consume(self) -> (r: I::ComponentManager)
        ensures
            r == self.cm_spec(),
    {
        self.state.common.component_manager
    }

    /// Read the scene state.
    pub fn state(&self) -> (r: &State<I>)
        ensures
            *r == self.state_at_call(),
    {
        &self.state
    }

    /// Work with the scene state between frames.
    pub fn state_mut(&mut self) -> (r: &mut State<I>)
        ensures
            *r == old(self).state_at_call(),
            final(self).state_at_call() == *final(r),
            final(self).slots_spec() == old(self).slots_spec(),
            final(self).updatable_spec() == old(self).updatable_spec(),
            final(self).ever_updatable_spec() == old(self).ever_updatable_spec(),
    {
        &mut self.state
    }

    /// Apply one enable request: toggle the enabled bit of a live object; on
    /// disabling, take it out of the updatable working set; on enabling,
    /// restore updatability exactly when the object was constructed
    /// updatable. A handle that names no live object is ignored. Existence is
    /// untouched either way.
    fn apply_enable(&mut self, target: ObjectRef, flag: bool)
        requires
            old(self).wf(),
        ensures
            final(self).wf(),
            enable_applied(*old(self), *final(self), target, flag),
    {
        if !self.state.common.tree.contains(target) {
            return ;
        }
        proof {
            old(self).state.common.tree.lemma_wf_parts();
        }
        self.state.common.tree.set_enabled(target, flag);
        proof {
            crate::kv::lemma_remove_value_props(old(self).tree_spec().enabled_seq(), target);
            assert forall|r: ObjectRef| r != target implies
                self.state.common.tree.enabled_seq().contains(r) == old(
                self,
            ).tree_spec().enabled_seq().contains(r) by {
                if flag && !old(self).tree_spec().enabled_seq().contains(target) {
                    if old(self).tree_spec().enabled_seq().contains(r) {
                        let l = choose|l: int|
                            0 <= l < old(self).tree_spec().enabled_seq().len() && old(
                                self,
                            ).tree_spec().enabled_seq()[l] == r;
                        assert(self.state.common.tree.enabled_seq()[l] == r);
                    }
                    if self.state.common.tree.enabled_seq().contains(r) {
                        let l = choose|l: int|
                            0 <= l < self.state.common.tree.enabled_seq().len()
                            && self.state.common.tree.enabled_seq()[l] == r;
                        assert(l < self.state.common.tree.enabled_seq().len() - 1);
                        assert(old(self).tree_spec().enabled_seq()[l] == r);
                    }
                } else if !flag {
                    crate::kv::lemma_remove_value_keeps(
                        old(self).tree_spec().enabled_seq(),
                        target,
                        r,
                    );
                }
            }
        }
        if !flag {
            match find_updatable(&self.updatable, target) {
                Some(i) => {
                    proof {
                        self.updatable@.index_of_first_ensures(target);
                        self.updatable@.remove_ensures(i as int);
                        crate::kv::lemma_remove_value_props(self.updatable@, target);
                    }
                    self.updatable.remove(i);
                    proof {
                        assert forall|k: int|
                            0 <= k < self.updatable@.len() implies self.init_updatable@.contains(
                            #[trigger] self.updatable@[k],
                        ) by {
                            let k0 = if k < i { k } else { k + 1 };
                            assert(self.updatable@[k] == old(self).updatable@[k0]);
                        }
                    }
                },
                None => {
                    proof {
                        self.updatable@.index_of_first_ensures(target);
                    }
                },
            }
        } else {
            if find_updatable(&self.init_updatable, target).is_some()
                && find_updatable(&self.updatable, target).is_none() {
                let ghost u0 = self.updatable@;
                self.updatable.push(target);
                proof {
                    assert(self.updatable@[self.updatable@.len() - 1] == target);
                    assert(self.updatable@.contains(target));
                    assert forall|a: int, b: int|
                        0 <= a < self.updatable@.len() && 0 <= b < self.updatable@.len() && a != b
                        implies self.updatable@[a] != self.updatable@[b] by {
                        if a == self.updatable@.len() - 1 {
                            assert(self.updatable@[b] == u0[b]);
                            if self.updatable@[a] == self.updatable@[b] {
                                assert(u0.contains(target));
                            }
                        } else if b == self.updatable@.len() - 1 {
                            assert(self.updatable@[a] == u0[a]);
                            if self.updatable@[a] == self.updatable@[b] {
                                assert(u0.contains(target));
                            }
                        }
                    }
                    assert forall|k: int|
                        0 <= k < self.updatable@.len() implies self.init_updatable@.contains(
                        #[trigger] self.updatable@[k],
                    ) by {
                        if k < self.updatable@.len() - 1 {
                            assert(self.updatable@[k] == u0[k]);
                        }
                    }
                }
            }
        }
    }
}

impl<I: Interface> Scene<I> where
    I::SystemManager: Update<I>,
    I::Object: Object<I>,
    I::Factory: Factory<I>,
 {
    /// Apply one destroy request to a live object: run its remove hook,
    /// cascade-clear every component attached to its handle, unregister it
    /// from the index and the update sets, and free its slot. A handle that
    /// names no live object is ignored.
    fn apply_destroy(&mut self, state: &I::AppState, target: ObjectRef)
        requires
            old(self).wf(),
        ensures
            final(self).wf(),
            destroy_applied(*old(self), *final(self), target),
    {
        if !self.state.common.tree.contains(target) {
            return ;
        }
        proof {
            old(self).state.common.tree.lemma_wf_parts();
        }
        let obj = self.objects.get_mut(target);
        obj.on_remove(&mut self.state, state);
        let cls = self.objects.get(target).class();
        self.state.common.component_manager.clear_components(target);
        self.state.common.tree.remove(target, cls);
        self.objects.destroy(target);
        match find_updatable(&self.updatable, target) {
            Some(i) => {
                proof {
                    self.updatable@.index_of_first_ensures(target);
                    self.updatable@.remove_ensures(i as int);
                    crate::kv::lemma_remove_value_props(self.updatable@, target);
                }
                self.updatable.remove(i);
            },
            None => {
                proof {
                    self.updatable@.index_of_first_ensures(target);
                }
            },
        }
        match find_updatable(&self.init_updatable, target) {
            Some(i) => {
                proof {
                    self.init_updatable@.index_of_first_ensures(target);
                    self.init_updatable@.remove_ensures(i as int);
                    crate::kv::lemma_remove_value_props(self.init_updatable@, target);
                }
                self.init_updatable.remove(i);
            },
            None => {
                proof {
                    self.init_updatable@.index_of_first_ensures(target);
                }
            },
        }
        proof {
            crate::kv::lemma_remove_value_props(old(self).tree_spec().live_seq(), target);
            crate::kv::lemma_remove_value_props(old(self).tree_spec().enabled_seq(), target);
            crate::kv::lemma_remove_value_props(old(self).updatable@, target);
            crate::kv::lemma_remove_value_props(old(self).init_updatable@, target);
            assert forall|r: ObjectRef|
                self.state.common.tree.live_seq().contains(r)
                <==> crate::component::basic_pool::occupied(self.objects.slots(), r as int) by {
                if r != target {
                    crate::kv::lemma_remove_value_keeps(
                        old(self).tree_spec().live_seq(),
                        target,
                        r,
                    );
                    assert(crate::component::basic_pool::occupied(self.objects.slots(), r as int)
                        == crate::component::basic_pool::occupied(
                        old(self).objects.slots(),
                        r as int,
                    ));
                }
            }
            assert forall|j: int|
                0 <= j < self.objects.slots().len() && self.objects.slots()[j] is Some implies
                self.state.common.tree.live_seq().contains(j as ObjectRef) by {
                assert(j != target);
                assert(old(self).tree_spec().live_seq().contains(j as ObjectRef));
                crate::kv::lemma_remove_value_keeps(
                    old(self).tree_spec().live_seq(),
                    target,
                    j as ObjectRef,
                );
            }
            assert forall|k: int|
                0 <= k < self.updatable@.len() implies self.init_updatable@.contains(
                #[trigger] self.updatable@[k],
            ) by {
                let x = self.updatable@[k];
                assert(old(self).updatable@.remove_value(target).contains(x));
                crate::kv::lemma_remove_value_keeps(old(self).updatable@, target, x);
                assert(old(self).init_updatable@.contains(x));
                crate::kv::lemma_remove_value_keeps(old(self).init_updatable@, target, x);
            }
            assert forall|k: int|
                0 <= k < self.init_updatable@.len() implies
                self.state.common.tree.live_seq().contains(#[trigger] self.init_updatable@[k]) by {
                let x = self.init_updatable@[k];
                assert(old(self).init_updatable@.remove_value(target).contains(x));
                crate::kv::lemma_remove_value_keeps(old(self).init_updatable@, target, x);
                assert(old(self).tree_spec().live_seq().contains(x));
                crate::kv::lemma_remove_value_keeps(old(self).tree_spec().live_seq(), target, x);
            }
            assert(self.cm_spec().attached(target) =~= Set::<(int, usize)>::empty());
        }
    }

    /// Apply one spawn request: classify the object as updatable from its
    /// factory, then construct and register it.
    fn apply_spawn(&mut self, state: &I::AppState, factory: I::Factory)
        requires
            old(self).wf(),
        ensures
            final(self).wf(),
            exists|u: bool| spawn_outcome(*old(self), *final(self), u),
    {
        let updatable = factory.can_update_object();
        let r = self.spawn_with(state, factory, updatable);
        proof {
            assert(spawn_outcome(*old(self), *final(self), updatable)) by {
                if r is Some {
                    assert(spawn_applied(*old(self), *final(self), r->0, updatable));
                }
            }
        }
    }

    /// Construct an object in the first free slot (or a fresh one), register
    /// its handle under its class, and record updatability. The new object
    /// exists but is not enabled. The request is dropped only when the
    /// storage cannot name another slot.
    fn spawn_with(&mut self, state: &I::AppState, factory: I::Factory, updatable: bool) -> (r:
        Option<ObjectRef>)
        requires
            old(self).wf(),
        ensures
            final(self).wf(),
            match r {
                Some(n) => spawn_applied(*old(self), *final(self), n, updatable),
                None => *final(self) == *old(self),
            },
    {
        let slot = self.objects.first_free();
        if slot == u32::MAX as usize {
            return None;
        }
        let n = slot as u32;
        proof {
            assert(!crate::component::basic_pool::occupied(self.objects.slots(), n as int));
            assert(!self.state.common.tree.live_seq().contains(n));
            old(self).state.common.tree.lemma_wf_parts();
        }
        let obj = factory.spawn(&mut self.state, state, n);
        let cls = obj.class();
        self.objects.place(slot, obj);
        self.state.common.tree.insert(n, cls);
        if updatable {
            let ghost u0 = self.updatable@;
            let ghost v0 = self.init_updatable@;
            self.updatable.push(n);
            self.init_updatable.push(n);
            proof {
                assert(!u0.contains(n)) by {
                    if u0.contains(n) {
                        let k = choose|k: int| 0 <= k < u0.len() && u0[k] == n;
                        assert(old(self).init_updatable@.contains(u0[k]));
                        assert(old(self).tree_spec().live_seq().contains(n));
                    }
                }
                assert(!v0.contains(n)) by {
                    if v0.contains(n) {
                        assert(old(self).tree_spec().live_seq().contains(n));
                    }
                }
                lemma_push_fresh_no_duplicates(u0, n);
                lemma_push_fresh_no_duplicates(v0, n);
            }
        }
        proof {
            self.lemma_spawn_wf(*old(self), n, updatable);
            assert(exists|cls2: Seq<char>|
                final(self).tree_spec().classes() == old(self).tree_spec().classes().insert(
                    cls2,
                    crate::object::storage::class_refs(old(self).tree_spec().classes(), cls2).push(
                        n,
                    ),
                )) by {
                assert(self.state.common.tree.classes() == old(self).tree_spec().classes().insert(
                    cls@,
                    crate::object::storage::class_refs(old(self).tree_spec().classes(), cls@).push(
                        n,
                    ),
                ));
            }
        }
        Some(n)
    }

    /// Apply one structural event: an enable toggle, a spawn or a destroy. A
    /// missing target makes the enable or destroy request a no-op.
    fn handle_system_event(&mut self, state: &I::AppState, ev: Event<event::Event<I>>)
        requires
            old(self).wf(),
        ensures
            final(self).wf(),
            forall|flag: bool|
                ev.data_spec().ty == Type::<I>::EnableObject(flag) ==> (match ev.target_spec() {
                    Some(t) => enable_applied(*old(self), *final(self), t, flag),
                    None => *final(self) == *old(self),
                }),
            ev.data_spec().ty is RemoveObject ==> (match ev.target_spec() {
                Some(t) => destroy_applied(*old(self), *final(self), t),
                None => *final(self) == *old(self),
            }),
            ev.data_spec().ty is SpawnObject ==> exists|u: bool|
                spawn_outcome(*old(self), *final(self), u),
    {
        let target = ev.target();
        let inner = ev.into_inner();
        match inner.ty {
            Type::EnableObject(flag) => {
                if let Some(t) = target {
                    self.apply_enable(t, flag);
                }
            },
            Type::SpawnObject(factory) => {
                self.apply_spawn(state, factory);
            },
            Type::RemoveObject => {
                if let Some(t) = target {
                    self.apply_destroy(state, t);
                }
            },
        }
    }

    /// The handles an untargeted event is dispatched to: exactly the objects
    /// that are live and enabled now, in ascending slot order.
    pub fn broadcast_targets(&self) -> (v: Vec<ObjectRef>)
        requires
            self.wf(),
        ensures
            forall|a: int, b: int| 0 <= a < b < v@.len() ==> v@[a] < v@[b],
            forall|k: int|
                0 <= k < v@.len() ==> crate::component::basic_pool::occupied(
                    self.slots_spec(),
                    #[trigger] v@[k] as int,
                ) && self.tree_spec().enabled_seq().contains(v@[k]),
            forall|r: ObjectRef|
                crate::component::basic_pool::occupied(self.slots_spec(), r as int)
                    && self.tree_spec().enabled_seq().contains(r) ==> v@.contains(r),
    {
        let mut v: Vec<ObjectRef> = Vec::new();
        let cap = self.objects.capacity();
        let mut i: usize = 0;
        while i < cap
            invariant
                self.wf(),
                i <= cap,
                cap == self.slots_spec().len(),
                forall|a: int, b: int| 0 <= a < b < v@.len() ==> v@[a] < v@[b],
                forall|k: int|
                    0 <= k < v@.len() ==> (#[trigger] v@[k]) < i
                        && crate::component::basic_pool::occupied(self.slots_spec(), v@[k] as int)
                        && self.tree_spec().enabled_seq().contains(v@[k]),
                forall|r: ObjectRef|
                    r < i && crate::component::basic_pool::occupied(self.slots_spec(), r as int)
                        && self.tree_spec().enabled_seq().contains(r) ==> v@.contains(r),
            decreases cap - i,
        {
            let r = i as u32;
            if self.objects.is_occupied(r) && self.state.common.tree.is_enabled(r) {
                let ghost v0 = v@;
                v.push(r);
                proof {
                    assert forall|r2: ObjectRef|
                        r2 < i + 1 && crate::component::basic_pool::occupied(
                            self.slots_spec(),
                            r2 as int,
                        ) && self.tree_spec().enabled_seq().contains(r2) implies v@.contains(
                        r2,
                    ) by {
                        if r2 < i {
                            assert(v0.contains(r2));
                            let k = choose|k: int| 0 <= k < v0.len() && v0[k] == r2;
                            assert(v@[k] == v0[k]);
                            assert(v@[k] == r2);
                        } else {
                            assert(r2 == r);
                            assert(v@[v@.len() - 1] == r2);
                        }
                    }
                }
            } else {
                proof {
                    assert forall|r2: ObjectRef|
                        r2 < i + 1 && crate::component::basic_pool::occupied(
                            self.slots_spec(),
                            r2 as int,
                        ) && self.tree_spec().enabled_seq().contains(r2) implies v@.contains(
                        r2,
                    ) by {}
                }
            }
            i += 1;
        }
        v
    }

    /// Dispatch a targeted event: the target handles it only if it is
    /// currently enabled; otherwise the event is silently dropped.
    fn object_event_call(
        &mut self,
        state: &I::AppState,
        obj_ref: ObjectRef,
        event: &Event<I::Event>,
    )
        requires
            old(self).wf(),
        ensures
            final(self).wf(),
            final(self).tree_spec() == old(self).tree_spec(),
            final(self).updatable_spec() == old(self).updatable_spec(),
            final(self).ever_updatable_spec() == old(self).ever_updatable_spec(),
            forall|j: int|
                0 <= j < final(self).slots_spec().len() ==> crate::component::basic_pool::occupied(
                    final(self).slots_spec(),
                    j,
                ) == crate::component::basic_pool::occupied(old(self).slots_spec(), j),
            final(self).slots_spec().len() == old(self).slots_spec().len(),
            !old(self).tree_spec().enabled_seq().contains(obj_ref) ==> *final(self) == *old(self),
    {
        if !self.state.common.tree.is_enabled(obj_ref) {
            // Disabled objects are not allowed to handle any event.
            return ;
        }
        proof {
            old(self).state.common.tree.lemma_wf_parts();
            assert(old(self).tree_spec().live_seq().contains(obj_ref));
        }
        let obj = self.objects.get_mut(obj_ref);
        obj.on_event(&mut self.state, state, event);
    }

    /// Run one frame, in strict order: the systems phase, the structural
    /// drain (every pending spawn, destroy and enable request is applied,
    /// requests queued while draining included), the update pass over the
    /// updatable working set as it stands after the drain, and the regular
    /// event drain. Toggles requested during the later phases take effect in
    /// the next frame's drain. Each drain is bounded by as many requests as a
    /// machine word can count, a limit no real frame approaches.
    pub fn update(&mut self, state: &I::AppState)
        requires
            old(self).wf(),
        ensures
            final(self).wf(),
    {
        self.state.systems.update(&mut self.state.common, state);
        let mut fuel: usize = usize::MAX;
        loop
            invariant
                self.wf(),
            ensures
                self.wf(),
            decreases fuel,
        {
            if fuel == 0 {
                break ;
            }
            fuel = fuel - 1;
            let ev = self.state.common.system_event_manager.poll();
            match ev {
                Some(ev) => self.handle_system_event(state, ev),
                None => { break ; },
            }
        }
        let ghost ups = self.updatable@;
        let mut i: usize = 0;
        while i < self.updatable.len()
            invariant
                self.wf(),
                i <= self.updatable@.len(),
                self.updatable@ == ups,
            decreases self.updatable@.len() - i,
        {
            let r = self.updatable[i];
            proof {
                assert(self.updatable@.contains(r));
                assert(self.init_updatable@.contains(r));
                let k = choose|k: int|
                    0 <= k < self.init_updatable@.len() && self.init_updatable@[k] == r;
                assert(self.state.common.tree.live_seq().contains(self.init_updatable@[k]));
                assert(crate::component::basic_pool::occupied(self.objects.slots(), r as int));
            }
            let obj = self.objects.get_mut(r);
            obj.on_update(&mut self.state, state);
            i += 1;
        }
        let mut fuel2: usize = usize::MAX;
        loop
            invariant
                self.wf(),
            ensures
                self.wf(),
            decreases fuel2,
        {
            if fuel2 == 0 {
                break ;
            }
            fuel2 = fuel2 - 1;
            let ev = self.state.common.event_manager.poll();
            match ev {
                None => { break ; },
                Some(event) => {
                    match event.target() {
                        Some(t) => self.object_event_call(state, t, &event),
                        None => self.broadcast(state, &event),
                    }
                },
            }
        }
    }

    /// Dispatch an untargeted event to every object that was live and
    /// enabled when the dispatch began, in ascending slot order; disabled
    /// objects are not visited.
    fn broadcast(&mut self, state: &I::AppState, event: &Event<I::Event>)
        requires
            old(self).wf(),
        ensures
            final(self).wf(),
            final(self).tree_spec() == old(self).tree_spec(),
            final(self).updatable_spec() == old(self).updatable_spec(),
            final(self).ever_updatable_spec() == old(self).ever_updatable_spec(),
    {
        let targets = self.broadcast_targets();
        let mut k: usize = 0;
        while k < targets.len()
            invariant
                self.wf(),
                k <= targets@.len(),
                self.slots_spec().len() == old(self).slots_spec().len(),
                self.tree_spec() == old(self).tree_spec(),
                self.updatable@ == old(self).updatable@,
                self.init_updatable@ == old(self).init_updatable@,
                forall|l: int|
                    0 <= l < targets@.len() ==> crate::component::basic_pool::occupied(
                        self.slots_spec(),
                        #[trigger] targets@[l] as int,
                    ),
            decreases targets@.len() - k,
        {
            let t = targets[k];
            let obj = self.objects.get_mut(t);
            obj.on_event(&mut self.state, state, event);
            k += 1;
        }
    }

    /// After a spawn's bookkeeping, the scene is well formed again.
    proof fn lemma_spawn_wf(&self, prev: Scene<I>, n: ObjectRef, updatable: bool)
        requires
            prev.wf(),
            !prev.tree_spec().live_seq().contains(n),
            n as int <= prev.objects.slots().len(),
            n < u32::MAX,
            self.state.common.tree.wf(),
            self.state.common.component_manager.inv(),
            self.state.common.tree.live_seq() == prev.tree_spec().live_seq().push(n),
            self.state.common.tree.enabled_seq() == prev.tree_spec().enabled_seq(),
            self.objects.slots().len() == (if (n as int) < prev.objects.slots().len() {
                prev.objects.slots().len()
            } else {
                prev.objects.slots().len() + 1
            }),
            crate::component::basic_pool::occupied(self.objects.slots(), n as int),
            forall|j: int|
                0 <= j < prev.objects.slots().len() && j != n ==> self.objects.slots()[j]
                    == prev.objects.slots()[j],
            self.updatable@ == (if updatable {
                prev.updatable@.push(n)
            } else {
                prev.updatable@
            }),
            self.init_updatable@ == (if updatable {
                prev.init_updatable@.push(n)
            } else {
                prev.init_updatable@
            }),
            self.updatable@.no_duplicates(),
            self.init_updatable@.no_duplicates(),
        ensures
            self.wf(),
    {
        assert forall|r: ObjectRef|
            self.state.common.tree.live_seq().contains(r)
            <==> crate::component::basic_pool::occupied(self.objects.slots(), r as int) by {
            lemma_push_contains(prev.tree_spec().live_seq(), n, r);
            if r != n {
                if (r as int) < prev.objects.slots().len() {
                    assert(self.objects.slots()[r as int] == prev.objects.slots()[r as int]);
                }
            }
        }
        assert forall|j: int|
            0 <= j < self.objects.slots().len() && self.objects.slots()[j] is Some implies
            self.state.common.tree.live_seq().contains(j as ObjectRef) by {
            lemma_push_contains(prev.tree_spec().live_seq(), n, j as ObjectRef);
            if j != n {
                assert(self.objects.slots()[j] == prev.objects.slots()[j]);
            }
        }
        assert forall|k: int|
            0 <= k < self.updatable@.len() implies self.init_updatable@.contains(
            #[trigger] self.updatable@[k],
        ) by {
            if updatable {
                if k < self.updatable@.len() - 1 {
                    assert(self.updatable@[k] == prev.updatable@[k]);
                    assert(prev.init_updatable@.contains(self.updatable@[k]));
                    lemma_push_contains(prev.init_updatable@, n, self.updatable@[k]);
                } else {
                    assert(self.init_updatable@[self.init_updatable@.len() - 1] == n);
                }
            } else {
                assert(self.updatable@[k] == prev.updatable@[k]);
            }
        }
        assert forall|k: int|
            0 <= k < self.init_updatable@.len() implies self.state.common.tree.live_seq().contains(
            #[trigger] self.init_updatable@[k],
        ) by {
            if updatable && k == self.init_updatable@.len() - 1 {
                lemma_push_contains(prev.tree_spec().live_seq(), n, n);
            } else {
                assert(self.init_updatable@[k] == prev.init_updatable@[k]);
                assert(prev.tree_spec().live_seq().contains(self.init_updatable@[k]));
                lemma_push_contains(prev.tree_spec().live_seq(), n, self.init_updatable@[k]);
            }
        }
    }
}

/// Membership in a pushed sequence: the new element, or an old member.
proof fn lemma_push_contains(s: Seq<ObjectRef>, n: ObjectRef, r: ObjectRef)
    ensures
        s.push(n).contains(r) <==> (s.contains(r) || r == n),
{
    if s.contains(r) {
        let k = choose|k: int| 0 <= k < s.len() && s[k] == r;
        assert(s.push(n)[k] == r);
    }
    if r == n {
        assert(s.push(n)[s.len() as int] == r);
    }
    if s.push(n).contains(r) && r != n {
        let k = choose|k: int| 0 <= k < s.push(n).len() && s.push(n)[k] == r;
        assert(k < s.len());
        assert(s[k] == r);
    }
}

/// Pushing a fresh element keeps a sequence duplicate-free.
proof fn lemma_push_fresh_no_duplicates(s: Seq<ObjectRef>, n: ObjectRef)
    requires
        s.no_duplicates(),
        !s.contains(n),
    ensures
        s.push(n).no_duplicates(),
{
    let t = s.push(n);
    assert forall|a: int, b: int| 0 <= a < t.len() && 0 <= b < t.len() && a != b implies
        t[a] != t[b] by {
        if a == t.len() - 1 {
            assert(t[b] == s[b]);
            if t[a] == t[b] {
                assert(s.contains(n));
            }
        } else if b == t.len() - 1 {
            assert(t[a] == s[a]);
            if t[a] == t[b] {
                assert(s.contains(n));
            }
        } else {
            assert(t[a] == s[a] && t[b] == s[b]);
        }
    }
}

fn find_updatable(list: &Vec<ObjectRef>, x: ObjectRef) -> (r: Option<usize>)
    ensures
        match r {
            Some(i) => i < list@.len() && list@[i as int] == x && forall|k: int|
                0 <= k < i ==> list@[k] != x,
            None => !list@.contains(x),
        },
{
    let mut i: usize = 0;
    while i < list.len()
        invariant
            i <= list@.len(),
            forall|k: int| 0 <= k < i ==> list@[k] != x,
        decreases list@.len() - i,
    {
        if list[i] == x {
            return Some(i);
        }
        i += 1;
    }
    None
}

} // verus!
