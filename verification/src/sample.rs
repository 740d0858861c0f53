//! The smallest concrete instantiation of the framework: a few plain
//! components, a component manager over three pools, and an object whose
//! activity is observable through the component it owns. The test suite
//! drives the scene through these types.

use vstd::prelude::*;
use crate::component::{ComponentRef, attachments, basic_pool};
use crate::component::attachments::att_refs;
use crate::component::basic_pool::{BasicComponentPool, occupied};
use crate::component::grouped_pool::GroupComponentPool;
use crate::component::interface::{Component, ComponentManager};
use crate::event::Event;
use crate::object::{Object, ObjectRef};
use crate::object::factory::Factory;
use crate::scene::{Interface, State};

verus! {

/// A one-field component stored in a basic pool.
pub struct Test {
    pub value: i32,
}

impl Component for Test {
    type Pool = BasicComponentPool<Test>;
}

/// Another one-field component, for a second pool.
pub struct Test2 {
    pub value2: i32,
}

impl Component for Test2 {
    type Pool = BasicComponentPool<Test2>;
}

/// A component stored in a grouped pool, ordered by its `order` field.
pub struct ComplexComponent {
    pub last_order: u32,
    pub order: u32,
    pub value: i32,
}

impl ComplexComponent {
    /// A component in the given order group, not yet regrouped.
    pub fn new(order: u32, value: i32) -> (r: ComplexComponent)
        ensures
            r.last_order == 0,
            r.order == order,
            r.value == value,
    {
        ComplexComponent { last_order: 0, order, value }
    }
}

impl Component for ComplexComponent {
    type Pool = GroupComponentPool<ComplexComponent>;
}

/// A component manager over three pools, one per component type.
pub struct SampleComponentManager {
    pub tests: BasicComponentPool<Test>,
    pub test2s: BasicComponentPool<Test2>,
    pub complexes: GroupComponentPool<ComplexComponent>,
}

impl SampleComponentManager {
    /// Three empty pools.
    pub fn new() -> (r: SampleComponentManager)
        ensures
            crate::component::ComponentManager::inv(&r),
            r.tests.slots() == Seq::<Option<Test>>::empty(),
            r.test2s.slots() == Seq::<Option<Test2>>::empty(),
            r.complexes.slots() == Seq::<Option<ComplexComponent>>::empty(),
    {
        SampleComponentManager {
            tests: BasicComponentPool::new(),
            test2s: BasicComponentPool::new(),
            complexes: GroupComponentPool::new(),
        }
    }
}

impl ComponentManager<ComplexComponent> for SampleComponentManager {
    open spec fn pool_spec(&self) -> GroupComponentPool<ComplexComponent> {
        self.complexes
    }

    fn pool(&self) -> (r: &GroupComponentPool<ComplexComponent>) {
        &self.complexes
    }

    fn pool_mut(&mut self) -> (r: &mut GroupComponentPool<ComplexComponent>) {
        &mut self.complexes
    }
}

impl ComponentManager<Test> for SampleComponentManager {
    open spec fn pool_spec(&self) -> BasicComponentPool<Test> {
        self.tests
    }

    fn pool(&self) -> (r: &BasicComponentPool<Test>) {
        &self.tests
    }

    fn pool_mut(&mut self) -> (r: &mut BasicComponentPool<Test>) {
        &mut self.tests
    }
}

impl ComponentManager<Test2> for SampleComponentManager {
    open spec fn pool_spec(&self) -> BasicComponentPool<Test2> {
        self.test2s
    }

    fn pool(&self) -> (r: &BasicComponentPool<Test2>) {
        &self.test2s
    }

    fn pool_mut(&mut self) -> (r: &mut BasicComponentPool<Test2>) {
        &mut self.test2s
    }
}

impl crate::component::ComponentManager for SampleComponentManager {
    open spec fn attached(&self, entity: ObjectRef) -> Set<(int, usize)> {
        Set::new(
            |s: (int, usize)|
                (s.0 == 0 && att_refs(self.tests.atts(), entity).contains(s.1)) || (s.0 == 1
                    && att_refs(self.test2s.atts(), entity).contains(s.1)) || (s.0 == 2
                    && att_refs(self.complexes.atts(), entity).contains(s.1)),
        )
    }

    open spec fn slot_live(&self, s: (int, usize)) -> bool {
        (s.0 == 0 && occupied(self.tests.slots(), s.1 as int)) || (s.0 == 1 && occupied(
            self.test2s.slots(),
            s.1 as int,
        )) || (s.0 == 2 && occupied(self.complexes.slots(), s.1 as int))
    }

    open spec fn inv(&self) -> bool {
        self.tests.wf() && self.test2s.wf() && self.complexes.wf()
    }

    fn clear_components(&mut self, entity: ObjectRef) {
        let ghost m0 = self.tests.atts();
        let ghost m1 = self.test2s.atts();
        let ghost m2 = self.complexes.atts();
        self.tests.clear(entity);
        self.test2s.clear(entity);
        self.complexes.clear(entity);
        proof {
            assert(crate::component::ComponentManager::attached(self, entity) =~= Set::<
                (int, usize),
            >::empty()) by {
                assert(!attachments::att_has(self.tests.atts(), entity));
                assert(!attachments::att_has(self.test2s.atts(), entity));
                assert(!attachments::att_has(self.complexes.atts(), entity));
            }
            assert forall|s: (int, usize)|
                crate::component::ComponentManager::attached(&*old(self), entity).contains(s)
                implies !self.slot_live(s) by {
                if s.0 == 0 && att_refs(m0, entity).contains(s.1) {
                    let k = choose|k: int|
                        0 <= k < att_refs(m0, entity).len() && att_refs(m0, entity)[k] == s.1;
                    assert(!occupied(self.tests.slots(), att_refs(m0, entity)[k] as int));
                } else if s.0 == 1 && att_refs(m1, entity).contains(s.1) {
                    let k = choose|k: int|
                        0 <= k < att_refs(m1, entity).len() && att_refs(m1, entity)[k] == s.1;
                    assert(!occupied(self.test2s.slots(), att_refs(m1, entity)[k] as int));
                } else {
                    let k = choose|k: int|
                        0 <= k < att_refs(m2, entity).len() && att_refs(m2, entity)[k] == s.1;
                    assert(!occupied(self.complexes.slots(), att_refs(m2, entity)[k] as int));
                }
            }
        }
    }
}

/// The sample scene wiring: integer events and application state, a single
/// pool of counters as the component manager, no systems.
pub struct SampleInterface;

impl Interface for SampleInterface {
    type Event = i32;

    type AppState = i32;

    type ComponentManager = BasicComponentPool<Test>;

    type SystemManager = ();

    type Object = SampleObject;

    type Factory = SampleFactory;
}

/// An object whose activity is visible in the pool: each update bumps its
/// own counter component, and each received event appends this object's
/// handle as a digit to the shared log component in slot zero.
pub struct SampleObject {
    this: ObjectRef,
    counter: ComponentRef<Test>,
}

impl Object<SampleInterface> for SampleObject {
    fn on_event(
        &mut self,
        ctx: &mut State<SampleInterface>,
        _state: &i32,
        _event: &Event<i32>,
    ) {
        let pool = ctx.components_mut();
        let log = ComponentRef::<Test>::new(0);
        if pool.contains(log) && self.this < 9 {
            let v = pool.get_mut(log);
            if 0 <= v.value && v.value < 100000 {
                v.value = v.value * 10 + (self.this as i32) + 1;
            }
        }
    }

    fn on_remove(&mut self, _ctx: &mut State<SampleInterface>, _state: &i32) {
    }

    fn on_update(&mut self, ctx: &mut State<SampleInterface>, _state: &i32) {
        let pool = ctx.components_mut();
        if pool.contains(self.counter) {
            let v = pool.get_mut(self.counter);
            if v.value < 1000000 {
                v.value = v.value + 1;
            }
        }
    }

    fn class(&self) -> &'static str {
        "Test"
    }
}

/// Builds a [`SampleObject`]: the object gets a fresh counter component
/// attached to its own handle.
pub struct SampleFactory {
    pub updates: bool,
}

impl Factory<SampleInterface> for SampleFactory {
    fn spawn(
        self,
        ctx: &mut State<SampleInterface>,
        _state: &i32,
        this: ObjectRef,
    ) -> (r: SampleObject) {
        let pool = ctx.components_mut();
        let counter = if pool.capacity() < usize::MAX {
            let r = pool.add(Test { value: 0 });
            pool.attach(this, r);
            r
        } else {
            ComponentRef::new(0)
        };
        SampleObject { this, counter }
    }

    fn can_update_object(&self) -> bool {
        self.updates
    }
}

} // verus!
