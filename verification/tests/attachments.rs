//! The attachment index and entity-wide clearing.

use regecs::component::attachments::AttachmentsManager;
use regecs::component::basic_pool::BasicComponentPool;
use regecs::component::{ComponentManager, ComponentRef};
use regecs::entity::{Entity, EntityPart};
use regecs::sample::{SampleComponentManager, Test, Test2};

#[test]
fn clear_yields_exactly_the_attached_refs() {
    let mut am = AttachmentsManager::new();
    am.attach(5, 1);
    am.attach(5, 2);
    let cleared = am.clear(5);
    assert_eq!(cleared, Some(vec![1, 2]));
    // a subsequent list finds nothing at all
    assert_eq!(am.list(5), None);
}

#[test]
fn last_attach_wins() {
    let mut am = AttachmentsManager::new();
    am.attach(5, 1);
    am.attach(6, 1);
    // the slot moved to entity six; drained, entity five is gone entirely
    assert_eq!(am.list(5), None);
    assert_eq!(am.list(6), Some(vec![1]));
    am.attach(5, 2);
    am.attach(6, 2);
    // five had another slot left, so it was not drained
    assert_eq!(am.list(5), None);
    assert_eq!(am.list(6), Some(vec![1, 2]));
}

#[test]
fn remove_detaches_one_slot() {
    let mut am = AttachmentsManager::new();
    am.attach(7, 3);
    am.attach(7, 4);
    am.remove(3);
    assert_eq!(am.list(7), Some(vec![4]));
    assert_eq!(am.get_first(7), Some(4));
    am.remove(4);
    assert_eq!(am.get_first(7), None);
}

#[test]
fn list_is_none_once_nothing_is_attached() {
    let mut am = AttachmentsManager::new();
    assert_eq!(am.list(9), None);
    am.attach(9, 0);
    assert_eq!(am.list(9), Some(vec![0]));
    // detaching the last slot erases the entity from the relation
    am.remove(0);
    assert_eq!(am.list(9), None);
}

#[test]
fn pool_clear_removes_attached_components() {
    let mut pool: BasicComponentPool<Test> = BasicComponentPool::new();
    let a = pool.add(Test { value: 1 });
    let b = pool.add(Test { value: 2 });
    pool.attach(5, a);
    pool.attach(5, b);
    assert_eq!(pool.len(), 2);
    pool.clear(5);
    assert_eq!(pool.len(), 0);
    assert!(pool.list(5).is_none());
}

#[test]
fn manager_clear_empties_both_pools() {
    let mut mgr = SampleComponentManager::new();
    let r0 = mgr.tests.add(Test { value: 1 });
    mgr.tests.attach(5, r0);
    let r1 = mgr.test2s.add(Test2 { value2: 2 });
    mgr.test2s.attach(5, r1);
    assert_eq!(mgr.tests.len(), 1);
    assert_eq!(mgr.test2s.len(), 1);
    mgr.clear_components(5);
    assert_eq!(mgr.tests.len(), 0);
    assert_eq!(mgr.test2s.len(), 0);
}

#[test]
fn manager_clear_leaves_other_entities_alone() {
    let mut mgr = SampleComponentManager::new();
    let r0 = mgr.tests.add(Test { value: 1 });
    mgr.tests.attach(5, r0);
    let r1 = mgr.tests.add(Test { value: 2 });
    mgr.tests.attach(6, r1);
    mgr.clear_components(5);
    assert_eq!(mgr.tests.len(), 1);
    assert_eq!(mgr.tests.get_first(6).map(|t| t.value), Some(2));
}

#[test]
fn entity_view_adds_attached_components() {
    let mut mgr = SampleComponentManager::new();
    {
        let mut e = Entity::new(&mut mgr, 3);
        let r: ComponentRef<Test> = e.add(Test { value: 7 });
        assert_eq!(e.get(r).value, 7);
        assert_eq!(e.list().map(|v: Vec<ComponentRef<Test>>| v.len()), Some(1));
        assert_eq!(EntityPart::<Test, _>::get_first(&e).map(|t| t.value), Some(7));
        let mut other = e.aquire(4);
        let r2: ComponentRef<Test> = other.add(Test { value: 9 });
        assert_eq!(other.get(r2).value, 9);
    }
    assert_eq!(mgr.tests.len(), 2);
    assert_eq!(mgr.tests.get_first(3).map(|t| t.value), Some(7));
    assert_eq!(mgr.tests.get_first(4).map(|t| t.value), Some(9));
    mgr.clear_components(3);
    assert_eq!(mgr.tests.len(), 1);
}
