//! Scene behaviour: the four-phase frame, spawning, enabling, destroying,
//! and event dispatch.

use regecs::component::ComponentRef;
use regecs::component::basic_pool::BasicComponentPool;
use regecs::event::Builder;
use regecs::sample::{SampleFactory, SampleInterface, Test};
use regecs::scene::Scene;
use regecs::scene::event::EventInfo;

/// A scene whose component pool already holds the shared log component in
/// slot zero, so spawned objects' counters land in later slots.
fn scene_with_log() -> Scene<SampleInterface> {
    let mut pool: BasicComponentPool<Test> = BasicComponentPool::new();
    pool.add(Test { value: 0 });
    Scene::new(pool, ())
}

fn counter_value(scene: &Scene<SampleInterface>, slot: usize) -> i32 {
    scene.state().components().get(ComponentRef::new(slot)).value
}

#[test]
fn spawn_registers_object_under_its_class() {
    let mut scene = scene_with_log();
    scene.spawn_object(SampleFactory { updates: true });
    // nothing happens until the frame's structural drain
    assert_eq!(scene.state().objects().get_count(), 0);
    scene.update(&0);
    let tree = scene.state().objects();
    assert!(tree.contains(0));
    assert_eq!(tree.get_count(), 1);
    assert_eq!(tree.find_by_class("Test"), vec![0]);
    assert_eq!(tree.find_by_class("other"), Vec::<u32>::new());
    // spawned objects are not enabled until asked
    assert!(!tree.is_enabled(0));
}

#[test]
fn updatable_object_gets_one_update_per_frame() {
    let mut scene = scene_with_log();
    scene.spawn_object(SampleFactory { updates: true });
    scene.update(&0);
    // the spawn frame already runs the update phase after the drain
    assert_eq!(counter_value(&scene, 1), 1);
    scene.update(&0);
    assert_eq!(counter_value(&scene, 1), 2);
    scene.update(&0);
    assert_eq!(counter_value(&scene, 1), 3);
}

#[test]
fn non_updatable_object_is_never_updated() {
    let mut scene = scene_with_log();
    scene.spawn_object(SampleFactory { updates: false });
    scene.update(&0);
    scene.update(&0);
    assert_eq!(counter_value(&scene, 1), 0);
}

#[test]
fn disable_pauses_updates_and_reenable_restores_them() {
    let mut scene = scene_with_log();
    scene.spawn_object(SampleFactory { updates: true });
    scene.update(&0);
    assert_eq!(counter_value(&scene, 1), 1);
    // disabling takes effect in the next frame's drain and stops updates
    scene.state_mut().enable_object(EventInfo::new().target(0), false);
    scene.update(&0);
    assert_eq!(counter_value(&scene, 1), 1);
    scene.update(&0);
    assert_eq!(counter_value(&scene, 1), 1);
    // the object still exists while disabled
    assert!(scene.state().objects().contains(0));
    // re-enabling restores updatability, because it was built updatable
    scene.state_mut().enable_object(EventInfo::new().target(0), true);
    scene.update(&0);
    assert_eq!(counter_value(&scene, 1), 2);
}

#[test]
fn reenabling_never_updatable_object_does_not_update_it() {
    let mut scene = scene_with_log();
    scene.spawn_object(SampleFactory { updates: false });
    scene.update(&0);
    scene.state_mut().enable_object(EventInfo::new().target(0), true);
    scene.update(&0);
    scene.state_mut().enable_object(EventInfo::new().target(0), false);
    scene.update(&0);
    scene.state_mut().enable_object(EventInfo::new().target(0), true);
    scene.update(&0);
    assert_eq!(counter_value(&scene, 1), 0);
}

#[test]
fn untargeted_events_reach_enabled_objects_in_slot_order() {
    let mut scene = scene_with_log();
    scene.spawn_object(SampleFactory { updates: false });
    scene.spawn_object(SampleFactory { updates: false });
    scene.update(&0);
    scene.state_mut().enable_object(EventInfo::new().target(0), true);
    scene.state_mut().enable_object(EventInfo::new().target(1), true);
    scene.update(&0);
    // both enabled: the log records object zero first, then object one
    scene.state_mut().send_event(Builder::new(7));
    scene.update(&0);
    assert_eq!(counter_value(&scene, 0), 12);
    // a disabled object is not visited
    scene.state_mut().enable_object(EventInfo::new().target(0), false);
    scene.update(&0);
    scene.state_mut().send_event(Builder::new(7));
    scene.update(&0);
    assert_eq!(counter_value(&scene, 0), 122);
}

#[test]
fn broadcast_targets_lists_enabled_objects_in_slot_order() {
    let mut scene = scene_with_log();
    scene.spawn_object(SampleFactory { updates: false });
    scene.spawn_object(SampleFactory { updates: false });
    scene.spawn_object(SampleFactory { updates: false });
    scene.update(&0);
    assert_eq!(scene.broadcast_targets(), Vec::<u32>::new());
    scene.state_mut().enable_object(EventInfo::new().target(2), true);
    scene.state_mut().enable_object(EventInfo::new().target(0), true);
    scene.update(&0);
    // ascending slot order, enabled objects only
    assert_eq!(scene.broadcast_targets(), vec![0, 2]);
}

#[test]
fn targeted_event_reaches_only_an_enabled_target() {
    let mut scene = scene_with_log();
    scene.spawn_object(SampleFactory { updates: false });
    scene.spawn_object(SampleFactory { updates: false });
    scene.update(&0);
    scene.state_mut().enable_object(EventInfo::new().target(1), true);
    scene.update(&0);
    // a targeted event to a disabled object is silently dropped
    scene.state_mut().send_event(Builder::new(7).target(0));
    scene.update(&0);
    assert_eq!(counter_value(&scene, 0), 0);
    // the enabled target handles it
    scene.state_mut().send_event(Builder::new(7).target(1));
    scene.update(&0);
    assert_eq!(counter_value(&scene, 0), 2);
    // a target that names no object is dropped too
    scene.state_mut().send_event(Builder::new(7).target(9));
    scene.update(&0);
    assert_eq!(counter_value(&scene, 0), 2);
}

#[test]
fn destroy_cascades_component_cleanup() {
    let mut scene = scene_with_log();
    scene.spawn_object(SampleFactory { updates: true });
    scene.update(&0);
    // the log plus the object's own counter
    assert_eq!(scene.state().components().len(), 2);
    scene.state_mut().remove_object(EventInfo::new().target(0));
    scene.update(&0);
    let tree = scene.state().objects();
    assert!(!tree.contains(0));
    assert_eq!(tree.get_count(), 0);
    // the attached counter was removed from its pool; the unattached log stays
    assert_eq!(scene.state().components().len(), 1);
    // the freed slot is reused by the next spawn
    scene.spawn_object(SampleFactory { updates: false });
    scene.update(&0);
    assert!(scene.state().objects().contains(0));
    // the new object's counter starts fresh and, being non-updatable, stays
    assert_eq!(counter_value(&scene, 1), 0);
}

#[test]
fn consume_returns_the_component_manager() {
    let mut scene = scene_with_log();
    scene.spawn_object(SampleFactory { updates: true });
    scene.update(&0);
    let pool = scene.consume();
    assert_eq!(pool.len(), 2);
    assert_eq!(pool.get(ComponentRef::new(1)).value, 1);
}
