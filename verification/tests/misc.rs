//! Event queue order, envelope building, properties and the class registry.

use regecs::event::{Builder, EventManager};
use regecs::object::registry::ClassMap;
use regecs::property::{NumericProperty, Property};

#[test]
fn queue_is_first_in_first_out() {
    let mut q: EventManager<i32> = EventManager::new();
    assert!(q.is_empty());
    assert!(q.poll().is_none());
    q.send(Builder::new(1));
    q.send(Builder::new(2));
    q.send(Builder::new(3));
    assert_eq!(q.len(), 3);
    assert_eq!(q.poll().map(|e| e.into_inner()), Some(1));
    assert_eq!(q.poll().map(|e| e.into_inner()), Some(2));
    q.send(Builder::new(4));
    assert_eq!(q.poll().map(|e| e.into_inner()), Some(3));
    assert_eq!(q.poll().map(|e| e.into_inner()), Some(4));
    assert!(q.poll().is_none());
}

#[test]
fn builder_records_sender_and_target() {
    let ev = Builder::new(9).sender(3).target(7).into_inner();
    assert_eq!(ev.sender(), Some(3));
    assert_eq!(ev.target(), Some(7));
    assert_eq!(*ev.data(), 9);
    let broadcast = Builder::new(1).sender(2).into_inner();
    assert_eq!(broadcast.target(), None);
}

#[test]
fn property_polls_only_changes() {
    let mut p = Property::new(5i64, NumericProperty { min: 0i64, max: 10, step: 1 });
    assert_eq!(*p.get(), 5);
    assert!(p.poll().is_none());
    p.set(7);
    assert_eq!(*p.get(), 7);
    assert_eq!(p.poll().copied(), Some(7));
    assert!(p.poll().is_none());
    assert_eq!(p.config().max, 10);
}

#[test]
fn class_map_finds_registered_names() {
    let map: ClassMap<u8> = ClassMap::new(vec![("alpha", 1), ("beta", 2)]);
    assert_eq!(map.get("alpha").copied(), Some(1));
    assert_eq!(map.get("beta").copied(), Some(2));
    assert!(map.get("gamma").is_none());
    assert_eq!(map.iter().len(), 2);
}
