//! Slot pool behaviour: first-fit reuse, counting, tail trimming.

use regecs::component::ComponentRef;
use regecs::component::basic_pool::BasicComponentPool;
use regecs::sample::Test;

#[test]
fn add_remove_trims_to_empty() {
    let mut pool: BasicComponentPool<Test> = BasicComponentPool::new();
    assert_eq!(pool.len(), 0);
    let r0 = pool.add(Test { value: 1 });
    assert_eq!(r0.index(), 0);
    assert_eq!(pool.len(), 1);
    pool.remove(r0);
    assert_eq!(pool.len(), 0);
    // the backing array is trimmed all the way down
    assert_eq!(pool.capacity(), 0);
}

#[test]
fn len_tracks_adds_and_removes() {
    let mut pool: BasicComponentPool<Test> = BasicComponentPool::new();
    let a = pool.add(Test { value: 1 });
    let b = pool.add(Test { value: 2 });
    let c = pool.add(Test { value: 3 });
    assert_eq!((a.index(), b.index(), c.index()), (0, 1, 2));
    assert_eq!(pool.len(), 3);
    pool.remove(b);
    assert_eq!(pool.len(), 2);
    // first-fit: the freed middle slot is reused
    let d = pool.add(Test { value: 4 });
    assert_eq!(d.index(), 1);
    assert_eq!(pool.len(), 3);
    pool.remove(a);
    pool.remove(d);
    pool.remove(c);
    assert_eq!(pool.len(), 0);
    assert_eq!(pool.capacity(), 0);
}

#[test]
fn removing_tail_trims_only_trailing_free_slots() {
    let mut pool: BasicComponentPool<Test> = BasicComponentPool::new();
    let a = pool.add(Test { value: 1 });
    let b = pool.add(Test { value: 2 });
    let c = pool.add(Test { value: 3 });
    pool.remove(a);
    // slot zero is free but not trailing: no trim
    assert_eq!(pool.capacity(), 3);
    pool.remove(c);
    // the tail slot goes away; the middle one stays
    assert_eq!(pool.capacity(), 2);
    assert_eq!(pool.len(), 1);
    assert_eq!(pool.get(b).value, 2);
}

#[test]
fn get_mut_changes_one_slot() {
    let mut pool: BasicComponentPool<Test> = BasicComponentPool::new();
    let a = pool.add(Test { value: 1 });
    let b = pool.add(Test { value: 2 });
    pool.get_mut(a).value = 10;
    assert_eq!(pool.get(a).value, 10);
    assert_eq!(pool.get(b).value, 2);
}

#[test]
fn refs_lists_occupied_slots_in_order() {
    let mut pool: BasicComponentPool<Test> = BasicComponentPool::new();
    let a = pool.add(Test { value: 1 });
    let b = pool.add(Test { value: 2 });
    let c = pool.add(Test { value: 3 });
    pool.remove(b);
    let refs: Vec<ComponentRef<Test>> = pool.refs();
    let idxs: Vec<usize> = refs.iter().map(|r| r.index()).collect();
    assert_eq!(idxs, vec![a.index(), c.index()]);
}
