//! Grouped pool behaviour: default grouping, regrouping, group iteration.

use regecs::component::grouped_pool::GroupComponentPool;
use regecs::sample::ComplexComponent;

#[test]
fn new_components_start_in_the_default_group() {
    let mut pool: GroupComponentPool<ComplexComponent> = GroupComponentPool::new();
    let a = pool.add(ComplexComponent::new(0, 10));
    let b = pool.add(ComplexComponent::new(0, 20));
    assert_eq!(pool.len(), 2);
    let order: Vec<usize> = pool.ordered_refs().iter().map(|r| r.index()).collect();
    assert_eq!(order, vec![a.index(), b.index()]);
}

#[test]
fn update_group_moves_to_the_end_of_the_new_group() {
    let mut pool: GroupComponentPool<ComplexComponent> = GroupComponentPool::new();
    let a = pool.add(ComplexComponent::new(2, 3));
    let b = pool.add(ComplexComponent::new(1, 1));
    let c = pool.add(ComplexComponent::new(2, 4));
    let d = pool.add(ComplexComponent::new(1, 2));
    // regroup by each component's order field
    pool.update_group(a, 2);
    pool.update_group(b, 1);
    pool.update_group(c, 2);
    pool.update_group(d, 1);
    // iteration goes group by group, insertion order inside each group
    let order: Vec<usize> = pool.ordered_refs().iter().map(|r| r.index()).collect();
    assert_eq!(order, vec![a.index(), c.index(), b.index(), d.index()]);
    let values: Vec<i32> = order.iter().map(|&i| {
        pool.get(regecs::component::ComponentRef::new(i)).value
    }).collect();
    assert_eq!(values, vec![3, 4, 1, 2]);
}

#[test]
fn update_group_to_same_group_keeps_position() {
    let mut pool: GroupComponentPool<ComplexComponent> = GroupComponentPool::new();
    let a = pool.add(ComplexComponent::new(0, 1));
    let b = pool.add(ComplexComponent::new(0, 2));
    pool.update_group(a, 0);
    let order: Vec<usize> = pool.ordered_refs().iter().map(|r| r.index()).collect();
    assert_eq!(order, vec![a.index(), b.index()]);
}

#[test]
fn remove_erases_group_membership() {
    let mut pool: GroupComponentPool<ComplexComponent> = GroupComponentPool::new();
    let a = pool.add(ComplexComponent::new(0, 1));
    let b = pool.add(ComplexComponent::new(0, 2));
    pool.update_group(b, 7);
    pool.remove(a);
    assert_eq!(pool.len(), 1);
    let order: Vec<usize> = pool.ordered_refs().iter().map(|r| r.index()).collect();
    assert_eq!(order, vec![b.index()]);
    pool.remove(b);
    assert_eq!(pool.len(), 0);
    assert!(pool.ordered_refs().is_empty());
}

#[test]
fn grouped_pool_clears_attachments_and_groups() {
    let mut pool: GroupComponentPool<ComplexComponent> = GroupComponentPool::new();
    let a = pool.add(ComplexComponent::new(0, 1));
    let b = pool.add(ComplexComponent::new(0, 2));
    pool.update_group(b, 3);
    pool.attach(5, a);
    pool.attach(5, b);
    pool.clear(5);
    assert_eq!(pool.len(), 0);
    assert!(pool.ordered_refs().is_empty());
    assert!(pool.list(5).is_none());
}
