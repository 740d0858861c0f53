//! Grouped component pool: a basic pool plus a group index for batched
//! iteration.
//!
//! Every live component belongs to exactly one group; a newly added component
//! starts in the default group (key zero) until reassigned. Iteration walks
//! group by group, and inside a group in insertion order, which is the point
//! of the structure: batch work by material, shader or owner.

use vstd::prelude::*;
use crate::component::ComponentRef;
use crate::component::attachments::{AttachmentsManager, att_attach, att_attached, att_clear,
    att_detach, att_flatten, att_has, att_refs, att_wf, detached_keys, lemma_attach_props,
    lemma_detach_detaches};
use crate::component::basic_pool::{BasicComponentPool, occupied, occupied_count, trim_tail,
    lemma_trim_tail_is_prefix};
use crate::object::ObjectRef;

verus! {

/// Key naming one group of components.
pub type GroupKey = u32;

/// The group lists name occupied slots only, and every occupied slot is in
/// some group.
pub open spec fn group_inv<T>(slots: Seq<Option<T>>, groups: Map<GroupKey, Seq<usize>>) -> bool {
    &&& forall|g: GroupKey, k: int|
        groups.dom().contains(g) && 0 <= k < groups[g].len() ==> occupied(
            slots,
            #[trigger] groups[g][k] as int,
        )
    &&& forall|c: usize| #[trigger] occupied(slots, c as int) ==> att_attached(groups, c)
}

/// A basic pool whose live components are partitioned into groups.
pub struct GroupComponentPool<T> {
    comps: BasicComponentPool<T>,
    groups: AttachmentsManager,
}

impl<T> GroupComponentPool<T> {
    /// The slot array of the underlying pool.
    pub closed spec fn slots(&self) -> Seq<Option<T>> {
        self.comps.slots()
    }

    /// The entity-attachment relation of the underlying pool.
    pub closed spec fn atts(&self) -> Map<ObjectRef, Seq<usize>> {
        self.comps.atts()
    }

    /// The group relation: each group key maps to its member slots, in
    /// insertion order.
    pub closed spec fn groups(&self) -> Map<GroupKey, Seq<usize>> {
        self.groups@
    }

    /// The group keys in iteration order.
    pub closed spec fn group_order(&self) -> Seq<GroupKey> {
        self.groups.key_seq()
    }

    /// The underlying pool is well formed, and the group lists hold exactly
    /// the occupied slots, each in one group.
    pub closed spec fn wf(&self) -> bool {
        &&& self.comps.wf()
        &&& self.groups.wf()
        &&& group_inv(self.comps.slots(), self.groups@)
    }

    /// The union of the group lists is exactly the pool's occupied slots, and
    /// no slot is in two groups.
    pub proof fn lemma_groups_partition(&self)
        requires
            self.wf(),
        ensures
            forall|c: usize| att_attached(self.groups(), c) <==> occupied(
                self.slots(),
                c as int,
            ),
            forall|g1: GroupKey, g2: GroupKey, c: usize|
                att_refs(self.groups(), g1).contains(c) && att_refs(self.groups(), g2).contains(c)
                    ==> g1 == g2,
            att_wf(self.groups()),
    {
        self.groups.lemma_wf_model();
        assert forall|c: usize| att_attached(self.groups(), c) implies occupied(
            self.slots(),
            c as int,
        ) by {
            let g = choose|g: GroupKey| #[trigger] att_refs(self.groups@, g).contains(c);
            let k = choose|k: int|
                0 <= k < self.groups@[g].len() && self.groups@[g][k] == c;
            assert(occupied(self.comps.slots(), self.groups@[g][k] as int));
        }
    }

    /// The iteration order visits each present group exactly once.
    pub proof fn lemma_group_order(&self)
        requires
            self.wf(),
        ensures
            self.group_order().no_duplicates(),
            forall|g: GroupKey| #[trigger] self.group_order().contains(g) <==> self.groups().dom().contains(g),
    {
        self.groups.lemma_key_seq();
    }

    /// A fresh pool with no slots and no groups.
    pub fn new() -> (r: GroupComponentPool<T>)
        ensures
            r.wf(),
            r.slots() == Seq::<Option<T>>::empty(),
            r.atts() == Map::<ObjectRef, Seq<usize>>::empty(),
            r.groups() == Map::<GroupKey, Seq<usize>>::empty(),
    {
        GroupComponentPool { comps: BasicComponentPool::new(), groups: AttachmentsManager::new() }
    }

    /// The number of live components in the pool.
    pub fn len(&self) -> (n: usize)
        requires
            self.wf(),
        ensures
            n == occupied_count(self.slots()),
    {
        self.comps.len()
    }

    /// Whether the pool holds no live component.
    pub fn is_empty(&self) -> (b: bool)
        requires
            self.wf(),
        ensures
            b == (occupied_count(self.slots()) == 0),
    {
        self.comps.is_empty()
    }

    /// After swapping the group relation for an attach or detach whose slot
    /// bookkeeping is already settled, the whole pool is well formed.
    proof fn lemma_group_swap_wf(&self, prev_groups: Map<GroupKey, Seq<usize>>, c: usize)
        requires
            self.comps.wf(),
            self.groups.wf(),
            att_wf(prev_groups),
            forall|g: GroupKey, x: usize|
                #[trigger] att_refs(self.groups@, g).contains(x) ==> x == c || att_refs(
                    prev_groups,
                    g,
                ).contains(x),
            forall|g: GroupKey, k: int|
                prev_groups.dom().contains(g) && 0 <= k < prev_groups[g].len() ==> occupied(
                    self.comps.slots(),
                    #[trigger] prev_groups[g][k] as int,
                ),
            occupied(self.comps.slots(), c as int),
        ensures
            forall|g: GroupKey, k: int|
                self.groups@.dom().contains(g) && 0 <= k < self.groups@[g].len() ==> occupied(
                    self.comps.slots(),
                    #[trigger] self.groups@[g][k] as int,
                ),
    {
        assert forall|g: GroupKey, k: int|
            self.groups@.dom().contains(g) && 0 <= k < self.groups@[g].len() implies occupied(
            self.comps.slots(),
            #[trigger] self.groups@[g][k] as int,
        ) by {
            let x = self.groups@[g][k];
            assert(att_refs(self.groups@, g).contains(x));
            if x != c {
                assert(att_refs(prev_groups, g).contains(x));
                let k0 = choose|k0: int|
                    0 <= k0 < prev_groups[g].len() && prev_groups[g][k0] == x;
                assert(occupied(self.comps.slots(), prev_groups[g][k0] as int));
            }
        }
    }

    /// Store a component as the basic pool does, then place it in the default
    /// group, at the end of its list.
    pub fn add(&mut self, comp: T) -> (r: ComponentRef<T>)
        requires
            old(self).wf(),
            old(self).slots().len() < usize::MAX,
        ensures
            final(self).wf(),
            r.idx() <= old(self).slots().len(),
            forall|j: int| 0 <= j < r.idx() ==> old(self).slots()[j] is Some,
            r.idx() < old(self).slots().len() ==> old(self).slots()[r.idx() as int] is None
                && final(self).slots() == old(self).slots().update(r.idx() as int, Some(comp)),
            r.idx() == old(self).slots().len() ==> final(self).slots() == old(self).slots().push(
                Some(comp),
            ),
            occupied_count(final(self).slots()) == occupied_count(old(self).slots()) + 1,
            final(self).atts() == old(self).atts(),
            final(self).groups() =~= att_attach(old(self).groups(), 0u32, r.idx()),
            final(self).group_order() == old(self).group_order().remove_value(0u32).push(0u32),
    {
        proof {
            self.groups.lemma_wf_model();
        }
        let r = self.comps.add(comp);
        let ghost g0 = self.groups@;
        proof {
            lemma_attach_props(g0, 0u32, r.idx());
            assert(!att_attached(g0, r.idx())) by {
                if att_attached(g0, r.idx()) {
                    let g = choose|g: GroupKey| #[trigger] att_refs(g0, g).contains(r.idx());
                    let k = choose|k: int| 0 <= k < g0[g].len() && g0[g][k] == r.idx();
                    assert(occupied(old(self).comps.slots(), g0[g][k] as int));
                }
            }
        }
        self.groups.attach(0u32, r.index());
        proof {
            self.lemma_group_swap_wf(g0, r.idx());
            assert forall|c: usize| #[trigger] occupied(self.comps.slots(), c as int) implies
                att_attached(self.groups@, c) by {
                if c == r.idx() {
                    assert(att_refs(self.groups@, 0u32).contains(c)) by {
                        let l = att_refs(self.groups@, 0u32);
                        assert(l == att_refs(g0, 0u32).remove_value(c).push(c));
                        assert(l[l.len() - 1] == c);
                    }
                } else {
                    assert(occupied(old(self).comps.slots(), c as int));
                    assert(att_attached(g0, c));
                    let g = choose|g: GroupKey| #[trigger] att_refs(g0, g).contains(c);
                    if g == 0u32 {
                        assert(att_refs(self.groups@, g) == att_refs(g0, g).remove_value(
                            r.idx(),
                        ).push(r.idx()));
                        crate::kv::lemma_remove_value_keeps(
                            att_refs(g0, g),
                            r.idx(),
                            c,
                        );
                        let l0 = choose|l0: int|
                            0 <= l0 < att_refs(g0, g).remove_value(r.idx()).len()
                            && att_refs(g0, g).remove_value(r.idx())[l0] == c;
                        assert(att_refs(self.groups@, g)[l0] == c);
                        assert(att_refs(self.groups@, g).contains(c));
                    } else {
                        assert(att_refs(self.groups@, g) == att_refs(g0, g).remove_value(r.idx()));
                        crate::kv::lemma_remove_value_keeps(
                            att_refs(g0, g),
                            r.idx(),
                            c,
                        );
                        assert(att_refs(self.groups@, g).contains(c));
                    }
                }
            }
        }
        r
    }

    /// Move a component to another group: it leaves its current group's list
    /// (if the move is real) and lands at the end of the new group's list; a
    /// group whose last member leaves is erased entirely. A move to the group
    /// the component is already in changes nothing.
    pub fn update_group(&mut self, r: ComponentRef<T>, new_group: GroupKey)
        requires
            old(self).wf(),
            occupied(old(self).slots(), r.idx() as int),
        ensures
            final(self).wf(),
            final(self).slots() == old(self).slots(),
            final(self).atts() == old(self).atts(),
            att_refs(old(self).groups(), new_group).contains(r.idx()) ==> *final(self) == *old(
                self,
            ),
            final(self).groups() =~= (if att_refs(old(self).groups(), new_group).contains(
                r.idx(),
            ) {
                old(self).groups()
            } else {
                att_attach(old(self).groups(), new_group, r.idx())
            }),
            !att_refs(old(self).groups(), new_group).contains(r.idx())
                ==> final(self).group_order() == detached_keys(
                old(self).groups(),
                old(self).group_order(),
                r.idx(),
            ).remove_value(new_group).push(new_group),
    {
        proof {
            self.groups.lemma_wf_model();
        }
        let ghost g0 = self.groups@;
        let moving = match self.groups.owner_of(r.index()) {
            Some(prev) => prev != new_group,
            None => true,
        };
        if !moving {
            proof {
                assert(att_refs(g0, new_group).contains(r.idx()));
            }
            return;
        }
        proof {
            lemma_attach_props(g0, new_group, r.idx());
            assert(!att_refs(g0, new_group).contains(r.idx()));
        }
        self.groups.attach(new_group, r.index());
        proof {
            self.lemma_group_swap_wf(g0, r.idx());
            self.lemma_group_move_total(g0, new_group, r.idx());
        }
    }

    /// After moving a slot between groups, every occupied slot is still in
    /// some group.
    proof fn lemma_group_move_total(
        &self,
        g0: Map<GroupKey, Seq<usize>>,
        new_group: GroupKey,
        c: usize,
    )
        requires
            att_wf(g0),
            self.groups@ == att_attach(g0, new_group, c),
            forall|x: usize|
                #[trigger] occupied(self.comps.slots(), x as int) ==> x == c || att_attached(
                    g0,
                    x,
                ),
        ensures
            forall|x: usize|
                #[trigger] occupied(self.comps.slots(), x as int) ==> att_attached(
                    self.groups@,
                    x,
                ),
    {
        lemma_attach_props(g0, new_group, c);
        assert forall|x: usize| #[trigger] occupied(self.comps.slots(), x as int) implies
            att_attached(self.groups@, x) by {
            if x == c {
                let l = att_refs(self.groups@, new_group);
                assert(l == att_refs(g0, new_group).remove_value(c).push(c));
                assert(l[l.len() - 1] == c);
                assert(att_refs(self.groups@, new_group).contains(c));
            } else {
                let g = choose|g: GroupKey| #[trigger] att_refs(g0, g).contains(x);
                crate::kv::lemma_remove_value_keeps(att_refs(g0, g), c, x);
                if g == new_group {
                    let m = att_refs(g0, g).remove_value(c);
                    let l0 = choose|l0: int| 0 <= l0 < m.len() && m[l0] == x;
                    assert(att_refs(self.groups@, g)[l0] == x);
                    assert(att_refs(self.groups@, g).contains(x));
                } else {
                    assert(att_refs(self.groups@, g) == att_refs(g0, g).remove_value(c));
                    assert(att_refs(self.groups@, g).contains(x));
                }
            }
        }
    }

    /// Erase the component from its group's bookkeeping (a group losing its
    /// last member is erased entirely), then remove it from the underlying
    /// pool as the basic pool does.
    pub fn remove(&mut self, r: ComponentRef<T>)
        requires
            old(self).wf(),
            occupied(old(self).slots(), r.idx() as int),
        ensures
            final(self).wf(),
            final(self).slots() == trim_tail(old(self).slots().update(r.idx() as int, None)),
            occupied_count(final(self).slots()) == occupied_count(old(self).slots()) - 1,
            final(self).atts() =~= att_detach(old(self).atts(), r.idx()),
            final(self).groups() =~= att_detach(old(self).groups(), r.idx()),
            final(self).group_order() == detached_keys(
                old(self).groups(),
                old(self).group_order(),
                r.idx(),
            ),
    {
        proof {
            self.groups.lemma_wf_model();
            lemma_detach_detaches(self.groups@, r.idx());
        }
        let ghost g0 = self.groups@;
        let ghost s0 = self.comps.slots();
        self.groups.remove(r.index());
        self.comps.remove(r);
        proof {
            let ghost u = s0.update(r.idx() as int, None);
            lemma_trim_tail_is_prefix(u);
            assert forall|g: GroupKey, k: int|
                self.groups@.dom().contains(g) && 0 <= k < self.groups@[g].len() implies occupied(
                self.comps.slots(),
                #[trigger] self.groups@[g][k] as int,
            ) by {
                let x = self.groups@[g][k];
                assert(att_refs(self.groups@, g).contains(x));
                assert(att_refs(self.groups@, g) == att_refs(g0, g).remove_value(r.idx()));
                assert(x != r.idx()) by {
                    if x == r.idx() {
                        assert(att_attached(self.groups@, r.idx()));
                    }
                }
                crate::kv::lemma_remove_value_keeps(
                    att_refs(g0, g),
                    r.idx(),
                    x,
                );
                assert(att_refs(g0, g).contains(x));
                let k0 = choose|k0: int| 0 <= k0 < g0[g].len() && g0[g][k0] == x;
                assert(occupied(s0, g0[g][k0] as int));
                assert(u[x as int] is Some);
                assert(x < self.comps.slots().len());
                assert(self.comps.slots()[x as int] == u.subrange(
                    0,
                    self.comps.slots().len() as int,
                )[x as int]);
            }
            assert forall|c: usize| #[trigger] occupied(self.comps.slots(), c as int) implies
                att_attached(self.groups@, c) by {
                assert(self.comps.slots()[c as int] == u.subrange(
                    0,
                    self.comps.slots().len() as int,
                )[c as int]);
                assert(u[c as int] is Some);
                assert(c != r.idx());
                assert(occupied(s0, c as int));
                assert(att_attached(g0, c));
                let g = choose|g: GroupKey| #[trigger] att_refs(g0, g).contains(c);
                crate::kv::lemma_remove_value_keeps(
                    att_refs(g0, g),
                    r.idx(),
                    c,
                );
                assert(att_refs(self.groups@, g) == att_refs(g0, g).remove_value(r.idx()));
                assert(att_refs(self.groups@, g).contains(c));
            }
        }
    }

    /// Attach an occupied slot to an entity, as the basic pool does.
    pub fn attach(&mut self, entity: ObjectRef, r: ComponentRef<T>)
        requires
            old(self).wf(),
            occupied(old(self).slots(), r.idx() as int),
        ensures
            final(self).wf(),
            final(self).slots() == old(self).slots(),
            final(self).groups() == old(self).groups(),
            final(self).atts() =~= att_attach(old(self).atts(), entity, r.idx()),
    {
        self.comps.attach(entity, r);
    }

    /// Every slot attached to the entity, as handles, in attachment order;
    /// `None` when nothing is attached to the entity.
    pub fn list(&self, entity: ObjectRef) -> (res: Option<Vec<ComponentRef<T>>>)
        requires
            self.wf(),
        ensures
            match res {
                Some(v) => att_has(self.atts(), entity) && v@.len() == att_refs(
                    self.atts(),
                    entity,
                ).len() && forall|k: int|
                    0 <= k < v@.len() ==> (#[trigger] v@[k]).idx() == att_refs(
                        self.atts(),
                        entity,
                    )[k],
                None => !att_has(self.atts(), entity),
            },
    {
        self.comps.list(entity)
    }

    /// Remove every component attached to the entity, group bookkeeping
    /// included, and drop the entity from the attachment index.
    pub fn clear(&mut self, entity: ObjectRef)
        requires
            old(self).wf(),
        ensures
            final(self).wf(),
            final(self).atts() =~= att_clear(old(self).atts(), entity),
            forall|k: int|
                0 <= k < att_refs(old(self).atts(), entity).len() ==> !occupied(
                    final(self).slots(),
                    #[trigger] att_refs(old(self).atts(), entity)[k] as int,
                ),
            occupied_count(final(self).slots()) == occupied_count(old(self).slots()) - att_refs(
                old(self).atts(),
                entity,
            ).len(),
            forall|g: GroupKey, c: usize|
                #[trigger] att_refs(final(self).groups(), g).contains(c) <==> att_refs(
                    old(self).groups(),
                    g,
                ).contains(c) && !att_refs(old(self).atts(), entity).contains(c),
    {
        let ghost m0 = self.comps.atts();
        let ghost g0 = self.groups@;
        let ghost s0 = self.comps.slots();
        proof {
            self.comps.lemma_atts_wf();
            self.groups.lemma_wf_model();
        }
        let ids = match self.comps.list(entity) {
            Some(v) => v,
            None => {
                proof {
                    assert(self.comps.atts() =~= att_clear(m0, entity));
                    assert(att_refs(m0, entity) == Seq::<usize>::empty());
                    assert forall|g: GroupKey, c: usize|
                        #[trigger] att_refs(self.groups@, g).contains(c) <==> att_refs(
                        g0,
                        g,
                    ).contains(c) && !att_refs(m0, entity).contains(c) by {}
                }
                return ;
            },
        };
        let ghost refs0 = att_refs(m0, entity);
        let mut k: usize = 0;
        while k < ids.len()
            invariant
                k <= refs0.len(),
                ids@.len() == refs0.len(),
                forall|l: int| 0 <= l < refs0.len() ==> (#[trigger] ids@[l]).idx() == refs0[l],
                refs0.no_duplicates(),
                att_wf(g0),
                self.comps == old(self).comps,
                self.groups.wf(),
                forall|g: GroupKey, c: usize|
                    #[trigger] att_refs(self.groups@, g).contains(c) <==> att_refs(
                        g0,
                        g,
                    ).contains(c) && !refs0.subrange(0, k as int).contains(c),
            decreases refs0.len() - k,
        {
            let ghost gk = self.groups@;
            proof {
                self.groups.lemma_wf_model();
                lemma_detach_detaches(gk, refs0[k as int]);
            }
            self.groups.remove(ids[k].index());
            proof {
                let c0 = refs0[k as int];
                assert forall|g: GroupKey, c: usize|
                    #[trigger] att_refs(self.groups@, g).contains(c) <==> att_refs(
                    g0,
                    g,
                ).contains(c) && !refs0.subrange(0, k + 1).contains(c) by {
                    assert(att_refs(self.groups@, g) == att_refs(gk, g).remove_value(c0));
                    if c != c0 {
                        crate::kv::lemma_remove_value_keeps(
                            att_refs(gk, g),
                            c0,
                            c,
                        );
                        assert(att_refs(self.groups@, g).contains(c) == att_refs(gk, g).contains(
                            c,
                        ));
                        assert(!refs0.subrange(0, k as int).contains(c) <==> !refs0.subrange(
                            0,
                            k + 1,
                        ).contains(c)) by {
                            if refs0.subrange(0, k as int).contains(c) {
                                let l = choose|l: int|
                                    0 <= l < k && #[trigger] refs0.subrange(0, k as int)[l] == c;
                                assert(refs0.subrange(0, k + 1)[l] == c);
                            }
                            if refs0.subrange(0, k + 1).contains(c) {
                                let l = choose|l: int|
                                    0 <= l < k + 1 && #[trigger] refs0.subrange(0, k + 1)[l] == c;
                                assert(l != k);
                                assert(refs0.subrange(0, k as int)[l] == c);
                            }
                        }
                    } else {
                        assert(!att_refs(self.groups@, g).contains(c)) by {
                            if att_refs(self.groups@, g).contains(c) {
                                assert(att_attached(self.groups@, c0));
                                assert(!att_attached(att_detach(gk, c0), c0));
                            }
                        }
                        assert(refs0.subrange(0, k + 1)[k as int] == c);
                        assert(refs0.subrange(0, k + 1).contains(c));
                    }
                }
            }
            k += 1;
        }
        proof {
            assert(refs0.subrange(0, refs0.len() as int) =~= refs0);
        }
        let ghost mid = *self;
        self.comps.clear(entity);
        proof {
            assert forall|g: GroupKey, kx: int|
                self.groups@.dom().contains(g) && 0 <= kx < self.groups@[g].len() implies occupied(
                self.comps.slots(),
                #[trigger] self.groups@[g][kx] as int,
            ) by {
                let x = self.groups@[g][kx];
                assert(att_refs(self.groups@, g).contains(x));
                assert(att_refs(g0, g).contains(x) && !refs0.contains(x));
                let k0 = choose|k0: int| 0 <= k0 < g0[g].len() && g0[g][k0] == x;
                assert(occupied(s0, g0[g][k0] as int));
                assert(x < self.comps.slots().len() ==> self.comps.slots()[x as int] == (
                if att_refs(m0, entity).contains(x) {
                    None
                } else {
                    s0[x as int]
                }));
                assert(x < self.comps.slots().len()) by {
                    if x >= self.comps.slots().len() {
                        assert(s0[x as int] is None || att_refs(m0, entity).contains(x));
                    }
                }
            }
            assert forall|c: usize| #[trigger] occupied(self.comps.slots(), c as int) implies
                att_attached(self.groups@, c) by {
                assert(self.comps.slots()[c as int] == (if att_refs(m0, entity).contains(c) {
                    None
                } else {
                    s0[c as int]
                }));
                assert(occupied(s0, c as int));
                assert(!refs0.contains(c));
                assert(att_attached(g0, c));
                let g = choose|g: GroupKey| #[trigger] att_refs(g0, g).contains(c);
                assert(att_refs(self.groups@, g).contains(c));
            }
        }
    }

    /// How many slots the backing array has, occupied or not.
    pub fn capacity(&self) -> (n: usize)
        ensures
            n == self.slots().len(),
    {
        self.comps.capacity()
    }

    /// Whether the handle names a live component.
    pub fn contains(&self, r: ComponentRef<T>) -> (b: bool)
        ensures
            b == occupied(self.slots(), r.idx() as int),
    {
        self.comps.contains(r)
    }

    /// Read the component in an occupied slot.
    pub fn get(&self, r: ComponentRef<T>) -> (res: &T)
        requires
            occupied(self.slots(), r.idx() as int),
        ensures
            *res == self.slots()[r.idx() as int]->0,
    {
        self.comps.get(r)
    }

    /// Borrow the component in an occupied slot for writing; only that slot's
    /// value changes, and the slot stays occupied.
    pub fn get_mut(&mut self, r: ComponentRef<T>) -> (res: &mut T)
        requires
            old(self).wf(),
            occupied(old(self).slots(), r.idx() as int),
        ensures
            *res == old(self).slots()[r.idx() as int]->0,
            final(self).slots() == old(self).slots().update(r.idx() as int, Some(*final(res))),
            final(self).atts() == old(self).atts(),
            final(self).groups() == old(self).groups(),
            final(self).wf(),
    {
        proof {
            assert forall|x: T| group_inv(
                old(self).comps.slots().update(r.idx() as int, Some(x)),
                old(self).groups@,
            ) by {
                let s1 = old(self).comps.slots().update(r.idx() as int, Some(x));
                assert forall|c: usize| occupied(s1, c as int) == occupied(
                    old(self).comps.slots(),
                    c as int,
                ) by {}
            }
        }
        self.comps.get_mut(r)
    }

    /// The handle of the first component attached to the entity, if any.
    pub fn first_ref(&self, entity: ObjectRef) -> (res: Option<ComponentRef<T>>)
        requires
            self.wf(),
        ensures
            match res {
                Some(r) => att_refs(self.atts(), entity).len() > 0 && r.idx() == att_refs(
                    self.atts(),
                    entity,
                )[0] && occupied(self.slots(), r.idx() as int),
                None => att_refs(self.atts(), entity).len() == 0,
            },
    {
        self.comps.first_ref(entity)
    }

    /// Read the first component attached to the entity, if any.
    pub fn get_first(&self, entity: ObjectRef) -> (res: Option<&T>)
        requires
            self.wf(),
        ensures
            match res {
                Some(v) => att_refs(self.atts(), entity).len() > 0 && *v == self.slots()[att_refs(
                    self.atts(),
                    entity,
                )[0] as int]->0,
                None => att_refs(self.atts(), entity).len() == 0,
            },
    {
        self.comps.get_first(entity)
    }

    /// Handles of all live components, group by group in iteration order, and
    /// inside each group in insertion order.
    pub fn ordered_refs(&self) -> (v: Vec<ComponentRef<T>>)
        requires
            self.wf(),
        ensures
            v@.len() == att_flatten(self.groups(), self.group_order()).len(),
            forall|k: int|
                0 <= k < v@.len() ==> (#[trigger] v@[k]).idx() == att_flatten(
                    self.groups(),
                    self.group_order(),
                )[k],
    {
        let ids = self.groups.flat_refs();
        let mut v: Vec<ComponentRef<T>> = Vec::new();
        let mut k: usize = 0;
        while k < ids.len()
            invariant
                k <= ids@.len(),
                v@.len() == k,
                forall|l: int| 0 <= l < k ==> (#[trigger] v@[l]).idx() == ids@[l],
            decreases ids@.len() - k,
        {
            v.push(ComponentRef::new(ids[k]));
            k += 1;
        }
        v
    }
}

impl<T> Default for GroupComponentPool<T> {
    /// A fresh pool with no slots and no groups.
    fn default() -> (r: GroupComponentPool<T>)
        ensures
            r.wf(),
            r.slots() == Seq::<Option<T>>::empty(),
            r.atts() == Map::<ObjectRef, Seq<usize>>::empty(),
            r.groups() == Map::<GroupKey, Seq<usize>>::empty(),
    {
        GroupComponentPool::new()
    }
}

} // verus!
