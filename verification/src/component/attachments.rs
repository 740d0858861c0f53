//! The attachment index: a bidirectional relation between entity handles and
//! the component slots they own.
//!
//! The index never owns component data; pools consult it so that destroying an
//! entity can cascade to every component attached to it.

use vstd::prelude::*;
use crate::kv::{map_of, unique_keys, lemma_map_of_dom, lemma_map_of_index, lemma_map_of_push,
    lemma_map_of_remove, lemma_remove_value_keeps, lemma_remove_value_props};
use crate::object::ObjectRef;

verus! {

/// Model of the index: each entity present in the map owns the listed
/// component slots, in attachment order.
pub open spec fn att_has(m: Map<ObjectRef, Seq<usize>>, entity: ObjectRef) -> bool {
    m.dom().contains(entity)
}

/// The slots attached to `entity` (empty when the entity is absent).
pub open spec fn att_refs(m: Map<ObjectRef, Seq<usize>>, entity: ObjectRef) -> Seq<usize> {
    if m.dom().contains(entity) {
        m[entity]
    } else {
        Seq::empty()
    }
}

/// Whether some entity owns slot `c`.
pub open spec fn att_attached(m: Map<ObjectRef, Seq<usize>>, c: usize) -> bool {
    exists|e: ObjectRef| #[trigger] att_refs(m, e).contains(c)
}

/// The entity owning slot `c` (meaningful only when some entity does).
pub open spec fn att_owner(m: Map<ObjectRef, Seq<usize>>, c: usize) -> ObjectRef {
    choose|e: ObjectRef| #[trigger] att_refs(m, e).contains(c)
}

/// In a well-formed relation the owner of an attached slot is unique.
pub proof fn lemma_att_owner(m: Map<ObjectRef, Seq<usize>>, c: usize, e: ObjectRef)
    requires
        att_wf(m),
        att_refs(m, e).contains(c),
    ensures
        att_owner(m, c) == e,
{
    let e2 = att_owner(m, c);
    assert(att_refs(m, e2).contains(c));
}

/// The key order after a detach: the owner's entry moves to the end of the
/// order unless it drained away; nothing happens when the slot was attached
/// nowhere.
pub open spec fn detached_keys(
    m: Map<ObjectRef, Seq<usize>>,
    keys: Seq<ObjectRef>,
    c: usize,
) -> Seq<ObjectRef> {
    if att_attached(m, c) {
        if att_refs(m, att_owner(m, c)).len() == 1 {
            keys.remove_value(att_owner(m, c))
        } else {
            keys.remove_value(att_owner(m, c)).push(att_owner(m, c))
        }
    } else {
        keys
    }
}

/// Well-formed model: every present entity owns at least one slot, no slot is
/// listed twice for one entity, and no slot is owned by two entities.
pub open spec fn att_wf(m: Map<ObjectRef, Seq<usize>>) -> bool {
    &&& forall|e: ObjectRef|
        m.dom().contains(e) ==> (#[trigger] m[e]).no_duplicates() && m[e].len() > 0
    &&& forall|e1: ObjectRef, e2: ObjectRef, c: usize|
        #[trigger] att_refs(m, e1).contains(c) && #[trigger] att_refs(m, e2).contains(c)
            ==> e1 == e2
}

/// Detaching a slot erases it from every entity's list; order of the other
/// slots is kept, and an entity whose list drains this way is dropped from
/// the relation entirely.
pub open spec fn att_detach(m: Map<ObjectRef, Seq<usize>>, c: usize) -> Map<ObjectRef, Seq<usize>> {
    Map::new(
        |e: ObjectRef| m.dom().contains(e) && m[e].remove_value(c).len() > 0,
        |e: ObjectRef| m[e].remove_value(c),
    )
}

/// Attaching moves the slot to the end of `entity`'s list, erasing any prior
/// ownership: the last attach wins.
pub open spec fn att_attach(
    m: Map<ObjectRef, Seq<usize>>,
    entity: ObjectRef,
    c: usize,
) -> Map<ObjectRef, Seq<usize>> {
    let m1 = att_detach(m, c);
    if m1.dom().contains(entity) {
        m1.insert(entity, m1[entity].push(c))
    } else {
        m1.insert(entity, seq![c])
    }
}

/// Clearing removes the entity and its whole list from the relation.
pub open spec fn att_clear(m: Map<ObjectRef, Seq<usize>>, entity: ObjectRef) -> Map<
    ObjectRef,
    Seq<usize>,
> {
    m.remove(entity)
}

/// Detaching from a well-formed relation leaves the slot attached nowhere and
/// keeps the relation well formed; an entity stays present exactly while it
/// still owns a slot.
pub proof fn lemma_detach_detaches(m: Map<ObjectRef, Seq<usize>>, c: usize)
    requires
        att_wf(m),
    ensures
        att_wf(att_detach(m, c)),
        !att_attached(att_detach(m, c), c),
        forall|e: ObjectRef| #[trigger] att_has(att_detach(m, c), e) ==> att_has(m, e),
        forall|e: ObjectRef| #[trigger] att_refs(att_detach(m, c), e)
            == att_refs(m, e).remove_value(c),
{
    let d = att_detach(m, c);
    assert forall|e: ObjectRef| #[trigger] att_refs(d, e) == att_refs(m, e).remove_value(c) by {
        if !m.dom().contains(e) {
            Seq::<usize>::empty().index_of_first_ensures(c);
        }
    }
    assert forall|e: ObjectRef| d.dom().contains(e) implies
        (#[trigger] d[e]).no_duplicates() && d[e].len() > 0 by {
        lemma_remove_value_props(m[e], c);
        assert(d[e] == m[e].remove_value(c));
    }
    assert forall|e1: ObjectRef, e2: ObjectRef, x: usize|
        #[trigger] att_refs(d, e1).contains(x) && #[trigger] att_refs(d, e2).contains(x)
        implies e1 == e2 by {
        lemma_remove_value_props(m[e1], c);
        lemma_remove_value_props(m[e2], c);
        assert(x != c);
        assert(att_refs(m, e1).contains(x) && att_refs(m, e2).contains(x));
    }
    assert forall|e: ObjectRef| !(#[trigger] att_refs(d, e).contains(c)) by {
        if m.dom().contains(e) {
            lemma_remove_value_props(m[e], c);
        }
    }
}

/// The slots of the relation laid out one key after another: each key's list
/// in order, keys in the order given.
pub open spec fn att_flatten(m: Map<ObjectRef, Seq<usize>>, keys: Seq<ObjectRef>) -> Seq<usize>
    decreases keys.len(),
{
    if keys.len() == 0 {
        Seq::empty()
    } else {
        att_flatten(m, keys.drop_last()) + att_refs(m, keys.last())
    }
}

/// Flattening one more key appends that key's list.
pub proof fn lemma_att_flatten_push(
    m: Map<ObjectRef, Seq<usize>>,
    keys: Seq<ObjectRef>,
    e: ObjectRef,
)
    ensures
        att_flatten(m, keys.push(e)) == att_flatten(m, keys) + att_refs(m, e),
{
    assert(keys.push(e).drop_last() =~= keys);
}

/// Shape of the relation after an attach: the slot stands at the end of the
/// entity's list, and no other membership appears.
pub proof fn lemma_attach_props(m: Map<ObjectRef, Seq<usize>>, entity: ObjectRef, c: usize)
    requires
        att_wf(m),
    ensures
        att_wf(att_attach(m, entity, c)),
        att_has(att_attach(m, entity, c), entity),
        forall|e: ObjectRef|
            e != entity ==> (#[trigger] att_has(att_attach(m, entity, c), e) ==> att_has(m, e)),
        att_refs(att_attach(m, entity, c), entity) == att_refs(m, entity).remove_value(c).push(c),
        forall|e: ObjectRef|
            e != entity ==> #[trigger] att_refs(att_attach(m, entity, c), e) == att_refs(
                m,
                e,
            ).remove_value(c),
        forall|e: ObjectRef, x: usize|
            #[trigger] att_refs(att_attach(m, entity, c), e).contains(x) ==> x == c || att_refs(
                m,
                e,
            ).contains(x),
{
    lemma_detach_detaches(m, c);
    let m1 = att_detach(m, c);
    let m2 = att_attach(m, entity, c);
    if !m1.dom().contains(entity) {
        assert(att_refs(m1, entity) == Seq::<usize>::empty());
        assert(att_refs(m1, entity) == att_refs(m, entity).remove_value(c));
        assert(att_refs(m2, entity) =~= att_refs(m, entity).remove_value(c).push(c));
    } else {
        assert(att_refs(m2, entity) == att_refs(m1, entity).push(c));
        assert(att_refs(m1, entity) == att_refs(m, entity).remove_value(c));
    }
    assert forall|e: ObjectRef| e != entity implies #[trigger] att_refs(m2, e) == att_refs(
        m,
        e,
    ).remove_value(c) by {
        assert(att_refs(m2, e) == att_refs(m1, e));
        assert(att_refs(m1, e) == att_refs(m, e).remove_value(c));
    }
    assert forall|e: ObjectRef, x: usize| #[trigger] att_refs(m2, e).contains(x) implies
        x == c || att_refs(m, e).contains(x) by {
        if x != c {
            if e == entity {
                let l = choose|l: int| 0 <= l < att_refs(m2, e).len() && att_refs(m2, e)[l] == x;
                assert(l < att_refs(m2, e).len() - 1);
                assert(att_refs(m, e).remove_value(c)[l] == x);
                if m.dom().contains(e) {
                    lemma_remove_value_props(m[e], c);
                } else {
                    Seq::<usize>::empty().index_of_first_ensures(c);
                }
            } else {
                assert(att_refs(m2, e) == att_refs(m1, e));
                if m.dom().contains(e) {
                    lemma_remove_value_props(m[e], c);
                } else {
                    Seq::<usize>::empty().index_of_first_ensures(c);
                }
            }
        }
    }
    assert forall|e: ObjectRef| m2.dom().contains(e) implies
        (#[trigger] m2[e]).no_duplicates() && m2[e].len() > 0 by {
        if e == entity {
            if m.dom().contains(e) {
                lemma_remove_value_props(m[e], c);
            } else {
                Seq::<usize>::empty().index_of_first_ensures(c);
            }
            let l = att_refs(m, entity).remove_value(c).push(c);
            assert(m2[entity] == l);
            assert forall|a: int, b: int| 0 <= a < l.len() && 0 <= b < l.len() && a != b implies
                l[a] != l[b] by {
                assert(!att_refs(m, entity).remove_value(c).contains(c));
            }
        } else {
            assert(m2[e] == m1[e]);
        }
    }
    assert forall|e1: ObjectRef, e2: ObjectRef, x: usize|
        #[trigger] att_refs(m2, e1).contains(x) && #[trigger] att_refs(m2, e2).contains(x)
        implies e1 == e2 by {
        if x == c {
            if e1 != entity {
                assert(att_refs(m2, e1) == att_refs(m1, e1));
                assert(att_attached(m1, c));
            }
            if e2 != entity {
                assert(att_refs(m2, e2) == att_refs(m1, e2));
                assert(att_attached(m1, c));
            }
        } else {
            assert(att_refs(m, e1).contains(x) && att_refs(m, e2).contains(x));
        }
    }
}

/// After attaching a slot and clearing the entity, the entity keeps no
/// attachments at all: what the clear hands out is exactly what was attached.
pub proof fn lemma_clear_after_attach(m: Map<ObjectRef, Seq<usize>>, entity: ObjectRef, c: usize)
    requires
        att_wf(m),
    ensures
        att_refs(att_attach(m, entity, c), entity) == att_refs(m, entity).remove_value(c).push(c),
        !att_has(att_clear(att_attach(m, entity, c), entity), entity),
        att_refs(att_clear(att_attach(m, entity, c), entity), entity) == Seq::<usize>::empty(),
{
    lemma_attach_props(m, entity, c);
}

/// Relates entity handles to the component slots attached to them, in both
/// directions: entity to slot list, and slot back to its owning entity. An
/// entity is present exactly while something is attached to it.
pub struct AttachmentsManager {
    entries: Vec<(ObjectRef, Vec<usize>)>,
    inverse: Vec<Option<ObjectRef>>,
}

impl View for AttachmentsManager {
    type V = Map<ObjectRef, Seq<usize>>;

    closed spec fn view(&self) -> Map<ObjectRef, Seq<usize>> {
        map_of(self.pairs())
    }
}

impl AttachmentsManager {
    spec fn pairs(&self) -> Seq<(ObjectRef, Seq<usize>)> {
        self.entries@.map_values(|p: (ObjectRef, Vec<usize>)| (p.0, p.1@))
    }

    /// The forward lists and the inverse slot map agree with each other.
    pub closed spec fn wf(&self) -> bool {
        &&& unique_keys(self.pairs())
        &&& forall|i: int|
            0 <= i < self.entries@.len() ==> (#[trigger] self.entries@[i].1@).no_duplicates()
                && self.entries@[i].1@.len() > 0
        &&& forall|i: int, j: int|
            0 <= i < self.entries@.len() && 0 <= j < self.entries@[i].1@.len()
                ==> #[trigger] self.entries@[i].1@[j] < self.inverse@.len()
                && self.inverse@[self.entries@[i].1@[j] as int] == Some(self.entries@[i].0)
        &&& forall|c: usize|
            c < self.inverse@.len() && (#[trigger] self.inverse@[c as int]) is Some
                ==> exists|i: int|
                    0 <= i < self.entries@.len()
                    && self.entries@[i].0 == self.inverse@[c as int]->0
                    && (#[trigger] self.entries@[i].1@).contains(c)
    }

    proof fn lemma_entry_view(&self, i: int)
        requires
            self.wf(),
            0 <= i < self.entries@.len(),
        ensures
            self@.dom().contains(self.entries@[i].0),
            self@[self.entries@[i].0] == self.entries@[i].1@,
    {
        lemma_map_of_index(self.pairs(), i);
    }

    proof fn lemma_absent_view(&self, entity: ObjectRef)
        requires
            forall|i: int| 0 <= i < self.entries@.len() ==> self.entries@[i].0 != entity,
        ensures
            !self@.dom().contains(entity),
    {
        lemma_map_of_dom(self.pairs(), entity);
    }

    /// A well-formed index has a well-formed model.
    pub proof fn lemma_wf_model(&self)
        requires
            self.wf(),
        ensures
            att_wf(self@),
    {
        assert forall|e: ObjectRef| self@.dom().contains(e) implies
            (#[trigger] self@[e]).no_duplicates() && self@[e].len() > 0 by {
            lemma_map_of_dom(self.pairs(), e);
            let i = choose|i: int| 0 <= i < self.pairs().len() && self.pairs()[i].0 == e;
            self.lemma_entry_view(i);
        }
        assert forall|e1: ObjectRef, e2: ObjectRef, c: usize|
            #[trigger] att_refs(self@, e1).contains(c) && #[trigger] att_refs(self@, e2).contains(c)
            implies e1 == e2 by {
            lemma_map_of_dom(self.pairs(), e1);
            lemma_map_of_dom(self.pairs(), e2);
            let i1 = choose|i: int| 0 <= i < self.pairs().len() && self.pairs()[i].0 == e1;
            let i2 = choose|i: int| 0 <= i < self.pairs().len() && self.pairs()[i].0 == e2;
            self.lemma_entry_view(i1);
            self.lemma_entry_view(i2);
            let j1 = choose|j: int|
                0 <= j < self.entries@[i1].1@.len() && self.entries@[i1].1@[j] == c;
            let j2 = choose|j: int|
                0 <= j < self.entries@[i2].1@.len() && self.entries@[i2].1@[j] == c;
            assert(self.inverse@[c as int] == Some(self.entries@[i1].0));
            assert(self.inverse@[c as int] == Some(self.entries@[i2].0));
        }
    }

    /// A fresh index, with nothing attached.
    pub fn new() -> (r: AttachmentsManager)
        ensures
            r.wf(),
            r@ == Map::<ObjectRef, Seq<usize>>::empty(),
    {
        let r = AttachmentsManager { entries: Vec::new(), inverse: Vec::new() };
        proof {
            assert(r.pairs() =~= Seq::empty());
        }
        r
    }

    /// Attach a component slot to an entity, recording both directions of the
    /// relation. Any prior attachment of the slot is erased first: the last
    /// attach wins. The slot lands at the end of the entity's list.
    pub fn attach(&mut self, entity: ObjectRef, component: usize)
        requires
            old(self).wf(),
        ensures
            final(self).wf(),
            final(self)@ =~= att_attach(old(self)@, entity, component),
            final(self).key_seq() == detached_keys(
                old(self)@,
                old(self).key_seq(),
                component,
            ).remove_value(entity).push(entity),
    {
        let ghost m0 = self@;
        let ghost keys0 = self.key_seq();
        proof {
            self.lemma_wf_model();
        }
        self.remove(component);
        proof {
            lemma_detach_detaches(m0, component);
        }
        let ghost s1 = *self;
        let ghost m1 = self@;
        while self.inverse.len() <= component
            invariant
                self.entries == s1.entries,
                s1.inverse@.len() <= self.inverse@.len(),
                forall|k: int| 0 <= k < s1.inverse@.len() ==> self.inverse@[k] == s1.inverse@[k],
                forall|k: int|
                    s1.inverse@.len() <= k < self.inverse@.len() ==> self.inverse@[k] is None,
            decreases component + 1 - self.inverse@.len(),
        {
            self.inverse.push(None);
        }
        proof {
            assert(self.pairs() =~= s1.pairs());
            assert(self@ == m1);
            assert(self.wf()) by {
                assert forall|c: usize|
                    c < self.inverse@.len() && (#[trigger] self.inverse@[c as int]) is Some
                    implies exists|i: int|
                        0 <= i < self.entries@.len()
                        && self.entries@[i].0 == self.inverse@[c as int]->0
                        && (#[trigger] self.entries@[i].1@).contains(c) by {
                    assert(c < s1.inverse@.len());
                    assert(s1.inverse@[c as int] == self.inverse@[c as int]);
                }
            }
        }
        let ghost s2 = *self;
        proof {
            // No list holds the slot once it is detached.
            assert forall|k: int, l: int|
                0 <= k < s2.entries@.len() && 0 <= l < s2.entries@[k].1@.len() implies
                #[trigger] s2.entries@[k].1@[l] != component by {
                s2.lemma_entry_view(k);
                let e2 = s2.entries@[k].0;
                if s2.entries@[k].1@[l] == component {
                    assert(att_refs(m1, e2).contains(component));
                }
            }
        }
        self.inverse[component] = Some(entity);
        match self.find_entity(entity) {
            Some(i) => {
                proof {
                    s2.lemma_entry_view(i as int);
                }
                let ghost p2 = s2.pairs();
                let ghost list2 = self.entries@[i as int].1@;
                let mut pair = self.entries.remove(i);
                pair.1.push(component);
                let ghost list3 = pair.1@;
                self.entries.push(pair);
                proof {
                    assert(list3 == list2.push(component));
                    assert(self.pairs() =~= p2.remove(i as int).push((entity, list3)));
                    lemma_map_of_remove(p2, i as int);
                    assert forall|k: int| 0 <= k < p2.remove(i as int).len()
                        implies p2.remove(i as int)[k].0 != entity by {
                        let k0 = if k < i { k } else { k + 1 };
                        assert(p2.remove(i as int)[k] == p2[k0]);
                    }
                    lemma_map_of_push(p2.remove(i as int), entity, list3);
                    assert(self@ == m1.remove(entity).insert(entity, list3));
                    assert(m1.dom().contains(entity));
                    assert(m1[entity] == list2);
                    assert(self@ =~= att_attach(m0, entity, component));
                    self.lemma_attach_wf(s2, entity, i as int, component);
                    s2.lemma_key_seq();
                    assert(s2.key_seq()[i as int] == entity);
                    crate::kv::lemma_remove_value_at(s2.key_seq(), i as int);
                    assert(self.key_seq() =~= s2.key_seq().remove(i as int).push(entity));
                    assert(self.key_seq() == detached_keys(m0, keys0, component).remove_value(
                        entity,
                    ).push(entity));
                }
            },
            None => {
                let mut l: Vec<usize> = Vec::new();
                l.push(component);
                self.entries.push((entity, l));
                proof {
                    assert(self.pairs() =~= s2.pairs().push((entity, seq![component])));
                    assert forall|k: int| 0 <= k < s2.pairs().len()
                        implies s2.pairs()[k].0 != entity by {
                        assert(s2.pairs()[k].0 == s2.entries@[k].0);
                    }
                    lemma_map_of_push(s2.pairs(), entity, seq![component]);
                    assert(self@ == m1.insert(entity, seq![component]));
                    s2.lemma_absent_view(entity);
                    assert(!m1.dom().contains(entity));
                    assert(self@ =~= att_attach(m0, entity, component));
                    self.lemma_attach_fresh_wf(s2, entity, component);
                    assert(!s2.key_seq().contains(entity)) by {
                        if s2.key_seq().contains(entity) {
                            let k = choose|k: int|
                                0 <= k < s2.key_seq().len() && s2.key_seq()[k] == entity;
                            assert(s2.entries@[k].0 == entity);
                        }
                    }
                    s2.key_seq().index_of_first_ensures(entity);
                    assert(self.key_seq() =~= s2.key_seq().push(entity));
                    assert(self.key_seq() == detached_keys(m0, keys0, component).remove_value(
                        entity,
                    ).push(entity));
                }
            },
        }
    }

    /// Re-queuing an entity's list with the freshly attached slot keeps the
    /// index well formed.
    proof fn lemma_attach_wf(
        &self,
        s2: AttachmentsManager,
        e: ObjectRef,
        i: int,
        component: usize,
    )
        requires
            s2.wf(),
            0 <= i < s2.entries@.len(),
            s2.entries@[i].0 == e,
            component < s2.inverse@.len(),
            forall|k: int, l: int|
                0 <= k < s2.entries@.len() && 0 <= l < s2.entries@[k].1@.len()
                    ==> #[trigger] s2.entries@[k].1@[l] != component,
            self.pairs() =~= s2.pairs().remove(i).push((e, s2.entries@[i].1@.push(component))),
            self.inverse@ =~= s2.inverse@.update(component as int, Some(e)),
        ensures
            self.wf(),
    {
        let n = self.entries@.len() as int;
        let ghost old_list = s2.entries@[i].1@;
        let ghost new_list = old_list.push(component);
        let ghost back = |k: int| if k == n - 1 { i } else if k < i { k } else { k + 1 };
        s2.pairs().remove_ensures(i);
        assert(self.pairs().len() == self.entries@.len());
        assert(s2.pairs().len() == s2.entries@.len());
        assert(s2.pairs().remove(i).len() == s2.pairs().len() - 1);
        assert(self.pairs().len() == s2.pairs().remove(i).len() + 1);
        assert(n == s2.entries@.len());
        assert forall|k: int| 0 <= k < n implies self.entries@[k].0 == s2.entries@[back(k)].0
            && (k != n - 1 ==> self.entries@[k].1@ == s2.entries@[back(k)].1@)
            && (k == n - 1 ==> self.entries@[k].1@ == new_list) by {
            assert(self.pairs()[k] == (self.entries@[k].0, self.entries@[k].1@));
            if k < n - 1 {
                assert(self.pairs()[k] == s2.pairs().remove(i)[k]);
                assert(s2.pairs().remove(i)[k] == s2.pairs()[back(k)]);
                assert(s2.pairs()[back(k)] == (s2.entries@[back(k)].0, s2.entries@[back(k)].1@));
            } else {
                assert(self.pairs()[k] == (e, new_list));
            }
        }
        assert(unique_keys(self.pairs())) by {
            assert forall|a: int, b: int| 0 <= a < n && 0 <= b < n && a != b implies
                self.pairs()[a].0 != self.pairs()[b].0 by {
                assert(self.pairs()[a].0 == self.entries@[a].0);
                assert(self.pairs()[b].0 == self.entries@[b].0);
                assert(self.entries@[a].0 == s2.entries@[back(a)].0);
                assert(self.entries@[b].0 == s2.entries@[back(b)].0);
                assert(back(a) != back(b));
                assert(s2.pairs()[back(a)].0 == s2.entries@[back(a)].0);
                assert(s2.pairs()[back(b)].0 == s2.entries@[back(b)].0);
                assert(s2.pairs()[back(a)].0 != s2.pairs()[back(b)].0);
            }
        }
        assert forall|k: int| 0 <= k < n implies (#[trigger] self.entries@[k].1@).no_duplicates() by {
            if k == n - 1 {
                assert forall|a: int, b: int|
                    0 <= a < new_list.len() && 0 <= b < new_list.len() && a != b implies
                    new_list[a] != new_list[b] by {}
            } else {
                assert(self.entries@[k].1@ == s2.entries@[back(k)].1@);
            }
        }
        assert forall|k: int, l: int|
            0 <= k < n && 0 <= l < self.entries@[k].1@.len() implies
            #[trigger] self.entries@[k].1@[l] < self.inverse@.len()
            && self.inverse@[self.entries@[k].1@[l] as int] == Some(self.entries@[k].0) by {
            if k == n - 1 {
                if l < new_list.len() - 1 {
                    assert(self.entries@[k].1@[l] == old_list[l]);
                    assert(old_list[l] != component);
                } else {
                    assert(self.entries@[k].1@[l] == component);
                }
            } else {
                assert(self.entries@[k].1@[l] == s2.entries@[back(k)].1@[l]);
                assert(s2.entries@[back(k)].1@[l] != component);
            }
        }
        assert forall|c: usize|
            c < self.inverse@.len() && (#[trigger] self.inverse@[c as int]) is Some implies
            exists|k: int|
                0 <= k < self.entries@.len() && self.entries@[k].0 == self.inverse@[c as int]->0
                && (#[trigger] self.entries@[k].1@).contains(c) by {
            if c == component {
                assert(self.entries@[n - 1].0 == e);
                assert(self.entries@[n - 1].1@ == new_list);
                assert(new_list[new_list.len() - 1] == component);
                assert(self.entries@[n - 1].1@.contains(c));
            } else {
                assert(s2.inverse@[c as int] is Some);
                let k0 = choose|k0: int|
                    0 <= k0 < s2.entries@.len() && s2.entries@[k0].0 == s2.inverse@[c as int]->0
                    && (#[trigger] s2.entries@[k0].1@).contains(c);
                let k = if k0 == i { n - 1 } else if k0 < i { k0 } else { k0 - 1 };
                assert(self.entries@[k].0 == s2.entries@[k0].0);
                if k0 == i {
                    let l0 = choose|l0: int| 0 <= l0 < old_list.len() && old_list[l0] == c;
                    assert(new_list[l0] == c);
                } else {
                    assert(self.entries@[k].1@ == s2.entries@[k0].1@);
                }
                assert(self.entries@[k].1@.contains(c));
            }
        }
    }

    /// Appending a fresh entity with its first slot keeps the index well
    /// formed.
    proof fn lemma_attach_fresh_wf(&self, s2: AttachmentsManager, e: ObjectRef, component: usize)
        requires
            s2.wf(),
            forall|k: int| 0 <= k < s2.entries@.len() ==> s2.entries@[k].0 != e,
            component < s2.inverse@.len(),
            forall|k: int, l: int|
                0 <= k < s2.entries@.len() && 0 <= l < s2.entries@[k].1@.len()
                    ==> #[trigger] s2.entries@[k].1@[l] != component,
            self.pairs() =~= s2.pairs().push((e, seq![component])),
            self.inverse@ =~= s2.inverse@.update(component as int, Some(e)),
        ensures
            self.wf(),
    {
        let n = self.entries@.len() as int;
        assert(self.pairs().len() == self.entries@.len());
        assert(s2.pairs().len() == s2.entries@.len());
        assert(self.pairs().len() == s2.pairs().len() + 1);
        assert(n == s2.entries@.len() + 1);
        assert forall|k: int| 0 <= k < n implies
            (k != n - 1 ==> self.entries@[k].0 == s2.entries@[k].0
                && self.entries@[k].1@ == s2.entries@[k].1@)
            && (k == n - 1 ==> self.entries@[k].0 == e
                && self.entries@[k].1@ == seq![component]) by {
            assert(self.pairs()[k] == (self.entries@[k].0, self.entries@[k].1@));
            if k < n - 1 {
                assert(self.pairs()[k] == s2.pairs()[k]);
                assert(s2.pairs()[k] == (s2.entries@[k].0, s2.entries@[k].1@));
            } else {
                assert(self.pairs()[k] == (e, seq![component]));
            }
        }
        assert(unique_keys(self.pairs())) by {
            assert forall|a: int, b: int| 0 <= a < n && 0 <= b < n && a != b implies
                self.pairs()[a].0 != self.pairs()[b].0 by {
                assert(self.pairs()[a].0 == self.entries@[a].0);
                assert(self.pairs()[b].0 == self.entries@[b].0);
                if a < n - 1 && b < n - 1 {
                    assert(s2.pairs()[a].0 == s2.entries@[a].0);
                    assert(s2.pairs()[b].0 == s2.entries@[b].0);
                    assert(s2.pairs()[a].0 != s2.pairs()[b].0);
                }
            }
        }
        assert forall|k: int| 0 <= k < n implies (#[trigger] self.entries@[k].1@).no_duplicates() by {
            if k < n - 1 {
                assert(self.entries@[k].1@ == s2.entries@[k].1@);
            }
        }
        assert forall|k: int, l: int|
            0 <= k < n && 0 <= l < self.entries@[k].1@.len() implies
            #[trigger] self.entries@[k].1@[l] < self.inverse@.len()
            && self.inverse@[self.entries@[k].1@[l] as int] == Some(self.entries@[k].0) by {
            if k == n - 1 {
                assert(self.entries@[k].1@[l] == component);
            } else {
                assert(self.entries@[k].1@[l] == s2.entries@[k].1@[l]);
                assert(s2.entries@[k].1@[l] != component);
            }
        }
        assert forall|c: usize|
            c < self.inverse@.len() && (#[trigger] self.inverse@[c as int]) is Some implies
            exists|k: int|
                0 <= k < self.entries@.len() && self.entries@[k].0 == self.inverse@[c as int]->0
                && (#[trigger] self.entries@[k].1@).contains(c) by {
            if c == component {
                assert(self.entries@[n - 1].0 == e);
                assert(self.entries@[n - 1].1@ == seq![component]);
                assert(self.entries@[n - 1].1@[0] == c);
                assert(self.entries@[n - 1].1@.contains(c));
            } else {
                assert(s2.inverse@[c as int] is Some);
                let k0 = choose|k0: int|
                    0 <= k0 < s2.entries@.len() && s2.entries@[k0].0 == s2.inverse@[c as int]->0
                    && (#[trigger] s2.entries@[k0].1@).contains(c);
                assert(self.entries@[k0].1@ == s2.entries@[k0].1@);
                assert(self.entries@[k0].1@.contains(c));
            }
        }
    }

    /// Detach one component slot from whichever entity owns it; no effect if
    /// the slot is attached nowhere. The owner's other slots keep their order,
    /// and an entity left with no slots is dropped from the relation.
    pub fn remove(&mut self, component: usize)
        requires
            old(self).wf(),
        ensures
            final(self).wf(),
            final(self)@ =~= att_detach(old(self)@, component),
            final(self).key_seq() == detached_keys(old(self)@, old(self).key_seq(), component),
    {
        let ghost m0 = self@;
        proof {
            old(self).lemma_key_seq();
            old(self).lemma_wf_model();
        }
        if component < self.inverse.len() {
            if let Some(e) = self.inverse[component] {
                if let Some(i) = self.find_entity(e) {
                    let ghost p0 = self.pairs();
                    let ghost list0 = self.entries@[i as int].1@;
                    proof {
                        self.lemma_entry_view(i as int);
                    }
                    let mut pair = self.entries.remove(i);
                    if let Some(j) = find_slot(&pair.1, component) {
                        proof {
                            list0.index_of_first_ensures(component);
                        }
                        pair.1.remove(j);
                        let ghost list1 = pair.1@;
                        if pair.1.len() == 0 {
                            // the owner's last slot went away: drop its entry
                            self.inverse[component] = None;
                            proof {
                                assert(list1 =~= list0.remove_value(component));
                                assert(list0 =~= seq![component]);
                                assert(self.pairs() =~= p0.remove(i as int));
                                lemma_map_of_remove(p0, i as int);
                                assert(self@ =~= m0.remove(e));
                                self.lemma_detach_shape_drained(*old(self), m0, e, i as int, component);
                                assert(self@ =~= att_detach(m0, component));
                                assert(att_refs(m0, e).contains(component)) by {
                                    assert(att_refs(m0, e)[0] == component);
                                }
                                lemma_att_owner(m0, component, e);
                                assert(old(self).key_seq()[i as int] == e);
                                crate::kv::lemma_remove_value_at(old(self).key_seq(), i as int);
                                assert(self.key_seq() =~= old(self).key_seq().remove(i as int));
                                assert(att_refs(m0, e).len() == 1);
                                assert(self.key_seq() == detached_keys(
                                    m0,
                                    old(self).key_seq(),
                                    component,
                                ));
                                assert forall|c2: usize| c2 < self.inverse@.len() implies
                                    #[trigger] self.inverse@[c2 as int] == (
                                if old(self).entries@[i as int].1@.contains(c2) {
                                    None
                                } else {
                                    old(self).inverse@[c2 as int]
                                }) by {
                                    if old(self).entries@[i as int].1@.contains(c2) {
                                        assert(list0[0] == component);
                                        assert(c2 == component);
                                    }
                                }
                                self.lemma_clear_wf(*old(self), e, i as int);
                            }
                        } else {
                            self.entries.push(pair);
                            self.inverse[component] = None;
                            proof {
                                assert(list1 =~= list0.remove_value(component));
                                assert(self.pairs() =~= p0.remove(i as int).push((e, list1)));
                                lemma_map_of_remove(p0, i as int);
                                assert forall|k: int| 0 <= k < p0.remove(i as int).len()
                                    implies p0.remove(i as int)[k].0 != e by {
                                    let k0 = if k < i { k } else { k + 1 };
                                    assert(p0.remove(i as int)[k] == p0[k0]);
                                }
                                lemma_map_of_push(p0.remove(i as int), e, list1);
                                assert(self@ == m0.remove(e).insert(e, list1));
                                self.lemma_detach_shape(*old(self), m0, e, i as int, component);
                                assert(self@ =~= att_detach(m0, component));
                                self.lemma_detach_wf(*old(self), e, i as int, j as int, component);
                                assert(att_refs(m0, e).contains(component)) by {
                                    assert(att_refs(m0, e)[j as int] == component);
                                }
                                lemma_att_owner(m0, component, e);
                                assert(old(self).key_seq()[i as int] == e);
                                crate::kv::lemma_remove_value_at(old(self).key_seq(), i as int);
                                assert(self.key_seq() =~= old(self).key_seq().remove(
                                    i as int,
                                ).push(e));
                                assert(att_refs(m0, e).len() != 1);
                                assert(self.key_seq() == detached_keys(
                                    m0,
                                    old(self).key_seq(),
                                    component,
                                ));
                            }
                        }
                    } else {
                        proof {
                            // The inverse map said the owner's list holds this slot.
                            assert(old(self).inverse@[component as int] is Some);
                            let i0 = choose|i0: int|
                                0 <= i0 < old(self).entries@.len() && old(self).entries@[i0].0 == e
                                && (#[trigger] old(self).entries@[i0].1@).contains(component);
                            assert(old(self).pairs()[i0].0 == e);
                            assert(old(self).pairs()[i as int].0 == e);
                            assert(i0 == i as int);
                            assert(pair.1@.contains(component));
                            assert(false);
                        }
                    }
                } else {
                    proof {
                        // The inverse map names an owner, so its entry exists.
                        assert(self.inverse@[component as int] is Some);
                        let i0 = choose|i0: int|
                            0 <= i0 < self.entries@.len() && self.entries@[i0].0 == e
                            && (#[trigger] self.entries@[i0].1@).contains(component);
                        assert(false);
                    }
                }
            } else {
                proof {
                    self.lemma_not_attached(component);
                    self.lemma_no_owner(component);
                    assert(self@ =~= att_detach(m0, component));
                }
            }
        } else {
            proof {
                self.lemma_not_attached(component);
                self.lemma_no_owner(component);
                assert(self@ =~= att_detach(m0, component));
            }
        }
    }

    /// When the inverse map has no owner for the slot, detaching changes
    /// nothing in the model.
    proof fn lemma_not_attached(&self, component: usize)
        requires
            self.wf(),
            component >= self.inverse@.len() || self.inverse@[component as int] is None,
        ensures
            att_detach(self@, component) =~= self@,
    {
        assert forall|e: ObjectRef| self@.dom().contains(e) implies
            self@[e].remove_value(component) == self@[e] && self@[e].len() > 0 by {
            lemma_map_of_dom(self.pairs(), e);
            let i = choose|i: int| 0 <= i < self.pairs().len() && self.pairs()[i].0 == e;
            self.lemma_entry_view(i);
            assert(!self.entries@[i].1@.contains(component)) by {
                if self.entries@[i].1@.contains(component) {
                    let j = choose|j: int|
                        0 <= j < self.entries@[i].1@.len() && self.entries@[i].1@[j] == component;
                    assert(self.inverse@[component as int] == Some(self.entries@[i].0));
                }
            }
            self.entries@[i].1@.index_of_first_ensures(component);
        }
    }

    /// After erasing the slot from its owner's list, the whole map equals the
    /// detached model.
    proof fn lemma_detach_shape(
        &self,
        prev: AttachmentsManager,
        m0: Map<ObjectRef, Seq<usize>>,
        e: ObjectRef,
        i: int,
        component: usize,
    )
        requires
            prev.wf(),
            m0 == prev@,
            0 <= i < prev.entries@.len(),
            prev.entries@[i].0 == e,
            prev.inverse@.len() > component,
            prev.inverse@[component as int] == Some(e),
            m0[e].remove_value(component).len() > 0,
            self@ == m0.remove(e).insert(e, m0[e].remove_value(component)),
        ensures
            self@ =~= att_detach(m0, component),
    {
        prev.lemma_entry_view(i);
        assert forall|e2: ObjectRef| m0.dom().contains(e2) && e2 != e implies
            m0[e2].remove_value(component) == m0[e2] && m0[e2].len() > 0 by {
            lemma_map_of_dom(prev.pairs(), e2);
            let i2 = choose|i2: int| 0 <= i2 < prev.pairs().len() && prev.pairs()[i2].0 == e2;
            prev.lemma_entry_view(i2);
            assert(!prev.entries@[i2].1@.contains(component)) by {
                if prev.entries@[i2].1@.contains(component) {
                    let j2 = choose|j2: int|
                        0 <= j2 < prev.entries@[i2].1@.len()
                        && prev.entries@[i2].1@[j2] == component;
                    assert(prev.inverse@[component as int] == Some(e2));
                }
            }
            prev.entries@[i2].1@.index_of_first_ensures(component);
        }
    }

    /// When the slot was its owner's last, erasing the whole entry equals the
    /// detached model.
    proof fn lemma_detach_shape_drained(
        &self,
        prev: AttachmentsManager,
        m0: Map<ObjectRef, Seq<usize>>,
        e: ObjectRef,
        i: int,
        component: usize,
    )
        requires
            prev.wf(),
            m0 == prev@,
            0 <= i < prev.entries@.len(),
            prev.entries@[i].0 == e,
            prev.inverse@.len() > component,
            prev.inverse@[component as int] == Some(e),
            m0[e].remove_value(component).len() == 0,
            self@ == m0.remove(e),
        ensures
            self@ =~= att_detach(m0, component),
    {
        prev.lemma_entry_view(i);
        assert forall|e2: ObjectRef| m0.dom().contains(e2) && e2 != e implies
            m0[e2].remove_value(component) == m0[e2] && m0[e2].len() > 0 by {
            lemma_map_of_dom(prev.pairs(), e2);
            let i2 = choose|i2: int| 0 <= i2 < prev.pairs().len() && prev.pairs()[i2].0 == e2;
            prev.lemma_entry_view(i2);
            assert(!prev.entries@[i2].1@.contains(component)) by {
                if prev.entries@[i2].1@.contains(component) {
                    let j2 = choose|j2: int|
                        0 <= j2 < prev.entries@[i2].1@.len()
                        && prev.entries@[i2].1@[j2] == component;
                    assert(prev.inverse@[component as int] == Some(e2));
                }
            }
            prev.entries@[i2].1@.index_of_first_ensures(component);
        }
    }

    /// Detaching keeps the index well formed.
    proof fn lemma_detach_wf(
        &self,
        prev: AttachmentsManager,
        e: ObjectRef,
        i: int,
        j: int,
        component: usize,
    )
        requires
            prev.wf(),
            0 <= i < prev.entries@.len(),
            prev.entries@[i].0 == e,
            0 <= j < prev.entries@[i].1@.len(),
            prev.entries@[i].1@[j] == component,
            prev.entries@[i].1@.len() > 1,
            self.pairs() =~= prev.pairs().remove(i).push(
                (e, prev.entries@[i].1@.remove(j)),
            ),
            self.inverse@ =~= prev.inverse@.update(component as int, None),
        ensures
            self.wf(),
    {
        let n = self.entries@.len() as int;
        let ghost old_list = prev.entries@[i].1@;
        // Map any new position back to its position in the previous vector.
        let ghost back = |k: int| if k == n - 1 { i } else if k < i { k } else { k + 1 };
        prev.pairs().remove_ensures(i);
        old_list.remove_ensures(j);
        assert(self.pairs().len() == self.entries@.len());
        assert(prev.pairs().len() == prev.entries@.len());
        assert(prev.pairs().remove(i).len() == prev.pairs().len() - 1);
        assert(self.pairs().len() == prev.pairs().remove(i).len() + 1);
        assert(n == prev.entries@.len());
        assert forall|k: int| 0 <= k < n implies self.entries@[k].0 == prev.entries@[back(k)].0
            && (k != n - 1 ==> self.entries@[k].1@ == prev.entries@[back(k)].1@)
            && (k == n - 1 ==> self.entries@[k].1@ == old_list.remove(j)) by {
            assert(self.pairs()[k] == (self.entries@[k].0, self.entries@[k].1@));
            if k < n - 1 {
                assert(self.pairs()[k] == prev.pairs().remove(i)[k]);
                assert(prev.pairs().remove(i)[k] == prev.pairs()[back(k)]);
                assert(prev.pairs()[back(k)] == (prev.entries@[back(k)].0, prev.entries@[back(k)].1@));
            } else {
                assert(self.pairs()[k] == (e, old_list.remove(j)));
            }
        }
        assert(prev.inverse@[component as int] == Some(e)) by {
            assert(prev.entries@[i].1@[j] == component);
        }
        assert(unique_keys(self.pairs())) by {
            assert forall|a: int, b: int| 0 <= a < n && 0 <= b < n && a != b implies
                self.pairs()[a].0 != self.pairs()[b].0 by {
                assert(self.pairs()[a].0 == self.entries@[a].0);
                assert(self.pairs()[b].0 == self.entries@[b].0);
                assert(self.entries@[a].0 == prev.entries@[back(a)].0);
                assert(self.entries@[b].0 == prev.entries@[back(b)].0);
                assert(back(a) != back(b));
                assert(prev.pairs()[back(a)].0 == prev.entries@[back(a)].0);
                assert(prev.pairs()[back(b)].0 == prev.entries@[back(b)].0);
                assert(prev.pairs()[back(a)].0 != prev.pairs()[back(b)].0);
            }
        }
        assert forall|k: int| 0 <= k < n implies
            (#[trigger] self.entries@[k].1@).no_duplicates() && self.entries@[k].1@.len() > 0 by {
            if k == n - 1 {
                old_list.remove_ensures(j);
            } else {
                assert(self.entries@[k].1@ == prev.entries@[back(k)].1@);
            }
        }
        assert forall|k: int, l: int|
            0 <= k < n && 0 <= l < self.entries@[k].1@.len() implies
            #[trigger] self.entries@[k].1@[l] < self.inverse@.len()
            && self.inverse@[self.entries@[k].1@[l] as int] == Some(self.entries@[k].0) by {
            if k == n - 1 {
                old_list.remove_ensures(j);
                let l0 = if l < j { l } else { l + 1 };
                assert(self.entries@[k].1@[l] == old_list[l0]);
                assert(old_list[l0] != component);
            } else {
                assert(self.entries@[k].1@[l] == prev.entries@[back(k)].1@[l]);
                assert(prev.entries@[back(k)].1@[l] != component) by {
                    if prev.entries@[back(k)].1@[l] == component {
                        assert(prev.inverse@[component as int] == Some(prev.entries@[back(k)].0));
                        assert(prev.entries@[back(k)].0 == e);
                        assert(back(k) != i);
                        assert(prev.pairs()[back(k)].0 == prev.entries@[back(k)].0);
                        assert(prev.pairs()[i].0 == prev.entries@[i].0);
                        assert(prev.pairs()[back(k)].0 != prev.pairs()[i].0);
                    }
                }
            }
        }
        assert forall|c: usize|
            c < self.inverse@.len() && (#[trigger] self.inverse@[c as int]) is Some implies
            exists|k: int|
                0 <= k < self.entries@.len() && self.entries@[k].0 == self.inverse@[c as int]->0
                && (#[trigger] self.entries@[k].1@).contains(c) by {
            assert(c != component);
            assert(c < prev.inverse@.len());
            assert(prev.inverse@[c as int] is Some);
            assert(prev.inverse@[c as int] == self.inverse@[c as int]);
            assert(exists|k0: int|
                0 <= k0 < prev.entries@.len() && prev.entries@[k0].0 == prev.inverse@[c as int]->0
                && (#[trigger] prev.entries@[k0].1@).contains(c));
            let k0 = choose|k0: int|
                0 <= k0 < prev.entries@.len() && prev.entries@[k0].0 == prev.inverse@[c as int]->0
                && (#[trigger] prev.entries@[k0].1@).contains(c);
            let k = if k0 == i { n - 1 } else if k0 < i { k0 } else { k0 - 1 };
            assert(self.entries@[k].0 == prev.entries@[k0].0);
            if k0 == i {
                old_list.remove_ensures(j);
                assert(old_list.contains(c));
                let l0 = choose|l0: int| 0 <= l0 < old_list.len() && old_list[l0] == c;
                assert(l0 != j);
                if l0 < j {
                    assert(self.entries@[k].1@[l0] == c);
                } else {
                    assert(self.entries@[k].1@[l0 - 1] == c);
                }
            } else {
                assert(self.entries@[k].1@ == prev.entries@[k0].1@);
            }
            assert(self.entries@[k].1@.contains(c));
        }
    }

    /// All slots attached to the entity, in attachment order; `None` when
    /// nothing is attached to the entity.
    pub fn list(&self, entity: ObjectRef) -> (r: Option<Vec<usize>>)
        requires
            self.wf(),
        ensures
            match r {
                Some(v) => att_has(self@, entity) && v@ == att_refs(self@, entity),
                None => !att_has(self@, entity),
            },
    {
        match self.find_entity(entity) {
            Some(i) => {
                proof {
                    self.lemma_entry_view(i as int);
                }
                let refs = &self.entries[i].1;
                let mut out: Vec<usize> = Vec::new();
                let mut j: usize = 0;
                while j < refs.len()
                    invariant
                        j <= refs@.len(),
                        out@ == refs@.subrange(0, j as int),
                    decreases refs@.len() - j,
                {
                    out.push(refs[j]);
                    j += 1;
                }
                proof {
                    assert(out@ =~= refs@);
                }
                Some(out)
            },
            None => {
                proof {
                    self.lemma_absent_view(entity);
                }
                None
            },
        }
    }

    /// Remove the entity and hand back every slot that was attached to it, in
    /// attachment order; the caller is expected to follow with a pool removal
    /// for each returned slot. `None` when the entity was absent.
    pub fn clear(&mut self, entity: ObjectRef) -> (r: Option<Vec<usize>>)
        requires
            old(self).wf(),
        ensures
            final(self).wf(),
            final(self)@ =~= att_clear(old(self)@, entity),
            match r {
                Some(v) => att_has(old(self)@, entity) && v@ == att_refs(old(self)@, entity),
                None => !att_has(old(self)@, entity),
            },
    {
        let ghost m0 = self@;
        match self.find_entity(entity) {
            Some(i) => {
                proof {
                    self.lemma_entry_view(i as int);
                }
                let ghost s0 = *self;
                let ghost p0 = self.pairs();
                let pair = self.entries.remove(i);
                let ghost list0 = pair.1@;
                let mut j: usize = 0;
                while j < pair.1.len()
                    invariant
                        j <= list0.len(),
                        pair.1@ == list0,
                        s0.wf(),
                        0 <= i < s0.entries@.len(),
                        s0.entries@[i as int].0 == entity,
                        s0.entries@[i as int].1@ == list0,
                        self.entries@ == s0.entries@.remove(i as int),
                        self.inverse@.len() == s0.inverse@.len(),
                        forall|c: usize|
                            c < self.inverse@.len() ==> #[trigger] self.inverse@[c as int]
                                == if exists|j2: int| 0 <= j2 < j && list0[j2] == c {
                                    None
                                } else {
                                    s0.inverse@[c as int]
                                },
                    decreases list0.len() - j,
                {
                    let c = pair.1[j];
                    proof {
                        assert(s0.entries@[i as int].1@[j as int] == c);
                        assert(c < s0.inverse@.len());
                    }
                    self.inverse[c] = None;
                    proof {
                        assert forall|c2: usize| c2 < self.inverse@.len() implies
                            #[trigger] self.inverse@[c2 as int]
                            == if exists|j2: int| 0 <= j2 < j + 1 && list0[j2] == c2 {
                                None
                            } else {
                                s0.inverse@[c2 as int]
                            } by {
                            if c2 == c {
                                assert(list0[j as int] == c2);
                            } else {
                                if exists|j2: int| 0 <= j2 < j + 1 && list0[j2] == c2 {
                                    let j2 = choose|j2: int| 0 <= j2 < j + 1 && list0[j2] == c2;
                                    assert(j2 != j);
                                    assert(0 <= j2 < j && list0[j2] == c2);
                                }
                            }
                        }
                    }
                    j += 1;
                }
                proof {
                    self.lemma_clear_wf(s0, entity, i as int);
                    assert(self.pairs() =~= p0.remove(i as int));
                    lemma_map_of_remove(p0, i as int);
                    assert(self@ =~= att_clear(m0, entity));
                }
                Some(pair.1)
            },
            None => {
                proof {
                    self.lemma_absent_view(entity);
                    assert(!m0.dom().contains(entity));
                    assert(self@ =~= att_clear(m0, entity));
                }
                None
            },
        }
    }

    /// Clearing an entity leaves the index well formed.
    proof fn lemma_clear_wf(&self, s0: AttachmentsManager, entity: ObjectRef, i: int)
        requires
            s0.wf(),
            0 <= i < s0.entries@.len(),
            s0.entries@[i].0 == entity,
            self.entries@ == s0.entries@.remove(i),
            self.inverse@.len() == s0.inverse@.len(),
            forall|c: usize|
                c < self.inverse@.len() ==> #[trigger] self.inverse@[c as int]
                    == if s0.entries@[i].1@.contains(c) {
                        None
                    } else {
                        s0.inverse@[c as int]
                    },
        ensures
            self.wf(),
    {
        let n = self.entries@.len() as int;
        let ghost list0 = s0.entries@[i].1@;
        let ghost back = |k: int| if k < i { k } else { k + 1 };
        s0.entries@.remove_ensures(i);
        assert(n == s0.entries@.len() - 1);
        assert forall|k: int| 0 <= k < n implies self.entries@[k] == s0.entries@[back(k)] by {}
        assert(unique_keys(self.pairs())) by {
            assert forall|a: int, b: int| 0 <= a < n && 0 <= b < n && a != b implies
                self.pairs()[a].0 != self.pairs()[b].0 by {
                assert(self.pairs()[a].0 == self.entries@[a].0);
                assert(self.pairs()[b].0 == self.entries@[b].0);
                assert(s0.pairs()[back(a)].0 == s0.entries@[back(a)].0);
                assert(s0.pairs()[back(b)].0 == s0.entries@[back(b)].0);
                assert(s0.pairs()[back(a)].0 != s0.pairs()[back(b)].0);
            }
        }
        assert forall|k: int, l: int|
            0 <= k < n && 0 <= l < self.entries@[k].1@.len() implies
            #[trigger] self.entries@[k].1@[l] < self.inverse@.len()
            && self.inverse@[self.entries@[k].1@[l] as int] == Some(self.entries@[k].0) by {
            let c = self.entries@[k].1@[l];
            assert(s0.entries@[back(k)].1@[l] == c);
            assert(!list0.contains(c)) by {
                if list0.contains(c) {
                    assert(s0.inverse@[c as int] == Some(entity));
                    assert(s0.inverse@[c as int] == Some(s0.entries@[back(k)].0));
                    assert(s0.pairs()[back(k)].0 == s0.entries@[back(k)].0);
                    assert(s0.pairs()[i].0 == s0.entries@[i].0);
                    assert(back(k) != i);
                    assert(s0.pairs()[back(k)].0 != s0.pairs()[i].0);
                }
            }
        }
        assert forall|c: usize|
            c < self.inverse@.len() && (#[trigger] self.inverse@[c as int]) is Some implies
            exists|k: int|
                0 <= k < self.entries@.len() && self.entries@[k].0 == self.inverse@[c as int]->0
                && (#[trigger] self.entries@[k].1@).contains(c) by {
            assert(!list0.contains(c));
            assert(self.inverse@[c as int] == s0.inverse@[c as int]);
            let k0 = choose|k0: int|
                0 <= k0 < s0.entries@.len() && s0.entries@[k0].0 == s0.inverse@[c as int]->0
                && (#[trigger] s0.entries@[k0].1@).contains(c);
            assert(k0 != i);
            let k = if k0 < i { k0 } else { k0 - 1 };
            assert(self.entries@[k] == s0.entries@[k0]);
            assert(self.entries@[k].1@.contains(c));
        }
    }

    /// The entity a slot is attached to, if any.
    pub fn owner_of(&self, component: usize) -> (r: Option<ObjectRef>)
        requires
            self.wf(),
        ensures
            match r {
                Some(e) => att_refs(self@, e).contains(component),
                None => !att_attached(self@, component),
            },
    {
        if component < self.inverse.len() {
            match self.inverse[component] {
                Some(e) => {
                    proof {
                        let i = choose|i: int|
                            0 <= i < self.entries@.len() && self.entries@[i].0 == e
                            && (#[trigger] self.entries@[i].1@).contains(component);
                        self.lemma_entry_view(i);
                    }
                    Some(e)
                },
                None => {
                    proof {
                        self.lemma_no_owner(component);
                    }
                    None
                },
            }
        } else {
            proof {
                self.lemma_no_owner(component);
            }
            None
        }
    }

    /// When the inverse map has no owner for a slot, no list holds it.
    proof fn lemma_no_owner(&self, component: usize)
        requires
            self.wf(),
            component >= self.inverse@.len() || self.inverse@[component as int] is None,
        ensures
            !att_attached(self@, component),
    {
        assert forall|e: ObjectRef| !(#[trigger] att_refs(self@, e).contains(component)) by {
            if att_refs(self@, e).contains(component) {
                lemma_map_of_dom(self.pairs(), e);
                let i = choose|i: int| 0 <= i < self.pairs().len() && self.pairs()[i].0 == e;
                self.lemma_entry_view(i);
                let j = choose|j: int|
                    0 <= j < self.entries@[i].1@.len() && self.entries@[i].1@[j] == component;
                assert(self.inverse@[component as int] == Some(self.entries@[i].0));
            }
        }
    }

    /// The keys of the relation, in storage order.
    pub closed spec fn key_seq(&self) -> Seq<ObjectRef> {
        self.entries@.map_values(|p: (ObjectRef, Vec<usize>)| p.0)
    }

    /// The key order lists each present entity exactly once.
    pub proof fn lemma_key_seq(&self)
        requires
            self.wf(),
        ensures
            self.key_seq().no_duplicates(),
            forall|e: ObjectRef| #[trigger] self.key_seq().contains(e) <==> self@.dom().contains(e),
    {
        assert forall|a: int, b: int|
            0 <= a < self.key_seq().len() && 0 <= b < self.key_seq().len() && a != b implies
            self.key_seq()[a] != self.key_seq()[b] by {
            assert(self.pairs()[a].0 == self.key_seq()[a]);
            assert(self.pairs()[b].0 == self.key_seq()[b]);
        }
        assert forall|e: ObjectRef| #[trigger] self.key_seq().contains(e) <==> self@.dom().contains(
            e,
        ) by {
            lemma_map_of_dom(self.pairs(), e);
            if self.key_seq().contains(e) {
                let i = choose|i: int| 0 <= i < self.key_seq().len() && self.key_seq()[i] == e;
                assert(self.pairs()[i].0 == e);
            }
            if self@.dom().contains(e) {
                let i = choose|i: int| 0 <= i < self.pairs().len() && self.pairs()[i].0 == e;
                assert(self.key_seq()[i] == e);
            }
        }
    }

    /// Every slot in the relation, listed key by key in storage order.
    pub fn flat_refs(&self) -> (v: Vec<usize>)
        requires
            self.wf(),
        ensures
            v@ == att_flatten(self@, self.key_seq()),
    {
        let mut v: Vec<usize> = Vec::new();
        let mut i: usize = 0;
        while i < self.entries.len()
            invariant
                i <= self.entries@.len(),
                self.wf(),
                v@ == att_flatten(self@, self.key_seq().subrange(0, i as int)),
            decreases self.entries@.len() - i,
        {
            proof {
                self.lemma_entry_view(i as int);
                lemma_att_flatten_push(self@, self.key_seq().subrange(0, i as int), self.entries@[i as int].0);
                assert(self.key_seq().subrange(0, i as int).push(self.entries@[i as int].0)
                    =~= self.key_seq().subrange(0, i + 1));
            }
            let refs = &self.entries[i].1;
            let ghost mid = v@;
            let mut j: usize = 0;
            while j < refs.len()
                invariant
                    j <= refs@.len(),
                    v@ == mid + refs@.subrange(0, j as int),
                decreases refs@.len() - j,
            {
                v.push(refs[j]);
                proof {
                    assert(v@ =~= mid + refs@.subrange(0, j + 1));
                }
                j += 1;
            }
            proof {
                assert(refs@.subrange(0, refs@.len() as int) =~= refs@);
                assert(v@ == att_flatten(self@, self.key_seq().subrange(0, i + 1)));
            }
            i += 1;
        }
        proof {
            assert(self.key_seq().subrange(0, self.key_seq().len() as int) =~= self.key_seq());
        }
        v
    }

    /// The first slot attached to the entity, if any.
    pub fn get_first(&self, entity: ObjectRef) -> (r: Option<usize>)
        requires
            self.wf(),
        ensures
            match r {
                Some(c) => att_refs(self@, entity).len() > 0 && c == att_refs(self@, entity)[0],
                None => att_refs(self@, entity).len() == 0,
            },
    {
        match self.find_entity(entity) {
            Some(i) => {
                proof {
                    self.lemma_entry_view(i as int);
                }
                if self.entries[i].1.len() > 0 {
                    Some(self.entries[i].1[0])
                } else {
                    None
                }
            },
            None => {
                proof {
                    self.lemma_absent_view(entity);
                }
                None
            },
        }
    }

    fn find_entity(&self, entity: ObjectRef) -> (r: Option<usize>)
        ensures
            match r {
                Some(i) => i < self.entries@.len() && self.entries@[i as int].0 == entity,
                None => forall|i: int|
                    0 <= i < self.entries@.len() ==> self.entries@[i].0 != entity,
            },
    {
        let mut i: usize = 0;
        while i < self.entries.len()
            invariant
                i <= self.entries@.len(),
                forall|j: int| 0 <= j < i ==> self.entries@[j].0 != entity,
            decreases self.entries@.len() - i,
        {
            if self.entries[i].0 == entity {
                return Some(i);
            }
            i += 1;
        }
        None
    }
}

fn find_slot(list: &Vec<usize>, c: usize) -> (r: Option<usize>)
    ensures
        match r {
            Some(j) => j < list@.len() && list@[j as int] == c && forall|k: int|
                0 <= k < j ==> list@[k] != c,
            None => !list@.contains(c),
        },
{
    let mut j: usize = 0;
    while j < list.len()
        invariant
            j <= list@.len(),
            forall|k: int| 0 <= k < j ==> list@[k] != c,
        decreases list@.len() - j,
    {
        if list[j] == c {
            return Some(j);
        }
        j += 1;
    }
    None
}

} // verus!
