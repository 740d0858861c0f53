//! Object storage and its derived index.
//!
//! `ObjectStorage` owns the object instances in reusable slots; unlike the
//! component pool it never trims freed slots, because index stability over an
//! object's whole lifetime matters more than array size. `ObjectTree` is a
//! derived index over the storage: existence set, enabled set, class buckets
//! and a live count. It is never the source of truth for object data.

use vstd::prelude::*;
use vstd::pervasive::unreached;
use vstd::string::StrSliceExecFns;
use crate::kv::{map_of, unique_keys, lemma_map_of_dom, lemma_map_of_index, lemma_map_of_push,
    lemma_map_of_update};
use crate::component::basic_pool::occupied;
use crate::object::ObjectRef;
use crate::text::str_eq;

verus! {

/// The members of a class bucket (empty when the class is absent).
pub open spec fn class_refs(m: Map<Seq<char>, Seq<ObjectRef>>, class: Seq<char>) -> Seq<ObjectRef> {
    if m.dom().contains(class) {
        m[class]
    } else {
        Seq::empty()
    }
}

/// Derived index over the object storage: which handles exist, which are
/// enabled, which class each was registered under, and how many are live.
pub struct ObjectTree {
    enabled: Vec<ObjectRef>,
    by_class: Vec<(String, Vec<ObjectRef>)>,
    by_id: Vec<ObjectRef>,
    count: usize,
}

impl ObjectTree {
    /// The existing handles, in registration order.
    pub closed spec fn live_seq(&self) -> Seq<ObjectRef> {
        self.by_id@
    }

    /// The enabled handles, in enabling order; always a subset of the
    /// existing handles.
    pub closed spec fn enabled_seq(&self) -> Seq<ObjectRef> {
        self.enabled@
    }

    /// The class buckets.
    pub closed spec fn classes(&self) -> Map<Seq<char>, Seq<ObjectRef>> {
        map_of(self.class_pairs())
    }

    spec fn class_pairs(&self) -> Seq<(Seq<char>, Seq<ObjectRef>)> {
        self.by_class@.map_values(|p: (String, Vec<ObjectRef>)| (p.0@, p.1@))
    }

    /// No handle is listed twice, enabled handles exist, and the count is the
    /// number of existing handles.
    pub closed spec fn wf(&self) -> bool {
        &&& self.by_id@.no_duplicates()
        &&& self.enabled@.no_duplicates()
        &&& forall|k: int|
            0 <= k < self.enabled@.len() ==> self.by_id@.contains(#[trigger] self.enabled@[k])
        &&& self.count == self.by_id@.len()
        &&& unique_keys(self.class_pairs())
    }

    /// What well-formedness gives: no duplicate handles, and enabled handles
    /// exist.
    pub proof fn lemma_wf_parts(&self)
        requires
            self.wf(),
        ensures
            self.live_seq().no_duplicates(),
            self.enabled_seq().no_duplicates(),
            forall|k: int|
                0 <= k < self.enabled_seq().len() ==> self.live_seq().contains(
                    #[trigger] self.enabled_seq()[k],
                ),
    {
    }

    /// A fresh, empty index.
    pub fn new() -> (r: ObjectTree)
        ensures
            r.wf(),
            r.live_seq() == Seq::<ObjectRef>::empty(),
            r.enabled_seq() == Seq::<ObjectRef>::empty(),
            r.classes() == Map::<Seq<char>, Seq<ObjectRef>>::empty(),
    {
        let r = ObjectTree {
            enabled: Vec::new(),
            by_class: Vec::new(),
            by_id: Vec::new(),
            count: 0,
        };
        proof {
            assert(r.class_pairs() =~= Seq::empty());
        }
        r
    }

    /// Whether the handle is currently enabled.
    pub fn is_enabled(&self, obj: ObjectRef) -> (b: bool)
        ensures
            b == self.enabled_seq().contains(obj),
    {
        find_ref(&self.enabled, obj).is_some()
    }

    /// Whether the handle names a live object.
    pub fn contains(&self, obj: ObjectRef) -> (b: bool)
        ensures
            b == self.live_seq().contains(obj),
    {
        find_ref(&self.by_id, obj).is_some()
    }

    /// How many objects are live.
    pub fn get_count(&self) -> (n: usize)
        requires
            self.wf(),
        ensures
            n == self.live_seq().len(),
    {
        self.count
    }

    /// The enabled handles.
    pub fn get_all(&self) -> (v: Vec<ObjectRef>)
        ensures
            v@ == self.enabled_seq(),
    {
        copy_refs(&self.enabled)
    }

    /// Every live handle, enabled or not.
    pub fn get_all_ignore_enable(&self) -> (v: Vec<ObjectRef>)
        ensures
            v@ == self.live_seq(),
    {
        copy_refs(&self.by_id)
    }

    /// The handles registered under a class, in registration order; empty
    /// when the class has no bucket.
    pub fn find_by_class(&self, class: &str) -> (v: Vec<ObjectRef>)
        requires
            self.wf(),
        ensures
            v@ == class_refs(self.classes(), class@),
    {
        match self.find_class(class) {
            Some(i) => {
                proof {
                    lemma_map_of_index(self.class_pairs(), i as int);
                }
                copy_refs(&self.by_class[i].1)
            },
            None => {
                proof {
                    lemma_map_of_dom(self.class_pairs(), class@);
                }
                Vec::new()
            },
        }
    }

    fn find_class(&self, class: &str) -> (r: Option<usize>)
        ensures
            match r {
                Some(i) => i < self.by_class@.len() && self.by_class@[i as int].0@ == class@,
                None => forall|i: int|
                    0 <= i < self.by_class@.len() ==> self.by_class@[i].0@ != class@,
            },
    {
        let mut i: usize = 0;
        while i < self.by_class.len()
            invariant
                i <= self.by_class@.len(),
                forall|j: int| 0 <= j < i ==> self.by_class@[j].0@ != class@,
            decreases self.by_class@.len() - i,
        {
            if str_eq(self.by_class[i].0.as_str(), class) {
                return Some(i);
            }
            i += 1;
        }
        None
    }

    /// Register a fresh handle under a class: it exists, it joins the class
    /// bucket, and the count rises by one. It is not enabled yet.
    pub fn insert(&mut self, obj: ObjectRef, class: &str)
        requires
            old(self).wf(),
            !old(self).live_seq().contains(obj),
        ensures
            final(self).wf(),
            final(self).live_seq() == old(self).live_seq().push(obj),
            final(self).enabled_seq() == old(self).enabled_seq(),
            final(self).classes() =~= old(self).classes().insert(
                class@,
                class_refs(old(self).classes(), class@).push(obj),
            ),
    {
        self.by_id.push(obj);
        proof {
            assert(self.by_id.len() == self.by_id@.len());
            assert forall|a: int, b: int|
                0 <= a < self.by_id@.len() && 0 <= b < self.by_id@.len() && a != b implies
                self.by_id@[a] != self.by_id@[b] by {
                if a == self.by_id@.len() - 1 {
                    assert(self.by_id@[b] == old(self).by_id@[b]);
                    if self.by_id@[a] == self.by_id@[b] {
                        assert(old(self).by_id@.contains(obj));
                    }
                } else if b == self.by_id@.len() - 1 {
                    assert(self.by_id@[a] == old(self).by_id@[a]);
                    if self.by_id@[a] == self.by_id@[b] {
                        assert(old(self).by_id@.contains(obj));
                    }
                }
            }
            assert forall|k: int|
                0 <= k < self.enabled@.len() implies self.by_id@.contains(
                #[trigger] self.enabled@[k],
            ) by {
                let x = self.enabled@[k];
                assert(old(self).by_id@.contains(x));
                let l = choose|l: int| 0 <= l < old(self).by_id@.len() && old(self).by_id@[l] == x;
                assert(self.by_id@[l] == x);
            }
        }
        self.count = self.count + 1;
        match self.find_class(class) {
            Some(i) => {
                proof {
                    lemma_map_of_index(self.class_pairs(), i as int);
                    lemma_map_of_update(
                        self.class_pairs(),
                        i as int,
                        self.class_pairs()[i as int].1.push(obj),
                    );
                }
                let ghost p0 = self.class_pairs();
                let refs = &mut self.by_class[i].1;
                refs.push(obj);
                proof {
                    assert(self.class_pairs() =~= p0.update(
                        i as int,
                        (p0[i as int].0, p0[i as int].1.push(obj)),
                    ));
                }
            },
            None => {
                proof {
                    lemma_map_of_dom(self.class_pairs(), class@);
                    lemma_map_of_push(self.class_pairs(), class@, seq![obj]);
                }
                let ghost p0 = self.class_pairs();
                let mut refs: Vec<ObjectRef> = Vec::new();
                refs.push(obj);
                self.by_class.push((class.to_owned(), refs));
                proof {
                    assert(self.class_pairs() =~= p0.push((class@, seq![obj])));
                }
            },
        }
    }

    /// Unregister a handle: it stops existing, leaves the enabled set, leaves
    /// the named class's bucket, and the count falls by one.
    pub fn remove(&mut self, obj: ObjectRef, class: &str)
        requires
            old(self).wf(),
            old(self).live_seq().contains(obj),
        ensures
            final(self).wf(),
            final(self).live_seq() == old(self).live_seq().remove_value(obj),
            final(self).enabled_seq() == old(self).enabled_seq().remove_value(obj),
            final(self).classes() =~= (if old(self).classes().dom().contains(class@) {
                old(self).classes().insert(class@, old(self).classes()[class@].remove_value(obj))
            } else {
                old(self).classes()
            }),
    {
        match find_ref(&self.by_id, obj) {
            Some(i) => {
                proof {
                    self.by_id@.index_of_first_ensures(obj);
                    self.by_id@.remove_ensures(i as int);
                    lemma_remove_keeps_no_duplicates(self.by_id@, i as int);
                }
                self.by_id.remove(i);
                self.count = self.count - 1;
            },
            None => {
                proof {
                    assert(false);
                }
            },
        }
        match find_ref(&self.enabled, obj) {
            Some(i) => {
                proof {
                    self.enabled@.index_of_first_ensures(obj);
                    self.enabled@.remove_ensures(i as int);
                    lemma_remove_keeps_no_duplicates(self.enabled@, i as int);
                }
                self.enabled.remove(i);
            },
            None => {
                proof {
                    self.enabled@.index_of_first_ensures(obj);
                }
            },
        }
        proof {
            assert forall|k: int|
                0 <= k < self.enabled@.len() implies self.by_id@.contains(
                #[trigger] self.enabled@[k],
            ) by {
                let x = self.enabled@[k];
                assert(old(self).enabled_seq().remove_value(obj).contains(x));
                crate::kv::lemma_remove_value_keeps(
                    old(self).enabled_seq(),
                    obj,
                    x,
                );
                assert(old(self).by_id@.contains(x));
                crate::kv::lemma_remove_value_keeps(
                    old(self).by_id@,
                    obj,
                    x,
                );
            }
        }
        match self.find_class(class) {
            Some(i) => {
                proof {
                    lemma_map_of_index(self.class_pairs(), i as int);
                }
                let ghost p0 = self.class_pairs();
                let ghost list0 = self.by_class@[i as int].1@;
                let refs = &mut self.by_class[i].1;
                remove_ref(refs, obj);
                proof {
                    assert(self.class_pairs() =~= p0.update(
                        i as int,
                        (p0[i as int].0, list0.remove_value(obj)),
                    ));
                    lemma_map_of_update(p0, i as int, list0.remove_value(obj));
                }
            },
            None => {
                proof {
                    lemma_map_of_dom(self.class_pairs(), class@);
                }
            },
        }
    }

    /// Toggle only the enabled bit of a live handle; existence is untouched.
    pub fn set_enabled(&mut self, obj: ObjectRef, enabled: bool)
        requires
            old(self).wf(),
            old(self).live_seq().contains(obj),
        ensures
            final(self).wf(),
            final(self).live_seq() == old(self).live_seq(),
            final(self).classes() == old(self).classes(),
            final(self).enabled_seq() == (if enabled {
                if old(self).enabled_seq().contains(obj) {
                    old(self).enabled_seq()
                } else {
                    old(self).enabled_seq().push(obj)
                }
            } else {
                old(self).enabled_seq().remove_value(obj)
            }),
            final(self).enabled_seq().contains(obj) == enabled,
    {
        match find_ref(&self.enabled, obj) {
            Some(i) => {
                proof {
                    assert(self.enabled@[i as int] == obj);
                    assert(self.enabled@.contains(obj));
                }
                if !enabled {
                    proof {
                        self.enabled@.index_of_first_ensures(obj);
                        self.enabled@.remove_ensures(i as int);
                        lemma_remove_keeps_no_duplicates(self.enabled@, i as int);
                    }
                    self.enabled.remove(i);
                    proof {
                        assert forall|k: int|
                            0 <= k < self.enabled@.len() implies self.by_id@.contains(
                            #[trigger] self.enabled@[k],
                        ) by {
                            let k0 = if k < i { k } else { k + 1 };
                            assert(self.enabled@[k] == old(self).enabled@[k0]);
                        }
                        assert(!self.enabled@.contains(obj)) by {
                            crate::kv::lemma_remove_value_props(
                                old(self).enabled@,
                                obj,
                            );
                        }
                    }
                }
            },
            None => {
                proof {
                    self.enabled@.index_of_first_ensures(obj);
                }
                if enabled {
                    self.enabled.push(obj);
                    proof {
                        assert(self.enabled@[self.enabled@.len() - 1] == obj);
                        assert(self.enabled@.contains(obj));
                        assert forall|a: int, b: int|
                            0 <= a < self.enabled@.len() && 0 <= b < self.enabled@.len() && a != b
                            implies self.enabled@[a] != self.enabled@[b] by {
                            if a == self.enabled@.len() - 1 {
                                assert(self.enabled@[b] == old(self).enabled@[b]);
                                if self.enabled@[a] == self.enabled@[b] {
                                    assert(old(self).enabled@.contains(obj));
                                }
                            } else if b == self.enabled@.len() - 1 {
                                assert(self.enabled@[a] == old(self).enabled@[a]);
                                if self.enabled@[a] == self.enabled@[b] {
                                    assert(old(self).enabled@.contains(obj));
                                }
                            }
                        }
                        assert forall|k: int|
                            0 <= k < self.enabled@.len() implies self.by_id@.contains(
                            #[trigger] self.enabled@[k],
                        ) by {
                            if k < self.enabled@.len() - 1 {
                                assert(self.enabled@[k] == old(self).enabled@[k]);
                            }
                        }
                    }
                }
            },
        }
    }
}

/// Exclusive owner of the object instances, in reusable slots.
pub struct ObjectStorage<O> {
    objects: Vec<Option<O>>,
}

impl<O> ObjectStorage<O> {
    /// The slot array; a handle names a slot.
    pub closed spec fn slots(&self) -> Seq<Option<O>> {
        self.objects@
    }

    /// A fresh storage and the empty index that goes with it.
    pub fn new() -> (r: (ObjectStorage<O>, ObjectTree))
        ensures
            r.0.slots() == Seq::<Option<O>>::empty(),
            r.1.wf(),
            r.1.live_seq() == Seq::<ObjectRef>::empty(),
            r.1.enabled_seq() == Seq::<ObjectRef>::empty(),
            r.1.classes() == Map::<Seq<char>, Seq<ObjectRef>>::empty(),
    {
        (ObjectStorage { objects: Vec::new() }, ObjectTree::new())
    }

    /// How many slots the storage has (occupied or not).
    pub fn capacity(&self) -> (n: usize)
        ensures
            n == self.slots().len(),
    {
        self.objects.len()
    }

    /// The first free slot, scanning forward from slot zero, or one past the
    /// end when every slot is taken.
    pub fn first_free(&self) -> (i: usize)
        ensures
            i <= self.slots().len(),
            forall|j: int| 0 <= j < i ==> self.slots()[j] is Some,
            i < self.slots().len() ==> self.slots()[i as int] is None,
    {
        let mut i: usize = 0;
        while i < self.objects.len()
            invariant
                i <= self.objects@.len(),
                forall|j: int| 0 <= j < i ==> self.objects@[j] is Some,
            decreases self.objects@.len() - i,
        {
            if self.objects[i].is_none() {
                return i;
            }
            i += 1;
        }
        i
    }

    /// Store a freshly constructed object in a free slot (or one past the
    /// end, which appends).
    pub fn place(&mut self, i: usize, obj: O)
        requires
            i <= old(self).slots().len(),
            i < old(self).slots().len() ==> old(self).slots()[i as int] is None,
        ensures
            i < old(self).slots().len() ==> final(self).slots() == old(self).slots().update(
                i as int,
                Some(obj),
            ),
            i == old(self).slots().len() ==> final(self).slots() == old(self).slots().push(
                Some(obj),
            ),
            occupied(final(self).slots(), i as int),
    {
        if i == self.objects.len() {
            self.objects.push(Some(obj));
        } else {
            self.objects[i] = Some(obj);
        }
    }

    /// Whether the handle names an occupied slot.
    pub fn is_occupied(&self, obj: ObjectRef) -> (b: bool)
        ensures
            b == occupied(self.slots(), obj as int),
    {
        (obj as usize) < self.objects.len() && self.objects[obj as usize].is_some()
    }

    /// Free the slot; the array is not trimmed, so other handles stay stable.
    pub fn destroy(&mut self, obj: ObjectRef)
        requires
            occupied(old(self).slots(), obj as int),
        ensures
            final(self).slots() == old(self).slots().update(obj as int, None),
    {
        self.objects[obj as usize] = None;
    }

    /// Read the object in an occupied slot.
    pub fn get(&self, obj: ObjectRef) -> (res: &O)
        requires
            occupied(self.slots(), obj as int),
        ensures
            *res == self.slots()[obj as int]->0,
    {
        match &self.objects[obj as usize] {
            Some(v) => v,
            None => unreached(),
        }
    }

    /// Borrow the object in an occupied slot for writing; only that slot's
    /// value changes, and the slot stays occupied.
    pub fn get_mut(&mut self, obj: ObjectRef) -> (res: &mut O)
        requires
            occupied(old(self).slots(), obj as int),
        ensures
            *res == old(self).slots()[obj as int]->0,
            final(self).slots() == old(self).slots().update(obj as int, Some(*final(res))),
    {
        let slot = &mut self.objects[obj as usize];
        match slot {
            Some(v) => v,
            None => unreached(),
        }
    }
}

/// Removing one position from a duplicate-free sequence keeps it
/// duplicate-free.
proof fn lemma_remove_keeps_no_duplicates(s: Seq<ObjectRef>, i: int)
    requires
        s.no_duplicates(),
        0 <= i < s.len(),
    ensures
        s.remove(i).no_duplicates(),
{
    s.remove_ensures(i);
    let t = s.remove(i);
    assert forall|a: int, b: int| 0 <= a < t.len() && 0 <= b < t.len() && a != b implies
        t[a] != t[b] by {
        let a0 = if a < i { a } else { a + 1 };
        let b0 = if b < i { b } else { b + 1 };
        assert(t[a] == s[a0] && t[b] == s[b0]);
    }
}

fn find_ref(list: &Vec<ObjectRef>, x: ObjectRef) -> (r: Option<usize>)
    ensures
        match r {
            Some(i) => i < list@.len() && list@[i as int] == x && forall|k: int|
                0 <= k < i ==> list@[k] != x,
            None => !list@.contains(x),
        },
{
    let mut i: usize = 0;
    while i < list.len()
        invariant
            i <= list@.len(),
            forall|k: int| 0 <= k < i ==> list@[k] != x,
        decreases list@.len() - i,
    {
        if list[i] == x {
            return Some(i);
        }
        i += 1;
    }
    None
}

fn copy_refs(list: &Vec<ObjectRef>) -> (v: Vec<ObjectRef>)
    ensures
        v@ == list@,
{
    let mut v: Vec<ObjectRef> = Vec::new();
    let mut i: usize = 0;
    while i < list.len()
        invariant
            i <= list@.len(),
            v@ == list@.subrange(0, i as int),
        decreases list@.len() - i,
    {
        v.push(list[i]);
        proof {
            assert(v@ =~= list@.subrange(0, i + 1));
        }
        i += 1;
    }
    proof {
        assert(v@ =~= list@);
    }
    v
}

/// Remove the first occurrence of a handle from a list, if present.
fn remove_ref(list: &mut Vec<ObjectRef>, x: ObjectRef)
    ensures
        final(list)@ == old(list)@.remove_value(x),
{
    proof {
        old(list)@.index_of_first_ensures(x);
    }
    match find_ref(list, x) {
        Some(i) => {
            proof {
                assert(old(list)@.index_of_first(x) == Some(i as int)) by {
                    let j = old(list)@.index_of_first(x)->0;
                    assert(old(list)@[j] == x);
                    assert(old(list)@[i as int] == x);
                }
            }
            list.remove(i);
        },
        None => {},
    }
}

} // verus!
