//! Basic component pool: dense slot storage with free-slot reuse.
//!
//! A value lands in the first free slot, scanning forward from slot zero, or
//! is appended when every slot is taken. Removing a value empties its slot and
//! trims every now-empty slot at the tail, so churn at the end of the array
//! cannot grow it without bound.

use vstd::prelude::*;
use vstd::pervasive::unreached;
use crate::component::ComponentRef;
use crate::component::attachments::{AttachmentsManager, att_attach, att_attached, att_clear,
    att_detach, att_has, att_refs, att_wf, lemma_attach_props, lemma_detach_detaches};
use crate::object::ObjectRef;

verus! {

/// Whether slot `i` of a slot array holds a live component.
pub open spec fn occupied<T>(s: Seq<Option<T>>, i: int) -> bool {
    0 <= i < s.len() && s[i] is Some
}

/// How many slots of a slot array hold a live component.
pub open spec fn occupied_count<T>(s: Seq<Option<T>>) -> nat
    decreases s.len(),
{
    if s.len() == 0 {
        0
    } else {
        occupied_count(s.drop_last()) + if s.last() is Some {
            1nat
        } else {
            0nat
        }
    }
}

/// A slot array with every trailing empty slot dropped.
pub open spec fn trim_tail<T>(s: Seq<Option<T>>) -> Seq<Option<T>>
    decreases s.len(),
{
    if s.len() > 0 && s.last() is None {
        trim_tail(s.drop_last())
    } else {
        s
    }
}

/// The live count never exceeds the array length, and an empty slot makes the
/// bound strict.
pub proof fn lemma_occupied_count_le<T>(s: Seq<Option<T>>)
    ensures
        occupied_count(s) <= s.len(),
        (exists|i: int| 0 <= i < s.len() && s[i] is None) ==> occupied_count(s) < s.len(),
    decreases s.len(),
{
    if s.len() > 0 {
        lemma_occupied_count_le(s.drop_last());
        if exists|i: int| 0 <= i < s.len() && s[i] is None {
            let i = choose|i: int| 0 <= i < s.len() && s[i] is None;
            if i < s.len() - 1 {
                assert(s.drop_last()[i] is None);
            }
        }
    }
}

/// Writing into a slot changes the live count by exactly the difference the
/// two slot states make.
pub proof fn lemma_occupied_count_update<T>(s: Seq<Option<T>>, i: int, v: Option<T>)
    requires
        0 <= i < s.len(),
    ensures
        occupied_count(s.update(i, v)) == occupied_count(s)
            + (if v is Some { 1int } else { 0int })
            - (if s[i] is Some { 1int } else { 0int }),
    decreases s.len(),
{
    let t = s.update(i, v);
    if i == s.len() - 1 {
        assert(t.drop_last() =~= s.drop_last());
    } else {
        assert(t.drop_last() =~= s.drop_last().update(i, v));
        assert(t.last() == s.last());
        lemma_occupied_count_update(s.drop_last(), i, v);
    }
}

/// An occupied slot makes the live count positive.
pub proof fn lemma_occupied_count_pos<T>(s: Seq<Option<T>>, i: int)
    requires
        occupied(s, i),
    ensures
        occupied_count(s) >= 1,
    decreases s.len(),
{
    if i < s.len() - 1 {
        assert(s.drop_last()[i] is Some);
        lemma_occupied_count_pos(s.drop_last(), i);
    }
}

/// Trimming the tail drops no live component.
pub proof fn lemma_trim_tail_count<T>(s: Seq<Option<T>>)
    ensures
        occupied_count(trim_tail(s)) == occupied_count(s),
    decreases s.len(),
{
    if s.len() > 0 && s.last() is None {
        lemma_trim_tail_count(s.drop_last());
    }
}

/// Trimming keeps a prefix of the array; whatever it cut was empty.
pub proof fn lemma_trim_tail_is_prefix<T>(s: Seq<Option<T>>)
    ensures
        trim_tail(s).len() <= s.len(),
        trim_tail(s) == s.subrange(0, trim_tail(s).len() as int),
        forall|j: int| trim_tail(s).len() <= j < s.len() ==> s[j] is None,
        trim_tail(s).len() > 0 ==> trim_tail(s).last() is Some,
    decreases s.len(),
{
    if s.len() > 0 && s.last() is None {
        lemma_trim_tail_is_prefix(s.drop_last());
        assert(s.drop_last().subrange(0, trim_tail(s).len() as int) =~= s.subrange(
            0,
            trim_tail(s).len() as int,
        ));
        assert forall|j: int| trim_tail(s).len() <= j < s.len() implies s[j] is None by {
            if j < s.len() - 1 {
                assert(s.drop_last()[j] is None);
            }
        }
    } else {
        assert(s.subrange(0, s.len() as int) =~= s);
    }
}

/// When everything from position `m` on is empty and position `m - 1` is not,
/// trimming cuts the array to exactly `m` slots.
pub proof fn lemma_trim_tail_shape<T>(s: Seq<Option<T>>, m: int)
    requires
        0 <= m <= s.len(),
        forall|j: int| m <= j < s.len() ==> s[j] is None,
        m > 0 ==> s[m - 1] is Some,
    ensures
        trim_tail(s) == s.subrange(0, m),
    decreases s.len(),
{
    if s.len() == m {
        assert(s.subrange(0, m) =~= s);
    } else {
        assert(s.last() is None);
        assert forall|j: int| m <= j < s.drop_last().len() implies s.drop_last()[j] is None by {}
        if m > 0 {
            assert(s.drop_last()[m - 1] is Some);
        }
        lemma_trim_tail_shape(s.drop_last(), m);
        assert(s.drop_last().subrange(0, m) =~= s.subrange(0, m));
    }
}

/// Counting a one-longer prefix adds the next slot's occupancy.
pub proof fn lemma_occupied_count_prefix<T>(s: Seq<Option<T>>, i: int)
    requires
        0 <= i < s.len(),
    ensures
        occupied_count(s.subrange(0, i + 1)) == occupied_count(s.subrange(0, i)) + (
        if s[i] is Some {
            1int
        } else {
            0int
        }),
{
    assert(s.subrange(0, i + 1).drop_last() =~= s.subrange(0, i));
    assert(s.subrange(0, i + 1).last() == s[i]);
}

/// Basic component pool: a single array of reusable slots, plus the
/// attachment index that relates its slots to entities.
pub struct BasicComponentPool<T> {
    comps: Vec<Option<T>>,
    size: usize,
    attachments: AttachmentsManager,
}

impl<T> BasicComponentPool<T> {
    /// The slot array.
    pub closed spec fn slots(&self) -> Seq<Option<T>> {
        self.comps@
    }

    /// The attachment relation between entities and this pool's slots.
    pub closed spec fn atts(&self) -> Map<ObjectRef, Seq<usize>> {
        self.attachments@
    }

    /// The pool counts exactly its occupied slots, never ends in an empty
    /// slot, and every attached slot is occupied.
    pub closed spec fn wf(&self) -> bool {
        &&& self.size == occupied_count(self.comps@)
        &&& self.comps@.len() > 0 ==> self.comps@.last() is Some
        &&& self.attachments.wf()
        &&& forall|e: ObjectRef, k: int|
            self.attachments@.dom().contains(e) && 0 <= k < self.attachments@[e].len()
                ==> occupied(self.comps@, #[trigger] self.attachments@[e][k] as int)
    }

    /// The attachment relation of a well-formed pool is well formed.
    pub proof fn lemma_atts_wf(&self)
        requires
            self.wf(),
        ensures
            att_wf(self.atts()),
    {
        self.attachments.lemma_wf_model();
    }

    /// A fresh pool with no slots and no attachments.
    pub fn new() -> (r: BasicComponentPool<T>)
        ensures
            r.wf(),
            r.slots() == Seq::<Option<T>>::empty(),
            r.atts() == Map::<ObjectRef, Seq<usize>>::empty(),
    {
        BasicComponentPool { comps: Vec::new(), size: 0, attachments: AttachmentsManager::new() }
    }

    /// The number of live components in the pool.
    pub fn len(&self) -> (n: usize)
        requires
            self.wf(),
        ensures
            n == occupied_count(self.slots()),
    {
        self.size
    }

    /// Whether the pool holds no live component.
    pub fn is_empty(&self) -> (b: bool)
        requires
            self.wf(),
        ensures
            b == (occupied_count(self.slots()) == 0),
    {
        self.size == 0
    }

    /// How many slots the backing array has, occupied or not.
    pub fn capacity(&self) -> (n: usize)
        ensures
            n == self.slots().len(),
    {
        self.comps.len()
    }

    /// Whether the handle names a live component.
    pub fn contains(&self, r: ComponentRef<T>) -> (b: bool)
        ensures
            b == occupied(self.slots(), r.idx() as int),
    {
        let i = r.index();
        i < self.comps.len() && self.comps[i].is_some()
    }

    /// Store a component in the first free slot, scanning forward from slot
    /// zero, or append a slot when none is free; the returned handle names
    /// that slot.
    pub fn add(&mut self, comp: T) -> (r: ComponentRef<T>)
        requires
            old(self).wf(),
            old(self).slots().len() < usize::MAX,
        ensures
            final(self).wf(),
            r.idx() <= old(self).slots().len(),
            forall|j: int| 0 <= j < r.idx() ==> old(self).slots()[j] is Some,
            r.idx() < old(self).slots().len() ==> old(self).slots()[r.idx() as int] is None
                && final(self).slots() == old(self).slots().update(r.idx() as int, Some(comp)),
            r.idx() == old(self).slots().len() ==> final(self).slots() == old(self).slots().push(
                Some(comp),
            ),
            occupied_count(final(self).slots()) == occupied_count(old(self).slots()) + 1,
            final(self).atts() == old(self).atts(),
    {
        let mut i: usize = 0;
        loop
            invariant
                self == old(self),
                i <= self.comps@.len(),
                forall|j: int| 0 <= j < i ==> self.comps@[j] is Some,
            ensures
                self == old(self),
                i <= self.comps@.len(),
                forall|j: int| 0 <= j < i ==> self.comps@[j] is Some,
                i == self.comps@.len() || self.comps@[i as int] is None,
            decreases self.comps@.len() - i,
        {
            if i >= self.comps.len() {
                break;
            }
            if self.comps[i].is_none() {
                break;
            }
            i += 1;
        }
        proof {
            lemma_occupied_count_le(self.comps@);
        }
        if i >= self.comps.len() {
            self.comps.push(Some(comp));
            proof {
                assert(self.comps@.drop_last() =~= old(self).comps@);
            }
        } else {
            proof {
                lemma_occupied_count_update(self.comps@, i as int, Some(comp));
            }
            self.comps[i] = Some(comp);
        }
        self.size = self.size + 1;
        proof {
            assert forall|e: ObjectRef, k: int|
                self.attachments@.dom().contains(e) && 0 <= k < self.attachments@[e].len()
                implies occupied(self.comps@, #[trigger] self.attachments@[e][k] as int) by {
                let c = self.attachments@[e][k];
                assert(old(self).attachments@[e][k] == c);
                assert(occupied(old(self).comps@, c as int));
            }
        }
        ComponentRef::new(i)
    }

    /// Drop every empty slot at the tail of the array.
    fn trim_end(&mut self)
        ensures
            final(self).comps@ == trim_tail(old(self).comps@),
            final(self).size == old(self).size,
            final(self).attachments == old(self).attachments,
    {
        let ghost u = self.comps@;
        while self.comps.len() > 0 && self.comps[self.comps.len() - 1].is_none()
            invariant
                self.comps@.len() <= u.len(),
                self.comps@ == u.subrange(0, self.comps@.len() as int),
                forall|j: int| self.comps@.len() <= j < u.len() ==> u[j] is None,
                self.size == old(self).size,
                self.attachments == old(self).attachments,
            decreases self.comps@.len(),
        {
            self.comps.pop();
            proof {
                assert(self.comps@ =~= u.subrange(0, self.comps@.len() as int));
            }
        }
        proof {
            let m = self.comps@.len() as int;
            lemma_trim_tail_shape(u, m);
        }
    }

    /// Empty the slot the handle names, trim every now-empty slot at the tail
    /// of the array, and detach the slot from its entity, if it had one.
    pub fn remove(&mut self, r: ComponentRef<T>)
        requires
            old(self).wf(),
            occupied(old(self).slots(), r.idx() as int),
        ensures
            final(self).wf(),
            final(self).slots() == trim_tail(old(self).slots().update(r.idx() as int, None)),
            occupied_count(final(self).slots()) == occupied_count(old(self).slots()) - 1,
            final(self).atts() =~= att_detach(old(self).atts(), r.idx()),
    {
        let i = r.index();
        proof {
            lemma_occupied_count_pos(self.comps@, i as int);
            lemma_occupied_count_update(self.comps@, i as int, None);
        }
        self.comps[i] = None;
        self.trim_end();
        proof {
            lemma_trim_tail_count(old(self).comps@.update(i as int, None));
        }
        self.size = self.size - 1;
        let ghost mid = *self;
        self.attachments.remove(i);
        proof {
            lemma_trim_tail_is_prefix(old(self).comps@.update(i as int, None));
            mid.attachments.lemma_wf_model();
            lemma_detach_detaches(mid.attachments@, i);
            assert forall|e: ObjectRef, k: int|
                self.attachments@.dom().contains(e) && 0 <= k < self.attachments@[e].len()
                implies occupied(self.comps@, #[trigger] self.attachments@[e][k] as int) by {
                let c = self.attachments@[e][k];
                assert(att_refs(self.attachments@, e).contains(c));
                assert(att_refs(self.attachments@, e) == att_refs(mid.attachments@, e)
                    .remove_value(i));
                mid.attachments@[e].index_of_first_ensures(i);
                assert(att_refs(mid.attachments@, e).contains(c)) by {
                    let l = choose|l: int|
                        0 <= l < att_refs(self.attachments@, e).len()
                        && att_refs(self.attachments@, e)[l] == c;
                    if att_refs(mid.attachments@, e).contains(i) {
                        let j0 = att_refs(mid.attachments@, e).index_of_first(i)->0;
                        att_refs(mid.attachments@, e).remove_ensures(j0);
                        if l < j0 {
                            assert(att_refs(mid.attachments@, e)[l] == c);
                        } else {
                            assert(att_refs(mid.attachments@, e)[l + 1] == c);
                        }
                    }
                }
                assert(c != i) by {
                    if c == i {
                        assert(att_attached(self.attachments@, i));
                    }
                }
                assert(occupied(old(self).comps@, c as int)) by {
                    assert(mid.attachments@.dom().contains(e));
                    let l0 = choose|l0: int|
                        0 <= l0 < mid.attachments@[e].len() && mid.attachments@[e][l0] == c;
                    assert(old(self).attachments@[e][l0] == c);
                }
                let u = old(self).comps@.update(i as int, None);
                assert(u[c as int] is Some);
                lemma_trim_tail_is_prefix(u);
                assert(self.comps@ == trim_tail(u));
                assert(c < self.comps@.len());
                assert(self.comps@[c as int] == u.subrange(0, self.comps@.len() as int)[c as int]);
                assert(self.comps@[c as int] is Some);
            }
        }
    }

    /// Attach an occupied slot to an entity; a prior owner of the slot loses
    /// it, since the last attach wins.
    pub fn attach(&mut self, entity: ObjectRef, r: ComponentRef<T>)
        requires
            old(self).wf(),
            occupied(old(self).slots(), r.idx() as int),
        ensures
            final(self).wf(),
            final(self).slots() == old(self).slots(),
            final(self).atts() =~= att_attach(old(self).atts(), entity, r.idx()),
    {
        proof {
            self.lemma_atts_wf();
            lemma_attach_props(self.attachments@, entity, r.idx());
        }
        self.attachments.attach(entity, r.index());
        proof {
            assert forall|e: ObjectRef, k: int|
                self.attachments@.dom().contains(e) && 0 <= k < self.attachments@[e].len()
                implies occupied(self.comps@, #[trigger] self.attachments@[e][k] as int) by {
                let c2 = self.attachments@[e][k];
                assert(att_refs(self.attachments@, e).contains(c2));
                if c2 != r.idx() {
                    assert(att_refs(old(self).attachments@, e).contains(c2));
                    assert(old(self).attachments@.dom().contains(e));
                    let l0 = choose|l0: int|
                        0 <= l0 < old(self).attachments@[e].len()
                        && old(self).attachments@[e][l0] == c2;
                    assert(old(self).attachments@[e][l0] == c2);
                }
            }
        }
    }

    /// Every slot attached to the entity, as handles, in attachment order;
    /// `None` when nothing is attached to the entity.
    pub fn list(&self, entity: ObjectRef) -> (res: Option<Vec<ComponentRef<T>>>)
        requires
            self.wf(),
        ensures
            match res {
                Some(v) => att_has(self.atts(), entity) && v@.len() == att_refs(
                    self.atts(),
                    entity,
                ).len() && forall|k: int|
                    0 <= k < v@.len() ==> (#[trigger] v@[k]).idx() == att_refs(
                        self.atts(),
                        entity,
                    )[k],
                None => !att_has(self.atts(), entity),
            },
    {
        match self.attachments.list(entity) {
            Some(ids) => {
                let mut out: Vec<ComponentRef<T>> = Vec::new();
                let mut k: usize = 0;
                while k < ids.len()
                    invariant
                        k <= ids@.len(),
                        out@.len() == k,
                        forall|l: int| 0 <= l < k ==> (#[trigger] out@[l]).idx() == ids@[l],
                    decreases ids@.len() - k,
                {
                    out.push(ComponentRef::new(ids[k]));
                    k += 1;
                }
                Some(out)
            },
            None => None,
        }
    }

    /// Remove every component attached to the entity from the pool and drop
    /// the entity from the attachment index.
    pub fn clear(&mut self, entity: ObjectRef)
        requires
            old(self).wf(),
        ensures
            final(self).wf(),
            final(self).atts() =~= att_clear(old(self).atts(), entity),
            forall|k: int|
                0 <= k < att_refs(old(self).atts(), entity).len() ==> !occupied(
                    final(self).slots(),
                    #[trigger] att_refs(old(self).atts(), entity)[k] as int,
                ),
            forall|j: int|
                0 <= j < final(self).slots().len() ==> final(self).slots()[j] == (
                if att_refs(old(self).atts(), entity).contains(j as usize) {
                    None
                } else {
                    old(self).slots()[j]
                }),
            final(self).slots().len() <= old(self).slots().len(),
            forall|j: int|
                final(self).slots().len() <= j < old(self).slots().len() ==> old(self).slots()[j]
                    is None || att_refs(old(self).atts(), entity).contains(j as usize),
            occupied_count(final(self).slots()) == occupied_count(old(self).slots()) - att_refs(
                old(self).atts(),
                entity,
            ).len(),
    {
        let ghost m0 = self.attachments@;
        let ghost s0 = self.comps@;
        proof {
            self.lemma_atts_wf();
            assert(s0.len() <= usize::MAX) by {
                assert(self.comps.len() == s0.len());
            }
        }
        match self.attachments.clear(entity) {
            Some(ids) => {
                let ghost refs0 = att_refs(m0, entity);
                let mut k: usize = 0;
                while k < ids.len()
                    invariant
                        k <= refs0.len(),
                        ids@ == refs0,
                        refs0.no_duplicates(),
                        att_wf(m0),
                        att_has(m0, entity),
                        refs0 == m0[entity],
                        self.comps@.len() == s0.len(),
                        forall|l: int| 0 <= l < refs0.len() ==> occupied(s0, refs0[l] as int),
                        forall|j: int|
                            0 <= j < s0.len() ==> self.comps@[j] == (
                            if refs0.subrange(0, k as int).contains(j as usize) {
                                None
                            } else {
                                s0[j]
                            }),
                        self.size + k == occupied_count(s0),
                        occupied_count(self.comps@) == occupied_count(s0) - k,
                        self.attachments@ =~= att_clear(m0, entity),
                        self.attachments.wf(),
                        s0.len() <= usize::MAX,
                    decreases refs0.len() - k,
                {
                    let c = ids[k];
                    proof {
                        assert(refs0[k as int] == c);
                        assert(occupied(s0, c as int));
                        assert(!refs0.subrange(0, k as int).contains(c)) by {
                            if refs0.subrange(0, k as int).contains(c) {
                                let l = choose|l: int|
                                    0 <= l < k && #[trigger] refs0.subrange(0, k as int)[l] == c;
                                assert(refs0[l] == c);
                            }
                        }
                        assert(self.comps@[c as int] is Some);
                        lemma_occupied_count_update(self.comps@, c as int, None);
                        lemma_occupied_count_pos(self.comps@, c as int);
                    }
                    self.comps[c] = None;
                    self.size = self.size - 1;
                    proof {
                        assert forall|j: int| 0 <= j < s0.len() implies self.comps@[j] == (
                            if refs0.subrange(0, k + 1).contains(j as usize) {
                                None
                            } else {
                                s0[j]
                            }) by {
                            if refs0.subrange(0, k + 1).contains(j as usize) {
                                if j != c {
                                    let l = choose|l: int|
                                        0 <= l < k + 1 && #[trigger] refs0.subrange(0, k + 1)[l]
                                            == j as usize;
                                    assert(l != k) by {
                                        if l == k {
                                            assert(refs0.subrange(0, k + 1)[k as int] == c);
                                            assert(j as usize == c);
                                        }
                                    }
                                    assert(refs0.subrange(0, k as int)[l] == j as usize);
                                }
                            } else {
                                assert(!refs0.subrange(0, k as int).contains(j as usize)) by {
                                    if refs0.subrange(0, k as int).contains(j as usize) {
                                        let l = choose|l: int|
                                            0 <= l < k && #[trigger] refs0.subrange(0, k as int)[l]
                                                == j as usize;
                                        assert(refs0.subrange(0, k + 1)[l] == j as usize);
                                    }
                                }
                                assert(j != c) by {
                                    if j == c {
                                        assert(refs0.subrange(0, k + 1)[k as int] == c);
                                    }
                                }
                            }
                        }
                    }
                    k += 1;
                }
                proof {
                    assert(refs0.subrange(0, refs0.len() as int) =~= refs0);
                }
                let ghost u = self.comps@;
                self.trim_end();
                proof {
                    lemma_trim_tail_count(u);
                    lemma_trim_tail_is_prefix(u);
                    assert forall|e: ObjectRef, k2: int|
                        self.attachments@.dom().contains(e) && 0 <= k2 < self.attachments@[e].len()
                        implies occupied(
                        self.comps@,
                        #[trigger] self.attachments@[e][k2] as int,
                    ) by {
                        let c = self.attachments@[e][k2];
                        assert(e != entity);
                        assert(m0.dom().contains(e) && m0[e] == self.attachments@[e]);
                        assert(old(self).attachments@[e][k2] == c);
                        assert(!refs0.contains(c)) by {
                            if refs0.contains(c) {
                                assert(att_refs(m0, entity).contains(c));
                                assert(att_refs(m0, e)[k2] == c);
                                assert(att_refs(m0, e).contains(c));
                            }
                        }
                        assert(u[c as int] == s0[c as int]);
                        assert(u[c as int] is Some);
                        assert(c < self.comps@.len());
                        assert(self.comps@[c as int] == u.subrange(
                            0,
                            self.comps@.len() as int,
                        )[c as int]);
                    }
                    assert forall|j: int|
                        self.comps@.len() <= j < s0.len() implies s0[j] is None || att_refs(
                        m0,
                        entity,
                    ).contains(j as usize) by {
                        assert(u[j] is None);
                        assert(u[j] == (if refs0.contains(j as usize) {
                            None
                        } else {
                            s0[j]
                        }));
                    }
                }
            },
            None => {
                proof {
                    assert(self.attachments@ =~= att_clear(m0, entity));
                    assert(att_refs(m0, entity) == Seq::<usize>::empty());
                }
            },
        }
    }

    /// The handle of the first component attached to the entity, if any.
    pub fn first_ref(&self, entity: ObjectRef) -> (res: Option<ComponentRef<T>>)
        requires
            self.wf(),
        ensures
            match res {
                Some(r) => att_refs(self.atts(), entity).len() > 0 && r.idx() == att_refs(
                    self.atts(),
                    entity,
                )[0] && occupied(self.slots(), r.idx() as int),
                None => att_refs(self.atts(), entity).len() == 0,
            },
    {
        match self.attachments.get_first(entity) {
            Some(c) => {
                proof {
                    assert(self.attachments@[entity][0] == c);
                }
                Some(ComponentRef::new(c))
            },
            None => None,
        }
    }

    /// Read the first component attached to the entity, if any.
    pub fn get_first(&self, entity: ObjectRef) -> (res: Option<&T>)
        requires
            self.wf(),
        ensures
            match res {
                Some(v) => att_refs(self.atts(), entity).len() > 0 && *v == self.slots()[att_refs(
                    self.atts(),
                    entity,
                )[0] as int]->0,
                None => att_refs(self.atts(), entity).len() == 0,
            },
    {
        match self.first_ref(entity) {
            Some(r) => Some(self.get(r)),
            None => None,
        }
    }

    /// Handles of all live components, in ascending slot order.
    pub fn refs(&self) -> (v: Vec<ComponentRef<T>>)
        requires
            self.wf(),
        ensures
            v@.len() == occupied_count(self.slots()),
            forall|a: int, b: int| 0 <= a < b < v@.len() ==> v@[a].idx() < v@[b].idx(),
            forall|k: int| 0 <= k < v@.len() ==> occupied(self.slots(), (#[trigger] v@[k]).idx() as int),
            forall|j: int| occupied(self.slots(), j) ==> exists|k: int|
                0 <= k < v@.len() && (#[trigger] v@[k]).idx() == j,
    {
        let mut v: Vec<ComponentRef<T>> = Vec::new();
        let mut i: usize = 0;
        proof {
            assert(self.comps@.subrange(0, 0) =~= Seq::<Option<T>>::empty());
        }
        while i < self.comps.len()
            invariant
                i <= self.comps@.len(),
                v@.len() == occupied_count(self.comps@.subrange(0, i as int)),
                forall|a: int, b: int| 0 <= a < b < v@.len() ==> v@[a].idx() < v@[b].idx(),
                forall|k: int|
                    0 <= k < v@.len() ==> (#[trigger] v@[k]).idx() < i && occupied(
                        self.comps@,
                        v@[k].idx() as int,
                    ),
                forall|j: int| 0 <= j < i && occupied(self.comps@, j) ==> exists|k: int|
                    0 <= k < v@.len() && (#[trigger] v@[k]).idx() == j,
            decreases self.comps@.len() - i,
        {
            proof {
                lemma_occupied_count_prefix(self.comps@, i as int);
            }
            let ghost v0 = v@;
            if self.comps[i].is_some() {
                v.push(ComponentRef::new(i));
            }
            proof {
                assert forall|j: int| 0 <= j < i + 1 && occupied(self.comps@, j) implies exists|
                    k: int,
                |
                    0 <= k < v@.len() && (#[trigger] v@[k]).idx() == j by {
                    if j < i {
                        let k = choose|k: int| 0 <= k < v0.len() && (#[trigger] v0[k]).idx() == j;
                        assert(v@[k].idx() == j);
                    } else {
                        assert(v@[v@.len() - 1].idx() == j);
                    }
                }
            }
            i += 1;
        }
        proof {
            assert(self.comps@.subrange(0, self.comps@.len() as int) =~= self.comps@);
        }
        v
    }
}

impl<T> Default for BasicComponentPool<T> {
    /// A fresh pool with no slots and no attachments.
    fn default() -> (r: BasicComponentPool<T>)
        ensures
            r.wf(),
            r.slots() == Seq::<Option<T>>::empty(),
            r.atts() == Map::<ObjectRef, Seq<usize>>::empty(),
    {
        BasicComponentPool::new()
    }
}

impl<T> BasicComponentPool<T> {
    /// Read the component in an occupied slot.
    pub fn get(&self, r: ComponentRef<T>) -> (res: &T)
        requires
            occupied(self.slots(), r.idx() as int),
        ensures
            *res == self.slots()[r.idx() as int]->0,
    {
        match &self.comps[r.index()] {
            Some(v) => v,
            None => unreached(),
        }
    }

    /// Borrow the component in an occupied slot for writing; only that slot's
    /// value changes, and the slot stays occupied.
    pub fn get_mut(&mut self, r: ComponentRef<T>) -> (res: &mut T)
        requires
            old(self).wf(),
            occupied(old(self).slots(), r.idx() as int),
        ensures
            *res == old(self).slots()[r.idx() as int]->0,
            final(self).slots() == old(self).slots().update(r.idx() as int, Some(*final(res))),
            final(self).atts() == old(self).atts(),
            final(self).wf(),
    {
        proof {
            assert forall|x: T|
                occupied_count(old(self).slots().update(r.idx() as int, Some(x)))
                    == occupied_count(old(self).slots()) by {
                lemma_occupied_count_update(old(self).comps@, r.idx() as int, Some(x));
            }
        }
        let slot = &mut self.comps[r.index()];
        match slot {
            Some(v) => v,
            None => unreached(),
        }
    }
}

} // verus!
