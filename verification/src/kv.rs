//! Spec-level view of association lists.
//!
//! Several structures in this crate store a key/value relation as a vector of
//! pairs with pairwise-distinct keys. These helpers give such a vector its
//! natural `Map` view and the lemmas that connect vector edits to map edits.

use vstd::prelude::*;

verus! {

/// No key occurs twice in the pair sequence.
pub open spec fn unique_keys<K, V>(s: Seq<(K, V)>) -> bool {
    forall|i: int, j: int|
        0 <= i < s.len() && 0 <= j < s.len() && i != j ==> s[i].0 != s[j].0
}

/// The map that a pair sequence denotes (later entries win, which is moot
/// under `unique_keys`).
pub open spec fn map_of<K, V>(s: Seq<(K, V)>) -> Map<K, V>
    decreases s.len(),
{
    if s.len() == 0 {
        Map::empty()
    } else {
        map_of(s.drop_last()).insert(s.last().0, s.last().1)
    }
}

/// A key is in the map exactly when some pair carries it.
pub proof fn lemma_map_of_dom<K, V>(s: Seq<(K, V)>, k: K)
    ensures
        map_of(s).dom().contains(k) <==> exists|i: int| 0 <= i < s.len() && s[i].0 == k,
    decreases s.len(),
{
    if s.len() > 0 {
        lemma_map_of_dom(s.drop_last(), k);
        if map_of(s).dom().contains(k) && s.last().0 != k {
            assert(map_of(s.drop_last()).dom().contains(k));
        }
        if exists|i: int| 0 <= i < s.len() && s[i].0 == k {
            let i = choose|i: int| 0 <= i < s.len() && s[i].0 == k;
            if i < s.len() - 1 {
                assert(s.drop_last()[i].0 == k);
            }
        }
    }
}

/// Under unique keys, the pair at any position gives the map's value there.
pub proof fn lemma_map_of_index<K, V>(s: Seq<(K, V)>, i: int)
    requires
        unique_keys(s),
        0 <= i < s.len(),
    ensures
        map_of(s).dom().contains(s[i].0),
        map_of(s)[s[i].0] == s[i].1,
    decreases s.len(),
{
    lemma_map_of_dom(s, s[i].0);
    if i < s.len() - 1 {
        assert(unique_keys(s.drop_last()));
        assert(s.drop_last()[i] == s[i]);
        lemma_map_of_index(s.drop_last(), i);
        assert(s.last().0 != s[i].0);
    }
}

/// Replacing the value at one position updates the map at that pair's key.
pub proof fn lemma_map_of_update<K, V>(s: Seq<(K, V)>, i: int, v: V)
    requires
        unique_keys(s),
        0 <= i < s.len(),
    ensures
        unique_keys(s.update(i, (s[i].0, v))),
        map_of(s.update(i, (s[i].0, v))) =~= map_of(s).insert(s[i].0, v),
    decreases s.len(),
{
    let t = s.update(i, (s[i].0, v));
    assert forall|a: int, b: int|
        0 <= a < t.len() && 0 <= b < t.len() && a != b implies t[a].0 != t[b].0 by {
        assert(t[a].0 == s[a].0 && t[b].0 == s[b].0);
    }
    if i == s.len() - 1 {
        assert(t.drop_last() =~= s.drop_last());
    } else {
        assert(t.drop_last() =~= s.drop_last().update(i, (s[i].0, v)));
        assert(s.drop_last()[i] == s[i]);
        lemma_map_of_update(s.drop_last(), i, v);
        assert(s.last().0 != s[i].0);
    }
}

/// Appending a pair with a fresh key inserts it into the map.
pub proof fn lemma_map_of_push<K, V>(s: Seq<(K, V)>, k: K, v: V)
    requires
        unique_keys(s),
        forall|i: int| 0 <= i < s.len() ==> s[i].0 != k,
    ensures
        unique_keys(s.push((k, v))),
        map_of(s.push((k, v))) == map_of(s).insert(k, v),
{
    let t = s.push((k, v));
    assert(t.drop_last() =~= s);
}

/// Removing the pair at one position removes that pair's key from the map.
pub proof fn lemma_map_of_remove<K, V>(s: Seq<(K, V)>, i: int)
    requires
        unique_keys(s),
        0 <= i < s.len(),
    ensures
        unique_keys(s.remove(i)),
        map_of(s.remove(i)) =~= map_of(s).remove(s[i].0),
    decreases s.len(),
{
    let t = s.remove(i);
    assert forall|a: int, b: int|
        0 <= a < t.len() && 0 <= b < t.len() && a != b implies t[a].0 != t[b].0 by {
        let a0 = if a < i { a } else { a + 1 };
        let b0 = if b < i { b } else { b + 1 };
        assert(t[a].0 == s[a0].0 && t[b].0 == s[b0].0);
    }
    if i == s.len() - 1 {
        assert(t =~= s.drop_last());
        lemma_map_of_dom(s.drop_last(), s[i].0);
        assert(map_of(s) == map_of(s.drop_last()).insert(s[i].0, s[i].1));
        assert forall|k: K| map_of(t).dom().contains(k) implies
            map_of(s).remove(s[i].0).dom().contains(k) && map_of(s).remove(s[i].0)[k] == map_of(t)[k] by {
            lemma_map_of_dom(t, k);
            let j = choose|j: int| 0 <= j < t.len() && t[j].0 == k;
            assert(s[j].0 == k);
            lemma_map_of_index(t, j);
            lemma_map_of_index(s, j);
        }
        assert forall|k: K| map_of(s).remove(s[i].0).dom().contains(k) implies
            map_of(t).dom().contains(k) by {
            lemma_map_of_dom(s, k);
            let j = choose|j: int| 0 <= j < s.len() && s[j].0 == k;
            assert(j != i);
            assert(t[j].0 == k);
            lemma_map_of_dom(t, k);
        }
    } else {
        assert(t.drop_last() =~= s.drop_last().remove(i));
        assert(t.last() == s.last());
        assert(unique_keys(s.drop_last()));
        assert(s.drop_last()[i] == s[i]);
        lemma_map_of_remove(s.drop_last(), i);
        assert(map_of(t) == map_of(s.drop_last()).remove(s[i].0).insert(s.last().0, s.last().1));
        assert(s.last().0 != s[i].0);
        assert(map_of(s.drop_last()).remove(s[i].0).insert(s.last().0, s.last().1)
            =~= map_of(s.drop_last()).insert(s.last().0, s.last().1).remove(s[i].0));
    }
}

/// Removing a value from a duplicate-free sequence drops every occurrence of
/// it and nothing else.
pub proof fn lemma_remove_value_props<A>(s: Seq<A>, c: A)
    requires
        s.no_duplicates(),
    ensures
        s.remove_value(c).no_duplicates(),
        !s.remove_value(c).contains(c),
        forall|x: A| x != c ==> s.remove_value(c).contains(x) == s.contains(x),
{
    s.index_of_first_ensures(c);
    if s.contains(c) {
        let j = s.index_of_first(c)->0;
        s.remove_ensures(j);
        let t = s.remove(j);
        assert forall|a: int, b: int| 0 <= a < t.len() && 0 <= b < t.len() && a != b implies
            t[a] != t[b] by {
            let a0 = if a < j { a } else { a + 1 };
            let b0 = if b < j { b } else { b + 1 };
            assert(t[a] == s[a0] && t[b] == s[b0]);
        }
        assert forall|l: int| 0 <= l < t.len() implies t[l] != c by {
            let l0 = if l < j { l } else { l + 1 };
            assert(t[l] == s[l0]);
        }
        assert forall|x: A| x != c && s.contains(x) implies t.contains(x) by {
            let l0 = choose|l0: int| 0 <= l0 < s.len() && s[l0] == x;
            if l0 < j {
                assert(t[l0] == x);
            } else {
                assert(t[l0 - 1] == x);
            }
        }
        assert forall|x: A| t.contains(x) implies s.contains(x) by {
            let l = choose|l: int| 0 <= l < t.len() && t[l] == x;
            let l0 = if l < j { l } else { l + 1 };
            assert(s[l0] == x);
        }
    }
}

/// In a duplicate-free sequence, removing the value at a position is removing
/// that position.
pub proof fn lemma_remove_value_at<A>(s: Seq<A>, i: int)
    requires
        s.no_duplicates(),
        0 <= i < s.len(),
    ensures
        s.remove_value(s[i]) == s.remove(i),
{
    s.index_of_first_ensures(s[i]);
    let j = s.index_of_first(s[i])->0;
    assert(s[j] == s[i]);
}

/// Removing one value from a sequence does not disturb any other value's
/// membership.
pub proof fn lemma_remove_value_keeps<A>(s: Seq<A>, c: A, x: A)
    requires
        x != c,
    ensures
        s.remove_value(c).contains(x) == s.contains(x),
{
    s.index_of_first_ensures(c);
    if s.contains(c) {
        let j = s.index_of_first(c)->0;
        s.remove_ensures(j);
        let t = s.remove(j);
        if s.contains(x) {
            let l = choose|l: int| 0 <= l < s.len() && s[l] == x;
            if l < j {
                assert(t[l] == x);
            } else {
                assert(t[l - 1] == x);
            }
        }
        if t.contains(x) {
            let l = choose|l: int| 0 <= l < t.len() && t[l] == x;
            let l0 = if l < j { l } else { l + 1 };
            assert(s[l0] == x);
        }
    }
}

} // verus!
