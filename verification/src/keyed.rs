//! Collections keyed by strings, held as vectors without repeated keys.
//!
//! A list of `(key, value)` pairs with distinct keys stands for a map from the
//! keys' characters to the values; a list of distinct strings stands for a set.

use vstd::prelude::*;

use crate::text::str_eq;

verus! {

/// No key occurs twice.
pub open spec fn keys_unique<V>(s: Seq<(String, V)>) -> bool {
    forall|i: int, j: int|
        0 <= i < s.len() && 0 <= j < s.len() && i != j ==> #[trigger] s[i].0@ != #[trigger] s[j].0@
}

/// Whether some entry has key `k`.
pub open spec fn has_key<V>(s: Seq<(String, V)>, k: Seq<char>) -> bool {
    exists|i: int| 0 <= i < s.len() && #[trigger] s[i].0@ == k
}

/// The map that a list of entries with distinct keys stands for.
pub open spec fn assoc_map<V>(s: Seq<(String, V)>) -> Map<Seq<char>, V> {
    Map::new(
        |k: Seq<char>| has_key(s, k),
        |k: Seq<char>| s[choose|i: int| 0 <= i < s.len() && #[trigger] s[i].0@ == k].1,
    )
}

/// In a list with distinct keys, the entry at `i` gives the map's value for its
/// key.
pub proof fn lemma_assoc_at<V>(s: Seq<(String, V)>, i: int)
    requires
        keys_unique(s),
        0 <= i < s.len(),
    ensures
        assoc_map(s).dom().contains(s[i].0@),
        assoc_map(s)[s[i].0@] == s[i].1,
{
    let k = s[i].0@;
    assert(has_key(s, k));
    let j = choose|j: int| 0 <= j < s.len() && #[trigger] s[j].0@ == k;
    assert(j == i);
}

/// Pushing an entry with a new key inserts it into the map.
pub proof fn lemma_assoc_push<V>(s: Seq<(String, V)>, k: String, v: V)
    requires
        keys_unique(s),
        !has_key(s, k@),
    ensures
        keys_unique(s.push((k, v))),
        assoc_map(s.push((k, v))) == assoc_map(s).insert(k@, v),
{
    let t = s.push((k, v));
    assert forall|i: int, j: int|
        0 <= i < t.len() && 0 <= j < t.len() && i != j implies #[trigger] t[i].0@ != #[trigger] t[j].0@ by {
        if i < s.len() && j < s.len() {
            assert(t[i] == s[i] && t[j] == s[j]);
        } else if i < s.len() {
            assert(t[i] == s[i]);
        } else {
            assert(t[j] == s[j]);
        }
    }
    assert forall|q: Seq<char>| #[trigger] has_key(t, q) == (has_key(s, q) || q == k@) by {
        if has_key(s, q) {
            let i = choose|i: int| 0 <= i < s.len() && #[trigger] s[i].0@ == q;
            assert(t[i] == s[i]);
        }
        if has_key(t, q) && q != k@ {
            let i = choose|i: int| 0 <= i < t.len() && #[trigger] t[i].0@ == q;
            assert(t[i] == s[i]);
        }
        if q == k@ {
            assert(t[s.len() as int].0@ == q);
        }
    }
    assert forall|q: Seq<char>| #[trigger] assoc_map(t).dom().contains(q) implies assoc_map(t)[q]
        == assoc_map(s).insert(k@, v)[q] by {
        if q == k@ {
            lemma_assoc_at(t, s.len() as int);
        } else {
            let i = choose|i: int| 0 <= i < s.len() && #[trigger] s[i].0@ == q;
            assert(t[i] == s[i]);
            lemma_assoc_at(t, i);
            lemma_assoc_at(s, i);
        }
    }
    assert(assoc_map(t).dom() =~= assoc_map(s).insert(k@, v).dom());
    assert(assoc_map(t) =~= assoc_map(s).insert(k@, v));
}

/// Replacing the value of the entry at `i` updates the map at its key.
pub proof fn lemma_assoc_update<V>(s: Seq<(String, V)>, i: int, k: String, v: V)
    requires
        keys_unique(s),
        0 <= i < s.len(),
        k@ == s[i].0@,
    ensures
        keys_unique(s.update(i, (k, v))),
        assoc_map(s.update(i, (k, v))) == assoc_map(s).insert(k@, v),
{
    let t = s.update(i, (k, v));
    assert forall|a: int, b: int|
        0 <= a < t.len() && 0 <= b < t.len() && a != b implies #[trigger] t[a].0@ != #[trigger] t[b].0@ by {
        assert(t[a].0@ == s[a].0@ && t[b].0@ == s[b].0@);
    }
    assert forall|q: Seq<char>| #[trigger] has_key(t, q) == has_key(s, q) by {
        if has_key(s, q) {
            let j = choose|j: int| 0 <= j < s.len() && #[trigger] s[j].0@ == q;
            assert(t[j].0@ == q);
        }
        if has_key(t, q) {
            let j = choose|j: int| 0 <= j < t.len() && #[trigger] t[j].0@ == q;
            assert(s[j].0@ == q);
        }
    }
    assert forall|q: Seq<char>| #[trigger] assoc_map(t).dom().contains(q) implies assoc_map(t)[q]
        == assoc_map(s).insert(k@, v)[q] by {
        let j = choose|j: int| 0 <= j < t.len() && #[trigger] t[j].0@ == q;
        lemma_assoc_at(t, j);
        if j != i {
            assert(t[j] == s[j]);
            lemma_assoc_at(s, j);
        }
    }
    assert(assoc_map(t).dom() =~= assoc_map(s).insert(k@, v).dom());
    assert(assoc_map(t) =~= assoc_map(s).insert(k@, v));
}

/// Removing the entry at `i` removes its key from the map.
pub proof fn lemma_assoc_remove<V>(s: Seq<(String, V)>, i: int)
    requires
        keys_unique(s),
        0 <= i < s.len(),
    ensures
        keys_unique(s.remove(i)),
        assoc_map(s.remove(i)) == assoc_map(s).remove(s[i].0@),
{
    let t = s.remove(i);
    let k = s[i].0@;
    assert forall|a: int, b: int|
        0 <= a < t.len() && 0 <= b < t.len() && a != b implies #[trigger] t[a].0@ != #[trigger] t[b].0@ by {
        let a2 = if a < i { a } else { a + 1 };
        let b2 = if b < i { b } else { b + 1 };
        assert(t[a] == s[a2] && t[b] == s[b2]);
    }
    assert forall|q: Seq<char>| #[trigger] has_key(t, q) == (has_key(s, q) && q != k) by {
        if has_key(s, q) && q != k {
            let j = choose|j: int| 0 <= j < s.len() && #[trigger] s[j].0@ == q;
            let j2 = if j < i { j } else { j - 1 };
            assert(t[j2] == s[j]);
        }
        if has_key(t, q) {
            let j = choose|j: int| 0 <= j < t.len() && #[trigger] t[j].0@ == q;
            let j2 = if j < i { j } else { j + 1 };
            assert(t[j] == s[j2]);
        }
    }
    assert forall|q: Seq<char>| #[trigger] assoc_map(t).dom().contains(q) implies assoc_map(t)[q]
        == assoc_map(s).remove(k)[q] by {
        let j = choose|j: int| 0 <= j < t.len() && #[trigger] t[j].0@ == q;
        let j2 = if j < i { j } else { j + 1 };
        assert(t[j] == s[j2]);
        lemma_assoc_at(t, j);
        lemma_assoc_at(s, j2);
    }
    assert(assoc_map(t).dom() =~= assoc_map(s).remove(k).dom());
    assert(assoc_map(t) =~= assoc_map(s).remove(k));
}

/// The position of the entry with key `key`, if there is one.
pub fn find_key<V>(entries: &Vec<(String, V)>, key: &str) -> (r: Option<usize>)
    ensures
        match r {
            Some(i) => i < entries@.len() && entries@[i as int].0@ == key@,
            None => !has_key(entries@, key@),
        },
{
    let mut i: usize = 0;
    while i < entries.len()
        invariant
            i <= entries@.len(),
            forall|j: int| 0 <= j < i ==> entries@[j].0@ != key@,
        decreases entries@.len() - i,
    {
        if str_eq(entries[i].0.as_str(), key) {
            return Some(i);
        }
        i += 1;
    }
    None
}

// ---------------------------------------------------------------------------
// Sets
// ---------------------------------------------------------------------------

/// No two items have the same view.
pub open spec fn views_unique<T: View>(s: Seq<T>) -> bool {
    forall|i: int, j: int|
        0 <= i < s.len() && 0 <= j < s.len() && i != j ==> #[trigger] s[i]@ != #[trigger] s[j]@
}

/// The set of the items' views.
pub open spec fn view_set<T: View>(s: Seq<T>) -> Set<T::V> {
    Set::new(|x: T::V| exists|i: int| 0 <= i < s.len() && #[trigger] s[i]@ == x)
}

/// Appending an entry adds its key to the keys present.
pub proof fn lemma_has_key_push<V>(s: Seq<(String, V)>, e: (String, V))
    ensures
        forall|k: Seq<char>| #[trigger] has_key(s.push(e), k) <==> has_key(s, k) || k == e.0@,
{
    let t = s.push(e);
    assert forall|k: Seq<char>| #[trigger] has_key(t, k) <==> has_key(s, k) || k == e.0@ by {
        if has_key(t, k) {
            let a = choose|a: int| 0 <= a < t.len() && #[trigger] t[a].0@ == k;
            if a < s.len() {
                assert(s[a].0@ == k);
            }
        }
        if has_key(s, k) {
            let a = choose|a: int| 0 <= a < s.len() && #[trigger] s[a].0@ == k;
            assert(t[a].0@ == k);
        }
        if k == e.0@ {
            assert(t[s.len() as int].0@ == k);
        }
    }
}

/// Appending an item adds its view to the set, whether or not it was there.
pub proof fn lemma_view_set_snoc<T: View>(s: Seq<T>, x: T)
    ensures
        view_set(s.push(x)) == view_set(s).insert(x@),
{
    let t = s.push(x);
    assert forall|y: T::V| view_set(t).contains(y) <==> view_set(s).insert(x@).contains(y) by {
        if view_set(t).contains(y) {
            let i = choose|i: int| 0 <= i < t.len() && #[trigger] t[i]@ == y;
            if i < s.len() {
                assert(s[i]@ == y);
            }
        }
        if view_set(s).contains(y) {
            let i = choose|i: int| 0 <= i < s.len() && #[trigger] s[i]@ == y;
            assert(t[i]@ == y);
        }
        if y == x@ {
            assert(t[s.len() as int]@ == y);
        }
    }
    assert(view_set(t) =~= view_set(s).insert(x@));
}

/// Items with distinct views make a finite set of as many views.
pub proof fn lemma_view_set_len<T: View>(s: Seq<T>)
    requires
        views_unique(s),
    ensures
        view_set(s).finite(),
        view_set(s).len() == s.len(),
    decreases s.len(),
{
    if s.len() == 0 {
        assert(view_set(s) =~= Set::<T::V>::empty());
    } else {
        let d = s.drop_last();
        assert(views_unique(d)) by {
            assert forall|i: int, j: int|
                0 <= i < d.len() && 0 <= j < d.len() && i != j implies #[trigger] d[i]@
                != #[trigger] d[j]@ by {
                assert(d[i] == s[i]);
                assert(d[j] == s[j]);
            }
        }
        lemma_view_set_len(d);
        assert(d.push(s.last()) =~= s);
        lemma_view_set_snoc(d, s.last());
        assert(!view_set(d).contains(s.last()@)) by {
            if view_set(d).contains(s.last()@) {
                let i = choose|i: int| 0 <= i < d.len() && #[trigger] d[i]@ == s.last()@;
                assert(s[i]@ == s[s.len() - 1]@);
            }
        }
    }
}

/// Pushing an item adds its view to the set.
pub proof fn lemma_view_set_push<T: View>(s: Seq<T>, x: T)
    requires
        views_unique(s),
        !view_set(s).contains(x@),
    ensures
        views_unique(s.push(x)),
        view_set(s.push(x)) == view_set(s).insert(x@),
{
    let t = s.push(x);
    assert forall|i: int, j: int|
        0 <= i < t.len() && 0 <= j < t.len() && i != j implies #[trigger] t[i]@ != #[trigger] t[j]@ by {
        if i < s.len() && j < s.len() {
            assert(t[i] == s[i] && t[j] == s[j]);
        } else if i < s.len() {
            assert(t[i] == s[i]);
            assert(view_set(s).contains(s[i]@));
        } else {
            assert(t[j] == s[j]);
            assert(view_set(s).contains(s[j]@));
        }
    }
    assert forall|q: T::V| #[trigger] view_set(t).contains(q) == view_set(s).insert(x@).contains(
        q,
    ) by {
        if view_set(s).contains(q) {
            let i = choose|i: int| 0 <= i < s.len() && #[trigger] s[i]@ == q;
            assert(t[i] == s[i]);
        }
        if view_set(t).contains(q) && q != x@ {
            let i = choose|i: int| 0 <= i < t.len() && #[trigger] t[i]@ == q;
            assert(t[i] == s[i]);
        }
        if q == x@ {
            assert(t[s.len() as int]@ == q);
        }
    }
    assert(view_set(t) =~= view_set(s).insert(x@));
}

/// Removing the item at `i` removes its view from the set.
pub proof fn lemma_view_set_remove<T: View>(s: Seq<T>, i: int)
    requires
        views_unique(s),
        0 <= i < s.len(),
    ensures
        views_unique(s.remove(i)),
        view_set(s.remove(i)) == view_set(s).remove(s[i]@),
{
    let t = s.remove(i);
    assert forall|a: int, b: int|
        0 <= a < t.len() && 0 <= b < t.len() && a != b implies #[trigger] t[a]@ != #[trigger] t[b]@ by {
        let a2 = if a < i { a } else { a + 1 };
        let b2 = if b < i { b } else { b + 1 };
        assert(t[a] == s[a2] && t[b] == s[b2]);
    }
    assert forall|q: T::V| #[trigger] view_set(t).contains(q) == view_set(s).remove(
        s[i]@,
    ).contains(q) by {
        if view_set(s).contains(q) && q != s[i]@ {
            let j = choose|j: int| 0 <= j < s.len() && #[trigger] s[j]@ == q;
            let j2 = if j < i { j } else { j - 1 };
            assert(t[j2] == s[j]);
        }
        if view_set(t).contains(q) {
            let j = choose|j: int| 0 <= j < t.len() && #[trigger] t[j]@ == q;
            let j2 = if j < i { j } else { j + 1 };
            assert(t[j] == s[j2]);
        }
    }
    assert(view_set(t) =~= view_set(s).remove(s[i]@));
}

/// The position of `x` in `items`, if it is there.
pub fn find_string(items: &Vec<String>, x: &str) -> (r: Option<usize>)
    ensures
        match r {
            Some(i) => i < items@.len() && items@[i as int]@ == x@,
            None => !view_set(items@).contains(x@),
        },
{
    let mut i: usize = 0;
    while i < items.len()
        invariant
            i <= items@.len(),
            forall|j: int| 0 <= j < i ==> items@[j]@ != x@,
        decreases items@.len() - i,
    {
        if str_eq(items[i].as_str(), x) {
            return Some(i);
        }
        i += 1;
    }
    None
}

} // verus!
