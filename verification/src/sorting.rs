//! Stable sorting by an integer key.

use vstd::prelude::*;
use vstd::seq_lib::group_to_multiset_ensures;

verus! {

/// `x` put into a list behind every item whose key is not greater.
pub open spec fn insert_by<T>(s: Seq<T>, x: T, key: spec_fn(T) -> int) -> Seq<T>
    decreases s.len(),
{
    if s.len() == 0 || key(s.last()) <= key(x) {
        s.push(x)
    } else {
        insert_by(s.drop_last(), x, key).push(s.last())
    }
}

/// The items in the order of their keys; items with equal keys keep their order.
pub open spec fn sorted_by<T>(s: Seq<T>, key: spec_fn(T) -> int) -> Seq<T>
    decreases s.len(),
{
    if s.len() == 0 {
        s
    } else {
        insert_by(sorted_by(s.drop_last(), key), s.last(), key)
    }
}

pub open spec fn is_sorted_by<T>(s: Seq<T>, key: spec_fn(T) -> int) -> bool {
    forall|i: int, j: int| 0 <= i <= j < s.len() ==> key(#[trigger] s[i]) <= key(#[trigger] s[j])
}

pub open spec fn has_key<T>(key: spec_fn(T) -> int, k: int) -> spec_fn(T) -> bool {
    |x: T| key(x) == k
}

/// The items whose key is `k`, in their order.
pub open spec fn with_key<T>(s: Seq<T>, key: spec_fn(T) -> int, k: int) -> Seq<T> {
    s.filter(has_key(key, k))
}

/// Where an item goes whose key is less than that of everything from `p` on.
pub proof fn lemma_insert_position<T>(s: Seq<T>, x: T, key: spec_fn(T) -> int, p: int)
    requires
        0 <= p <= s.len(),
        p > 0 ==> key(s[p - 1]) <= key(x),
        forall|i: int| p <= i < s.len() ==> key(#[trigger] s[i]) > key(x),
    ensures
        insert_by(s, x, key) == s.insert(p, x),
    decreases s.len(),
{
    if s.len() == 0 || key(s.last()) <= key(x) {
        assert(p == s.len()) by {
            if p < s.len() {
                assert(key(s[s.len() - 1]) > key(x));
            }
        }
        assert(s.insert(p, x) =~= s.push(x));
    } else {
        assert(p < s.len());
        let t = s.drop_last();
        assert forall|i: int| p <= i < t.len() implies key(#[trigger] t[i]) > key(x) by {
            assert(t[i] == s[i]);
        }
        lemma_insert_position(t, x, key, p);
        assert(s.insert(p, x) =~= t.insert(p, x).push(s.last()));
    }
}

proof fn lemma_insert_sorted<T>(s: Seq<T>, x: T, key: spec_fn(T) -> int)
    requires
        is_sorted_by(s, key),
    ensures
        is_sorted_by(insert_by(s, x, key), key),
        insert_by(s, x, key).len() == s.len() + 1,
        insert_by(s, x, key).to_multiset() == s.to_multiset().insert(x),
        s.len() > 0 ==> key(insert_by(s, x, key).last()) == if key(s.last()) <= key(x) { key(x) } else { key(s.last()) },
        s.len() == 0 ==> insert_by(s, x, key).last() == x,
    decreases s.len(),
{
    broadcast use group_to_multiset_ensures;

    if s.len() == 0 || key(s.last()) <= key(x) {
        let r = s.push(x);
        assert forall|i: int, j: int| 0 <= i <= j < r.len() implies key(#[trigger] r[i]) <= key(#[trigger] r[j]) by {
            if j == s.len() && i < s.len() {
                assert(key(s[i]) <= key(s[s.len() - 1]));
            }
        }
    } else {
        let t = s.drop_last();
        assert forall|i: int, j: int| 0 <= i <= j < t.len() implies key(#[trigger] t[i]) <= key(#[trigger] t[j]) by {
            assert(t[i] == s[i] && t[j] == s[j]);
        }
        lemma_insert_sorted(t, x, key);
        let u = insert_by(t, x, key);
        let r = u.push(s.last());
        if t.len() > 0 {
            assert(key(s[t.len() - 1]) <= key(s[s.len() - 1]));
        }
        assert(key(u.last()) <= key(s.last()));
        assert forall|i: int, j: int| 0 <= i <= j < r.len() implies key(#[trigger] r[i]) <= key(#[trigger] r[j]) by {
            if j == u.len() && i < u.len() {
                assert(key(u[i]) <= key(u[u.len() - 1]));
            }
        }
        assert(s =~= t.push(s.last()));
        assert(r.to_multiset() =~= s.to_multiset().insert(x));
    }
}

/// Sorting by key orders the items, and neither loses nor adds any.
pub proof fn lemma_sorted_by<T>(s: Seq<T>, key: spec_fn(T) -> int)
    ensures
        is_sorted_by(sorted_by(s, key), key),
        sorted_by(s, key).len() == s.len(),
        sorted_by(s, key).to_multiset() == s.to_multiset(),
    decreases s.len(),
{
    broadcast use group_to_multiset_ensures;

    if s.len() > 0 {
        lemma_sorted_by(s.drop_last(), key);
        lemma_insert_sorted(sorted_by(s.drop_last(), key), s.last(), key);
        assert(s =~= s.drop_last().push(s.last()));
    }
}

proof fn lemma_insert_stable<T>(s: Seq<T>, x: T, key: spec_fn(T) -> int, k: int)
    requires
        is_sorted_by(s, key),
    ensures
        with_key(insert_by(s, x, key), key, k) == with_key(s.push(x), key, k),
    decreases s.len(),
{
    let p = has_key(key, k);
    if s.len() > 0 && key(s.last()) > key(x) {
        let t = s.drop_last();
        assert forall|i: int, j: int| 0 <= i <= j < t.len() implies key(#[trigger] t[i]) <= key(#[trigger] t[j]) by {
            assert(t[i] == s[i] && t[j] == s[j]);
        }
        lemma_insert_stable(t, x, key, k);
        let u = insert_by(t, x, key);
        t.lemma_filter_push(x, p);
        u.lemma_filter_push(s.last(), p);
        t.lemma_filter_push(s.last(), p);
        s.lemma_filter_push(x, p);
        assert(s =~= t.push(s.last()));
    }
}

/// Items with the same key come out of the sort in the order in which they stood.
pub proof fn lemma_sorted_by_stable<T>(s: Seq<T>, key: spec_fn(T) -> int, k: int)
    ensures
        with_key(sorted_by(s, key), key, k) == with_key(s, key, k),
    decreases s.len(),
{
    if s.len() > 0 {
        let t = s.drop_last();
        let p = has_key(key, k);
        lemma_sorted_by(t, key);
        lemma_sorted_by_stable(t, key, k);
        lemma_insert_stable(sorted_by(t, key), s.last(), key, k);
        sorted_by(t, key).lemma_filter_push(s.last(), p);
        t.lemma_filter_push(s.last(), p);
        assert(s =~= t.push(s.last()));
    }
}

/// Sorting a list that is in order changes nothing.
pub proof fn lemma_sorted_by_fixed<T>(s: Seq<T>, key: spec_fn(T) -> int)
    requires
        is_sorted_by(s, key),
    ensures
        sorted_by(s, key) == s,
    decreases s.len(),
{
    if s.len() > 0 {
        let t = s.drop_last();
        assert forall|i: int, j: int| 0 <= i <= j < t.len() implies key(#[trigger] t[i]) <= key(#[trigger] t[j]) by {
            assert(t[i] == s[i] && t[j] == s[j]);
        }
        lemma_sorted_by_fixed(t, key);
        if t.len() > 0 {
            assert(key(s[t.len() - 1]) <= key(s[s.len() - 1]));
        }
        assert(s =~= t.push(s.last()));
    }
}

} // verus!
