//! Page windows for online lists.

use std::collections::HashSet;

use vstd::prelude::*;

verus! {

broadcast use vstd::std_specs::hash::group_hash_axioms;

pub const PAGE_SIZE: usize = 50;

/// How many rows before the end of a list the next page is asked for.
pub const PREFETCH_REMAINING: usize = 8;

#[derive(Clone, Copy, Debug, PartialEq, Eq, Structural)]
pub struct PaginationInfo {
    pub offset: usize,
    pub limit: usize,
    pub has_more: bool,
    pub total: u64,
    pub loading: bool,
}

impl Default for PaginationInfo {
    fn default() -> (r: PaginationInfo)
        ensures
            r == (PaginationInfo { offset: 0, limit: 0, has_more: false, total: 0, loading: false }),
    {
        PaginationInfo { offset: 0, limit: 0, has_more: false, total: 0, loading: false }
    }
}

/// The offset behind a page, which stops at the largest one.
pub open spec fn next_offset(offset: usize, received: usize) -> int {
    if offset + received <= usize::MAX {
        offset + received
    } else {
        usize::MAX as int
    }
}

impl PaginationInfo {
    /// The window behind a page that was received. A page that is not full is
    /// the last one, and so is one that reaches a total that is known.
    pub fn from_fetch(offset: usize, limit: usize, received: usize, total: u64) -> (r: PaginationInfo)
        ensures
            r.offset == next_offset(offset, received),
            r.limit == limit,
            r.total == total,
            !r.loading,
            r.has_more == !(received < limit || (total > 0 && next_offset(offset, received) >= total)),
    {
        let next: usize = offset.saturating_add(received);
        let reached_end: bool = received < limit || (total > 0 && next as u128 >= total as u128);
        PaginationInfo { offset: next, limit, has_more: !reached_end, total, loading: false }
    }

    /// Whether the selection is so near to the end of the rows that the next
    /// page has to be asked for.
    pub fn should_prefetch(self, selected: usize, loaded: usize) -> (r: bool)
        ensures
            r == (self.has_more && !self.loading && loaded > 0 && selected + PREFETCH_REMAINING + 1 >= loaded),
    {
        self.has_more && !self.loading && loaded > 0 && selected as u128 + PREFETCH_REMAINING as u128 + 1
            >= loaded as u128
    }

    /// The number of rows to show, and whether more than those may exist.
    pub fn display_total(self, loaded: usize) -> (r: (usize, bool))
        ensures
            r.0 == if self.total as usize >= loaded { self.total as usize } else { loaded },
            r.1 == (self.has_more && (self.total == 0 || r.0 > loaded)),
    {
        let known: usize = self.total as usize;
        let total: usize = if known >= loaded {
            known
        } else {
            loaded
        };
        (total, self.has_more && (self.total == 0 || total > loaded))
    }
}

/// Whether some item of a list has an id.
pub open spec fn has_id<T>(list: Seq<T>, id_of: spec_fn(T) -> u64, id: u64) -> bool {
    exists|i: int| 0 <= i < list.len() && id_of(#[trigger] list[i]) == id
}

/// A list with those of `extra` behind it whose id it does not hold yet.
pub open spec fn merged<T>(list: Seq<T>, extra: Seq<T>, id_of: spec_fn(T) -> u64) -> Seq<T>
    decreases extra.len(),
{
    if extra.len() == 0 {
        list
    } else {
        let m = merged(list, extra.drop_last(), id_of);
        if has_id(m, id_of, id_of(extra.last())) {
            m
        } else {
            m.push(extra.last())
        }
    }
}

/// Whether a function returns for each item what `ids` says of it.
pub open spec fn gives_ids<T, F: Fn(&T) -> u64>(f: F, ids: spec_fn(T) -> u64) -> bool {
    forall|x: &T, id: u64| #[trigger] call_ensures(f, (x,), id) ==> id == ids(*x)
}

/// One more item among those whose ids were seen.
proof fn lemma_seen<T>(list: Seq<T>, item: T, ids: spec_fn(T) -> u64, before: Set<u64>, after: Set<u64>)
    requires
        forall|id: u64| #[trigger] before.contains(id) <==> has_id(list, ids, id),
        after == before.insert(ids(item)),
    ensures
        forall|id: u64| #[trigger] after.contains(id) <==> has_id(list.push(item), ids, id),
{
    let longer = list.push(item);
    assert forall|id: u64| #[trigger] after.contains(id) <==> has_id(longer, ids, id) by {
        assert(before.contains(id) <==> has_id(list, ids, id));
        if has_id(list, ids, id) {
            let j = choose|j: int| 0 <= j < list.len() && ids(#[trigger] list[j]) == id;
            assert(longer[j] == list[j]);
        }
        if id == ids(item) {
            assert(longer[list.len() as int] == item);
        }
        if has_id(longer, ids, id) {
            let j = choose|j: int| 0 <= j < longer.len() && ids(#[trigger] longer[j]) == id;
            if j < list.len() {
                assert(list[j] == longer[j]);
            }
        }
    }
}

/// Appends those items of `extra` whose id the list does not hold yet.
pub fn merge_unique_by_id<T, F: Fn(&T) -> u64>(existing: &mut Vec<T>, extra: Vec<T>, id_of: F)
    requires
        forall|x: &T| #[trigger] call_requires(id_of, (x,)),
    ensures
        forall|ids: spec_fn(T) -> u64| #[trigger]
            gives_ids(id_of, ids) ==> final(existing)@ == merged(old(existing)@, extra@, ids),
{
    let ghost start = existing@;
    let mut seen: HashSet<u64> = HashSet::new();
    let mut i: usize = 0;
    while i < existing.len()
        invariant
            i <= existing@.len(),
            existing@ == start,
            forall|x: &T| #[trigger] call_requires(id_of, (x,)),
            forall|ids: spec_fn(T) -> u64, id: u64| #[trigger]
                gives_ids(id_of, ids) ==> (#[trigger] seen@.contains(id) <==> has_id(
                    existing@.take(i as int),
                    ids,
                    id,
                )),
        decreases existing@.len() - i,
    {
        let id: u64 = id_of(&existing[i]);
        let ghost held = seen@;
        seen.insert(id);
        proof {
            let item = existing@[i as int];
            assert(existing@.take(i + 1) =~= existing@.take(i as int).push(item));
            assert forall|ids: spec_fn(T) -> u64, k: u64| #[trigger] gives_ids(id_of, ids) implies (
            #[trigger] seen@.contains(k) <==> has_id(existing@.take(i + 1), ids, k)) by {
                assert(id == ids(item));
                lemma_seen(existing@.take(i as int), item, ids, held, seen@);
            }
        }
        i += 1;
    }
    proof {
        assert(existing@.take(i as int) =~= existing@);
        assert(extra@.take(0) =~= seq![]);
    }
    for item in it: extra
        invariant
            it.seq() == extra@,
            forall|x: &T| #[trigger] call_requires(id_of, (x,)),
            forall|ids: spec_fn(T) -> u64| #[trigger]
                gives_ids(id_of, ids) ==> existing@ == merged(start, extra@.take(it.index() as int), ids),
            forall|ids: spec_fn(T) -> u64, id: u64| #[trigger]
                gives_ids(id_of, ids) ==> (#[trigger] seen@.contains(id) <==> has_id(existing@, ids, id)),
    {
        let id: u64 = id_of(&item);
        let ghost n = it.index() as int;
        let ghost held = seen@;
        let ghost before = existing@;
        proof {
            assert(extra@.take(n + 1).drop_last() =~= extra@.take(n));
            assert(extra@.take(n + 1).last() == item);
        }
        if seen.insert(id) {
            existing.push(item);
        } else {
            proof {
                assert(held =~= seen@);
            }
        }
        proof {
            assert forall|ids: spec_fn(T) -> u64| #[trigger] gives_ids(id_of, ids) implies existing@ == merged(
                start,
                extra@.take(n + 1),
                ids,
            ) && (forall|k: u64| #[trigger] seen@.contains(k) <==> has_id(existing@, ids, k)) by {
                assert(id == ids(item));
                assert(held.contains(id) <==> has_id(before, ids, id));
                if !held.contains(id) {
                    lemma_seen(before, item, ids, held, seen@);
                }
            }
        }
    }
    proof {
        assert(extra@.take(extra@.len() as int) =~= extra@);
    }
}

// Laws.

/// Whether no two items of a list have the same id.
pub open spec fn distinct_ids<T>(list: Seq<T>, id_of: spec_fn(T) -> u64) -> bool {
    forall|i: int, j: int| 0 <= i < j < list.len() ==> id_of(#[trigger] list[i]) != id_of(#[trigger] list[j])
}

/// Merging keeps what was there, in its place, brings in every id of the extra
/// items, adds only such items, and never brings an id in twice.
pub proof fn lemma_merged<T>(list: Seq<T>, extra: Seq<T>, id_of: spec_fn(T) -> u64)
    ensures
        list.is_prefix_of(merged(list, extra, id_of)),
        distinct_ids(list, id_of) ==> distinct_ids(merged(list, extra, id_of), id_of),
        forall|i: int| 0 <= i < extra.len() ==> has_id(merged(list, extra, id_of), id_of, id_of(#[trigger] extra[i])),
        forall|i: int|
            list.len() <= i < merged(list, extra, id_of).len() ==> extra.contains(
                #[trigger] merged(list, extra, id_of)[i],
            ) && !has_id(list, id_of, id_of(merged(list, extra, id_of)[i])),
    decreases extra.len(),
{
    if extra.len() > 0 {
        let t = extra.drop_last();
        let x = extra.last();
        lemma_merged(list, t, id_of);
        let m = merged(list, t, id_of);
        let r = merged(list, extra, id_of);
        assert forall|i: int| 0 <= i < extra.len() implies has_id(r, id_of, id_of(#[trigger] extra[i])) by {
            if i < t.len() {
                assert(t[i] == extra[i]);
                assert(has_id(m, id_of, id_of(t[i])));
                let j = choose|j: int| 0 <= j < m.len() && id_of(#[trigger] m[j]) == id_of(extra[i]);
                assert(r[j] == m[j]);
            } else if !has_id(m, id_of, id_of(x)) {
                assert(r[m.len() as int] == x);
            }
        }
        assert forall|i: int| list.len() <= i < r.len() implies extra.contains(#[trigger] r[i]) && !has_id(
            list,
            id_of,
            id_of(r[i]),
        ) by {
            if i < m.len() {
                assert(m[i] == r[i]);
                assert(t.contains(m[i]));
                let k = choose|k: int| 0 <= k < t.len() && t[k] == m[i];
                assert(extra[k] == r[i]);
            } else {
                assert(extra[extra.len() - 1] == r[i]);
                if has_id(list, id_of, id_of(x)) {
                    let k = choose|k: int| 0 <= k < list.len() && id_of(#[trigger] list[k]) == id_of(x);
                    assert(m[k] == list[k]);
                }
            }
        }
        if distinct_ids(list, id_of) {
            assert forall|i: int, j: int| 0 <= i < j < r.len() implies id_of(#[trigger] r[i]) != id_of(
                #[trigger] r[j],
            ) by {
                if j < m.len() {
                    assert(m[i] == r[i] && m[j] == r[j]);
                } else {
                    assert(m[i] == r[i]);
                }
            }
        }
    }
}

/// Merging the same items a second time changes nothing.
pub proof fn lemma_merged_idempotent<T>(list: Seq<T>, extra: Seq<T>, id_of: spec_fn(T) -> u64)
    ensures
        merged(merged(list, extra, id_of), extra, id_of) == merged(list, extra, id_of),
{
    let m = merged(list, extra, id_of);
    lemma_merged(list, extra, id_of);
    lemma_merged_absorbs(m, extra, id_of);
}

proof fn lemma_merged_absorbs<T>(list: Seq<T>, extra: Seq<T>, id_of: spec_fn(T) -> u64)
    requires
        forall|i: int| 0 <= i < extra.len() ==> has_id(list, id_of, id_of(#[trigger] extra[i])),
    ensures
        merged(list, extra, id_of) == list,
    decreases extra.len(),
{
    if extra.len() > 0 {
        let t = extra.drop_last();
        assert forall|i: int| 0 <= i < t.len() implies has_id(list, id_of, id_of(#[trigger] t[i])) by {
            assert(t[i] == extra[i]);
        }
        lemma_merged_absorbs(list, t, id_of);
        assert(has_id(list, id_of, id_of(extra[extra.len() - 1])));
    }
}

/// The window behind a page starts behind it. More follows only if the page was
/// full and a total that is known is not reached.
pub proof fn lemma_windows(offset: usize, limit: usize, received: usize, total: u64, r: PaginationInfo)
    requires
        call_ensures(PaginationInfo::from_fetch, (offset, limit, received, total), r),
        offset + received <= usize::MAX,
    ensures
        r.offset == offset + received,
        r.limit == limit,
        r.total == total,
        !r.loading,
        received < limit ==> !r.has_more,
        received >= limit && total == 0 ==> r.has_more,
        received >= limit && total > 0 ==> (r.has_more <==> offset + received < total),
{
}

/// The next page is asked for when at most eight rows are left below the
/// selection, if there is more and nothing is being loaded.
pub proof fn lemma_prefetch(window: PaginationInfo, selected: usize, loaded: usize, r: bool)
    requires
        call_ensures(PaginationInfo::should_prefetch, (window, selected, loaded), r),
        selected < loaded,
    ensures
        window.has_more && !window.loading ==> (r <==> loaded - selected - 1 <= 8),
        !window.has_more || window.loading ==> !r,
{
}

/// The number of rows that is shown is never less than what is loaded nor than
/// the total that is known.
pub proof fn lemma_totals(window: PaginationInfo, loaded: usize, r: (usize, bool))
    requires
        call_ensures(PaginationInfo::display_total, (window, loaded), r),
        window.total <= usize::MAX,
    ensures
        r.0 >= loaded && r.0 >= window.total,
        r.0 == loaded || r.0 == window.total,
        r.1 ==> window.has_more,
        window.has_more && (window.total == 0 || window.total > loaded) ==> r.1,
{
}

/// Items are merged one by one, in order: an item whose id is new goes behind
/// the others, and one whose id is there is left out.
pub proof fn lemma_merged_item<T>(list: Seq<T>, extra: Seq<T>, item: T, id_of: spec_fn(T) -> u64)
    ensures
        has_id(merged(list, extra, id_of), id_of, id_of(item)) ==> merged(list, extra.push(item), id_of) == merged(
            list,
            extra,
            id_of,
        ),
        !has_id(merged(list, extra, id_of), id_of, id_of(item)) ==> merged(list, extra.push(item), id_of) == merged(
            list,
            extra,
            id_of,
        ).push(item),
        merged(list, seq![], id_of) == list,
{
    assert(extra.push(item).drop_last() =~= extra);
}

} // verus!
