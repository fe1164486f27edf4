//! The filter behind the command palette.

use vstd::prelude::*;

use crate::text::{chars_of, find_char, first_of, lemma_first_of, skip_chars, trim_of, trimmed};

verus! {

#[derive(Clone, Debug, PartialEq, Eq)]
pub struct PaletteItem {
    pub title: String,
    pub hint: String,
    pub keywords: String,
}

/// What `str::to_lowercase` returns for a text.
pub uninterp spec fn lowercase(s: Seq<char>) -> Seq<char>;

/// `str::to_lowercase`: the lower-case form of a text, which depends on the text alone.
#[verifier::external_body]
fn to_lowercase(s: &str) -> (r: String)
    ensures
        r@ == lowercase(s@),
{
    s.to_lowercase()
}

/// Whether the characters of `needle` occur in `haystack` in their order.
pub open spec fn is_subsequence_of(needle: Seq<char>, haystack: Seq<char>) -> bool
    decreases needle.len(),
{
    if needle.len() == 0 {
        true
    } else {
        let i = first_of(haystack, needle[0]);
        i < haystack.len() && is_subsequence_of(needle.drop_first(), haystack.skip(i + 1))
    }
}

pub open spec fn fuzzy_matches(haystack: Seq<char>, needle: Seq<char>) -> bool {
    needle.len() == 0 || is_subsequence_of(lowercase(needle), lowercase(haystack))
}

/// Whether the characters of `needle` occur in `haystack` in their order.
pub fn is_subsequence(haystack: &str, needle: &str) -> (r: bool)
    ensures
        r == is_subsequence_of(needle@, haystack@),
{
    let hay = chars_of(haystack);
    let chars = chars_of(needle);
    let mut rest: &[char] = hay.as_slice();
    let mut i: usize = 0;
    proof {
        assert(chars@.skip(0) =~= chars@);
    }
    while i < chars.len()
        invariant
            i <= chars@.len(),
            chars@ == needle@,
            hay@ == haystack@,
            is_subsequence_of(chars@, hay@) == is_subsequence_of(chars@.skip(i as int), rest@),
        decreases chars@.len() - i,
    {
        proof {
            assert(chars@.skip(i as int).drop_first() =~= chars@.skip(i + 1));
        }
        match find_char(rest, chars[i]) {
            Some(k) => {
                rest = skip_chars(rest, k + 1);
            },
            None => {
                return false;
            },
        }
        i += 1;
    }
    true
}

/// Whether the characters of `needle` occur in `haystack` in their order,
/// whatever their case. Nothing at all occurs everywhere.
pub fn fuzzy_match(haystack: &str, needle: &str) -> (r: bool)
    ensures
        r == fuzzy_matches(haystack@, needle@),
{
    if needle.is_empty() {
        return true;
    }
    is_subsequence(to_lowercase(haystack).as_str(), to_lowercase(needle).as_str())
}

impl PaletteItem {
    pub fn new(title: &str, hint: &str, keywords: &str) -> (r: PaletteItem)
        ensures
            r.title@ == title@,
            r.hint@ == hint@,
            r.keywords@ == keywords@,
    {
        PaletteItem { title: title.to_owned(), hint: hint.to_owned(), keywords: keywords.to_owned() }
    }

    /// The text that a query is matched against.
    pub open spec fn haystack_of(self) -> Seq<char> {
        self.title@ + " "@ + self.hint@ + " "@ + self.keywords@
    }

    fn haystack(&self) -> (r: String)
        ensures
            r@ == self.haystack_of(),
    {
        let mut out: String = self.title.clone();
        out.append(" ");
        out.append(self.hint.as_str());
        out.append(" ");
        out.append(self.keywords.as_str());
        out
    }
}

/// The positions, in ascending order, of the items that match a query.
pub open spec fn matches_of(items: Seq<PaletteItem>, query: Seq<char>) -> Seq<usize>
    decreases items.len(),
{
    if items.len() == 0 {
        seq![]
    } else {
        let before = matches_of(items.drop_last(), query);
        if fuzzy_matches(items.last().haystack_of(), query) {
            before.push((items.len() - 1) as usize)
        } else {
            before
        }
    }
}

/// The positions of the items that match a query.
pub fn filter_items(items: &Vec<PaletteItem>, query: &str) -> (r: Vec<usize>)
    ensures
        r@ == matches_of(items@, trim_of(query@)),
{
    let query = trimmed(query);
    let mut out: Vec<usize> = Vec::new();
    let mut i: usize = 0;
    proof {
        assert(items@.take(0) =~= seq![]);
    }
    while i < items.len()
        invariant
            i <= items@.len(),
            out@ == matches_of(items@.take(i as int), query@),
        decreases items@.len() - i,
    {
        proof {
            assert(items@.take(i + 1).drop_last() =~= items@.take(i as int));
            assert(items@.take(i + 1).last() == items@[i as int]);
        }
        if fuzzy_match(items[i].haystack().as_str(), query.as_str()) {
            out.push(i);
        }
        i += 1;
    }
    proof {
        assert(items@.take(i as int) =~= items@);
    }
    out
}

// Laws.

/// Whether `at` gives, for each character of `needle`, a place in `haystack`
/// where it stands, and the places ascend.
pub open spec fn embeds(needle: Seq<char>, haystack: Seq<char>, at: Seq<int>) -> bool {
    &&& at.len() == needle.len()
    &&& forall|i: int| 0 <= i < at.len() ==> 0 <= #[trigger] at[i] < haystack.len() && haystack[at[i]] == needle[i]
    &&& forall|i: int, j: int| 0 <= i < j < at.len() ==> #[trigger] at[i] < #[trigger] at[j]
}

/// Where the needle is found, its characters have ascending places.
pub proof fn lemma_subsequence_has_places(needle: Seq<char>, haystack: Seq<char>)
    requires
        is_subsequence_of(needle, haystack),
    ensures
        exists|at: Seq<int>| embeds(needle, haystack, at),
    decreases needle.len(),
{
    if needle.len() == 0 {
        assert(embeds(needle, haystack, seq![]));
    } else {
        let i = first_of(haystack, needle[0]);
        lemma_first_of(haystack, needle[0]);
        let rest = haystack.skip(i + 1);
        lemma_subsequence_has_places(needle.drop_first(), rest);
        let at = choose|at: Seq<int>| embeds(needle.drop_first(), rest, at);
        let all = Seq::new(needle.len(), |k: int| if k == 0 { i } else { at[k - 1] + i + 1 });
        assert forall|k: int| 0 <= k < all.len() implies 0 <= #[trigger] all[k] < haystack.len() && haystack[all[k]]
            == needle[k] by {
            if k > 0 {
                assert(rest[at[k - 1]] == needle.drop_first()[k - 1]);
            }
        }
        assert forall|a: int, b: int| 0 <= a < b < all.len() implies #[trigger] all[a] < #[trigger] all[b] by {
            if a > 0 {
                assert(at[a - 1] < at[b - 1]);
            } else {
                assert(at[b - 1] >= 0);
            }
        }
        assert(embeds(needle, haystack, all));
    }
}

/// Where the needle's characters have ascending places, the needle is found.
pub proof fn lemma_places_make_subsequence(needle: Seq<char>, haystack: Seq<char>, at: Seq<int>)
    requires
        embeds(needle, haystack, at),
    ensures
        is_subsequence_of(needle, haystack),
    decreases needle.len(),
{
    if needle.len() > 0 {
        let i = first_of(haystack, needle[0]);
        lemma_first_of(haystack, needle[0]);
        assert(haystack[at[0]] == needle[0]);
        assert(i <= at[0]) by {
            if at[0] < i {
                assert(haystack[at[0]] != needle[0]);
            }
        }
        let rest = haystack.skip(i + 1);
        let moved = Seq::new((needle.len() - 1) as nat, |k: int| at[k + 1] - i - 1);
        let t = needle.drop_first();
        assert forall|k: int| 0 <= k < moved.len() implies 0 <= #[trigger] moved[k] < rest.len() && rest[moved[k]]
            == t[k] by {
            assert(at[0] < at[k + 1]);
            assert(haystack[at[k + 1]] == needle[k + 1]);
        }
        assert forall|a: int, b: int| 0 <= a < b < moved.len() implies #[trigger] moved[a] < #[trigger] moved[b] by {
            assert(at[a + 1] < at[b + 1]);
        }
        lemma_places_make_subsequence(t, rest, moved);
    }
}

/// A blank query keeps all items, in their order.
pub proof fn lemma_blank_query_keeps_all(items: Seq<PaletteItem>)
    requires
        items.len() <= usize::MAX,
    ensures
        matches_of(items, seq![]) == Seq::new(items.len(), |i: int| i as usize),
    decreases items.len(),
{
    if items.len() > 0 {
        lemma_blank_query_keeps_all(items.drop_last());
    }
    assert(matches_of(items, seq![]) =~= Seq::new(items.len(), |i: int| i as usize));
}

/// The positions that are kept ascend, and are those of the items that match.
pub proof fn lemma_matches(items: Seq<PaletteItem>, query: Seq<char>)
    requires
        items.len() <= usize::MAX,
    ensures
        forall|i: int|
            0 <= i < matches_of(items, query).len() ==> (#[trigger] matches_of(items, query)[i]) < items.len()
                && fuzzy_matches(items[matches_of(items, query)[i] as int].haystack_of(), query),
        forall|i: int, j: int|
            0 <= i < j < matches_of(items, query).len() ==> (#[trigger] matches_of(items, query)[i]) < (
            #[trigger] matches_of(items, query)[j]),
        forall|k: int|
            0 <= k < items.len() && fuzzy_matches((#[trigger] items[k]).haystack_of(), query) ==> matches_of(
                items,
                query,
            ).contains(k as usize),
    decreases items.len(),
{
    if items.len() > 0 {
        let t = items.drop_last();
        lemma_matches(t, query);
        let before = matches_of(t, query);
        let r = matches_of(items, query);
        assert forall|k: int| 0 <= k < items.len() && fuzzy_matches((#[trigger] items[k]).haystack_of(), query) implies r.contains(
            k as usize,
        ) by {
            if k < t.len() {
                assert(t[k] == items[k]);
                assert(before.contains(k as usize));
                let j = choose|j: int| 0 <= j < before.len() && before[j] == k as usize;
                assert(r[j] == k as usize);
            } else {
                assert(r[before.len() as int] == k as usize);
            }
        }
        assert forall|i: int| 0 <= i < r.len() implies (#[trigger] r[i]) < items.len() && fuzzy_matches(
            items[r[i] as int].haystack_of(),
            query,
        ) by {
            if i < before.len() {
                assert(r[i] == before[i]);
                assert(t[r[i] as int] == items[r[i] as int]);
            }
        }
        assert forall|i: int, j: int| 0 <= i < j < r.len() implies (#[trigger] r[i]) < (#[trigger] r[j]) by {
            assert(r[i] == before[i]);
            if j < before.len() {
                assert(r[j] == before[j]);
            }
        }
    }
}

/// The text that a query is matched against holds the title, the hint and the
/// keywords; a query matches if its characters occur there in their order,
/// whatever their case, and a blank one always does.
pub proof fn lemma_fuzzy(haystack: Seq<char>, needle: Seq<char>, item: PaletteItem)
    ensures
        needle.len() == 0 ==> fuzzy_matches(haystack, needle),
        needle.len() > 0 ==> (fuzzy_matches(haystack, needle) <==> is_subsequence_of(
            lowercase(needle),
            lowercase(haystack),
        )),
        item.haystack_of() == item.title@ + " "@ + item.hint@ + " "@ + item.keywords@,
{
}

/// A query is found in a text that holds it.
pub proof fn lemma_part_is_found(before: Seq<char>, needle: Seq<char>, after: Seq<char>)
    ensures
        is_subsequence_of(needle, before + needle + after),
{
    let haystack = before + needle + after;
    let at = Seq::new(needle.len(), |i: int| before.len() + i);
    assert(embeds(needle, haystack, at));
    lemma_places_make_subsequence(needle, haystack, at);
}

} // verus!
