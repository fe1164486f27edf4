//! JSON values as the responses of the service hold them, and the ways in
//! which the library reads them.

use vstd::prelude::*;

use crate::text::{chars_of, parse_u64, parse_unsigned_of, same_text};

verus! {

/// A JSON value. Of a number with a fraction or an exponent only its presence is kept.
#[derive(Debug)]
pub enum Json {
    Null,
    Bool(bool),
    Unsigned(u64),
    Negative(i64),
    Fraction,
    Text(String),
    Array(Vec<Json>),
    Object(Vec<(String, Json)>),
}

/// The value under a key: that of the first entry with it.
pub open spec fn entry_of(entries: Seq<(String, Json)>, key: Seq<char>) -> Option<Json>
    decreases entries.len(),
{
    if entries.len() == 0 {
        None
    } else if entries[0].0@ == key {
        Some(entries[0].1)
    } else {
        entry_of(entries.drop_first(), key)
    }
}

impl Json {
    pub open spec fn get_of(self, key: Seq<char>) -> Option<Json> {
        match self {
            Json::Object(entries) => entry_of(entries@, key),
            _ => None,
        }
    }

    pub open spec fn u64_of(self) -> Option<u64> {
        match self {
            Json::Unsigned(n) => Some(n),
            _ => None,
        }
    }

    pub open spec fn i64_of(self) -> Option<i64> {
        match self {
            Json::Unsigned(n) => if n <= i64::MAX {
                Some(n as i64)
            } else {
                None
            },
            Json::Negative(n) => Some(n),
            _ => None,
        }
    }

    pub open spec fn bool_of(self) -> Option<bool> {
        match self {
            Json::Bool(b) => Some(b),
            _ => None,
        }
    }

    pub open spec fn text_of(self) -> Option<Seq<char>> {
        match self {
            Json::Text(text) => Some(text@),
            _ => None,
        }
    }

    pub open spec fn items_of(self) -> Option<Seq<Json>> {
        match self {
            Json::Array(items) => Some(items@),
            _ => None,
        }
    }

    /// The value under a key, if this is an object that has it.
    pub fn get(&self, key: &str) -> (r: Option<&Json>)
        ensures
            match r {
                Some(value) => self.get_of(key@) == Some(*value),
                None => self.get_of(key@) is None,
            },
    {
        match self {
            Json::Object(entries) => {
                let mut i: usize = 0;
                proof {
                    assert(entries@.skip(0) =~= entries@);
                }
                while i < entries.len()
                    invariant
                        i <= entries@.len(),
                        *self == Json::Object(*entries),
                        entry_of(entries@, key@) == entry_of(entries@.skip(i as int), key@),
                    decreases entries@.len() - i,
                {
                    proof {
                        assert(entries@.skip(i as int).drop_first() =~= entries@.skip(i + 1));
                    }
                    if same_text(entries[i].0.as_str(), key) {
                        return Some(&entries[i].1);
                    }
                    i += 1;
                }
                None
            },
            _ => None,
        }
    }

    pub fn as_u64(&self) -> (r: Option<u64>)
        ensures
            r == self.u64_of(),
    {
        match self {
            Json::Unsigned(n) => Some(*n),
            _ => None,
        }
    }

    pub fn as_i64(&self) -> (r: Option<i64>)
        ensures
            r == self.i64_of(),
    {
        match self {
            Json::Unsigned(n) => if *n <= i64::MAX as u64 {
                Some(*n as i64)
            } else {
                None
            },
            Json::Negative(n) => Some(*n),
            _ => None,
        }
    }

    pub fn as_bool(&self) -> (r: Option<bool>)
        ensures
            r == self.bool_of(),
    {
        match self {
            Json::Bool(b) => Some(*b),
            _ => None,
        }
    }

    pub fn as_str(&self) -> (r: Option<&str>)
        ensures
            match r {
                Some(text) => self.text_of() == Some(text@),
                None => self.text_of() is None,
            },
    {
        match self {
            Json::Text(text) => Some(text.as_str()),
            _ => None,
        }
    }

    pub fn as_array(&self) -> (r: Option<&Vec<Json>>)
        ensures
            match r {
                Some(items) => self.items_of() == Some(items@),
                None => self.items_of() is None,
            },
    {
        match self {
            Json::Array(items) => Some(items),
            _ => None,
        }
    }
}

/// The value under the first of two keys that the object has.
pub open spec fn either_of(value: Json, first: Seq<char>, second: Seq<char>) -> Option<Json> {
    match value.get_of(first) {
        Some(v) => Some(v),
        None => value.get_of(second),
    }
}

/// The text under a key; empty where there is none.
pub open spec fn string_at_of(value: Json, key: Seq<char>) -> Seq<char> {
    match value.get_of(key) {
        Some(v) => match v.text_of() {
            Some(text) => text,
            None => Seq::empty(),
        },
        None => Seq::empty(),
    }
}

/// The items under a key; none where there is no list.
pub open spec fn items_at_of(value: Json, key: Seq<char>) -> Seq<Json> {
    match value.get_of(key) {
        Some(v) => match v.items_of() {
            Some(items) => items,
            None => Seq::empty(),
        },
        None => Seq::empty(),
    }
}

/// A number, written as such or as text.
pub open spec fn number_of(value: Json) -> Option<nat> {
    match value {
        Json::Unsigned(n) => Some(n as nat),
        Json::Text(text) => parse_unsigned_of(text@, u64::MAX as nat),
        _ => None,
    }
}

pub open spec fn number_at_of(value: Json, key: Seq<char>) -> Option<nat> {
    match value.get_of(key) {
        Some(v) => number_of(v),
        None => None,
    }
}

pub open spec fn or_zero(n: Option<nat>) -> nat {
    match n {
        Some(n) => n,
        None => 0,
    }
}

pub open spec fn number_option(n: Option<u64>) -> Option<nat> {
    match n {
        Some(n) => Some(n as nat),
        None => None,
    }
}

pub fn either<'a>(value: &'a Json, first: &str, second: &str) -> (r: Option<&'a Json>)
    ensures
        match r {
            Some(v) => either_of(*value, first@, second@) == Some(*v),
            None => either_of(*value, first@, second@) is None,
        },
{
    match value.get(first) {
        Some(v) => Some(v),
        None => value.get(second),
    }
}

/// The text under a key; empty where there is none.
pub fn string_at(value: &Json, key: &str) -> (r: String)
    ensures
        r@ == string_at_of(*value, key@),
{
    match value.get(key) {
        Some(v) => match v.as_str() {
            Some(text) => text.to_owned(),
            None => String::new(),
        },
        None => String::new(),
    }
}

/// The items under a key, if it holds a list.
pub fn array_at<'a>(value: &'a Json, key: &str) -> (r: Option<&'a Vec<Json>>)
    ensures
        match r {
            Some(items) => items_at_of(*value, key@) == items@,
            None => items_at_of(*value, key@) == Seq::<Json>::empty(),
        },
        r is Some <==> value.get_of(key@) is Some && value.get_of(key@)->0.items_of() is Some,
{
    match value.get(key) {
        Some(v) => v.as_array(),
        None => None,
    }
}

/// A number, written as such or as text.
pub fn number(value: &Json) -> (r: Option<u64>)
    ensures
        number_option(r) == number_of(*value),
{
    match value {
        Json::Unsigned(n) => Some(*n),
        Json::Text(text) => parse_u64(chars_of(text.as_str()).as_slice()),
        _ => None,
    }
}

pub fn number_at(value: &Json, key: &str) -> (r: Option<u64>)
    ensures
        number_option(r) == number_at_of(*value, key@),
{
    match value.get(key) {
        Some(v) => number(v),
        None => None,
    }
}

pub fn number_or_zero(value: &Json, key: &str) -> (r: u64)
    ensures
        r == or_zero(number_at_of(*value, key@)),
{
    match number_at(value, key) {
        Some(n) => n,
        None => 0,
    }
}

/// The numbers under a key of each item that has one.
pub open spec fn ids_of(items: Seq<Json>, key: Seq<char>) -> Seq<u64>
    decreases items.len(),
{
    if items.len() == 0 {
        seq![]
    } else {
        let before = ids_of(items.drop_last(), key);
        match number_at_of(items.last(), key) {
            Some(id) => before.push(id as u64),
            None => before,
        }
    }
}

/// The ids of the items of a list.
pub fn ids_in(items: &Vec<Json>) -> (r: Vec<u64>)
    ensures
        r@ == ids_of(items@, "id"@),
{
    let mut out: Vec<u64> = Vec::new();
    let mut i: usize = 0;
    proof {
        assert(items@.take(0) =~= seq![]);
    }
    while i < items.len()
        invariant
            i <= items@.len(),
            out@ == ids_of(items@.take(i as int), "id"@),
        decreases items@.len() - i,
    {
        proof {
            assert(items@.take(i + 1).drop_last() =~= items@.take(i as int));
            assert(items@.take(i + 1).last() == items@[i as int]);
        }
        if let Some(id) = number_at(&items[i], "id") {
            out.push(id);
        }
        i += 1;
    }
    proof {
        assert(items@.take(i as int) =~= items@);
    }
    out
}

/// The ids of the items of the list under a key.
pub fn ids_at(value: &Json, key: &str) -> (r: Vec<u64>)
    ensures
        r@ == ids_of(items_at_of(*value, key@), "id"@),
{
    match array_at(value, key) {
        Some(items) => ids_in(items),
        None => Vec::new(),
    }
}

/// The names of the items that have one that is not empty.
pub open spec fn names_of(items: Seq<Json>) -> Seq<Seq<char>>
    decreases items.len(),
{
    if items.len() == 0 {
        seq![]
    } else {
        let before = names_of(items.drop_last());
        let name = string_at_of(items.last(), "name"@);
        if name.len() > 0 {
            before.push(name)
        } else {
            before
        }
    }
}

/// The names of the items of a list, separated by slashes.
pub fn joined_names(items: &Vec<Json>) -> (r: String)
    ensures
        r@ == crate::text::joined(names_of(items@), " / "@),
{
    let mut names: Vec<String> = Vec::new();
    let mut i: usize = 0;
    proof {
        assert(crate::text::texts(names@) =~= seq![]);
    }
    while i < items.len()
        invariant
            i <= items@.len(),
            crate::text::texts(names@) == names_of(items@.take(i as int)),
        decreases items@.len() - i,
    {
        proof {
            assert(items@.take(i + 1).drop_last() =~= items@.take(i as int));
            assert(items@.take(i + 1).last() == items@[i as int]);
        }
        let name = string_at(&items[i], "name");
        if !name.as_str().is_empty() {
            let ghost held = names@;
            names.push(name);
            proof {
                assert(crate::text::texts(names@) =~= crate::text::texts(held).push(name@));
            }
        }
        i += 1;
    }
    proof {
        assert(items@.take(i as int) =~= items@);
    }
    crate::text::join(&names, " / ")
}

// Laws of reading values.

/// The value under a key is that of the entry with it, wherever it stands, and
/// the first of them where there are several.
pub proof fn lemma_entries(before: Seq<(String, Json)>, entry: (String, Json), after: Seq<(String, Json)>, key: Seq<char>)
    requires
        forall|i: int| 0 <= i < before.len() ==> (#[trigger] before[i]).0@ != key,
    ensures
        entry.0@ == key ==> entry_of(before.push(entry) + after, key) == Some(entry.1),
        entry_of(before, key) is None,
    decreases before.len(),
{
    let all = before.push(entry) + after;
    if before.len() > 0 {
        let t = before.drop_first();
        assert forall|i: int| 0 <= i < t.len() implies (#[trigger] t[i]).0@ != key by {
            assert(t[i] == before[i + 1]);
        }
        lemma_entries(t, entry, after, key);
        assert(all.drop_first() =~= t.push(entry) + after);
        assert(before[0].0@ != key);
        assert(all[0] == before[0]);
    } else {
        assert(all[0] == entry);
    }
}

/// Each kind of value is read as what it is, and as nothing else.
pub proof fn lemma_kinds(n: u64, i: i64, b: bool, text: String, items: Vec<Json>)
    ensures
        Json::Unsigned(n).u64_of() == Some(n),
        n <= i64::MAX ==> Json::Unsigned(n).i64_of() == Some(n as i64),
        Json::Negative(i).i64_of() == Some(i),
        Json::Bool(b).bool_of() == Some(b),
        Json::Text(text).text_of() == Some(text@),
        Json::Array(items).items_of() == Some(items@),
        Json::Null.u64_of() is None && Json::Null.text_of() is None && Json::Null.items_of() is None
            && Json::Null.bool_of() is None && Json::Null.i64_of() is None,
        Json::Text(text).u64_of() is None && Json::Unsigned(n).text_of() is None && Json::Unsigned(n).bool_of() is None,
{
}

/// Texts, lists and numbers under a key are those that stand there; a number may
/// be written as text.
pub proof fn lemma_values_at(value: Json, key: Seq<char>, other: Seq<char>, text: String, items: Vec<Json>, n: u64)
    ensures
        value.get_of(key) == Some(Json::Text(text)) ==> string_at_of(value, key) == text@,
        value.get_of(key) is None ==> string_at_of(value, key).len() == 0 && items_at_of(value, key).len() == 0
            && number_at_of(value, key) is None,
        value.get_of(key) == Some(Json::Array(items)) ==> items_at_of(value, key) == items@,
        value.get_of(key) == Some(Json::Unsigned(n)) ==> number_at_of(value, key) == Some(n as nat),
        value.get_of(key) == Some(Json::Text(text)) && text@ == crate::text::decimal(n as nat) ==> number_at_of(
            value,
            key,
        ) == Some(n as nat),
        value.get_of(key) is Some ==> either_of(value, key, other) == value.get_of(key),
        value.get_of(key) is None ==> either_of(value, key, other) == value.get_of(other),
        or_zero(Some(n as nat)) == n && or_zero(None) == 0,
{
    let s = crate::text::decimal(n as nat);
    crate::text::lemma_decimal_reads_back(n as nat);
    assert(crate::text::is_digit(s[0]));
    assert(crate::text::without_plus(s) == s);
}

/// Ids and names are read item by item, in order; items without one are left out.
pub proof fn lemma_items_read(items: Seq<Json>, item: Json, key: Seq<char>, id: u64, name: String)
    ensures
        item.get_of(key) == Some(Json::Unsigned(id)) ==> ids_of(items.push(item), key) == ids_of(items, key).push(id),
        item.get_of(key) is None ==> ids_of(items.push(item), key) == ids_of(items, key),
        item.get_of("name"@) == Some(Json::Text(name)) && name@.len() > 0 ==> names_of(items.push(item)) == names_of(
            items,
        ).push(name@),
        item.get_of("name"@) is None ==> names_of(items.push(item)) == names_of(items),
        ids_of(seq![], key).len() == 0 && names_of(seq![]).len() == 0,
{
    assert(items.push(item).drop_last() =~= items);
}

} // verus!
