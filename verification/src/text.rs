//! Text as sequences of characters: the splitting, trimming, searching and
//! number conversions that the rest of the library is written with.

use vstd::prelude::*;
use vstd::slice::slice_subrange;

verus! {

/// `String::push` appends one character.
pub assume_specification[ String::push ](text: &mut String, ch: char)
    ensures
        final(text)@ == old(text)@.push(ch),
;

/// The characters with the Unicode property White_Space.
pub open spec fn is_white(c: char) -> bool {
    ||| '\u{9}' <= c <= '\u{d}'
    ||| c == ' '
    ||| c == '\u{85}'
    ||| c == '\u{a0}'
    ||| c == '\u{1680}'
    ||| '\u{2000}' <= c <= '\u{200a}'
    ||| c == '\u{2028}'
    ||| c == '\u{2029}'
    ||| c == '\u{202f}'
    ||| c == '\u{205f}'
    ||| c == '\u{3000}'
}

pub open spec fn is_digit(c: char) -> bool {
    '0' <= c <= '9'
}

pub open spec fn digit_of(c: char) -> nat {
    (c as int - '0' as int) as nat
}

/// The text without the white space at its start.
pub open spec fn trim_start_of(s: Seq<char>) -> Seq<char>
    decreases s.len(),
{
    if s.len() > 0 && is_white(s[0]) {
        trim_start_of(s.drop_first())
    } else {
        s
    }
}

/// The text without the white space at its end.
pub open spec fn trim_end_of(s: Seq<char>) -> Seq<char>
    decreases s.len(),
{
    if s.len() > 0 && is_white(s.last()) {
        trim_end_of(s.drop_last())
    } else {
        s
    }
}

pub open spec fn trim_of(s: Seq<char>) -> Seq<char> {
    trim_end_of(trim_start_of(s))
}

/// The position of the first `c` in `s`, or the length of `s` if there is none.
pub open spec fn first_of(s: Seq<char>, c: char) -> int
    decreases s.len(),
{
    if s.len() == 0 || s[0] == c {
        0
    } else {
        1 + first_of(s.drop_first(), c)
    }
}

/// The position of the last `c` in `s`, or -1 if there is none.
pub open spec fn last_of(s: Seq<char>, c: char) -> int
    decreases s.len(),
{
    if s.len() == 0 {
        -1
    } else if s.last() == c {
        s.len() - 1
    } else {
        last_of(s.drop_last(), c)
    }
}

/// The pieces of `s` between the occurrences of `c`.
pub open spec fn split_of(s: Seq<char>, c: char) -> Seq<Seq<char>>
    decreases s.len(),
{
    let i = first_of(s, c);
    if 0 <= i < s.len() {
        seq![s.take(i)] + split_of(s.skip(i + 1), c)
    } else {
        seq![s]
    }
}

/// The two sides of the first `c` in `s`.
pub open spec fn split_once_of(s: Seq<char>, c: char) -> Option<(Seq<char>, Seq<char>)> {
    let i = first_of(s, c);
    if i < s.len() {
        Some((s.take(i), s.skip(i + 1)))
    } else {
        None
    }
}

/// A line without the carriage return that stood before its line feed.
pub open spec fn strip_return(s: Seq<char>) -> Seq<char> {
    if s.len() > 0 && s.last() == '\r' {
        s.drop_last()
    } else {
        s
    }
}

/// The lines of a text: each ends in a line feed, or a carriage return and a
/// line feed; the last one need not.
pub open spec fn lines_of(s: Seq<char>) -> Seq<Seq<char>>
    decreases s.len(),
{
    let i = first_of(s, '\n');
    if s.len() == 0 {
        seq![]
    } else if 0 <= i < s.len() {
        seq![strip_return(s.take(i))] + lines_of(s.skip(i + 1))
    } else {
        seq![s]
    }
}

/// The position at which `part` first occurs in `s`, or -1 if it does not.
pub open spec fn find_of(s: Seq<char>, part: Seq<char>) -> int
    decreases s.len(),
{
    if part.is_prefix_of(s) {
        0
    } else if s.len() == 0 {
        -1
    } else {
        let rest = find_of(s.drop_first(), part);
        if rest < 0 {
            -1
        } else {
            1 + rest
        }
    }
}

/// The number that a run of decimal digits stands for.
pub open spec fn digits_value(s: Seq<char>) -> nat
    decreases s.len(),
{
    if s.len() == 0 {
        0
    } else {
        digits_value(s.drop_last()) * 10 + digit_of(s.last())
    }
}

pub open spec fn all_digits(s: Seq<char>) -> bool {
    forall|i: int| 0 <= i < s.len() ==> is_digit(#[trigger] s[i])
}

/// The text without one leading plus sign.
pub open spec fn without_plus(s: Seq<char>) -> Seq<char> {
    if s.len() > 0 && s[0] == '+' {
        s.drop_first()
    } else {
        s
    }
}

/// What an unsigned decimal number with an upper bound is read as: an optional
/// plus sign and at least one digit, nothing else, and no more than `max`.
pub open spec fn parse_unsigned_of(s: Seq<char>, max: nat) -> Option<nat> {
    let digits = without_plus(s);
    if digits.len() > 0 && all_digits(digits) && digits_value(digits) <= max {
        Some(digits_value(digits))
    } else {
        None
    }
}

/// What a signed 64-bit decimal number is read as.
pub open spec fn parse_i64_of(s: Seq<char>) -> Option<int> {
    if s.len() > 0 && s[0] == '-' {
        let digits = s.drop_first();
        if digits.len() > 0 && all_digits(digits) && digits_value(digits) <= 0x8000_0000_0000_0000 {
            Some(-(digits_value(digits) as int))
        } else {
            None
        }
    } else {
        match parse_unsigned_of(s, i64::MAX as nat) {
            Some(value) => Some(value as int),
            None => None,
        }
    }
}

pub open spec fn digit_char(d: nat) -> char {
    if d == 0 { '0' } else if d == 1 { '1' } else if d == 2 { '2' } else if d == 3 { '3' }
    else if d == 4 { '4' } else if d == 5 { '5' } else if d == 6 { '6' } else if d == 7 { '7' }
    else if d == 8 { '8' } else { '9' }
}

/// The decimal digits of `n`, without leading zeros.
pub open spec fn decimal(n: nat) -> Seq<char>
    decreases n,
{
    if n < 10 {
        seq![digit_char(n)]
    } else {
        decimal(n / 10).push(digit_char(n % 10))
    }
}

/// `s` with zeros put before it up to a length of `width`.
pub open spec fn zero_padded(s: Seq<char>, width: nat) -> Seq<char> {
    if s.len() >= width {
        s
    } else {
        Seq::new((width - s.len()) as nat, |i: int| '0') + s
    }
}

pub open spec fn ascii_lower(c: char) -> char {
    if 'A' <= c <= 'Z' {
        (c as u8 + 32u8) as u8 as char
    } else {
        c
    }
}

pub open spec fn ascii_lower_of(s: Seq<char>) -> Seq<char> {
    s.map_values(|c: char| ascii_lower(c))
}

/// `parts` in order, with `separator` between neighbours.
pub open spec fn joined(parts: Seq<Seq<char>>, separator: Seq<char>) -> Seq<char>
    decreases parts.len(),
{
    if parts.len() == 0 {
        seq![]
    } else if parts.len() == 1 {
        parts[0]
    } else {
        joined(parts.drop_last(), separator) + separator + parts.last()
    }
}

/// The contents of a list of strings.
pub open spec fn texts(list: Seq<String>) -> Seq<Seq<char>> {
    list.map_values(|s: String| s@)
}

/// The contents of a list of slices.
pub open spec fn slices(list: Seq<&[char]>) -> Seq<Seq<char>> {
    list.map_values(|s: &[char]| s@)
}

/// The contents of an optional string.
pub open spec fn text_option(value: Option<String>) -> Option<Seq<char>> {
    match value {
        Some(text) => Some(text@),
        None => None,
    }
}

pub proof fn lemma_first_of(s: Seq<char>, c: char)
    ensures
        0 <= first_of(s, c) <= s.len(),
        first_of(s, c) < s.len() ==> s[first_of(s, c)] == c,
        forall|i: int| 0 <= i < first_of(s, c) ==> s[i] != c,
    decreases s.len(),
{
    if s.len() > 0 && s[0] != c {
        lemma_first_of(s.drop_first(), c);
        assert forall|i: int| 0 <= i < first_of(s, c) implies s[i] != c by {
            if i > 0 {
                assert(s[i] == s.drop_first()[i - 1]);
            }
        }
    }
}

pub proof fn lemma_first_of_is(s: Seq<char>, c: char, at: int)
    requires
        0 <= at <= s.len(),
        at < s.len() ==> s[at] == c,
        forall|i: int| 0 <= i < at ==> s[i] != c,
    ensures
        first_of(s, c) == at,
{
    lemma_first_of(s, c);
}

pub proof fn lemma_last_of(s: Seq<char>, c: char)
    ensures
        -1 <= last_of(s, c) < s.len(),
        last_of(s, c) >= 0 ==> s[last_of(s, c)] == c,
        forall|i: int| last_of(s, c) < i < s.len() ==> s[i] != c,
    decreases s.len(),
{
    if s.len() > 0 && s.last() != c {
        lemma_last_of(s.drop_last(), c);
        assert forall|i: int| last_of(s, c) < i < s.len() implies s[i] != c by {
            if i < s.len() - 1 {
                assert(s[i] == s.drop_last()[i]);
            }
        }
    }
}

pub proof fn lemma_trim_start(s: Seq<char>)
    ensures
        trim_start_of(s).len() <= s.len(),
        trim_start_of(s) == s.skip(s.len() - trim_start_of(s).len()),
        trim_start_of(s).len() > 0 ==> !is_white(trim_start_of(s)[0]),
        forall|i: int| 0 <= i < s.len() - trim_start_of(s).len() ==> is_white(s[i]),
    decreases s.len(),
{
    if s.len() > 0 && is_white(s[0]) {
        let t = s.drop_first();
        lemma_trim_start(t);
        assert(trim_start_of(s) =~= s.skip(s.len() - trim_start_of(s).len()));
        assert forall|i: int| 0 <= i < s.len() - trim_start_of(s).len() implies is_white(s[i]) by {
            if i > 0 {
                assert(s[i] == t[i - 1]);
            }
        }
    } else {
        assert(s =~= s.skip(0));
    }
}

pub proof fn lemma_trim_end(s: Seq<char>)
    ensures
        trim_end_of(s).len() <= s.len(),
        trim_end_of(s) == s.take(trim_end_of(s).len() as int),
        trim_end_of(s).len() > 0 ==> !is_white(trim_end_of(s).last()),
        forall|i: int| trim_end_of(s).len() <= i < s.len() ==> is_white(s[i]),
    decreases s.len(),
{
    if s.len() > 0 && is_white(s.last()) {
        let t = s.drop_last();
        lemma_trim_end(t);
        assert(trim_end_of(s) =~= s.take(trim_end_of(s).len() as int));
        assert forall|i: int| trim_end_of(s).len() <= i < s.len() implies is_white(s[i]) by {
            if i < s.len() - 1 {
                assert(s[i] == t[i]);
            }
        }
    } else {
        assert(s =~= s.take(s.len() as int));
    }
}

/// Trimming a text that has been trimmed changes nothing.
pub proof fn lemma_trim_idempotent(s: Seq<char>)
    ensures
        trim_of(trim_of(s)) == trim_of(s),
{
    let a = trim_start_of(s);
    lemma_trim_start(s);
    lemma_trim_end(a);
    let b = trim_of(s);
    lemma_trim_start(b);
    lemma_trim_end(b);
    if b.len() > 0 {
        assert(b[0] == a[0]);
    }
}

pub fn chars_of(s: &str) -> (r: Vec<char>)
    ensures
        r@ == s@,
{
    let mut out: Vec<char> = Vec::new();
    for c in it: s.chars()
        invariant
            out@ == it.seq().take(it.index() as int),
            it.seq() == s@,
    {
        out.push(c);
        proof {
            assert(it.seq().take(it.index() + 1) =~= it.seq().take(it.index() as int).push(c));
        }
    }
    proof {
        assert(s@.take(s@.len() as int) =~= s@);
    }
    out
}

pub fn string_of(s: &[char]) -> (r: String)
    ensures
        r@ == s@,
{
    let mut out: String = String::new();
    let mut i: usize = 0;
    while i < s.len()
        invariant
            i <= s@.len(),
            out@ == s@.take(i as int),
        decreases s@.len() - i,
    {
        out.push(s[i]);
        proof {
            assert(s@.take(i + 1) =~= s@.take(i as int).push(s@[i as int]));
        }
        i += 1;
    }
    proof {
        assert(s@.take(s@.len() as int) =~= s@);
    }
    out
}

pub fn same_chars(a: &[char], b: &[char]) -> (r: bool)
    ensures
        r == (a@ == b@),
{
    if a.len() != b.len() {
        return false;
    }
    let mut i: usize = 0;
    while i < a.len()
        invariant
            i <= a@.len(),
            a@.len() == b@.len(),
            forall|j: int| 0 <= j < i ==> a@[j] == b@[j],
        decreases a@.len() - i,
    {
        if a[i] != b[i] {
            return false;
        }
        i += 1;
    }
    proof {
        assert(a@ =~= b@);
    }
    true
}

pub fn same_text(a: &str, b: &str) -> (r: bool)
    ensures
        r == (a@ == b@),
{
    a.to_owned() == b.to_owned()
}

pub fn is_whitespace(c: char) -> (r: bool)
    ensures
        r == is_white(c),
{
    ('\u{9}' <= c && c <= '\u{d}') || c == ' ' || c == '\u{85}' || c == '\u{a0}' || c == '\u{1680}'
        || ('\u{2000}' <= c && c <= '\u{200a}') || c == '\u{2028}' || c == '\u{2029}'
        || c == '\u{202f}' || c == '\u{205f}' || c == '\u{3000}'
}

pub fn trim_start(s: &[char]) -> (r: &[char])
    ensures
        r@ == trim_start_of(s@),
{
    let mut i: usize = 0;
    proof {
        assert(s@.skip(0) =~= s@);
    }
    while i < s.len() && is_whitespace(s[i])
        invariant
            i <= s@.len(),
            trim_start_of(s@) == trim_start_of(s@.skip(i as int)),
        decreases s@.len() - i,
    {
        proof {
            assert(s@.skip(i as int).drop_first() =~= s@.skip(i + 1));
        }
        i += 1;
    }
    let r = slice_subrange(s, i, s.len());
    proof {
        assert(r@ =~= s@.skip(i as int));
    }
    r
}

pub fn trim_end(s: &[char]) -> (r: &[char])
    ensures
        r@ == trim_end_of(s@),
{
    let mut n: usize = s.len();
    proof {
        assert(s@.take(n as int) =~= s@);
    }
    while n > 0 && is_whitespace(s[n - 1])
        invariant
            n <= s@.len(),
            trim_end_of(s@) == trim_end_of(s@.take(n as int)),
        decreases n,
    {
        proof {
            assert(s@.take(n as int).drop_last() =~= s@.take(n - 1));
        }
        n -= 1;
    }
    let r = slice_subrange(s, 0, n);
    proof {
        assert(r@ =~= s@.take(n as int));
    }
    r
}

pub fn trim(s: &[char]) -> (r: &[char])
    ensures
        r@ == trim_of(s@),
{
    trim_end(trim_start(s))
}

/// The text of `s` without the white space around it.
pub fn trimmed(s: &str) -> (r: String)
    ensures
        r@ == trim_of(s@),
{
    let chars = chars_of(s);
    string_of(trim(chars.as_slice()))
}

pub fn find_char(s: &[char], c: char) -> (r: Option<usize>)
    ensures
        match r {
            Some(i) => i == first_of(s@, c) && i < s@.len() && i < usize::MAX,
            None => first_of(s@, c) == s@.len(),
        },
{
    let mut i: usize = 0;
    while i < s.len()
        invariant
            i <= s@.len(),
            forall|j: int| 0 <= j < i ==> s@[j] != c,
        decreases s@.len() - i,
    {
        if s[i] == c {
            proof {
                lemma_first_of_is(s@, c, i as int);
            }
            return Some(i);
        }
        i += 1;
    }
    proof {
        lemma_first_of_is(s@, c, s@.len() as int);
    }
    None
}

pub fn rfind_char(s: &[char], c: char) -> (r: Option<usize>)
    ensures
        match r {
            Some(i) => i == last_of(s@, c) && i < s@.len() && i < usize::MAX,
            None => last_of(s@, c) == -1,
        },
{
    let mut n: usize = s.len();
    while n > 0
        invariant
            n <= s@.len(),
            forall|j: int| n <= j < s@.len() ==> s@[j] != c,
        decreases n,
    {
        if s[n - 1] == c {
            proof {
                lemma_last_of(s@, c);
            }
            return Some(n - 1);
        }
        n -= 1;
    }
    proof {
        lemma_last_of(s@, c);
    }
    None
}

pub fn starts_with(s: &[char], prefix: &[char]) -> (r: bool)
    ensures
        r == prefix@.is_prefix_of(s@),
{
    if prefix.len() > s.len() {
        return false;
    }
    same_chars(slice_subrange(s, 0, prefix.len()), prefix)
}

pub fn ends_with(s: &[char], suffix: &[char]) -> (r: bool)
    ensures
        r == suffix@.is_suffix_of(s@),
{
    if suffix.len() > s.len() {
        return false;
    }
    same_chars(slice_subrange(s, s.len() - suffix.len(), s.len()), suffix)
}

pub fn take_chars(s: &[char], n: usize) -> (r: &[char])
    requires
        n <= s@.len(),
    ensures
        r@ == s@.take(n as int),
{
    let r = slice_subrange(s, 0, n);
    proof {
        assert(r@ =~= s@.take(n as int));
    }
    r
}

pub fn skip_chars(s: &[char], n: usize) -> (r: &[char])
    requires
        n <= s@.len(),
    ensures
        r@ == s@.skip(n as int),
{
    let r = slice_subrange(s, n, s.len());
    proof {
        assert(r@ =~= s@.skip(n as int));
    }
    r
}

pub fn split_once(s: &[char], c: char) -> (r: Option<(&[char], &[char])>)
    ensures
        match r {
            Some((a, b)) => split_once_of(s@, c) == Some((a@, b@)),
            None => split_once_of(s@, c) is None,
        },
{
    match find_char(s, c) {
        Some(i) => Some((take_chars(s, i), skip_chars(s, i + 1))),
        None => None,
    }
}

pub fn split_char(s: &[char], c: char) -> (r: Vec<&[char]>)
    ensures
        slices(r@) == split_of(s@, c),
{
    let mut out: Vec<&[char]> = Vec::new();
    let mut rest: &[char] = s;
    proof {
        assert(slices(out@) + split_of(s@, c) =~= split_of(s@, c));
    }
    loop
        invariant
            slices(out@) + split_of(rest@, c) == split_of(s@, c),
        decreases rest@.len(),
    {
        match find_char(rest, c) {
            Some(i) => {
                let ghost before = slices(out@);
                let piece = take_chars(rest, i);
                let next = skip_chars(rest, i + 1);
                out.push(piece);
                proof {
                    assert(slices(out@) =~= before.push(piece@));
                    assert(before + (seq![piece@] + split_of(next@, c)) =~= slices(out@) + split_of(next@, c));
                }
                rest = next;
            },
            None => {
                let ghost before = slices(out@);
                out.push(rest);
                proof {
                    lemma_first_of(rest@, c);
                    assert(slices(out@) =~= before + seq![rest@]);
                }
                return out;
            },
        }
    }
}

pub fn lines(s: &[char]) -> (r: Vec<&[char]>)
    ensures
        slices(r@) == lines_of(s@),
{
    let mut out: Vec<&[char]> = Vec::new();
    let mut rest: &[char] = s;
    proof {
        assert(slices(out@) + lines_of(s@) =~= lines_of(s@));
    }
    while rest.len() > 0
        invariant
            slices(out@) + lines_of(rest@) == lines_of(s@),
        decreases rest@.len(),
    {
        let ghost before = slices(out@);
        match find_char(rest, '\n') {
            Some(i) => {
                let whole = take_chars(rest, i);
                let line: &[char] = if i > 0 && whole[i - 1] == '\r' {
                    let l = take_chars(whole, i - 1);
                    proof {
                        assert(l@ =~= whole@.drop_last());
                    }
                    l
                } else {
                    whole
                };
                let next = skip_chars(rest, i + 1);
                out.push(line);
                proof {
                    assert(line@ == strip_return(whole@));
                    assert(slices(out@) =~= before.push(line@));
                    assert(before + (seq![line@] + lines_of(next@)) =~= slices(out@) + lines_of(next@));
                }
                rest = next;
            },
            None => {
                out.push(rest);
                proof {
                    assert(slices(out@) =~= before + seq![rest@]);
                }
                return out;
            },
        }
    }
    proof {
        assert(slices(out@) + lines_of(rest@) =~= slices(out@));
    }
    out
}

pub fn find_text(s: &[char], part: &[char]) -> (r: Option<usize>)
    ensures
        match r {
            Some(i) => i == find_of(s@, part@) && i + part@.len() <= s@.len(),
            None => find_of(s@, part@) == -1,
        },
{
    let mut i: usize = 0;
    proof {
        assert(s@.skip(0) =~= s@);
    }
    loop
        invariant
            i <= s@.len(),
            find_of(s@, part@) == -1 <==> find_of(s@.skip(i as int), part@) == -1,
            find_of(s@, part@) >= 0 ==> find_of(s@, part@) == i + find_of(s@.skip(i as int), part@),
            find_of(s@.skip(i as int), part@) >= -1,
            find_of(s@, part@) >= -1,
        decreases s@.len() - i,
    {
        let rest = skip_chars(s, i);
        if starts_with(rest, part) {
            return Some(i);
        }
        if i == s.len() {
            return None;
        }
        proof {
            assert(s@.skip(i as int).drop_first() =~= s@.skip(i + 1));
            lemma_find_of_range(s@.skip(i + 1), part@);
        }
        i += 1;
    }
}

pub proof fn lemma_find_of_range(s: Seq<char>, part: Seq<char>)
    ensures
        -1 <= find_of(s, part),
        find_of(s, part) + part.len() <= s.len() || find_of(s, part) == -1,
    decreases s.len(),
{
    if !part.is_prefix_of(s) && s.len() > 0 {
        lemma_find_of_range(s.drop_first(), part);
    }
}

pub proof fn lemma_digits_value_prefix(s: Seq<char>, n: int)
    requires
        0 <= n <= s.len(),
    ensures
        digits_value(s.take(n)) <= digits_value(s),
    decreases s.len(),
{
    if n < s.len() {
        lemma_digits_value_prefix(s.drop_last(), n);
        assert(s.drop_last().take(n) =~= s.take(n));
    } else {
        assert(s.take(n) =~= s);
    }
}

/// Reads decimal digits up to `max`.
fn parse_digits(s: &[char], max: u64) -> (r: Option<u64>)
    ensures
        match r {
            Some(n) => s@.len() > 0 && all_digits(s@) && digits_value(s@) == n && n <= max,
            None => !(s@.len() > 0 && all_digits(s@) && digits_value(s@) <= max),
        },
{
    if s.len() == 0 {
        return None;
    }
    let mut value: u64 = 0;
    let mut i: usize = 0;
    while i < s.len()
        invariant
            i <= s@.len(),
            value == digits_value(s@.take(i as int)),
            value <= max,
            forall|j: int| 0 <= j < i ==> is_digit(#[trigger] s@[j]),
        decreases s@.len() - i,
    {
        let c: char = s[i];
        if !('0' <= c && c <= '9') {
            return None;
        }
        let d: u64 = c as u64 - '0' as u64;
        proof {
            assert(s@.take(i + 1).drop_last() =~= s@.take(i as int));
            lemma_digits_value_prefix(s@, i + 1);
        }
        match value.checked_mul(10) {
            Some(tens) => match tens.checked_add(d) {
                Some(next) => {
                    if next > max {
                        return None;
                    }
                    value = next;
                },
                None => {
                    return None;
                },
            },
            None => {
                return None;
            },
        }
        i += 1;
    }
    proof {
        assert(s@.take(i as int) =~= s@);
    }
    Some(value)
}

/// Reads decimal digits; a number above `max` is read as `max`.
pub fn parse_digits_capped(s: &[char], max: u64) -> (r: Option<u64>)
    ensures
        match r {
            Some(n) => s@.len() > 0 && all_digits(s@) && n == if digits_value(s@) <= max {
                digits_value(s@)
            } else {
                max as nat
            },
            None => s@.len() == 0 || !all_digits(s@),
        },
{
    if s.len() == 0 {
        return None;
    }
    let mut value: u64 = 0;
    let mut i: usize = 0;
    while i < s.len()
        invariant
            i <= s@.len(),
            value <= max,
            value == if digits_value(s@.take(i as int)) <= max { digits_value(s@.take(i as int)) } else { max as nat },
            forall|j: int| 0 <= j < i ==> is_digit(#[trigger] s@[j]),
        decreases s@.len() - i,
    {
        let c: char = s[i];
        if !('0' <= c && c <= '9') {
            return None;
        }
        let next: u128 = value as u128 * 10 + (c as u128 - '0' as u128);
        proof {
            assert(s@.take(i + 1).drop_last() =~= s@.take(i as int));
        }
        value = if next <= max as u128 { next as u64 } else { max };
        i += 1;
    }
    proof {
        assert(s@.take(i as int) =~= s@);
    }
    Some(value)
}

/// Reads an unsigned number no larger than `max`.
pub fn parse_unsigned(s: &[char], max: u64) -> (r: Option<u64>)
    ensures
        match r {
            Some(n) => parse_unsigned_of(s@, max as nat) == Some(n as nat),
            None => parse_unsigned_of(s@, max as nat) is None,
        },
{
    if s.len() > 0 && s[0] == '+' {
        let digits = skip_chars(s, 1);
        proof {
            assert(digits@ =~= s@.drop_first());
        }
        parse_digits(digits, max)
    } else {
        parse_digits(s, max)
    }
}

pub fn parse_u64(s: &[char]) -> (r: Option<u64>)
    ensures
        match r {
            Some(n) => parse_unsigned_of(s@, u64::MAX as nat) == Some(n as nat),
            None => parse_unsigned_of(s@, u64::MAX as nat) is None,
        },
{
    parse_unsigned(s, u64::MAX)
}

pub fn parse_i64(s: &[char]) -> (r: Option<i64>)
    ensures
        match r {
            Some(n) => parse_i64_of(s@) == Some(n as int),
            None => parse_i64_of(s@) is None,
        },
{
    if s.len() > 0 && s[0] == '-' {
        let digits = skip_chars(s, 1);
        proof {
            assert(digits@ =~= s@.drop_first());
        }
        match parse_digits(digits, 0x8000_0000_0000_0000) {
            Some(n) => {
                if n == 0x8000_0000_0000_0000 {
                    Some(i64::MIN)
                } else {
                    Some(-(n as i64))
                }
            },
            None => None,
        }
    } else {
        match parse_unsigned(s, i64::MAX as u64) {
            Some(n) => Some(n as i64),
            None => None,
        }
    }
}

fn digit_to_char(d: u64) -> (r: char)
    requires
        d < 10,
    ensures
        r == digit_char(d as nat),
{
    match d {
        0 => '0',
        1 => '1',
        2 => '2',
        3 => '3',
        4 => '4',
        5 => '5',
        6 => '6',
        7 => '7',
        8 => '8',
        _ => '9',
    }
}

/// Writes `n` in decimal.
pub fn decimal_text(n: u64) -> (r: String)
    ensures
        r@ == decimal(n as nat),
    decreases n,
{
    if n < 10 {
        let mut out: String = String::new();
        out.push(digit_to_char(n));
        proof {
            assert(out@ =~= seq![digit_char(n as nat)]);
        }
        out
    } else {
        let mut out: String = decimal_text(n / 10);
        out.push(digit_to_char(n % 10));
        out
    }
}

/// The decimal digits of `n`, behind a minus sign where it is negative.
pub open spec fn signed_decimal(n: int) -> Seq<char> {
    if n < 0 {
        "-"@ + decimal((-n) as nat)
    } else {
        decimal(n as nat)
    }
}

/// Writes `n` in decimal, with its sign.
pub fn signed_decimal_text(n: i64) -> (r: String)
    ensures
        r@ == signed_decimal(n as int),
{
    if n >= 0 {
        return decimal_text(n as u64);
    }
    let size: u64 = if n == i64::MIN {
        0x8000_0000_0000_0000
    } else {
        (-n) as u64
    };
    let mut out: String = "-".to_owned();
    out.append(decimal_text(size).as_str());
    out
}

/// Writes `n` in decimal, with zeros before it up to `width` digits.
pub fn padded_decimal(n: u64, width: usize) -> (r: String)
    ensures
        r@ == zero_padded(decimal(n as nat), width as nat),
{
    let digits = decimal_text(n);
    let length: usize = digits.as_str().unicode_len();
    if length >= width {
        return digits;
    }
    let mut out: String = String::new();
    let mut i: usize = length;
    while i < width
        invariant
            length <= i <= width,
            out@ == Seq::new((i - length) as nat, |k: int| '0'),
        decreases width - i,
    {
        out.push('0');
        proof {
            assert(out@ =~= Seq::new((i + 1 - length) as nat, |k: int| '0'));
        }
        i += 1;
    }
    out.append(digits.as_str());
    out
}

/// The decimal text of a number reads back as that number.
pub proof fn lemma_decimal_reads_back(n: nat)
    ensures
        decimal(n).len() > 0,
        all_digits(decimal(n)),
        digits_value(decimal(n)) == n,
    decreases n,
{
    let s = decimal(n);
    if n < 10 {
        assert(s.drop_last() =~= seq![]);
        assert(digits_value(seq![]) == 0);
    } else {
        lemma_decimal_reads_back(n / 10);
        assert(s.drop_last() =~= decimal(n / 10));
    }
}

pub fn to_ascii_lower(s: &[char]) -> (r: Vec<char>)
    ensures
        r@ == ascii_lower_of(s@),
{
    let mut out: Vec<char> = Vec::new();
    let mut i: usize = 0;
    while i < s.len()
        invariant
            i <= s@.len(),
            out@ == ascii_lower_of(s@.take(i as int)),
        decreases s@.len() - i,
    {
        let c: char = s[i];
        let lower: char = if 'A' <= c && c <= 'Z' {
            (c as u8 + 32u8) as char
        } else {
            c
        };
        out.push(lower);
        proof {
            assert(ascii_lower_of(s@.take(i + 1)) =~= ascii_lower_of(s@.take(i as int)).push(lower));
        }
        i += 1;
    }
    proof {
        assert(s@.take(i as int) =~= s@);
    }
    out
}

/// Joins `parts` with `separator` between neighbours.
pub fn join(parts: &Vec<String>, separator: &str) -> (r: String)
    ensures
        r@ == joined(texts(parts@), separator@),
{
    let mut out: String = String::new();
    let mut i: usize = 0;
    while i < parts.len()
        invariant
            i <= parts@.len(),
            out@ == joined(texts(parts@).take(i as int), separator@),
        decreases parts@.len() - i,
    {
        let ghost all = texts(parts@);
        if i > 0 {
            out.append(separator);
        }
        out.append(parts[i].as_str());
        proof {
            assert(all.take(i + 1).drop_last() =~= all.take(i as int));
            assert(all.take(i + 1).last() == parts@[i as int]@);
            if i == 0 {
                assert(out@ =~= parts@[0]@);
            }
        }
        i += 1;
    }
    proof {
        assert(texts(parts@).take(i as int) =~= texts(parts@));
    }
    out
}

/// A copy of a list of strings.
pub fn copy_texts(list: &Vec<String>) -> (r: Vec<String>)
    ensures
        r@ == list@,
{
    let mut out: Vec<String> = Vec::new();
    let mut i: usize = 0;
    while i < list.len()
        invariant
            i <= list@.len(),
            out@ == list@.take(i as int),
        decreases list@.len() - i,
    {
        out.push(list[i].clone());
        proof {
            assert(list@.take(i + 1) =~= list@.take(i as int).push(list@[i as int]));
        }
        i += 1;
    }
    proof {
        assert(list@.take(i as int) =~= list@);
    }
    out
}

pub fn contains_text(list: &Vec<String>, text: &str) -> (r: bool)
    ensures
        r == texts(list@).contains(text@),
{
    let mut i: usize = 0;
    while i < list.len()
        invariant
            i <= list@.len(),
            forall|j: int| 0 <= j < i ==> list@[j]@ != text@,
        decreases list@.len() - i,
    {
        if same_text(list[i].as_str(), text) {
            proof {
                assert(texts(list@)[i as int] == text@);
            }
            return true;
        }
        i += 1;
    }
    proof {
        assert forall|j: int| 0 <= j < list@.len() implies texts(list@)[j] != text@ by {}
    }
    false
}

/// A text with `to` in place of the first `from`.
pub open spec fn first_replaced(s: Seq<char>, from: Seq<char>, to: Seq<char>) -> Seq<char> {
    let i = find_of(s, from);
    if i < 0 {
        s
    } else {
        s.take(i) + to + s.skip(i + from.len())
    }
}

/// A text with `to` in place of every `from`, from the left.
pub open spec fn all_replaced(s: Seq<char>, from: Seq<char>, to: Seq<char>) -> Seq<char>
    decreases s.len(),
{
    let i = find_of(s, from);
    if i < 0 || from.len() == 0 || i + from.len() > s.len() {
        s
    } else {
        s.take(i) + to + all_replaced(s.skip(i + from.len()), from, to)
    }
}

/// Puts `to` in place of the first `from`.
pub fn replace_first(s: &str, from: &str, to: &str) -> (r: String)
    ensures
        r@ == first_replaced(s@, from@, to@),
{
    let chars = chars_of(s);
    let part = chars_of(from);
    match find_text(chars.as_slice(), part.as_slice()) {
        Some(i) => {
            let count: usize = chars.len();
            let mut out: String = string_of(take_chars(chars.as_slice(), i));
            out.append(to);
            assert(i + part.len() <= count);
            out.append(string_of(skip_chars(chars.as_slice(), i + part.len())).as_str());
            out
        },
        None => s.to_owned(),
    }
}

/// Puts `to` in place of every `from`.
pub fn replace_all(s: &str, from: &str, to: &str) -> (r: String)
    requires
        from@.len() > 0,
    ensures
        r@ == all_replaced(s@, from@, to@),
{
    let chars = chars_of(s);
    let part = chars_of(from);
    let mut rest: &[char] = chars.as_slice();
    let mut out: String = String::new();
    proof {
        assert(out@ + all_replaced(rest@, from@, to@) =~= all_replaced(s@, from@, to@));
    }
    loop
        invariant
            part@ == from@,
            from@.len() > 0,
            out@ + all_replaced(rest@, from@, to@) == all_replaced(s@, from@, to@),
        decreases rest@.len(),
    {
        match find_text(rest, part.as_slice()) {
            Some(i) => {
                let count: usize = rest.len();
                assert(i + part.len() <= count);
                let head = take_chars(rest, i);
                let next = skip_chars(rest, i + part.len());
                let ghost held = out@;
                out.append(string_of(head).as_str());
                out.append(to);
                proof {
                    assert(held + (head@ + to@ + all_replaced(next@, from@, to@)) =~= out@ + all_replaced(
                        next@,
                        from@,
                        to@,
                    ));
                }
                rest = next;
            },
            None => {
                out.append(string_of(rest).as_str());
                return out;
            },
        }
    }
}

// What joining and replacing give.

/// Parts are joined in their order, with the separator between neighbours and
/// nowhere else.
pub proof fn lemma_joined_parts(parts: Seq<Seq<char>>, last: Seq<char>, separator: Seq<char>)
    ensures
        joined(Seq::empty(), separator) == Seq::<char>::empty(),
        joined(seq![last], separator) == last,
        parts.len() > 0 ==> joined(parts.push(last), separator) == joined(parts, separator) + separator + last,
{
    assert(parts.push(last).drop_last() =~= parts);
}

/// A signed number that was written in decimal reads back as that number.
pub proof fn lemma_signed_reads_back(n: i64)
    ensures
        parse_i64_of(signed_decimal(n as int)) == Some(n as int),
{
    reveal_strlit("-");
    let size = if n < 0 { (-(n as int)) as nat } else { n as nat };
    lemma_decimal_reads_back(size);
    let digits = decimal(size);
    assert(is_digit(digits[0]));
    if n < 0 {
        let s = "-"@ + digits;
        assert(s[0] == '-');
        assert(s.drop_first() =~= digits);
    } else {
        assert(digits[0] != '-' && digits[0] != '+');
    }
}

/// A part is found where it stands first.
pub proof fn lemma_found_first(s: Seq<char>, part: Seq<char>, at: int)
    requires
        0 <= at <= s.len(),
        part.is_prefix_of(s.skip(at)),
        forall|k: int| 0 <= k < at ==> !part.is_prefix_of(#[trigger] s.skip(k)),
    ensures
        find_of(s, part) == at,
    decreases at,
{
    assert(s.skip(0) =~= s);
    if at > 0 {
        let rest = s.drop_first();
        assert(rest.skip(at - 1) =~= s.skip(at));
        assert forall|k: int| 0 <= k < at - 1 implies !part.is_prefix_of(#[trigger] rest.skip(k)) by {
            assert(rest.skip(k) =~= s.skip(k + 1));
        }
        lemma_found_first(rest, part, at - 1);
    }
}

/// Replacing changes the part where it stands first, and where all are
/// replaced, goes on behind it; a text without the part stays as it is.
pub proof fn lemma_replaced_parts(before: Seq<char>, from: Seq<char>, after: Seq<char>, to: Seq<char>, s: Seq<char>)
    requires
        from.len() > 0,
        s == before + from + after,
        forall|k: int| 0 <= k < before.len() ==> !from.is_prefix_of(#[trigger] s.skip(k)),
    ensures
        first_replaced(s, from, to) == before + to + after,
        all_replaced(s, from, to) == before + to + all_replaced(after, from, to),
        find_of(after, from) < 0 ==> all_replaced(after, from, to) == after && first_replaced(after, from, to) == after,
{
    let n = before.len() as int;
    assert(s.skip(n) =~= from + after);
    assert(from.is_prefix_of(s.skip(n)));
    lemma_found_first(s, from, n);
    assert(s.take(n) =~= before);
    assert(s.skip(n + from.len()) =~= after);
}

} // verus!
