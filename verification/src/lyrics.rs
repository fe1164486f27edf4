//! Parsed, presentation-ready lyrics.

use vstd::prelude::*;

use crate::decimal::{number_of, only_zeros, padded_digit, padded_digits, parse_number, Decimal, Number};
use crate::sorting::{is_sorted_by, lemma_insert_position, lemma_sorted_by, lemma_sorted_by_fixed, sorted_by};
use crate::text::{
    all_digits, ascii_lower_of, chars_of, decimal, digit_char, digit_of, digits_value, ends_with, find_char, find_of,
    find_text, first_of, is_digit, is_white, lemma_decimal_reads_back, lemma_first_of, lemma_first_of_is,
    lemma_trim_idempotent, lemma_trim_start, lines, lines_of, parse_i64, parse_i64_of, parse_u64, parse_unsigned_of,
    same_text, signed_decimal, skip_chars, slices, split_once, split_once_of, starts_with, string_of, strip_return,
    take_chars, text_option, texts, to_ascii_lower, trim, trim_of, trim_start_of, trimmed, without_plus,
};
use crate::time::{capped, Duration, MAX_NANOS};

verus! {

#[derive(Clone, Debug, PartialEq, Eq)]
pub struct Lyrics {
    pub original: Vec<LyricLine>,
    pub translated: Vec<LyricLine>,
}

#[derive(Clone, Debug, PartialEq, Eq)]
pub struct LyricLine {
    pub start: Duration,
    pub end: Option<Duration>,
    pub text: String,
    pub words: Vec<LyricWord>,
}

#[derive(Clone, Debug, PartialEq, Eq)]
pub struct LyricWord {
    pub start: Duration,
    pub end: Duration,
    pub text: String,
}

/// A timed word, with its times in nanoseconds.
pub struct WordView {
    pub start: nat,
    pub end: nat,
    pub text: Seq<char>,
}

/// A timed line, with its times in nanoseconds.
pub struct LineView {
    pub start: nat,
    pub end: Option<nat>,
    pub text: Seq<char>,
    pub words: Seq<WordView>,
}

impl View for LyricWord {
    type V = WordView;

    open spec fn view(&self) -> WordView {
        WordView { start: self.start@, end: self.end@, text: self.text@ }
    }
}

pub open spec fn word_views(words: Seq<LyricWord>) -> Seq<WordView> {
    words.map_values(|word: LyricWord| word@)
}

pub open spec fn span_option(span: Option<Duration>) -> Option<nat> {
    match span {
        Some(d) => Some(d@),
        None => None,
    }
}

impl View for LyricLine {
    type V = LineView;

    open spec fn view(&self) -> LineView {
        LineView {
            start: self.start@,
            end: span_option(self.end),
            text: self.text@,
            words: word_views(self.words@),
        }
    }
}

pub open spec fn line_views(lines: Seq<LyricLine>) -> Seq<LineView> {
    lines.map_values(|line: LyricLine| line@)
}

// Times written in seconds.

/// The nanoseconds in a number of seconds, to the nearest one: `digits` with
/// the decimal point behind its first `point` digits.
pub open spec fn nanos_of_digits(digits: Seq<char>, point: int) -> nat {
    let n = point + 9;
    if n < 0 {
        0
    } else {
        digits_value(padded_digits(digits, n as nat)) + if padded_digit(digits, n) >= '5' {
            1nat
        } else {
            0
        }
    }
}

/// The nanoseconds in a decimal number of seconds, or nothing if the text is
/// not a finite number that is zero or more.
pub open spec fn seconds_of(s: Seq<char>) -> Option<nat> {
    match number_of(s) {
        Some(Number::Finite { negative, digits, point }) => if digits_value(digits) == 0 {
            Some(0)
        } else if negative {
            None
        } else {
            Some(nanos_of_digits(digits, point))
        },
        _ => None,
    }
}

/// The time that a tag of the form `minutes:seconds` stands for.
pub open spec fn lrc_time_of(tag: Seq<char>) -> Option<nat> {
    match split_once_of(tag, ':') {
        Some((minutes, seconds)) => match (
            parse_unsigned_of(trim_of(minutes), u64::MAX as nat),
            seconds_of(trim_of(seconds)),
        ) {
            (Some(m), Some(s)) => {
                let total = m * 60_000_000_000 + s;
                if total <= MAX_NANOS {
                    Some(total)
                } else {
                    None
                }
            },
            _ => None,
        },
        None => None,
    }
}

/// A time moved by an offset in milliseconds, kept within the range of times.
pub open spec fn shifted(time: nat, offset: int) -> nat {
    if offset >= 0 {
        capped((time + offset * 1_000_000) as nat)
    } else if time >= -offset * 1_000_000 {
        (time + offset * 1_000_000) as nat
    } else {
        0
    }
}

// Lines of LRC text.

/// The offset that a line of the form `[offset:value]` sets.
pub open spec fn offset_tag_of(line: Seq<char>) -> Option<int> {
    let t = trim_of(line);
    let rest = t.skip(8);
    if "[offset:"@.is_prefix_of(t) && rest.len() > 0 && rest.last() == ']' {
        parse_i64_of(trim_of(rest.drop_last()))
    } else {
        None
    }
}

/// The offset of a text: that of its last offset line, or none at all.
pub open spec fn offset_of(lines: Seq<Seq<char>>) -> int
    decreases lines.len(),
{
    if lines.len() == 0 {
        0
    } else {
        match offset_tag_of(lines.last()) {
            Some(value) => value,
            None => offset_of(lines.drop_last()),
        }
    }
}

/// The time tag at the start of a text: its time, and what follows it.
pub open spec fn leading_time_of(s: Seq<char>) -> Option<(nat, Seq<char>)> {
    let after = s.drop_first();
    let close = first_of(after, ']');
    if s.len() > 0 && s[0] == '[' && 0 <= close < after.len() {
        match lrc_time_of(after.take(close)) {
            Some(time) => Some((time, after.skip(close + 1))),
            None => None,
        }
    } else {
        None
    }
}

/// The times of the tags at the start of a text.
pub open spec fn leading_times_of(s: Seq<char>) -> Seq<nat>
    decreases s.len(),
{
    match leading_time_of(s) {
        Some((time, rest)) => if rest.len() < s.len() {
            seq![time] + leading_times_of(rest)
        } else {
            seq![]
        },
        None => seq![],
    }
}

/// What follows the time tags at the start of a text.
pub open spec fn behind_times_of(s: Seq<char>) -> Seq<char>
    decreases s.len(),
{
    match leading_time_of(s) {
        Some((time, rest)) => if rest.len() < s.len() {
            behind_times_of(rest)
        } else {
            s
        },
        None => s,
    }
}

/// The lyric lines of one line of LRC text: one for each of its time tags,
/// none where it holds no words.
pub open spec fn lrc_line_of(line: Seq<char>, offset: int) -> Seq<LineView> {
    let t = trim_of(line);
    let text = trim_of(behind_times_of(t));
    if text.len() == 0 {
        seq![]
    } else {
        leading_times_of(t).map_values(
            |time: nat| LineView { start: shifted(time, offset), end: None, text, words: seq![] },
        )
    }
}

pub open spec fn lrc_lines_of(lines: Seq<Seq<char>>, offset: int) -> Seq<LineView>
    decreases lines.len(),
{
    if lines.len() == 0 {
        seq![]
    } else {
        lrc_lines_of(lines.drop_last(), offset) + lrc_line_of(lines.last(), offset)
    }
}

/// The lyric lines of an LRC text, in the order in which they are written.
pub open spec fn lrc_of(input: Seq<char>) -> Seq<LineView> {
    lrc_lines_of(lines_of(input), offset_of(lines_of(input)))
}

// Lines of YRC text, with the timing of each word.

pub open spec fn add_millis(start: nat, length: nat) -> nat {
    if start + length <= u64::MAX {
        (start + length) * 1_000_000
    } else {
        u64::MAX as nat * 1_000_000
    }
}

/// The two numbers at the start of a list that is separated by commas.
pub open spec fn yrc_range_of(s: Seq<char>) -> Option<(nat, nat)> {
    match split_once_of(s, ',') {
        Some((first, rest)) => {
            let second = rest.take(first_of(rest, ','));
            match (
                parse_unsigned_of(trim_of(first), u64::MAX as nat),
                parse_unsigned_of(trim_of(second), u64::MAX as nat),
            ) {
                (Some(a), Some(b)) => Some((a, b)),
                _ => None,
            }
        },
        None => None,
    }
}

/// The first timing mark of a text and what surrounds it.
pub struct YrcMark {
    pub before: Seq<char>,
    pub timing: Seq<char>,
    pub text: Seq<char>,
    pub rest: Seq<char>,
}

/// The first `(timing)` of a text, with the text up to the next mark.
pub open spec fn yrc_mark_of(s: Seq<char>) -> Option<YrcMark> {
    let open = first_of(s, '(');
    let inside = s.skip(open + 1);
    let close = first_of(inside, ')');
    if 0 <= open < s.len() && 0 <= close < inside.len() {
        let after = inside.skip(close + 1);
        let next = first_of(after, '(');
        Some(
            YrcMark {
                before: s.take(open),
                timing: inside.take(close),
                text: after.take(next),
                rest: after.skip(next),
            },
        )
    } else {
        None
    }
}

/// The text without its timing marks.
pub open spec fn yrc_plain_of(s: Seq<char>) -> Seq<char>
    decreases s.len(),
{
    match yrc_mark_of(s) {
        Some(mark) => if mark.rest.len() < s.len() {
            mark.before + mark.text + yrc_plain_of(mark.rest)
        } else {
            s
        },
        None => s,
    }
}

pub open spec fn yrc_word_of(mark: YrcMark) -> Seq<WordView> {
    match yrc_range_of(mark.timing) {
        Some((start, length)) => if mark.text.len() > 0 {
            seq![WordView { start: start * 1_000_000, end: add_millis(start, length), text: mark.text }]
        } else {
            seq![]
        },
        None => seq![],
    }
}

/// The timed words of a text: those whose timing can be read and that are not empty.
pub open spec fn yrc_words_of(s: Seq<char>) -> Seq<WordView>
    decreases s.len(),
{
    match yrc_mark_of(s) {
        Some(mark) => if mark.rest.len() < s.len() {
            yrc_word_of(mark) + yrc_words_of(mark.rest)
        } else {
            seq![]
        },
        None => seq![],
    }
}

/// The lyric line of one line of YRC text, if it is one.
pub open spec fn yrc_line_of(line: Seq<char>) -> Seq<LineView> {
    let t = trim_of(line);
    let inside = t.drop_first();
    let close = first_of(inside, ']');
    if t.len() > 0 && t[0] == '[' && close < inside.len() {
        let rest = inside.skip(close + 1);
        let text = trim_of(yrc_plain_of(rest));
        match yrc_range_of(inside.take(close)) {
            Some((start, length)) => if text.len() > 0 {
                seq![
                    LineView {
                        start: start * 1_000_000,
                        end: Some(add_millis(start, length)),
                        text,
                        words: yrc_words_of(rest),
                    },
                ]
            } else {
                seq![]
            },
            None => seq![],
        }
    } else {
        seq![]
    }
}

pub open spec fn yrc_lines_of(lines: Seq<Seq<char>>) -> Seq<LineView>
    decreases lines.len(),
{
    if lines.len() == 0 {
        seq![]
    } else {
        yrc_lines_of(lines.drop_last()) + yrc_line_of(lines.last())
    }
}

/// The lyric lines of a YRC text, in the order in which they are written.
pub open spec fn yrc_of(input: Seq<char>) -> Seq<LineView> {
    yrc_lines_of(lines_of(input))
}

// Lines made ready for display.

pub open spec fn line_start() -> spec_fn(LineView) -> int {
    |line: LineView| line.start as int
}

pub open spec fn same_line(a: LineView, b: LineView) -> bool {
    a.start == b.start && a.text == b.text
}

/// The lines without those that repeat the line kept before them.
pub open spec fn without_repeats(s: Seq<LineView>) -> Seq<LineView>
    decreases s.len(),
{
    if s.len() <= 1 {
        s
    } else {
        let kept = without_repeats(s.drop_last());
        if same_line(kept.last(), s.last()) {
            kept
        } else {
            kept.push(s.last())
        }
    }
}

/// The lines, each with an end: its own, or else the start of the next one.
pub open spec fn with_ends(s: Seq<LineView>) -> Seq<LineView> {
    Seq::new(
        s.len(),
        |i: int|
            if i + 1 < s.len() && s[i].end is None {
                LineView { end: Some(s[i + 1].start), ..s[i] }
            } else {
                s[i]
            },
    )
}

/// The lines in order of time, without repeats and with their ends.
pub open spec fn finished(s: Seq<LineView>) -> Seq<LineView> {
    with_ends(without_repeats(sorted_by(s, line_start())))
}

/// The distance between two times.
pub open spec fn distance(a: nat, b: nat) -> nat {
    if a >= b {
        (a - b) as nat
    } else {
        (b - a) as nat
    }
}

/// How far apart, in nanoseconds, a line and its translation may start.
pub const PAIRING_NANOS: u128 = 80_000_000;

/// Whether the line at `i` is followed by its translation.
pub open spec fn is_pair(s: Seq<LineView>, i: int) -> bool {
    i + 1 < s.len() && distance(s[i + 1].start, s[i].start) <= PAIRING_NANOS && s[i + 1].text != s[i].text
}

/// The original lines of a bilingual text from `i` on.
pub open spec fn pair_originals(s: Seq<LineView>, i: int) -> Seq<LineView>
    decreases s.len() - i,
{
    if i < 0 || i >= s.len() {
        seq![]
    } else if is_pair(s, i) {
        seq![s[i]] + pair_originals(s, i + 2)
    } else {
        seq![s[i]] + pair_originals(s, i + 1)
    }
}

/// The translated lines of a bilingual text from `i` on.
pub open spec fn pair_translations(s: Seq<LineView>, i: int) -> Seq<LineView>
    decreases s.len() - i,
{
    if i < 0 || i >= s.len() {
        seq![]
    } else if is_pair(s, i) {
        seq![s[i + 1]] + pair_translations(s, i + 2)
    } else {
        pair_translations(s, i + 1)
    }
}

/// How many lines at the start of a list have started at `position`.
pub open spec fn started(s: Seq<LineView>, position: nat) -> int
    decreases s.len(),
{
    if s.len() == 0 || s[0].start > position {
        0
    } else {
        1 + started(s.drop_first(), position)
    }
}

/// The line whose start is nearest to `start` within the pairing distance,
/// among the last one that has started and the one after it.
pub open spec fn nearest_line(s: Seq<LineView>, start: nat) -> Option<int> {
    let point = started(s, start);
    let before = point > 0 && distance(s[point - 1].start, start) <= PAIRING_NANOS;
    let after = point < s.len() && distance(s[point].start, start) <= PAIRING_NANOS;
    if before && (!after || distance(s[point - 1].start, start) <= distance(s[point].start, start)) {
        Some(point - 1)
    } else if after {
        Some(point)
    } else {
        None
    }
}

pub struct LyricsView {
    pub original: Seq<LineView>,
    pub translated: Seq<LineView>,
}

impl View for Lyrics {
    type V = LyricsView;

    open spec fn view(&self) -> LyricsView {
        LyricsView { original: line_views(self.original@), translated: line_views(self.translated@) }
    }
}

pub open spec fn sources_of(
    lrc: Option<Seq<char>>,
    translated: Option<Seq<char>>,
    yrc: Option<Seq<char>>,
) -> LyricsView {
    let by_word = match yrc {
        Some(text) => yrc_of(text),
        None => seq![],
    };
    let by_line = match lrc {
        Some(text) => lrc_of(text),
        None => seq![],
    };
    let other = match translated {
        Some(text) => lrc_of(text),
        None => seq![],
    };
    LyricsView {
        original: finished(if by_word.len() > 0 { by_word } else { by_line }),
        translated: finished(other),
    }
}

/// The lyrics of a text in which a line may be followed by its translation.
pub open spec fn bilingual_of(input: Seq<char>) -> LyricsView {
    let ordered = sorted_by(lrc_of(input), line_start());
    LyricsView {
        original: finished(pair_originals(ordered, 0)),
        translated: finished(pair_translations(ordered, 0)),
    }
}

pub open spec fn local_document_of(original: Seq<char>, translated: Option<Seq<char>>) -> LyricsView {
    match translated {
        Some(text) => if trim_of(text).len() > 0 {
            sources_of(Some(original), Some(text), None)
        } else {
            bilingual_of(original)
        },
        None => bilingual_of(original),
    }
}

pub open spec fn str_option(value: Option<&str>) -> Option<Seq<char>> {
    match value {
        Some(text) => Some(text@),
        None => None,
    }
}

// Parsing.

/// The nanoseconds in a number of seconds given by its digits, if they are in range.
fn digits_to_nanos(digits: &[char], point: i128) -> (r: Option<u128>)
    requires
        all_digits(digits@),
        -0x1_0000_0000_0000_0000 <= point <= 0x2_0000_0000_0000_0000,
    ensures
        match r {
            Some(n) => n == nanos_of_digits(digits@, point as int),
            None => nanos_of_digits(digits@, point as int) > MAX_NANOS,
        },
{
    let n: i128 = point + 9;
    if n < 0 {
        return Some(0);
    }
    let length: i128 = digits.len() as i128;
    let mut value: u128 = 0;
    let mut i: i128 = 0;
    while i < n
        invariant
            0 <= i <= n <= 0x2_0000_0000_0000_0009,
            n == point + 9,
            length == digits@.len(),
            length <= usize::MAX,
            all_digits(digits@),
            value <= MAX_NANOS,
            value == digits_value(padded_digits(digits@, i as nat)),
        decreases n - i,
    {
        let d: char = if i < length {
            digits[i as usize]
        } else {
            '0'
        };
        proof {
            let longer = padded_digits(digits@, (i + 1) as nat);
            assert(longer.drop_last() =~= padded_digits(digits@, i as nat));
            assert(longer.last() == d);
            assert(is_digit(d));
            let all = padded_digits(digits@, n as nat);
            crate::text::lemma_digits_value_prefix(all, i + 1);
            assert(all.take(i + 1) =~= longer);
        }
        value = value * 10 + (d as u128 - '0' as u128);
        if value > MAX_NANOS {
            return None;
        }
        i += 1;
    }
    let next: char = if n < length {
        digits[n as usize]
    } else {
        '0'
    };
    Some(if next >= '5' { value + 1 } else { value })
}

/// Reads a decimal number of seconds as nanoseconds, if it is in range.
fn parse_seconds(s: &[char]) -> (r: Option<u128>)
    ensures
        match r {
            Some(n) => seconds_of(s@) == Some(n as nat) && n <= MAX_NANOS,
            None => match seconds_of(s@) {
                Some(n) => n > MAX_NANOS,
                None => true,
            },
        },
{
    match parse_number(s) {
        Some(Decimal::Finite { negative, digits, point }) => {
            if only_zeros(digits.as_slice()) {
                return Some(0);
            }
            if negative {
                return None;
            }
            match digits_to_nanos(digits.as_slice(), point) {
                Some(n) => if n <= MAX_NANOS {
                    Some(n)
                } else {
                    None
                },
                None => None,
            }
        },
        _ => None,
    }
}

fn parse_lrc_time(value: &[char]) -> (r: Option<Duration>)
    ensures
        span_option(r) == lrc_time_of(value@),
{
    match split_once(value, ':') {
        Some((minutes, seconds)) => match parse_u64(trim(minutes)) {
            Some(m) => match parse_seconds(trim(seconds)) {
                Some(s) => {
                    let total: u128 = m as u128 * 60_000_000_000 + s;
                    if total <= MAX_NANOS {
                        Some(Duration { nanos: total })
                    } else {
                        None
                    }
                },
                None => None,
            },
            None => None,
        },
        None => None,
    }
}

fn apply_offset(time: Duration, offset_ms: i64) -> (r: Duration)
    ensures
        r@ == shifted(time@, offset_ms as int),
{
    if offset_ms >= 0 {
        time.saturating_add(Duration::from_millis(offset_ms as u64))
    } else {
        let size: u64 = if offset_ms == i64::MIN {
            0x8000_0000_0000_0000
        } else {
            (-offset_ms) as u64
        };
        time.saturating_sub(Duration::from_millis(size))
    }
}

fn parse_offset_tag(line: &[char]) -> (r: Option<i64>)
    ensures
        match r {
            Some(v) => offset_tag_of(line@) == Some(v as int),
            None => offset_tag_of(line@) is None,
        },
{
    let t = trim(line);
    let prefix = chars_of("[offset:");
    proof {
        reveal_strlit("[offset:");
    }
    if !starts_with(t, prefix.as_slice()) {
        return None;
    }
    let rest = skip_chars(t, 8);
    let n: usize = rest.len();
    if n == 0 || rest[n - 1] != ']' {
        return None;
    }
    let value = take_chars(rest, n - 1);
    proof {
        assert(value@ =~= rest@.drop_last());
    }
    parse_i64(trim(value))
}

fn parse_offset(rows: &Vec<&[char]>) -> (r: i64)
    ensures
        r == offset_of(slices(rows@)),
{
    let mut offset: i64 = 0;
    let mut i: usize = 0;
    while i < rows.len()
        invariant
            i <= rows@.len(),
            offset == offset_of(slices(rows@).take(i as int)),
        decreases rows@.len() - i,
    {
        proof {
            assert(slices(rows@).take(i + 1).drop_last() =~= slices(rows@).take(i as int));
            assert(slices(rows@).take(i + 1).last() == rows@[i as int]@);
        }
        if let Some(value) = parse_offset_tag(rows[i]) {
            offset = value;
        }
        i += 1;
    }
    proof {
        assert(slices(rows@).take(i as int) =~= slices(rows@));
    }
    offset
}

fn parse_leading_time(s: &[char]) -> (r: Option<(Duration, &[char])>)
    ensures
        match r {
            Some((time, rest)) => leading_time_of(s@) == Some((time@, rest@)) && rest@.len() < s@.len(),
            None => leading_time_of(s@) is None,
        },
{
    if s.len() == 0 || s[0] != '[' {
        return None;
    }
    let after = skip_chars(s, 1);
    proof {
        assert(after@ =~= s@.drop_first());
        lemma_first_of(after@, ']');
    }
    match find_char(after, ']') {
        Some(close) => match parse_lrc_time(take_chars(after, close)) {
            Some(time) => Some((time, skip_chars(after, close + 1))),
            None => None,
        },
        None => None,
    }
}

/// Appends the lyric lines of one line of LRC text.
fn parse_lrc_line(out: &mut Vec<LyricLine>, line: &[char], offset: i64)
    ensures
        line_views(final(out)@) == line_views(old(out)@) + lrc_line_of(line@, offset as int),
{
    let t = trim(line);
    let mut rest = t;
    let mut times: Vec<Duration> = Vec::new();
    let ghost mut done: Seq<nat> = seq![];
    proof {
        assert(done + leading_times_of(t@) =~= leading_times_of(t@));
    }
    loop
        invariant
            done == times@.map_values(|d: Duration| d@),
            done + leading_times_of(rest@) == leading_times_of(t@),
            behind_times_of(rest@) == behind_times_of(t@),
        ensures
            done == leading_times_of(t@),
            done == times@.map_values(|d: Duration| d@),
            rest@ == behind_times_of(t@),
        decreases rest@.len(),
    {
        match parse_leading_time(rest) {
            Some((time, next)) => {
                times.push(time);
                proof {
                    assert(times@.map_values(|d: Duration| d@) =~= done.push(time@));
                    assert(done + (seq![time@] + leading_times_of(next@)) =~= done.push(time@) + leading_times_of(next@));
                    done = done.push(time@);
                }
                rest = next;
            },
            None => {
                proof {
                    assert(done + seq![] =~= done);
                }
                break;
            },
        }
    }
    let text = string_of(trim(rest));
    if text.as_str().is_empty() {
        proof {
            assert(line_views(out@) + seq![] =~= line_views(out@));
        }
        return;
    }
    let ghost expected = lrc_line_of(line@, offset as int);
    let ghost before = line_views(out@);
    let mut i: usize = 0;
    proof {
        assert(before + expected.take(0) =~= before);
    }
    while i < times.len()
        invariant
            i <= times@.len(),
            done == times@.map_values(|d: Duration| d@),
            expected == done.map_values(
                |time: nat| LineView { start: shifted(time, offset as int), end: None, text: text@, words: seq![] },
            ),
            line_views(out@) == before + expected.take(i as int),
        decreases times@.len() - i,
    {
        let item = LyricLine {
            start: apply_offset(times[i], offset),
            end: None,
            text: text.clone(),
            words: Vec::new(),
        };
        proof {
            assert(done[i as int] == times@[i as int]@);
            assert(item@.words =~= seq![]);
            assert(item@ == expected[i as int]);
        }
        let ghost held = out@;
        out.push(item);
        proof {
            assert(line_views(out@) =~= line_views(held).push(item@));
            assert(before + expected.take(i + 1) =~= (before + expected.take(i as int)).push(expected[i as int]));
        }
        i += 1;
    }
    proof {
        assert(expected.take(i as int) =~= expected);
    }
}

/// The lyric lines of an LRC text.
pub fn parse_lrc(input: &str) -> (r: Vec<LyricLine>)
    ensures
        line_views(r@) == lrc_of(input@),
{
    let chars = chars_of(input);
    let rows = lines(chars.as_slice());
    let offset: i64 = parse_offset(&rows);
    let mut out: Vec<LyricLine> = Vec::new();
    let mut i: usize = 0;
    proof {
        assert(line_views(out@) =~= seq![]);
    }
    while i < rows.len()
        invariant
            i <= rows@.len(),
            line_views(out@) == lrc_lines_of(slices(rows@).take(i as int), offset as int),
        decreases rows@.len() - i,
    {
        parse_lrc_line(&mut out, rows[i], offset);
        proof {
            assert(slices(rows@).take(i + 1).drop_last() =~= slices(rows@).take(i as int));
            assert(slices(rows@).take(i + 1).last() == rows@[i as int]@);
        }
        i += 1;
    }
    proof {
        assert(slices(rows@).take(i as int) =~= slices(rows@));
    }
    out
}

fn parse_yrc_range(value: &[char]) -> (r: Option<(u64, u64)>)
    ensures
        match r {
            Some((a, b)) => yrc_range_of(value@) == Some((a as nat, b as nat)),
            None => yrc_range_of(value@) is None,
        },
{
    match split_once(value, ',') {
        Some((first, rest)) => {
            let end: usize = match find_char(rest, ',') {
                Some(i) => i,
                None => rest.len(),
            };
            match parse_u64(trim(first)) {
                Some(start) => match parse_u64(trim(take_chars(rest, end))) {
                    Some(length) => Some((start, length)),
                    None => None,
                },
                None => None,
            }
        },
        None => None,
    }
}

/// Appends characters to a text.
fn append_chars(out: &mut Vec<char>, s: &[char])
    ensures
        final(out)@ == old(out)@ + s@,
{
    let ghost before = out@;
    let mut i: usize = 0;
    proof {
        assert(before + s@.take(0) =~= before);
    }
    while i < s.len()
        invariant
            i <= s@.len(),
            out@ == before + s@.take(i as int),
        decreases s@.len() - i,
    {
        out.push(s[i]);
        proof {
            assert(before + s@.take(i + 1) =~= (before + s@.take(i as int)).push(s@[i as int]));
        }
        i += 1;
    }
    proof {
        assert(s@.take(i as int) =~= s@);
    }
}

/// The first timing mark of a text: what stands before it, its timing, the
/// text up to the next mark, and the rest.
fn take_yrc_mark(s: &[char]) -> (r: Option<(&[char], &[char], &[char], &[char])>)
    ensures
        match r {
            Some((before, timing, text, rest)) => yrc_mark_of(s@) == Some(
                YrcMark { before: before@, timing: timing@, text: text@, rest: rest@ },
            ) && rest@.len() < s@.len(),
            None => yrc_mark_of(s@) is None,
        },
{
    match find_char(s, '(') {
        Some(open) => {
            let inside = skip_chars(s, open + 1);
            match find_char(inside, ')') {
                Some(close) => {
                    let after = skip_chars(inside, close + 1);
                    let next: usize = match find_char(after, '(') {
                        Some(i) => i,
                        None => after.len(),
                    };
                    Some((
                        take_chars(s, open),
                        take_chars(inside, close),
                        take_chars(after, next),
                        skip_chars(after, next),
                    ))
                },
                None => None,
            }
        },
        None => None,
    }
}

/// The text and the timed words of the part of a YRC line behind its time.
fn parse_yrc_words(s: &[char]) -> (r: (Vec<char>, Vec<LyricWord>))
    ensures
        r.0@ == yrc_plain_of(s@),
        word_views(r.1@) == yrc_words_of(s@),
{
    let mut plain: Vec<char> = Vec::new();
    let mut words: Vec<LyricWord> = Vec::new();
    let mut rest = s;
    proof {
        assert(plain@ + yrc_plain_of(s@) =~= yrc_plain_of(s@));
        assert(word_views(words@) + yrc_words_of(s@) =~= yrc_words_of(s@));
    }
    loop
        invariant
            plain@ + yrc_plain_of(rest@) == yrc_plain_of(s@),
            word_views(words@) + yrc_words_of(rest@) == yrc_words_of(s@),
        ensures
            plain@ + rest@ == yrc_plain_of(s@),
            word_views(words@) == yrc_words_of(s@),
        decreases rest@.len(),
    {
        match take_yrc_mark(rest) {
            Some((before, timing, text, next)) => {
                let ghost held = plain@;
                append_chars(&mut plain, before);
                append_chars(&mut plain, text);
                proof {
                    assert(held + (before@ + text@ + yrc_plain_of(next@)) =~= plain@ + yrc_plain_of(next@));
                }
                let ghost held_words = words@;
                let ghost mark = yrc_mark_of(rest@)->0;
                match parse_yrc_range(timing) {
                    Some((start, length)) => {
                        if text.len() > 0 {
                            let word = LyricWord {
                                start: Duration::from_millis(start),
                                end: Duration::from_millis(start.saturating_add(length)),
                                text: string_of(text),
                            };
                            words.push(word);
                            proof {
                                assert(word_views(words@) =~= word_views(held_words) + yrc_word_of(mark));
                            }
                        }
                    },
                    None => {},
                }
                proof {
                    assert(word_views(words@) =~= word_views(held_words) + yrc_word_of(mark));
                    assert(word_views(held_words) + (yrc_word_of(mark) + yrc_words_of(next@))
                        =~= word_views(words@) + yrc_words_of(next@));
                }
                rest = next;
            },
            None => {
                proof {
                    assert(word_views(words@) + seq![] =~= word_views(words@));
                }
                break;
            },
        }
    }
    append_chars(&mut plain, rest);
    (plain, words)
}

/// The inside of the bracket at the start of a text, and what follows it.
fn take_bracket(s: &[char]) -> (r: Option<(&[char], &[char])>)
    ensures
        match r {
            Some((inside, rest)) => s@.len() > 0 && s@[0] == '[' && first_of(s@.drop_first(), ']') < s@.len() - 1
                && inside@ == s@.drop_first().take(first_of(s@.drop_first(), ']')) && rest@ == s@.drop_first().skip(
                first_of(s@.drop_first(), ']') + 1,
            ),
            None => s@.len() == 0 || s@[0] != '[' || first_of(s@.drop_first(), ']') == s@.len() - 1,
        },
{
    if s.len() == 0 || s[0] != '[' {
        return None;
    }
    let inner = skip_chars(s, 1);
    proof {
        assert(inner@ =~= s@.drop_first());
        lemma_first_of(inner@, ']');
    }
    split_once(inner, ']')
}

/// Appends the lyric line of one line of YRC text, if it is one.
fn parse_yrc_line(out: &mut Vec<LyricLine>, line: &[char])
    ensures
        line_views(final(out)@) == line_views(old(out)@) + yrc_line_of(line@),
{
    let ghost before = line_views(out@);
    proof {
        assert(before + seq![] =~= before);
    }
    let t = trim(line);
    proof {
        if t@.len() > 0 {
            lemma_first_of(t@.drop_first(), ']');
        }
    }
    if let Some((line_time, rest)) = take_bracket(t) {
        if let Some((start, length)) = parse_yrc_range(line_time) {
            let (plain, words) = parse_yrc_words(rest);
            let text = string_of(trim(plain.as_slice()));
            if !text.as_str().is_empty() {
                let item = LyricLine {
                    start: Duration::from_millis(start),
                    end: Some(Duration::from_millis(start.saturating_add(length))),
                    text,
                    words,
                };
                let ghost held = out@;
                out.push(item);
                proof {
                    assert(line_views(out@) =~= line_views(held) + seq![item@]);
                }
            }
        }
    }
}

/// The lyric lines of a YRC text.
pub fn parse_yrc(input: &str) -> (r: Vec<LyricLine>)
    ensures
        line_views(r@) == yrc_of(input@),
{
    let chars = chars_of(input);
    let rows = lines(chars.as_slice());
    let mut out: Vec<LyricLine> = Vec::new();
    let mut i: usize = 0;
    proof {
        assert(line_views(out@) =~= seq![]);
    }
    while i < rows.len()
        invariant
            i <= rows@.len(),
            line_views(out@) == yrc_lines_of(slices(rows@).take(i as int)),
        decreases rows@.len() - i,
    {
        parse_yrc_line(&mut out, rows[i]);
        proof {
            assert(slices(rows@).take(i + 1).drop_last() =~= slices(rows@).take(i as int));
            assert(slices(rows@).take(i + 1).last() == rows@[i as int]@);
        }
        i += 1;
    }
    proof {
        assert(slices(rows@).take(i as int) =~= slices(rows@));
    }
    out
}

/// Sorts lines by their start; lines with the same start keep their order.
fn sort_lines(input: Vec<LyricLine>) -> (r: Vec<LyricLine>)
    ensures
        line_views(r@) == sorted_by(line_views(input@), line_start()),
{
    let ghost all = line_views(input@);
    let mut out: Vec<LyricLine> = Vec::new();
    proof {
        assert(line_views(out@) =~= all.take(0));
    }
    for item in it: input
        invariant
            it.seq() == input@,
            all == line_views(input@),
            line_views(out@) == sorted_by(all.take(it.index() as int), line_start()),
    {
        let ghost views = line_views(out@);
        let mut p: usize = out.len();
        while p > 0 && out[p - 1].start.nanos > item.start.nanos
            invariant
                p <= out@.len(),
                views == line_views(out@),
                forall|i: int| p <= i < views.len() ==> line_start()(#[trigger] views[i]) > line_start()(item@),
            decreases p,
        {
            p -= 1;
        }
        proof {
            lemma_insert_position(views, item@, line_start(), p as int);
            assert(line_views(out@.insert(p as int, item)) =~= views.insert(p as int, item@));
            let i = it.index() as int;
            assert(all.take(i + 1).drop_last() =~= all.take(i));
            assert(all.take(i + 1).last() == item@);
        }
        out.insert(p, item);
    }
    proof {
        assert(all.take(all.len() as int) =~= all);
    }
    out
}

pub proof fn lemma_without_repeats(s: Seq<LineView>)
    ensures
        s.len() > 0 ==> without_repeats(s).len() > 0,
        without_repeats(s).len() <= s.len(),
        is_sorted_by(s, line_start()) ==> is_sorted_by(without_repeats(s), line_start()),
        s.len() > 0 && is_sorted_by(s, line_start()) ==> without_repeats(s).last().start <= s.last().start,
        forall|i: int| 0 <= i < without_repeats(s).len() ==> s.contains(#[trigger] without_repeats(s)[i]),
        forall|i: int| 0 < i < without_repeats(s).len() ==> !same_line(
            #[trigger] without_repeats(s)[i - 1],
            without_repeats(s)[i],
        ),
    decreases s.len(),
{
    let key = line_start();
    if s.len() > 1 {
        let t = s.drop_last();
        lemma_without_repeats(t);
        let kept = without_repeats(t);
        let r = without_repeats(s);
        assert forall|i: int| 0 <= i < r.len() implies s.contains(#[trigger] r[i]) by {
            if i < kept.len() {
                assert(t.contains(kept[i]));
                let j = choose|j: int| 0 <= j < t.len() && t[j] == kept[i];
                assert(s[j] == r[i]);
            } else {
                assert(s[s.len() - 1] == r[i]);
            }
        }
        if is_sorted_by(s, key) {
            assert forall|i: int, j: int| 0 <= i <= j < t.len() implies key(#[trigger] t[i]) <= key(#[trigger] t[j]) by {
                assert(t[i] == s[i] && t[j] == s[j]);
            }
            assert(key(s[s.len() - 2]) <= key(s[s.len() - 1]));
            assert forall|i: int, j: int| 0 <= i <= j < r.len() implies key(#[trigger] r[i]) <= key(#[trigger] r[j]) by {
                if j == kept.len() && i < j {
                    assert(key(kept[i]) <= key(kept[kept.len() - 1]));
                }
            }
        }
    } else if s.len() == 1 {
        assert(s.contains(s[0]));
    }
}

/// The lines in order of time, without repeats and with their ends.
pub fn finish_lines(input: Vec<LyricLine>) -> (r: Vec<LyricLine>)
    ensures
        line_views(r@) == finished(line_views(input@)),
{
    let sorted = sort_lines(input);
    let ghost all = line_views(sorted@);
    let mut out: Vec<LyricLine> = Vec::new();
    proof {
        assert(line_views(out@) =~= all.take(0));
    }
    for item in it: sorted
        invariant
            it.seq() == sorted@,
            all == line_views(sorted@),
            line_views(out@) == without_repeats(all.take(it.index() as int)),
    {
        let ghost i = it.index() as int;
        proof {
            assert(all.take(i + 1).drop_last() =~= all.take(i));
            assert(all.take(i + 1).last() == item@);
            lemma_without_repeats(all.take(i));
        }
        let n: usize = out.len();
        let repeated: bool = n > 0 && out[n - 1].start.nanos == item.start.nanos && same_text(
            out[n - 1].text.as_str(),
            item.text.as_str(),
        );
        let ghost held = out@;
        if !repeated {
            out.push(item);
            proof {
                assert(line_views(out@) =~= line_views(held).push(item@));
                if i == 0 {
                    assert(all.take(1) =~= seq![item@]);
                    assert(line_views(out@) =~= seq![item@]);
                }
            }
        }
        proof {
            if held.len() > 0 {
                assert(line_views(held).last() == held.last()@);
            }
        }
    }
    proof {
        assert(all.take(all.len() as int) =~= all);
    }
    let ghost base = line_views(out@);
    let mut i: usize = 0;
    while out.len() > 1 && i < out.len() - 1
        invariant
            i <= out@.len(),
            out@.len() == base.len(),
            forall|j: int| 0 <= j < i ==> #[trigger] out@[j]@ == with_ends(base)[j],
            forall|j: int| i <= j < out@.len() ==> #[trigger] out@[j]@ == base[j],
            i > 0 ==> i + 1 <= out@.len(),
        decreases out@.len() - i,
    {
        let next: Duration = out[i + 1].start;
        if out[i].end.is_none() {
            let ghost held = out@;
            proof {
                assert(held[i + 1]@ == base[i + 1]);
                assert(held[i as int]@ == base[i as int]);
            }
            let line = &mut out[i];
            line.end = Some(next);
            proof {
                assert(out@[i as int]@ == with_ends(base)[i as int]);
                assert forall|j: int| 0 <= j < out@.len() && j != i implies #[trigger] out@[j] == held[j] by {}
            }
        } else {
            proof {
                assert(out@[i as int]@ == base[i as int]);
            }
        }
        i += 1;
    }
    proof {
        assert(line_views(out@) =~= with_ends(base)) by {
            assert forall|j: int| 0 <= j < out@.len() implies line_views(out@)[j] == with_ends(base)[j] by {
                if j < i {
                    assert(out@[j]@ == with_ends(base)[j]);
                } else {
                    assert(out@[j]@ == base[j]);
                }
            }
        }
    }
    out
}

fn copy_words(words: &Vec<LyricWord>) -> (r: Vec<LyricWord>)
    ensures
        word_views(r@) == word_views(words@),
{
    let mut out: Vec<LyricWord> = Vec::new();
    let mut i: usize = 0;
    while i < words.len()
        invariant
            i <= words@.len(),
            word_views(out@) == word_views(words@).take(i as int),
        decreases words@.len() - i,
    {
        let ghost held = out@;
        let word = LyricWord { start: words[i].start, end: words[i].end, text: words[i].text.clone() };
        out.push(word);
        proof {
            assert(word_views(out@) =~= word_views(held).push(word@));
            assert(word_views(words@).take(i + 1) =~= word_views(words@).take(i as int).push(word@));
        }
        i += 1;
    }
    proof {
        assert(word_views(words@).take(i as int) =~= word_views(words@));
    }
    out
}

fn copy_line(line: &LyricLine) -> (r: LyricLine)
    ensures
        r@ == line@,
{
    LyricLine { start: line.start, end: line.end, text: line.text.clone(), words: copy_words(&line.words) }
}

/// Splits lines with the same time into originals and translations.
fn split_bilingual_lrc(input: &str) -> (r: Lyrics)
    ensures
        r@ == bilingual_of(input@),
{
    let ordered = sort_lines(parse_lrc(input));
    let ghost all = line_views(ordered@);
    let mut original: Vec<LyricLine> = Vec::new();
    let mut translated: Vec<LyricLine> = Vec::new();
    let mut i: usize = 0;
    proof {
        assert(line_views(original@) + pair_originals(all, 0) =~= pair_originals(all, 0));
        assert(line_views(translated@) + pair_translations(all, 0) =~= pair_translations(all, 0));
    }
    while i < ordered.len()
        invariant
            i <= ordered@.len(),
            all == line_views(ordered@),
            line_views(original@) + pair_originals(all, i as int) == pair_originals(all, 0),
            line_views(translated@) + pair_translations(all, i as int) == pair_translations(all, 0),
        decreases ordered@.len() - i,
    {
        let current = copy_line(&ordered[i]);
        let paired: bool = i < ordered.len() - 1 && ordered[i + 1].start.abs_diff(current.start).nanos <= PAIRING_NANOS
            && !same_text(ordered[i + 1].text.as_str(), current.text.as_str());
        let ghost held = original@;
        let ghost held_translated = translated@;
        original.push(current);
        proof {
            assert(all[i as int] == current@);
            if i + 1 < all.len() {
                assert(all[i + 1] == ordered@[i + 1]@);
            }
            assert(paired == is_pair(all, i as int));
            assert(line_views(original@) =~= line_views(held).push(current@));
        }
        if paired {
            let next = copy_line(&ordered[i + 1]);
            translated.push(next);
            proof {
                assert(line_views(translated@) =~= line_views(held_translated).push(next@));
                assert(line_views(held) + (seq![current@] + pair_originals(all, i + 2)) =~= line_views(original@)
                    + pair_originals(all, i + 2));
                assert(line_views(held_translated) + (seq![next@] + pair_translations(all, i + 2)) =~= line_views(
                    translated@,
                ) + pair_translations(all, i + 2));
            }
            i += 2;
        } else {
            proof {
                assert(line_views(held) + (seq![current@] + pair_originals(all, i + 1)) =~= line_views(original@)
                    + pair_originals(all, i + 1));
            }
            i += 1;
        }
    }
    proof {
        assert(line_views(original@) + seq![] =~= line_views(original@));
        assert(line_views(translated@) + seq![] =~= line_views(translated@));
    }
    Lyrics { original: finish_lines(original), translated: finish_lines(translated) }
}

/// How many lines at the start of a list have started.
fn started_count(list: &Vec<LyricLine>, position: Duration) -> (r: usize)
    ensures
        r == started(line_views(list@), position@),
        r <= list@.len(),
{
    let ghost all = line_views(list@);
    let mut i: usize = 0;
    proof {
        assert(all.skip(0) =~= all);
    }
    while i < list.len() && list[i].start.nanos <= position.nanos
        invariant
            i <= list@.len(),
            all == line_views(list@),
            started(all, position@) == i + started(all.skip(i as int), position@),
        decreases list@.len() - i,
    {
        proof {
            assert(all.skip(i as int).drop_first() =~= all.skip(i + 1));
            assert(all.skip(i as int)[0] == list@[i as int]@);
        }
        i += 1;
    }
    proof {
        if i < list@.len() {
            assert(all.skip(i as int)[0] == list@[i as int]@);
        }
    }
    i
}

impl Default for Lyrics {
    fn default() -> (r: Lyrics)
        ensures
            r@.original == Seq::<LineView>::empty(),
            r@.translated == Seq::<LineView>::empty(),
    {
        let r = Lyrics { original: Vec::new(), translated: Vec::new() };
        proof {
            assert(r@.original =~= Seq::empty());
            assert(r@.translated =~= Seq::empty());
        }
        r
    }
}

impl Lyrics {
    /// Lyrics with word timing where that can be had, else with line timing.
    pub fn from_sources(lrc: Option<&str>, translated: Option<&str>, yrc: Option<&str>) -> (r: Lyrics)
        ensures
            r@ == sources_of(str_option(lrc), str_option(translated), str_option(yrc)),
    {
        let by_word: Vec<LyricLine> = match yrc {
            Some(text) => parse_yrc(text),
            None => Vec::new(),
        };
        let other: Vec<LyricLine> = match translated {
            Some(text) => parse_lrc(text),
            None => Vec::new(),
        };
        proof {
            if yrc is None {
                assert(line_views(by_word@) =~= seq![]);
            }
            if translated is None {
                assert(line_views(other@) =~= seq![]);
            }
        }
        let original: Vec<LyricLine> = if by_word.len() > 0 {
            by_word
        } else {
            match lrc {
                Some(text) => parse_lrc(text),
                None => {
                    let none: Vec<LyricLine> = Vec::new();
                    proof {
                        assert(line_views(none@) =~= seq![]);
                    }
                    none
                },
            }
        };
        Lyrics { original: finish_lines(original), translated: finish_lines(other) }
    }

    /// Lyrics from a file beside a track, with its translation or bilingual.
    pub fn from_local_document(original: &str, translated: Option<&str>) -> (r: Lyrics)
        ensures
            r@ == local_document_of(original@, str_option(translated)),
    {
        if let Some(text) = translated {
            if !trimmed(text).as_str().is_empty() {
                return Lyrics::from_sources(Some(original), Some(text), None);
            }
        }
        split_bilingual_lrc(original)
    }

    /// The lyrics of a document that was read, if it was read and holds any line.
    pub fn from_document(original: Option<&str>, translated: Option<&str>) -> (r: Option<Lyrics>)
        ensures
            match r {
                Some(lyrics) => original is Some && lyrics@ == local_document_of(original->0@, str_option(translated))
                    && lyrics@.original.len() > 0,
                None => original is None || local_document_of(original->0@, str_option(translated)).original.len() == 0,
            },
    {
        match original {
            Some(text) => {
                let lyrics = Lyrics::from_local_document(text, translated);
                if lyrics.is_empty() {
                    None
                } else {
                    Some(lyrics)
                }
            },
            None => None,
        }
    }

    pub fn is_empty(&self) -> (r: bool)
        ensures
            r == (self@.original.len() == 0),
    {
        self.original.len() == 0
    }

    /// The line that is sung at `position`: the last of those that have started.
    pub fn current_index(&self, position: Duration) -> (r: Option<usize>)
        ensures
            match r {
                Some(i) => i + 1 == started(self@.original, position@),
                None => started(self@.original, position@) == 0,
            },
    {
        let point: usize = started_count(&self.original, position);
        if point > 0 {
            Some(point - 1)
        } else {
            None
        }
    }

    /// The translation of the line that starts at `start`.
    pub fn translation_at(&self, start: Duration) -> (r: Option<&str>)
        ensures
            match r {
                Some(text) => nearest_line(self@.translated, start@) is Some && text@ == self@.translated[nearest_line(
                    self@.translated,
                    start@,
                )->0].text,
                None => nearest_line(self@.translated, start@) is None,
            },
    {
        let point: usize = started_count(&self.translated, start);
        let ghost all = self@.translated;
        let before: Option<u128> = if point > 0 {
            let gap: u128 = self.translated[point - 1].start.abs_diff(start).nanos;
            proof {
                assert(all[point - 1] == self.translated@[point - 1]@);
            }
            if gap <= PAIRING_NANOS {
                Some(gap)
            } else {
                None
            }
        } else {
            None
        };
        let after: Option<u128> = if point < self.translated.len() {
            let gap: u128 = self.translated[point].start.abs_diff(start).nanos;
            proof {
                assert(all[point as int] == self.translated@[point as int]@);
            }
            if gap <= PAIRING_NANOS {
                Some(gap)
            } else {
                None
            }
        } else {
            None
        };
        match (before, after) {
            (Some(a), Some(b)) => if a <= b {
                Some(self.translated[point - 1].text.as_str())
            } else {
                Some(self.translated[point].text.as_str())
            },
            (Some(_), None) => Some(self.translated[point - 1].text.as_str()),
            (None, Some(_)) => Some(self.translated[point].text.as_str()),
            (None, None) => None,
        }
    }
}

// Files beside a track.

/// The lyrics in the tags of a file: those without times if it has any, else
/// the others, without white space around them, unless nothing is left.
pub open spec fn embedded_of(untimed: Option<Seq<char>>, other: Option<Seq<char>>) -> Option<Seq<char>> {
    let found = if untimed is Some {
        untimed
    } else {
        other
    };
    match found {
        Some(text) => if trim_of(text).len() > 0 {
            Some(trim_of(text))
        } else {
            None
        },
        None => None,
    }
}

/// The lyrics in the tags of a file.
pub fn embedded_lyrics(untimed: Option<&str>, other: Option<&str>) -> (r: Option<String>)
    ensures
        text_option(r) == embedded_of(str_option(untimed), str_option(other)),
{
    let found = if untimed.is_some() {
        untimed
    } else {
        other
    };
    match found {
        Some(text) => {
            let kept = trimmed(text);
            if kept.as_str().is_empty() {
                None
            } else {
                Some(kept)
            }
        },
        None => None,
    }
}

/// The endings of the names of files that may hold a track's lyrics.
pub open spec fn sidecar_suffixes() -> Seq<Seq<char>> {
    seq![".lrc"@, ".LRC"@, ".tlyric.lrc"@, ".tlyric"@, ".trans.lrc"@, ".zh.lrc"@, ".cn.lrc"@]
}

/// The names, in the order in which they are tried, of the files that may hold
/// the lyrics of a track whose file name without its extension is `stem`.
pub fn sidecar_candidates(stem: &str) -> (r: Vec<String>)
    ensures
        texts(r@) == sidecar_suffixes().map_values(|suffix: Seq<char>| stem@ + suffix),
{
    let mut out: Vec<String> = Vec::new();
    out.push(stem.to_owned().concat(".lrc"));
    out.push(stem.to_owned().concat(".LRC"));
    out.push(stem.to_owned().concat(".tlyric.lrc"));
    out.push(stem.to_owned().concat(".tlyric"));
    out.push(stem.to_owned().concat(".trans.lrc"));
    out.push(stem.to_owned().concat(".zh.lrc"));
    out.push(stem.to_owned().concat(".cn.lrc"));
    proof {
        assert(texts(out@) =~= sidecar_suffixes().map_values(|suffix: Seq<char>| stem@ + suffix));
    }
    out
}

pub open spec fn is_translation_name(name: Seq<char>) -> bool {
    let lower = ascii_lower_of(name);
    ||| find_of(lower, ".tlyric"@) >= 0
    ||| find_of(lower, ".trans."@) >= 0
    ||| ".zh.lrc"@.is_suffix_of(lower)
    ||| ".cn.lrc"@.is_suffix_of(lower)
}

/// Whether a file name is that of a translation.
pub fn is_translation_sidecar(name: &str) -> (r: bool)
    ensures
        r == is_translation_name(name@),
{
    let chars = chars_of(name);
    let lower = to_ascii_lower(chars.as_slice());
    find_text(lower.as_slice(), chars_of(".tlyric").as_slice()).is_some() || find_text(
        lower.as_slice(),
        chars_of(".trans.").as_slice(),
    ).is_some() || ends_with(lower.as_slice(), chars_of(".zh.lrc").as_slice()) || ends_with(
        lower.as_slice(),
        chars_of(".cn.lrc").as_slice(),
    )
}

/// The lyrics and the translation found among the files beside a track.
pub struct SidecarPair {
    pub original: Option<String>,
    pub translated: Option<String>,
}

impl SidecarPair {
    pub fn new() -> (r: SidecarPair)
        ensures
            r.original is None,
            r.translated is None,
    {
        SidecarPair { original: None, translated: None }
    }

    /// Takes the text of the file `name`, unless it is blank or one of its kind
    /// has been taken already.
    pub fn offer(&mut self, name: &str, text: String)
        ensures
            final(self).original == if trim_of(text@).len() > 0 && !is_translation_name(name@) && old(
                self,
            ).original is None {
                Some(text)
            } else {
                old(self).original
            },
            final(self).translated == if trim_of(text@).len() > 0 && is_translation_name(name@) && old(
                self,
            ).translated is None {
                Some(text)
            } else {
                old(self).translated
            },
    {
        if trimmed(text.as_str()).as_str().is_empty() {
            return;
        }
        if is_translation_sidecar(name) {
            if self.translated.is_none() {
                self.translated = Some(text);
            }
        } else if self.original.is_none() {
            self.original = Some(text);
        }
    }
}

// Laws.

// What an offset line does.

/// A line of LRC text that sets the offset.
pub open spec fn offset_line(offset: i64) -> Seq<char> {
    "[offset:"@ + signed_decimal(offset as int) + "]"@
}

/// A lyric line moved by an offset in milliseconds.
pub open spec fn shifted_line(line: LineView, offset: int) -> LineView {
    LineView { start: shifted(line.start, offset), ..line }
}

/// Whether no line of a text sets the offset.
pub open spec fn has_no_offset(lines: Seq<Seq<char>>) -> bool {
    forall|i: int| 0 <= i < lines.len() ==> offset_tag_of(#[trigger] lines[i]) is None
}

proof fn lemma_signed_decimal(n: i64)
    ensures
        parse_i64_of(signed_decimal(n as int)) == Some(n as int),
        signed_decimal(n as int).len() > 0,
        forall|i: int|
            0 <= i < signed_decimal(n as int).len() ==> {
                let c = #[trigger] signed_decimal(n as int)[i];
                is_digit(c) || c == '-'
            },
{
    let s = signed_decimal(n as int);
    reveal_strlit("-");
    if n < 0 {
        let digits = decimal((-n) as nat);
        lemma_decimal_reads_back((-n) as nat);
        assert(s.drop_first() =~= digits);
        assert forall|i: int| 0 <= i < s.len() implies is_digit(#[trigger] s[i]) || s[i] == '-' by {
            if i > 0 {
                assert(s[i] == digits[i - 1]);
            }
        }
    } else {
        lemma_decimal_reads_back(n as nat);
        assert(is_digit(s[0]));
    }
}

proof fn lemma_offset_line(n: i64)
    ensures
        offset_tag_of(offset_line(n)) == Some(n as int),
        !offset_line(n).contains('\n'),
        offset_line(n).len() > 0,
        offset_line(n).last() == ']',
        forall|offset: int| #[trigger] lrc_line_of(offset_line(n), offset) == Seq::<LineView>::empty(),
{
    let line = offset_line(n);
    let number = signed_decimal(n as int);
    lemma_signed_decimal(n);
    reveal_strlit("[offset:");
    reveal_strlit("]");
    let after = line.drop_first();
    let inside = after.drop_last();
    assert forall|i: int| 8 <= i < line.len() - 1 implies #[trigger] line[i] == number[i - 8] by {}
    assert(trim_of(line) == line);
    assert(number =~= line.skip(8).drop_last());
    assert(trim_of(number) == number);
    assert(line.subrange(0, 8) =~= "[offset:"@);
    assert forall|i: int| 0 <= i < line.len() implies line[i] != '\n' && (i == line.len() - 1 || line[i] != ']') by {
        if 8 <= i < line.len() - 1 {
            assert(line[i] == number[i - 8]);
        }
    }
    lemma_first_of_is(after, ']', after.len() - 1);
    assert(after.take(after.len() - 1) =~= inside);
    lemma_first_of_is(inside, ':', 6);
    let word = inside.take(6);
    assert(word[0] == 'o' && word[5] == 't');
    assert(trim_of(word) == word);
    assert(!is_digit(word[0]));
    assert(without_plus(word) == word);
    assert(lrc_time_of(inside) is None);
    assert(leading_time_of(line) is None);
    assert forall|offset: int| #[trigger] lrc_line_of(line, offset) == Seq::<LineView>::empty() by {
        assert(lrc_line_of(line, offset) =~= Seq::<LineView>::empty());
    }
}

proof fn lemma_lrc_head(head: Seq<char>, rest: Seq<Seq<char>>, offset: int)
    ensures
        lrc_lines_of(seq![head] + rest, offset) == lrc_line_of(head, offset) + lrc_lines_of(rest, offset),
    decreases rest.len(),
{
    let all = seq![head] + rest;
    if rest.len() == 0 {
        assert(all.drop_last() =~= Seq::empty());
        assert(lrc_lines_of(Seq::empty(), offset) =~= Seq::empty());
        assert(lrc_lines_of(all, offset) =~= lrc_line_of(head, offset) + lrc_lines_of(rest, offset));
    } else {
        assert(all.drop_last() =~= seq![head] + rest.drop_last());
        lemma_lrc_head(head, rest.drop_last(), offset);
        assert(lrc_lines_of(all, offset) =~= lrc_line_of(head, offset) + lrc_lines_of(rest, offset));
    }
}

proof fn lemma_offset_head(head: Seq<char>, rest: Seq<Seq<char>>)
    requires
        has_no_offset(rest),
    ensures
        offset_of(rest) == 0,
        offset_of(seq![head] + rest) == match offset_tag_of(head) {
            Some(value) => value,
            None => 0,
        },
    decreases rest.len(),
{
    let all = seq![head] + rest;
    if rest.len() == 0 {
        assert(all.drop_last() =~= Seq::empty());
        assert(all.last() == head);
        assert(offset_of(all.drop_last()) == 0);
    } else {
        assert(all.last() == rest[rest.len() - 1]);
        assert(offset_tag_of(rest[rest.len() - 1]) is None);
        assert(all.drop_last() =~= seq![head] + rest.drop_last());
        assert forall|i: int| 0 <= i < rest.len() - 1 implies offset_tag_of(#[trigger] rest.drop_last()[i]) is None by {
            assert(rest.drop_last()[i] == rest[i]);
        }
        lemma_offset_head(head, rest.drop_last());
    }
}

proof fn lemma_trim_without_return(s: Seq<char>)
    ensures
        trim_of(strip_return(s)) == trim_of(s),
    decreases s.len(),
{
    if s.len() > 0 && s.last() == '\r' {
        let t = s.drop_last();
        if is_white(s[0]) {
            if s.len() > 1 {
                lemma_trim_without_return(s.drop_first());
                assert(s.drop_first().drop_last() =~= t.drop_first());
            } else {
                assert(t =~= Seq::empty());
                assert(s.drop_first() =~= Seq::empty());
            }
        } else {
            assert(t[0] == s[0]);
        }
    }
}

/// A line behind a text adds its own lyric lines to those of the text.
proof fn lemma_line_behind(body: Seq<char>, last: Seq<char>, offset: int)
    requires
        last.len() > 0,
        !last.contains('\n'),
    ensures
        lines_of(body + seq!['\n'] + last).len() > 0,
        lines_of(body + seq!['\n'] + last).last() == last,
        lrc_lines_of(lines_of(body + seq!['\n'] + last), offset) == lrc_lines_of(lines_of(body), offset) + lrc_line_of(
            last,
            offset,
        ),
    decreases body.len(),
{
    let whole = body + seq!['\n'] + last;
    lemma_first_of(body, '\n');
    let i = first_of(body, '\n');
    lemma_first_of_is(whole, '\n', i);
    assert(whole.take(i) =~= body.take(i));
    let first = strip_return(whole.take(i));
    let rest = lines_of(whole.skip(i + 1));
    assert(lines_of(whole) == seq![first] + rest);
    lemma_lrc_head(first, rest, offset);
    if i < body.len() {
        let tail = body.skip(i + 1);
        assert(whole.skip(i + 1) =~= tail + seq!['\n'] + last);
        lemma_line_behind(tail, last, offset);
        assert(lines_of(body) == seq![first] + lines_of(tail));
        lemma_lrc_head(first, lines_of(tail), offset);
        assert(lines_of(whole).last() == rest.last());
        assert(lrc_lines_of(lines_of(whole), offset) =~= lrc_lines_of(lines_of(body), offset) + lrc_line_of(
            last,
            offset,
        ));
    } else {
        assert(whole.skip(i + 1) =~= last);
        lemma_first_of(last, '\n');
        assert(rest == seq![last]);
        assert(body.take(i) =~= body);
        lemma_lrc_head(last, seq![], offset);
        assert(seq![last] + Seq::<Seq<char>>::empty() =~= seq![last]);
        lemma_trim_without_return(body);
        assert(lrc_line_of(first, offset) == lrc_line_of(body, offset));
        lemma_lrc_head(body, seq![], offset);
        assert(seq![body] + Seq::<Seq<char>>::empty() =~= seq![body]);
        assert(lrc_lines_of(seq![], offset) =~= Seq::empty());
        if body.len() == 0 {
            assert(trim_of(body) =~= Seq::empty());
            assert(lrc_line_of(body, offset) =~= Seq::empty());
        }
        assert(lines_of(whole).last() == last);
        assert(lrc_lines_of(lines_of(whole), offset) =~= lrc_lines_of(lines_of(body), offset) + lrc_line_of(
            last,
            offset,
        ));
    }
}

proof fn lemma_leading_times(s: Seq<char>)
    ensures
        forall|i: int| 0 <= i < leading_times_of(s).len() ==> #[trigger] leading_times_of(s)[i] <= MAX_NANOS,
    decreases s.len(),
{
    match leading_time_of(s) {
        Some((time, rest)) => {
            if rest.len() < s.len() {
                lemma_leading_times(rest);
                assert forall|i: int| 0 <= i < leading_times_of(s).len() implies #[trigger] leading_times_of(s)[i]
                    <= MAX_NANOS by {
                    if i > 0 {
                        assert(leading_times_of(s)[i] == leading_times_of(rest)[i - 1]);
                    }
                }
            }
        },
        None => {},
    }
}

/// Every lyric line of an LRC text has words to show, trimmed, and neither an
/// end nor timed words.
pub proof fn lemma_lrc_lines(lines: Seq<Seq<char>>, offset: int)
    ensures
        forall|i: int|
            0 <= i < lrc_lines_of(lines, offset).len() ==> {
                let line = #[trigger] lrc_lines_of(lines, offset)[i];
                &&& line.end is None
                &&& line.words.len() == 0
                &&& line.text.len() > 0
                &&& trim_of(line.text) == line.text
            },
        lrc_lines_of(lines, offset) == lrc_lines_of(lines, 0).map_values(|line: LineView| shifted_line(line, offset)),
    decreases lines.len(),
{
    let shift = |line: LineView| shifted_line(line, offset);
    let all = lrc_lines_of(lines, offset);
    let plain = lrc_lines_of(lines, 0);
    if lines.len() == 0 {
        assert(all =~= plain.map_values(shift));
    } else {
        let before = lrc_lines_of(lines.drop_last(), offset);
        let last = lrc_line_of(lines.last(), offset);
        let last_plain = lrc_line_of(lines.last(), 0);
        let t = trim_of(lines.last());
        lemma_lrc_lines(lines.drop_last(), offset);
        lemma_leading_times(t);
        lemma_trim_idempotent(behind_times_of(t));
        assert forall|i: int| 0 <= i < all.len() implies {
            let line = #[trigger] all[i];
            &&& line.end is None
            &&& line.words.len() == 0
            &&& line.text.len() > 0
            &&& trim_of(line.text) == line.text
        } by {
            if i < before.len() {
                assert(all[i] == before[i]);
            } else {
                assert(all[i] == last[i - before.len()]);
            }
        }
        assert forall|i: int| 0 <= i < last.len() implies #[trigger] last[i] == shifted_line(last_plain[i], offset) by {
            assert(leading_times_of(t)[i] <= MAX_NANOS);
        }
        assert(last =~= last_plain.map_values(shift));
        assert(all =~= plain.map_values(shift));
    }
}

/// An offset line, before or behind a text without one, moves the start of
/// every lyric line by its offset, down to zero at most, and changes nothing else.
pub proof fn lemma_offset_shifts(body: Seq<char>, offset: i64)
    requires
        has_no_offset(lines_of(body)),
    ensures
        lrc_of(offset_line(offset) + "\n"@ + body) == lrc_of(body).map_values(
            |line: LineView| shifted_line(line, offset as int),
        ),
        lrc_of(body + "\n"@ + offset_line(offset)) == lrc_of(body).map_values(
            |line: LineView| shifted_line(line, offset as int),
        ),
{
    let tag = offset_line(offset);
    let n = offset as int;
    let rows = lines_of(body);
    reveal_strlit("\n");
    assert("\n"@ =~= seq!['\n']);
    lemma_offset_line(offset);
    lemma_offset_head(tag, rows);
    lemma_lrc_lines(rows, n);
    let first = tag + seq!['\n'] + body;
    assert forall|i: int| 0 <= i < tag.len() implies tag[i] != '\n' by {
        assert(tag.contains(tag[i]));
    }
    lemma_first_of_is(first, '\n', tag.len() as int);
    assert(first.take(tag.len() as int) =~= tag);
    assert(first.skip(tag.len() as int + 1) =~= body);
    assert(lines_of(first) == seq![tag] + rows);
    lemma_lrc_head(tag, rows, n);
    assert(lrc_line_of(tag, n) == Seq::<LineView>::empty());
    assert(Seq::<LineView>::empty() + lrc_lines_of(rows, n) =~= lrc_lines_of(rows, n));
    lemma_line_behind(body, tag, n);
    assert(lrc_lines_of(rows, n) + Seq::<LineView>::empty() =~= lrc_lines_of(rows, n));
}

/// Finished lines are in order of time, no line repeats the one before it, and
/// every line but the last has an end.
pub proof fn lemma_finished(s: Seq<LineView>)
    ensures
        is_sorted_by(finished(s), line_start()),
        forall|i: int| 0 <= i < finished(s).len() - 1 ==> (#[trigger] finished(s)[i]).end is Some,
        forall|i: int| 0 <= i < finished(s).len() - 1 ==> !same_line(#[trigger] finished(s)[i], finished(s)[i + 1]),
        s.len() > 0 ==> finished(s).len() > 0,
        finished(s).len() <= s.len(),
{
    let key = line_start();
    let sorted = sorted_by(s, key);
    lemma_sorted_by(s, key);
    lemma_without_repeats(sorted);
    let kept = without_repeats(sorted);
    let r = finished(s);
    assert forall|i: int, j: int| 0 <= i <= j < r.len() implies key(#[trigger] r[i]) <= key(#[trigger] r[j]) by {
        assert(r[i].start == kept[i].start && r[j].start == kept[j].start);
        assert(key(kept[i]) <= key(kept[j]));
    }
    assert forall|i: int| 0 <= i < r.len() - 1 implies !same_line(#[trigger] r[i], r[i + 1]) by {
        assert(!same_line(kept[i + 1 - 1], kept[i + 1]));
    }
}

/// Lines that are finished stay as they are when they are finished again.
pub proof fn lemma_finished_idempotent(s: Seq<LineView>)
    ensures
        finished(finished(s)) == finished(s),
{
    let r = finished(s);
    lemma_finished(s);
    lemma_sorted_by_fixed(r, line_start());
    lemma_no_repeats_fixed(r);
    assert(with_ends(r) =~= r);
}

proof fn lemma_no_repeats_fixed(s: Seq<LineView>)
    requires
        forall|i: int| 0 <= i < s.len() - 1 ==> !same_line(#[trigger] s[i], s[i + 1]),
    ensures
        without_repeats(s) == s,
    decreases s.len(),
{
    if s.len() > 1 {
        let t = s.drop_last();
        assert forall|i: int| 0 <= i < t.len() - 1 implies !same_line(#[trigger] t[i], t[i + 1]) by {
            assert(t[i] == s[i] && t[i + 1] == s[i + 1]);
        }
        lemma_no_repeats_fixed(t);
        assert(!same_line(s[s.len() - 2], s[s.len() - 2 + 1]));
        assert(s =~= t.push(s.last()));
    }
}

/// Lyrics from any source are in order of time, in the original and in the translation.
pub proof fn lemma_sources_sorted(lrc: Option<Seq<char>>, translated: Option<Seq<char>>, yrc: Option<Seq<char>>)
    ensures
        is_sorted_by(sources_of(lrc, translated, yrc).original, line_start()),
        is_sorted_by(sources_of(lrc, translated, yrc).translated, line_start()),
{
    let by_word = match yrc {
        Some(text) => yrc_of(text),
        None => seq![],
    };
    let by_line = match lrc {
        Some(text) => lrc_of(text),
        None => seq![],
    };
    let other = match translated {
        Some(text) => lrc_of(text),
        None => seq![],
    };
    lemma_finished(if by_word.len() > 0 { by_word } else { by_line });
    lemma_finished(other);
}

/// Lyrics from a local document are in order of time.
pub proof fn lemma_local_document_sorted(original: Seq<char>, translated: Option<Seq<char>>)
    ensures
        is_sorted_by(local_document_of(original, translated).original, line_start()),
        is_sorted_by(local_document_of(original, translated).translated, line_start()),
{
    lemma_sources_sorted(Some(original), translated, None);
    let ordered = sorted_by(lrc_of(original), line_start());
    lemma_finished(pair_originals(ordered, 0));
    lemma_finished(pair_translations(ordered, 0));
}

/// Where the lines are in order of time, the current line is the latest that has
/// started: everything up to it has started, and nothing behind it has.
pub proof fn lemma_current_is_latest(s: Seq<LineView>, position: nat)
    requires
        is_sorted_by(s, line_start()),
    ensures
        0 <= started(s, position) <= s.len(),
        forall|i: int| 0 <= i < s.len() ==> ((#[trigger] s[i]).start <= position <==> i < started(s, position)),
    decreases s.len(),
{
    let key = line_start();
    if s.len() > 0 {
        let t = s.drop_first();
        assert forall|i: int, j: int| 0 <= i <= j < t.len() implies key(#[trigger] t[i]) <= key(#[trigger] t[j]) by {
            assert(t[i] == s[i + 1] && t[j] == s[j + 1]);
        }
        lemma_current_is_latest(t, position);
        assert forall|i: int| 0 <= i < s.len() implies ((#[trigger] s[i]).start <= position <==> i < started(
            s,
            position,
        )) by {
            assert(key(s[0]) <= key(s[i]));
            if i > 0 {
                assert(s[i] == t[i - 1]);
            }
        }
    }
}

/// As playback goes on, the current line never goes back.
pub proof fn lemma_current_monotone(s: Seq<LineView>, earlier: nat, later: nat)
    requires
        earlier <= later,
    ensures
        started(s, earlier) <= started(s, later),
    decreases s.len(),
{
    if s.len() > 0 && s[0].start <= later {
        lemma_current_monotone(s.drop_first(), earlier, later);
        lemma_started_nonneg(s.drop_first(), later);
    } else {
        lemma_started_nonneg(s, later);
    }
}

proof fn lemma_started_nonneg(s: Seq<LineView>, position: nat)
    ensures
        0 <= started(s, position) <= s.len(),
    decreases s.len(),
{
    if s.len() > 0 {
        lemma_started_nonneg(s.drop_first(), position);
    }
}

/// A translation that is shown starts within the pairing distance of its line,
/// and where the translations are in order none starts nearer.
pub proof fn lemma_translation_nearest(s: Seq<LineView>, start: nat)
    requires
        is_sorted_by(s, line_start()),
    ensures
        match nearest_line(s, start) {
            Some(i) => 0 <= i < s.len() && distance(s[i].start, start) <= PAIRING_NANOS && forall|j: int|
                0 <= j < s.len() ==> distance(s[i].start, start) <= distance((#[trigger] s[j]).start, start),
            None => forall|j: int| 0 <= j < s.len() ==> distance((#[trigger] s[j]).start, start) > PAIRING_NANOS,
        },
{
    let key = line_start();
    lemma_current_is_latest(s, start);
    let p = started(s, start);
    assert forall|j: int| 0 <= j < s.len() implies (j < p ==> distance(s[p - 1].start, start) <= distance(
        (#[trigger] s[j]).start,
        start,
    )) && (j >= p ==> distance(s[p].start, start) <= distance(s[j].start, start)) by {
        if j < p {
            assert(key(s[j]) <= key(s[p - 1]));
            assert(s[p - 1].start <= start);
        } else {
            assert(key(s[p]) <= key(s[j]));
            assert(s[p].start > start);
        }
    }
}

// Laws of timed text.

proof fn lemma_decimal_is_plain(n: nat)
    ensures
        trim_of(decimal(n)) == decimal(n),
        n <= u64::MAX ==> parse_unsigned_of(decimal(n), u64::MAX as nat) == Some(n),
        forall|c: char| !is_digit(c) ==> !(#[trigger] decimal(n).contains(c)),
{
    let s = decimal(n);
    lemma_decimal_reads_back(n);
    assert(is_digit(s[0]) && is_digit(s[s.len() - 1]));
    assert(without_plus(s) == s);
    assert forall|c: char| !is_digit(c) implies !(#[trigger] s.contains(c)) by {
        if s.contains(c) {
            let i = choose|i: int| 0 <= i < s.len() && s[i] == c;
            assert(is_digit(s[i]));
        }
    }
}

/// The first of a character in a text of two parts, of which the first does not
/// hold it and the second starts with it.
proof fn lemma_first_behind(a: Seq<char>, c: char, b: Seq<char>)
    requires
        !a.contains(c),
    ensures
        first_of(a + seq![c] + b, c) == a.len(),
        (a + seq![c] + b).take(a.len() as int) == a,
        (a + seq![c] + b).skip(a.len() as int + 1) == b,
        split_once_of(a + seq![c] + b, c) == Some((a, b)),
{
    let whole = a + seq![c] + b;
    assert forall|i: int| 0 <= i < a.len() implies whole[i] != c by {
        assert(whole[i] == a[i]);
        assert(a.contains(a[i]));
    }
    assert(whole[a.len() as int] == c);
    lemma_first_of_is(whole, c, a.len() as int);
    assert(whole.take(a.len() as int) =~= a);
    assert(whole.skip(a.len() as int + 1) =~= b);
}

/// A word with its start and its length in milliseconds, as it is written.
pub open spec fn written_word(start: u64, length: u64, text: Seq<char>) -> Seq<char> {
    "("@ + decimal(start as nat) + ","@ + decimal(length as nat) + ",0)"@ + text
}

/// Words with their starts and lengths, one behind the other.
pub open spec fn written_words(words: Seq<(u64, u64, Seq<char>)>) -> Seq<char>
    decreases words.len(),
{
    if words.len() == 0 {
        seq![]
    } else {
        written_word(words[0].0, words[0].1, words[0].2) + written_words(words.drop_first())
    }
}

/// The texts of words, one behind the other.
pub open spec fn words_text(words: Seq<(u64, u64, Seq<char>)>) -> Seq<char>
    decreases words.len(),
{
    if words.len() == 0 {
        seq![]
    } else {
        words[0].2 + words_text(words.drop_first())
    }
}

pub open spec fn are_plain_words(words: Seq<(u64, u64, Seq<char>)>) -> bool {
    forall|i: int| 0 <= i < words.len() ==> (#[trigger] words[i]).2.len() > 0 && !words[i].2.contains('(')
}

proof fn lemma_first_written_word(words: Seq<(u64, u64, Seq<char>)>)
    requires
        words.len() > 0,
        are_plain_words(words),
    ensures
        ({
            let (start, length, text) = words[0];
            let s = written_words(words);
            &&& yrc_mark_of(s) is Some
            &&& yrc_mark_of(s)->0.before.len() == 0
            &&& yrc_mark_of(s)->0.text == text
            &&& yrc_mark_of(s)->0.rest == written_words(words.drop_first())
            &&& yrc_range_of(yrc_mark_of(s)->0.timing) == Some((start as nat, length as nat))
            &&& yrc_mark_of(s)->0.rest.len() < s.len()
        }),
{
    let (start, length, text) = words[0];
    let rest = written_words(words.drop_first());
    let s = written_words(words);
    let a = decimal(start as nat);
    let b = decimal(length as nat);
    reveal_strlit("(");
    reveal_strlit(",");
    reveal_strlit(",0)");
    lemma_decimal_is_plain(start as nat);
    lemma_decimal_is_plain(length as nat);
    let timing = a + seq![','] + b + seq![',', '0'];
    let after = text + rest;
    let inside = timing + seq![')'] + after;
    assert(s =~= seq!['('] + inside);
    lemma_first_of_is(s, '(', 0);
    assert(s.take(0).len() == 0);
    assert(s.skip(1) =~= inside);
    assert(!timing.contains(')')) by {
        if timing.contains(')') {
            let i = choose|i: int| 0 <= i < timing.len() && timing[i] == ')';
            if i < a.len() {
                assert(a[i] == ')');
                assert(a.contains(')'));
            } else if i > a.len() && i < a.len() + 1 + b.len() {
                assert(b[i - a.len() - 1] == ')');
                assert(b.contains(')'));
            }
        }
    }
    lemma_first_behind(timing, ')', after);
    assert forall|i: int| 0 <= i < text.len() implies after[i] != '(' by {
        assert(after[i] == text[i]);
        assert(text.contains(text[i]));
    }
    if words.len() > 1 {
        assert(rest[0] == '(') by {
            let next = words.drop_first()[0];
            assert(written_word(next.0, next.1, next.2)[0] == '(');
        }
        assert(after[text.len() as int] == '(');
    } else {
        assert(rest =~= Seq::<char>::empty());
    }
    lemma_first_of_is(after, '(', text.len() as int);
    assert(after.take(text.len() as int) =~= text);
    assert(after.skip(text.len() as int) =~= rest);
    let second = b + seq![','] + seq!['0'];
    assert(timing =~= a + seq![','] + second);
    lemma_first_behind(a, ',', second);
    lemma_first_behind(b, ',', seq!['0']);
}

/// Words that are written with their starts and lengths are read as they were
/// written: each starts at its start and lasts its length, so it never ends
/// before it starts, and nothing but the words is left of the text.
pub proof fn lemma_words_read_back(words: Seq<(u64, u64, Seq<char>)>)
    requires
        are_plain_words(words),
    ensures
        yrc_words_of(written_words(words)).len() == words.len(),
        forall|i: int|
            0 <= i < words.len() ==> {
                let word = #[trigger] yrc_words_of(written_words(words))[i];
                &&& word.start == words[i].0 * 1_000_000
                &&& words[i].0 + words[i].1 <= u64::MAX ==> word.end == word.start + words[i].1 * 1_000_000
                &&& word.start <= word.end
                &&& word.text == words[i].2
            },
        yrc_plain_of(written_words(words)) == words_text(words),
    decreases words.len(),
{
    let s = written_words(words);
    if words.len() == 0 {
        lemma_first_of(s, '(');
        assert(yrc_mark_of(s) is None);
    } else {
        let rest = words.drop_first();
        lemma_first_written_word(words);
        assert(are_plain_words(rest)) by {
            assert forall|i: int| 0 <= i < rest.len() implies (#[trigger] rest[i]).2.len() > 0 && !rest[i].2.contains(
                '(',
            ) by {
                assert(rest[i] == words[i + 1]);
            }
        }
        lemma_words_read_back(rest);
        let mark = yrc_mark_of(s)->0;
        assert(yrc_word_of(mark).len() == 1);
        assert(yrc_words_of(s) == yrc_word_of(mark) + yrc_words_of(written_words(rest)));
        assert forall|i: int| 0 <= i < words.len() implies {
            let word = #[trigger] yrc_words_of(s)[i];
            &&& word.start == words[i].0 * 1_000_000
            &&& words[i].0 + words[i].1 <= u64::MAX ==> word.end == word.start + words[i].1 * 1_000_000
            &&& word.start <= word.end
            &&& word.text == words[i].2
        } by {
            if i > 0 {
                assert(yrc_words_of(s)[i] == yrc_words_of(written_words(rest))[i - 1]);
                assert(words[i] == rest[i - 1]);
            } else {
                assert(yrc_words_of(s)[0] == yrc_word_of(mark)[0]);
            }
        }
        assert(mark.before + mark.text + yrc_plain_of(mark.rest) =~= words[0].2 + words_text(rest));
    }
}

proof fn lemma_trim_keeps_words(s: Seq<char>)
    requires
        s.len() > 0,
        !is_white(s.last()),
    ensures
        trim_of(s).len() > 0,
        !is_white(s[0]) ==> trim_of(s) == s,
{
    lemma_trim_start(s);
    let t = trim_start_of(s);
    if t.len() == 0 {
        assert(is_white(s[s.len() - 1]));
    }
    assert(t.last() == s.last());
}

proof fn lemma_words_end(words: Seq<(u64, u64, Seq<char>)>)
    requires
        words.len() > 0,
        are_plain_words(words),
    ensures
        written_words(words).len() > 0,
        words_text(words).len() > 0,
        written_words(words).last() == words.last().2.last(),
        words_text(words).last() == words.last().2.last(),
    decreases words.len(),
{
    let rest = words.drop_first();
    reveal_strlit("(");
    if rest.len() > 0 {
        assert(are_plain_words(rest)) by {
            assert forall|i: int| 0 <= i < rest.len() implies (#[trigger] rest[i]).2.len() > 0 && !rest[i].2.contains(
                '(',
            ) by {
                assert(rest[i] == words[i + 1]);
            }
        }
        lemma_words_end(rest);
        assert(rest.last() == words.last());
    } else {
        assert(words.last() == words[0]);
        assert(written_words(rest) =~= Seq::<char>::empty());
        assert(words_text(rest) =~= Seq::<char>::empty());
        assert(written_words(words) =~= written_word(words[0].0, words[0].1, words[0].2));
        assert(words_text(words) =~= words[0].2);
    }
}

/// A line that is written with its start, its length and its words is read as
/// one line that starts there, lasts that long, holds those words and shows
/// their texts.
pub proof fn lemma_line_reads_back(start: u64, length: u64, words: Seq<(u64, u64, Seq<char>)>)
    requires
        words.len() > 0,
        are_plain_words(words),
        !is_white(words.last().2.last()),
        start + length <= u64::MAX,
    ensures
        ({
            let line = "["@ + decimal(start as nat) + ","@ + decimal(length as nat) + "]"@ + written_words(words);
            let read = yrc_line_of(line);
            &&& read.len() == 1
            &&& read[0].start == start * 1_000_000
            &&& read[0].end == Some((start + length) as nat * 1_000_000)
            &&& read[0].text == trim_of(words_text(words))
            &&& read[0].words == yrc_words_of(written_words(words))
        }),
{
    let a = decimal(start as nat);
    let b = decimal(length as nat);
    let rest = written_words(words);
    let line = "["@ + a + ","@ + b + "]"@ + rest;
    reveal_strlit("[");
    reveal_strlit(",");
    reveal_strlit("]");
    lemma_decimal_is_plain(start as nat);
    lemma_decimal_is_plain(length as nat);
    lemma_words_end(words);
    lemma_words_read_back(words);
    assert(line.last() == rest.last());
    assert(line[0] == '[');
    lemma_trim_keeps_words(line);
    lemma_trim_keeps_words(words_text(words));
    let timing = a + seq![','] + b;
    let inside = timing + seq![']'] + rest;
    assert(line.drop_first() =~= inside);
    assert(!timing.contains(']')) by {
        if timing.contains(']') {
            let i = choose|i: int| 0 <= i < timing.len() && timing[i] == ']';
            if i < a.len() {
                assert(a[i] == ']');
                assert(a.contains(']'));
            } else if i > a.len() {
                assert(b[i - a.len() - 1] == ']');
                assert(b.contains(']'));
            }
        }
    }
    lemma_first_behind(timing, ']', rest);
    lemma_first_behind(a, ',', b);
    lemma_first_of(b, ',');
    assert(first_of(b, ',') == b.len()) by {
        if first_of(b, ',') < b.len() {
            assert(b.contains(','));
        }
    }
    assert(b.take(b.len() as int) =~= b);
}

/// A moment as it is written before a line: minutes, seconds and milliseconds.
pub open spec fn written_time(minutes: u64, seconds: u64, millis: u64) -> Seq<char> {
    "["@ + decimal(minutes as nat) + ":"@ + decimal(seconds as nat) + "."@ + seq![
        digit_char(millis as nat / 100),
        digit_char(millis as nat / 10 % 10),
        digit_char(millis as nat % 10),
    ] + "]"@
}

pub open spec fn moment_of(minutes: u64, seconds: u64, millis: u64) -> nat {
    (minutes as nat * 60 + seconds as nat) * 1_000_000_000 + millis as nat * 1_000_000
}

proof fn lemma_digits_push(s: Seq<char>, c: char)
    ensures
        digits_value(s.push(c)) == digits_value(s) * 10 + digit_of(c),
{
    assert(s.push(c).drop_last() =~= s);
}

proof fn lemma_nanos_of_millis(whole: Seq<char>, x: char, y: char, z: char)
    ensures
        ({
            let digits = whole + seq![x, y, z];
            &&& digits_value(digits) == digits_value(whole) * 1_000 + digit_of(x) * 100 + digit_of(y) * 10 + digit_of(z)
            &&& nanos_of_digits(digits, whole.len() as int) == digits_value(digits) * 1_000_000
        }),
{
    let digits = whole + seq![x, y, z];
    let n = (whole.len() + 9) as nat;
    assert(digits =~= whole.push(x).push(y).push(z));
    lemma_digits_push(whole, x);
    lemma_digits_push(whole.push(x), y);
    lemma_digits_push(whole.push(x).push(y), z);
    let a = digits.push('0');
    let b = a.push('0');
    let c = b.push('0');
    let d = c.push('0');
    let e = d.push('0');
    let f = e.push('0');
    lemma_digits_push(digits, '0');
    lemma_digits_push(a, '0');
    lemma_digits_push(b, '0');
    lemma_digits_push(c, '0');
    lemma_digits_push(d, '0');
    lemma_digits_push(e, '0');
    assert(digit_of('0') == 0);
    assert(padded_digits(digits, n) =~= f);
    assert(padded_digit(digits, n as int) == '0');
}

proof fn lemma_number_with_fraction(whole: Seq<char>, fraction: Seq<char>)
    requires
        whole.len() > 0,
        all_digits(whole),
        all_digits(fraction),
    ensures
        number_of(whole + seq!['.'] + fraction) == Some(
            Number::Finite { negative: false, digits: whole + fraction, point: whole.len() as int },
        ),
        forall|i: int|
            0 <= i < whole.len() + 1 + fraction.len() ==> is_digit(#[trigger] (whole + seq!['.'] + fraction)[i]) || (
            whole + seq!['.'] + fraction)[i] == '.',
{
    let text = whole + seq!['.'] + fraction;
    let digits = whole + fraction;
    reveal_strlit("inf");
    reveal_strlit("infinity");
    reveal_strlit("nan");
    assert forall|i: int| 0 <= i < text.len() implies is_digit(#[trigger] text[i]) || text[i] == '.' by {
        if i < whole.len() {
            assert(text[i] == whole[i]);
        } else if i > whole.len() {
            assert(text[i] == fraction[i - whole.len() - 1]);
        }
    }
    assert(!whole.contains('.')) by {
        if whole.contains('.') {
            let i = choose|i: int| 0 <= i < whole.len() && whole[i] == '.';
            assert(is_digit(whole[i]));
        }
    }
    lemma_first_behind(whole, '.', fraction);
    lemma_first_of(text, 'e');
    lemma_first_of(text, 'E');
    assert(first_of(text, 'e') == text.len());
    assert(first_of(text, 'E') == text.len());
    assert(text.take(text.len() as int) =~= text);
    assert(is_digit(whole[0]));
    assert(text[0] == whole[0]);
    assert(ascii_lower_of(text)[0] == text[0]);
    assert forall|i: int| 0 <= i < digits.len() implies is_digit(#[trigger] digits[i]) by {
        if i < whole.len() {
            assert(digits[i] == whole[i]);
        } else {
            assert(digits[i] == fraction[i - whole.len()]);
        }
    }
}

proof fn lemma_seconds_of_digits(whole: Seq<char>, x: char, y: char, z: char)
    requires
        whole.len() > 0,
        all_digits(whole),
        is_digit(x),
        is_digit(y),
        is_digit(z),
    ensures
        ({
            let text = whole + "."@ + seq![x, y, z];
            &&& seconds_of(text) == Some(
                (digits_value(whole) * 1_000_000_000 + (digit_of(x) * 100 + digit_of(y) * 10 + digit_of(z))
                    * 1_000_000) as nat,
            )
            &&& trim_of(text) == text
            &&& !text.contains(']')
        }),
{
    let fraction = seq![x, y, z];
    let text = whole + "."@ + fraction;
    reveal_strlit(".");
    assert(text =~= whole + seq!['.'] + fraction);
    lemma_number_with_fraction(whole, fraction);
    lemma_nanos_of_millis(whole, x, y, z);
    assert(is_digit(whole[0]));
    assert(text[0] == whole[0]);
    assert(text.last() == z);
    assert(trim_of(text) == text);
    if text.contains(']') {
        let i = choose|i: int| 0 <= i < text.len() && text[i] == ']';
        assert(is_digit(text[i]) || text[i] == '.');
    }
}

proof fn lemma_digit_char(d: nat)
    requires
        d < 10,
    ensures
        is_digit(digit_char(d)),
        digit_of(digit_char(d)) == d,
{
}

proof fn lemma_seconds_read_back(seconds: u64, millis: u64)
    requires
        millis < 1_000,
    ensures
        ({
            let text = decimal(seconds as nat) + "."@ + seq![
                digit_char(millis as nat / 100),
                digit_char(millis as nat / 10 % 10),
                digit_char(millis as nat % 10),
            ];
            &&& seconds_of(text) == Some(seconds as nat * 1_000_000_000 + millis as nat * 1_000_000)
            &&& trim_of(text) == text
            &&& !text.contains(']')
        }),
{
    lemma_decimal_reads_back(seconds as nat);
    lemma_digit_char(millis as nat / 100);
    lemma_digit_char(millis as nat / 10 % 10);
    lemma_digit_char(millis as nat % 10);
    lemma_seconds_of_digits(
        decimal(seconds as nat),
        digit_char(millis as nat / 100),
        digit_char(millis as nat / 10 % 10),
        digit_char(millis as nat % 10),
    );
}

proof fn lemma_time_reads_back(minutes: u64, seconds: u64, millis: u64, rest: Seq<char>)
    requires
        millis < 1_000,
        moment_of(minutes, seconds, millis) <= MAX_NANOS,
    ensures
        leading_time_of(written_time(minutes, seconds, millis) + rest) == Some(
            (moment_of(minutes, seconds, millis), rest),
        ),
        written_time(minutes, seconds, millis).len() > 0,
{
    let m = decimal(minutes as nat);
    let text = decimal(seconds as nat) + "."@ + seq![
        digit_char(millis as nat / 100),
        digit_char(millis as nat / 10 % 10),
        digit_char(millis as nat % 10),
    ];
    let s = written_time(minutes, seconds, millis) + rest;
    reveal_strlit("[");
    reveal_strlit(":");
    reveal_strlit("]");
    lemma_seconds_read_back(seconds, millis);
    lemma_decimal_is_plain(minutes as nat);
    let tag = m + seq![':'] + text;
    assert(s.drop_first() =~= tag + seq![']'] + rest);
    assert(!tag.contains(']')) by {
        if tag.contains(']') {
            let i = choose|i: int| 0 <= i < tag.len() && tag[i] == ']';
            if i < m.len() {
                assert(m[i] == ']');
                assert(m.contains(']'));
            } else if i > m.len() {
                assert(text[i - m.len() - 1] == ']');
                assert(text.contains(']'));
            }
        }
    }
    lemma_first_behind(tag, ']', rest);
    lemma_first_behind(m, ':', text);
}

/// The moments of a line as they are written before it.
pub open spec fn written_times(times: Seq<(u64, u64, u64)>) -> Seq<char>
    decreases times.len(),
{
    if times.len() == 0 {
        seq![]
    } else {
        written_time(times[0].0, times[0].1, times[0].2) + written_times(times.drop_first())
    }
}

pub open spec fn are_moments(times: Seq<(u64, u64, u64)>) -> bool {
    forall|i: int|
        0 <= i < times.len() ==> (#[trigger] times[i]).2 < 1_000 && moment_of(times[i].0, times[i].1, times[i].2)
            <= MAX_NANOS
}

proof fn lemma_times_read_back(times: Seq<(u64, u64, u64)>, text: Seq<char>)
    requires
        are_moments(times),
        text.len() > 0,
        text[0] != '[',
    ensures
        leading_times_of(written_times(times) + text).len() == times.len(),
        forall|i: int|
            0 <= i < times.len() ==> #[trigger] leading_times_of(written_times(times) + text)[i] == moment_of(
                times[i].0,
                times[i].1,
                times[i].2,
            ),
        behind_times_of(written_times(times) + text) == text,
    decreases times.len(),
{
    let s = written_times(times) + text;
    if times.len() == 0 {
        assert(s =~= text);
    } else {
        let (m, sec, ms) = times[0];
        let rest_times = times.drop_first();
        let rest = written_times(rest_times) + text;
        assert(s =~= written_time(m, sec, ms) + rest);
        lemma_time_reads_back(m, sec, ms, rest);
        assert(are_moments(rest_times)) by {
            assert forall|i: int| 0 <= i < rest_times.len() implies (#[trigger] rest_times[i]).2 < 1_000 && moment_of(
                rest_times[i].0,
                rest_times[i].1,
                rest_times[i].2,
            ) <= MAX_NANOS by {
                assert(rest_times[i] == times[i + 1]);
            }
        }
        lemma_times_read_back(rest_times, text);
        assert(leading_times_of(s) == seq![moment_of(m, sec, ms)] + leading_times_of(rest));
        assert forall|i: int| 0 <= i < times.len() implies #[trigger] leading_times_of(s)[i] == moment_of(
            times[i].0,
            times[i].1,
            times[i].2,
        ) by {
            if i > 0 {
                assert(leading_times_of(s)[i] == leading_times_of(rest)[i - 1]);
                assert(rest_times[i - 1] == times[i]);
            }
        }
    }
}

/// A line with moments before it is shown at each of them: as many lyric lines
/// come of it as it has moments, each starts at its own, later by the offset,
/// and shows the text.
pub proof fn lemma_lrc_line_reads_back(times: Seq<(u64, u64, u64)>, text: Seq<char>, offset: int)
    requires
        are_moments(times),
        times.len() > 0,
        text.len() > 0,
        text[0] != '[',
        !is_white(text.last()),
    ensures
        ({
            let read = lrc_line_of(written_times(times) + text, offset);
            &&& read.len() == times.len()
            &&& forall|i: int|
                0 <= i < times.len() ==> {
                    let moved = moment_of(times[i].0, times[i].1, times[i].2) + offset * 1_000_000;
                    &&& 0 <= moved <= MAX_NANOS ==> (#[trigger] read[i]).start == moved
                    &&& moved < 0 ==> read[i].start == 0
                    &&& read[i].text == trim_of(text)
                    &&& read[i].end is None
                    &&& read[i].words.len() == 0
                }
        }),
{
    let line = written_times(times) + text;
    reveal_strlit("[");
    assert(line.last() == text.last());
    assert(line[0] == '[') by {
        assert(written_time(times[0].0, times[0].1, times[0].2)[0] == '[');
    }
    lemma_trim_keeps_words(line);
    lemma_trim_keeps_words(text);
    lemma_times_read_back(times, text);
    let read = lrc_line_of(line, offset);
    assert forall|i: int| 0 <= i < times.len() implies {
        let moved = moment_of(times[i].0, times[i].1, times[i].2) + offset * 1_000_000;
        &&& 0 <= moved <= MAX_NANOS ==> (#[trigger] read[i]).start == moved
        &&& moved < 0 ==> read[i].start == 0
        &&& read[i].text == trim_of(text)
        &&& read[i].end is None
        &&& read[i].words.len() == 0
    } by {
        assert(leading_times_of(line)[i] == moment_of(times[i].0, times[i].1, times[i].2));
        assert(moment_of(times[i].0, times[i].1, times[i].2) <= MAX_NANOS);
    }
}

/// The lyric lines of a text are those of its lines, one after the other.
pub proof fn lemma_lrc_line_by_line(body: Seq<char>, line: Seq<char>)
    requires
        line.len() > 0,
        !line.contains('\n'),
        has_no_offset(lines_of(body)),
        offset_tag_of(line) is None,
    ensures
        lrc_of(body + seq!['\n'] + line) == lrc_of(body) + lrc_line_of(line, 0),
{
    let whole = lines_of(body + seq!['\n'] + line);
    lemma_line_behind(body, line, 0);
    lemma_offset_head(seq![], lines_of(body));
    lemma_offsets_of_body(body, line);
}

proof fn lemma_offsets_of_body(body: Seq<char>, line: Seq<char>)
    requires
        line.len() > 0,
        !line.contains('\n'),
        has_no_offset(lines_of(body)),
        offset_tag_of(line) is None,
    ensures
        offset_of(lines_of(body + seq!['\n'] + line)) == 0,
    decreases body.len(),
{
    let whole = body + seq!['\n'] + line;
    lemma_first_of(body, '\n');
    let i = first_of(body, '\n');
    lemma_first_of_is(whole, '\n', i);
    assert(whole.take(i) =~= body.take(i));
    let first = strip_return(whole.take(i));
    let rest = lines_of(whole.skip(i + 1));
    assert(lines_of(whole) == seq![first] + rest);
    assert(has_no_offset(rest) && offset_tag_of(first) is None) by {
        if i < body.len() {
            let tail = body.skip(i + 1);
            assert(whole.skip(i + 1) =~= tail + seq!['\n'] + line);
            assert(lines_of(body) == seq![first] + lines_of(tail));
            assert(offset_tag_of(lines_of(body)[0]) is None);
            assert(has_no_offset(lines_of(tail))) by {
                assert forall|k: int| 0 <= k < lines_of(tail).len() implies offset_tag_of(
                    #[trigger] lines_of(tail)[k],
                ) is None by {
                    assert(lines_of(body)[k + 1] == lines_of(tail)[k]);
                }
            }
            lemma_lines_without_offset(tail, line);
        } else {
            assert(whole.skip(i + 1) =~= line);
            lemma_first_of(line, '\n');
            assert(rest == seq![line]);
            assert(body.take(i) =~= body);
            lemma_trim_without_return(body);
            if body.len() > 0 {
                assert(lines_of(body) == seq![body]);
                assert(offset_tag_of(lines_of(body)[0]) is None);
            } else {
                reveal_strlit("[offset:");
                assert(trim_of(body) =~= Seq::empty());
            }
        }
    }
    lemma_offset_head(first, rest);
}

proof fn lemma_lines_without_offset(body: Seq<char>, line: Seq<char>)
    requires
        line.len() > 0,
        !line.contains('\n'),
        has_no_offset(lines_of(body)),
        offset_tag_of(line) is None,
    ensures
        has_no_offset(lines_of(body + seq!['\n'] + line)),
    decreases body.len(),
{
    let whole = body + seq!['\n'] + line;
    lemma_first_of(body, '\n');
    let i = first_of(body, '\n');
    lemma_first_of_is(whole, '\n', i);
    assert(whole.take(i) =~= body.take(i));
    let first = strip_return(whole.take(i));
    let rest = lines_of(whole.skip(i + 1));
    assert(lines_of(whole) == seq![first] + rest);
    if i < body.len() {
        let tail = body.skip(i + 1);
        assert(whole.skip(i + 1) =~= tail + seq!['\n'] + line);
        assert(lines_of(body) == seq![first] + lines_of(tail));
        assert(offset_tag_of(lines_of(body)[0]) is None);
        assert forall|k: int| 0 <= k < lines_of(tail).len() implies offset_tag_of(#[trigger] lines_of(tail)[k]) is None by {
            assert(lines_of(body)[k + 1] == lines_of(tail)[k]);
        }
        lemma_lines_without_offset(tail, line);
    } else {
        assert(whole.skip(i + 1) =~= line);
        lemma_first_of(line, '\n');
        assert(rest == seq![line]);
        assert(body.take(i) =~= body);
        lemma_trim_without_return(body);
        if body.len() > 0 {
            assert(lines_of(body) == seq![body]);
            assert(offset_tag_of(lines_of(body)[0]) is None);
        } else {
            reveal_strlit("[offset:");
            assert(trim_of(body) =~= Seq::empty());
        }
    }
    assert forall|k: int| 0 <= k < lines_of(whole).len() implies offset_tag_of(#[trigger] lines_of(whole)[k]) is None by {
        if k > 0 {
            assert(lines_of(whole)[k] == rest[k - 1]);
        }
    }
}

/// A time moved by an offset is later by exactly so many milliseconds, or
/// earlier where the offset is negative, but not before the start.
pub proof fn lemma_shifted(time: nat, offset: int)
    ensures
        0 <= time + offset * 1_000_000 <= MAX_NANOS ==> shifted(time, offset) == time + offset * 1_000_000,
        time + offset * 1_000_000 < 0 ==> shifted(time, offset) == 0,
        offset >= 0 && time + offset * 1_000_000 > MAX_NANOS ==> shifted(time, offset) == MAX_NANOS,
{
}

/// Lines without an end last until the next one starts, and the last one has no
/// end; lines with an end keep it. Starts, texts and words are those of the lines.
pub proof fn lemma_lines_last_until_next(s: Seq<LineView>)
    ensures
        with_ends(s).len() == s.len(),
        forall|i: int|
            0 <= i < s.len() ==> {
                let line = #[trigger] with_ends(s)[i];
                &&& line.start == s[i].start && line.text == s[i].text && line.words == s[i].words
                &&& s[i].end is Some ==> line.end == s[i].end
                &&& s[i].end is None && i + 1 < s.len() ==> line.end == Some(s[i + 1].start)
                &&& s[i].end is None && i + 1 == s.len() ==> line.end is None
            },
{
}

/// A line is dropped only where it starts with the one kept before it and says
/// the same.
pub proof fn lemma_only_repeats_go(s: Seq<LineView>, line: LineView)
    requires
        s.len() > 0,
    ensures
        without_repeats(s.push(line)) == if without_repeats(s).last().start == line.start && without_repeats(
            s,
        ).last().text == line.text {
            without_repeats(s)
        } else {
            without_repeats(s).push(line)
        },
{
    assert(s.push(line).drop_last() =~= s);
}

/// Lyrics that are timed by word are preferred to those that are timed by line,
/// unless they hold no line; the translation is that of the translated text.
pub proof fn lemma_sources_chosen(lrc: Seq<char>, translated: Seq<char>, yrc: Seq<char>)
    ensures
        yrc_of(yrc).len() > 0 ==> sources_of(Some(lrc), Some(translated), Some(yrc)).original == finished(yrc_of(yrc)),
        yrc_of(yrc).len() == 0 ==> sources_of(Some(lrc), Some(translated), Some(yrc)).original == finished(lrc_of(lrc)),
        sources_of(Some(lrc), Some(translated), None).original == finished(lrc_of(lrc)),
        sources_of(Some(lrc), Some(translated), Some(yrc)).translated == finished(lrc_of(translated)),
        sources_of(Some(lrc), None, Some(yrc)).translated.len() == 0,
        sources_of(None, None, None).original.len() == 0,
{
    lemma_finished(seq![]);
}

/// In a text with translations, a line that starts within 80 ms of the one
/// before it and says something else is that one's translation; every other
/// line is an original. No line is lost and none is added.
pub proof fn lemma_pairs(s: Seq<LineView>, i: int)
    requires
        0 <= i <= s.len(),
    ensures
        pair_originals(s, i).len() + pair_translations(s, i).len() == s.len() - i,
        i + 1 < s.len() && s[i].start <= s[i + 1].start <= s[i].start + 80_000_000 && s[i].text != s[i + 1].text
            ==> pair_originals(s, i) == seq![s[i]] + pair_originals(s, i + 2) && pair_translations(s, i)
            == seq![s[i + 1]] + pair_translations(s, i + 2),
        i + 1 < s.len() && (s[i + 1].start > s[i].start + 80_000_000 || s[i].text == s[i + 1].text)
            ==> pair_originals(s, i) == seq![s[i]] + pair_originals(s, i + 1) && pair_translations(s, i)
            == pair_translations(s, i + 1),
        i + 1 == s.len() ==> pair_originals(s, i) == seq![s[i]] && pair_translations(s, i).len() == 0,
    decreases s.len() - i,
{
    if i < s.len() {
        if is_pair(s, i) {
            lemma_pairs(s, i + 2);
        } else {
            lemma_pairs(s, i + 1);
        }
        if i + 1 == s.len() {
            assert(pair_originals(s, i) =~= seq![s[i]]);
        }
    }
}

/// A document without a translation of its own is split into originals and
/// translations; with one that is not blank, both texts are read as they are.
pub proof fn lemma_local_document(original: Seq<char>, translated: Seq<char>)
    ensures
        trim_of(translated).len() > 0 ==> local_document_of(original, Some(translated)) == (LyricsView {
            original: finished(lrc_of(original)),
            translated: finished(lrc_of(translated)),
        }),
        trim_of(translated).len() == 0 ==> local_document_of(original, Some(translated)) == local_document_of(
            original,
            None,
        ),
        ({
            let ordered = sorted_by(lrc_of(original), line_start());
            local_document_of(original, None) == (LyricsView {
                original: finished(pair_originals(ordered, 0)),
                translated: finished(pair_translations(ordered, 0)),
            })
        }),
{
}

/// Lyrics in tags are those without times where there are any, and never blank.
pub proof fn lemma_embedded(untimed: Option<Seq<char>>, other: Option<Seq<char>>)
    ensures
        untimed is Some && trim_of(untimed->0).len() > 0 ==> embedded_of(untimed, other) == Some(trim_of(untimed->0)),
        untimed is None && other is Some && trim_of(other->0).len() > 0 ==> embedded_of(untimed, other) == Some(
            trim_of(other->0),
        ),
        untimed is None && other is None ==> embedded_of(untimed, other) is None,
        embedded_of(untimed, other) is Some ==> embedded_of(untimed, other)->0.len() > 0,
{
}

} // verus!
