//! How wide texts are on the screen, and texts that fit a width.

use vstd::prelude::*;

use crate::text::{chars_of, decimal, decimal_text, skip_chars, string_of, take_chars, trim_of, trimmed};
use crate::tui::input::{char_position, chars_before};

verus! {

/// What `ratatui::text::Line::width` returns for a text: the cells it takes.
pub uninterp spec fn cell_width(s: Seq<char>) -> nat;

/// `ratatui::text::Line::from` and `Line::width`: the cells that a text takes,
/// which depend on the text alone. A text without characters takes none.
#[verifier::external_body]
fn line_width(value: &str) -> (r: usize)
    ensures
        r == cell_width(value@),
        value@.len() == 0 ==> r == 0,
{
    ratatui::text::Line::from(value).width()
}

/// The cells that a text takes, as far as they can be counted.
pub open spec fn width_of(s: Seq<char>) -> u16 {
    if cell_width(s) <= u16::MAX {
        cell_width(s) as u16
    } else {
        u16::MAX
    }
}

/// The cells that a text takes.
pub fn text_width(value: &str) -> (r: u16)
    ensures
        r == width_of(value@),
        value@.len() == 0 ==> r == 0,
{
    let width: usize = line_width(value);
    if width <= u16::MAX as usize {
        width as u16
    } else {
        u16::MAX
    }
}

/// The cells that a character takes by itself.
pub open spec fn char_width_of(c: char) -> u16 {
    width_of(seq![c])
}

pub fn char_width(c: char) -> (r: u16)
    ensures
        r == char_width_of(c),
{
    let mut text: String = String::new();
    text.push(c);
    proof {
        assert(text@ =~= seq![c]);
    }
    text_width(text.as_str())
}

/// The cells that the characters of a text take, each by itself.
pub open spec fn widths_sum(s: Seq<char>) -> nat
    decreases s.len(),
{
    if s.len() == 0 {
        0
    } else {
        widths_sum(s.drop_last()) + char_width_of(s.last()) as nat
    }
}

/// How many characters at the start of a text fit a width.
pub open spec fn fitting(s: Seq<char>, from: int, used: nat, width: nat) -> int
    decreases s.len() - from,
{
    if from < 0 || from >= s.len() || used + char_width_of(s[from]) > width {
        from
    } else {
        fitting(s, from + 1, used + char_width_of(s[from]) as nat, width)
    }
}

/// A text that fits a width: the text itself, or as many characters from its
/// start as fit.
pub open spec fn fitted(s: Seq<char>, width: u16) -> Seq<char> {
    if width_of(s) <= width {
        s
    } else {
        s.take(fitting(s, 0, 0, width as nat))
    }
}

pub proof fn lemma_fitting(s: Seq<char>, from: int, used: nat, width: nat)
    requires
        0 <= from <= s.len(),
        used <= width,
    ensures
        from <= fitting(s, from, used, width) <= s.len(),
        used + widths_sum(s.subrange(from, fitting(s, from, used, width))) <= width,
    decreases s.len() - from,
{
    if from < s.len() && used + char_width_of(s[from]) <= width {
        let next = used + char_width_of(s[from]) as nat;
        lemma_fitting(s, from + 1, next, width);
        let end = fitting(s, from, used, width);
        lemma_widths_first(s.subrange(from, end));
        assert(s.subrange(from, end).drop_first() =~= s.subrange(from + 1, end));
    } else {
        assert(s.subrange(from, from) =~= seq![]);
    }
}

proof fn lemma_widths_first(s: Seq<char>)
    requires
        s.len() > 0,
    ensures
        widths_sum(s) == char_width_of(s[0]) as nat + widths_sum(s.drop_first()),
    decreases s.len(),
{
    if s.len() > 1 {
        let t = s.drop_last();
        lemma_widths_first(t);
        assert(s.drop_first().drop_last() =~= t.drop_first());
    } else {
        assert(s.drop_last() =~= seq![]);
        assert(s.drop_first() =~= seq![]);
        assert(widths_sum(seq![]) == 0);
    }
}

/// Cuts a text to a width.
pub fn fit_text(value: &str, width: u16) -> (r: String)
    ensures
        r@ == fitted(value@, width),
{
    if text_width(value) <= width {
        return value.to_owned();
    }
    let chars = chars_of(value);
    let mut used: u32 = 0;
    let mut i: usize = 0;
    while i < chars.len() && used + char_width(chars[i]) as u32 <= width as u32
        invariant
            i <= chars@.len(),
            used <= width,
            fitting(chars@, 0, 0, width as nat) == fitting(chars@, i as int, used as nat, width as nat),
        decreases chars@.len() - i,
    {
        used = used + char_width(chars[i]) as u32;
        i += 1;
    }
    string_of(take_chars(chars.as_slice(), i))
}

/// A text that was cut fits its width, going by its characters, and is a part
/// of the text from its start.
pub proof fn lemma_fitted(s: Seq<char>, width: u16)
    ensures
        fitted(s, width).is_prefix_of(s),
        width_of(s) > width ==> widths_sum(fitted(s, width)) <= width,
{
    lemma_fitting(s, 0, 0, width as nat);
    let n = fitting(s, 0, 0, width as nat);
    assert(s.subrange(0, n) =~= s.take(n));
}

/// Where a tail of a text starts that fits a width: it grows from the end as
/// long as it fits.
pub open spec fn tail_start(s: Seq<char>, start: int, width: u16) -> int
    decreases start,
{
    if start <= 0 || start > s.len() || width_of(s.skip(start - 1)) > width {
        start
    } else {
        tail_start(s, start - 1, width)
    }
}

/// A text that fits a width: the text itself, or its end behind an ellipsis.
pub open spec fn truncated(s: Seq<char>, width: u16) -> Seq<char> {
    if width_of(s) <= width {
        s
    } else if width == 0 {
        Seq::empty()
    } else if width == 1 {
        "…"@
    } else {
        "…"@ + s.skip(tail_start(s, s.len() as int, (width - 1) as u16))
    }
}

/// Cuts a text to a width from its start, so that its end is kept.
pub fn truncate_to_width(value: &str, width: u16) -> (r: String)
    ensures
        r@ == truncated(value@, width),
{
    if text_width(value) <= width {
        return value.to_owned();
    }
    if width == 0 {
        return String::new();
    }
    if width == 1 {
        return "…".to_owned();
    }
    let chars = chars_of(value);
    let mut start: usize = chars.len();
    while start > 0 && text_width(string_of(skip_chars(chars.as_slice(), start - 1)).as_str()) <= width - 1
        invariant
            start <= chars@.len(),
            width > 1,
            tail_start(chars@, chars@.len() as int, (width - 1) as u16) == tail_start(
                chars@,
                start as int,
                (width - 1) as u16,
            ),
        decreases start,
    {
        start -= 1;
    }
    let mut out: String = "…".to_owned();
    out.append(string_of(skip_chars(chars.as_slice(), start)).as_str());
    out
}

proof fn lemma_tail_start(s: Seq<char>, start: int, width: u16)
    requires
        0 <= start <= s.len(),
        width_of(s.skip(start)) <= width,
    ensures
        0 <= tail_start(s, start, width) <= start,
        width_of(s.skip(tail_start(s, start, width))) <= width,
    decreases start,
{
    if start > 0 && width_of(s.skip(start - 1)) <= width {
        lemma_tail_start(s, start - 1, width);
    }
}

/// What is kept of a text behind an ellipsis is its end, and leaves a cell for
/// the ellipsis.
pub proof fn lemma_truncated(s: Seq<char>, width: u16)
    requires
        width > 1,
        width_of(s) > width,
        width_of(Seq::empty()) == 0,
    ensures
        exists|start: int|
            0 <= start <= s.len() && truncated(s, width) == "…"@ + #[trigger] s.skip(start) && width_of(s.skip(start))
                <= width - 1,
{
    let n = s.len() as int;
    assert(s.skip(n) =~= Seq::empty());
    lemma_tail_start(s, n, (width - 1) as u16);
    let start = tail_start(s, n, (width - 1) as u16);
    assert(truncated(s, width) == "…"@ + s.skip(start));
}

/// A text with an ellipsis in place of what is beyond a number of characters.
pub open spec fn shortened(s: Seq<char>, max: nat) -> Seq<char> {
    if s.len() <= max {
        s
    } else {
        s.take(if max >= 1 { max - 1 } else { 0 }) + "…"@
    }
}

/// Cuts a text to a number of characters.
pub fn shorten(value: &str, max: usize) -> (r: String)
    ensures
        r@ == shortened(value@, max as nat),
{
    let chars = chars_of(value);
    if chars.len() <= max {
        return value.to_owned();
    }
    let visible: usize = if max >= 1 {
        max - 1
    } else {
        0
    };
    let mut out: String = string_of(take_chars(chars.as_slice(), visible));
    out.append("…");
    out
}

/// The title of a list with the position of the selection in it.
pub open spec fn position_title(title: Seq<char>, selected: nat, total: nat) -> Seq<char> {
    if total == 0 {
        " "@ + trim_of(title) + " "@
    } else {
        " "@ + trim_of(title) + " · "@ + decimal(if selected < total { selected + 1 } else { total }) + "/"@ + decimal(
            total,
        ) + " "@
    }
}

/// The title of a list with the position of the selection in it.
pub fn title_with_position(title: &str, selected: usize, total: usize) -> (r: String)
    ensures
        r@ == position_title(title@, selected as nat, total as nat),
{
    let mut out: String = " ".to_owned();
    out.append(trimmed(title).as_str());
    if total == 0 {
        out.append(" ");
        return out;
    }
    let position: usize = if selected < total {
        selected + 1
    } else {
        total
    };
    out.append(" · ");
    out.append(decimal_text(position as u64).as_str());
    out.append("/");
    out.append(decimal_text(total as u64).as_str());
    out.append(" ");
    out
}

// A line with what is being typed.

/// Where the visible part of an input starts: it grows from the cursor to the
/// left as long as it fits.
pub open spec fn input_start(input: Seq<char>, cursor: int, start: int, available: u16) -> int
    decreases start,
{
    if start <= 0 || start > input.len() || width_of(input.subrange(start - 1, cursor)) > available {
        start
    } else {
        input_start(input, cursor, start - 1, available)
    }
}

/// Where the visible part of an input ends: it grows from the cursor to the
/// right as long as it fits.
pub open spec fn input_end(input: Seq<char>, start: int, end: int, available: u16) -> int
    decreases input.len() - end,
{
    if end < 0 || end >= input.len() || width_of(input.subrange(start, end + 1)) > available {
        end
    } else {
        input_end(input, start, end + 1, available)
    }
}

/// The line with what is being typed, and the column of its cursor.
pub open spec fn input_line(prefix: Seq<char>, input: Seq<char>, cursor: nat, width: u16) -> (Seq<char>, int) {
    let head = fitted(prefix, width);
    let used = width_of(head);
    let available = if width >= used + 1 { (width - used - 1) as u16 } else { 0 };
    let at = chars_before(input, cursor);
    let start = input_start(input, at, at, available);
    let end = input_end(input, start, at, available);
    (head + input.subrange(start, end), used + width_of(input.subrange(start, at)))
}

fn part_of(chars: &[char], start: usize, end: usize) -> (r: String)
    requires
        start <= end <= chars@.len(),
    ensures
        r@ == chars@.subrange(start as int, end as int),
{
    string_of(vstd::slice::slice_subrange(chars, start, end))
}

/// The line with what is being typed, as much of it around the cursor as fits,
/// and the column of the cursor, whose position is counted in bytes.
pub fn input_footer(prefix: &str, input: &str, cursor: usize, width: u16) -> (r: (String, u16))
    ensures
        (r.0@, r.1 as int) == input_line(prefix@, input@, cursor as nat, width),
{
    let mut out: String = fit_text(prefix, width);
    let used: u16 = text_width(out.as_str());
    let available: u16 = width.saturating_sub(used).saturating_sub(1);
    let chars = chars_of(input);
    let at: usize = char_position(chars.as_slice(), cursor);
    let mut start: usize = at;
    let mut shown: u16 = text_width(part_of(chars.as_slice(), at, at).as_str());
    proof {
        assert(chars@.subrange(at as int, at as int).len() == 0);
    }
    while start > 0 && text_width(part_of(chars.as_slice(), start - 1, at).as_str()) <= available
        invariant
            start <= at <= chars@.len(),
            shown == width_of(chars@.subrange(start as int, at as int)),
            shown <= available,
            input_start(chars@, at as int, at as int, available) == input_start(
                chars@,
                at as int,
                start as int,
                available,
            ),
        decreases start,
    {
        shown = text_width(part_of(chars.as_slice(), start - 1, at).as_str());
        start -= 1;
    }
    let mut end: usize = at;
    while end < chars.len() && text_width(part_of(chars.as_slice(), start, end + 1).as_str()) <= available
        invariant
            start <= at <= end <= chars@.len(),
            input_end(chars@, start as int, at as int, available) == input_end(
                chars@,
                start as int,
                end as int,
                available,
            ),
        decreases chars@.len() - end,
    {
        end += 1;
    }
    out.append(part_of(chars.as_slice(), start, end).as_str());
    (out, used + shown)
}

/// A text that is cut to a number of characters is no longer than that; it
/// starts as it did, and only one that was too long ends in an ellipsis.
pub proof fn lemma_shortened(s: Seq<char>, max: nat)
    requires
        max >= 1,
    ensures
        shortened(s, max).len() <= max,
        s.len() <= max ==> shortened(s, max) == s,
        s.len() > max ==> shortened(s, max).len() == max && shortened(s, max).last() == '…',
        forall|i: int| 0 <= i < max - 1 && i < s.len() ==> #[trigger] shortened(s, max)[i] == s[i],
{
    reveal_strlit("…");
}

/// The position in the title of a list counts from one, and the last row is
/// the number of rows.
pub proof fn lemma_position_shown(title: Seq<char>, selected: nat, total: nat)
    ensures
        selected < total ==> position_title(title, selected, total) == " "@ + trim_of(title) + " · "@ + decimal(
            selected + 1,
        ) + "/"@ + decimal(total) + " "@,
        total > 0 && selected >= total ==> position_title(title, selected, total) == position_title(
            title,
            (total - 1) as nat,
            total,
        ),
        position_title(title, selected, 0) == " "@ + trim_of(title) + " "@,
{
}

} // verus!
