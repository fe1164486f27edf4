//! Lyrics on the screen: how much of a line was sung, the rows that a line
//! takes, and which rows are shown.

use vstd::prelude::*;

use crate::lyrics::{nearest_line, started, word_views, LineView, LyricLine, Lyrics, LyricsView, WordView};
use crate::text::{chars_of, string_of, take_chars, skip_chars, texts};
use crate::time::{capped, Duration};
use crate::tui::wrap::{
    lemma_positions_in_text, position_lines, positions, wrap_lyric_text, wrap_positions, wrapped_lines, wrapped_text,
};

verus! {

/// How a piece of a line is painted.
#[derive(Clone, Copy, Debug, PartialEq, Eq, Structural)]
pub enum LyricTone {
    /// A line next to the current one.
    Near,
    /// Any other line.
    Far,
    /// The part of the current line that was sung.
    Played,
    /// The rest of it.
    Upcoming,
}

#[derive(Clone, Debug, PartialEq, Eq)]
pub struct LyricPiece {
    pub text: String,
    pub tone: LyricTone,
}

#[verifier::ext_equal]
pub struct PieceView {
    pub text: Seq<char>,
    pub tone: LyricTone,
}

impl View for LyricPiece {
    type V = PieceView;

    open spec fn view(&self) -> PieceView {
        PieceView { text: self.text@, tone: self.tone }
    }
}

pub open spec fn piece_views(pieces: Seq<LyricPiece>) -> Seq<PieceView> {
    pieces.map_values(|piece: LyricPiece| piece@)
}

/// How many of `count` characters that are sung from `start` to `end` were sung
/// at `position`.
pub open spec fn sung_of(count: nat, position: nat, start: nat, end: nat) -> nat {
    if position <= start {
        0
    } else if position >= end || end <= start {
        count
    } else {
        (count * (position - start)) as nat / (end - start) as nat
    }
}

pub fn sung_chars(count: usize, position: Duration, start: Duration, end: Duration) -> (r: usize)
    ensures
        r == sung_of(count as nat, position@, start@, end@),
        r <= count,
{
    if position.nanos <= start.nanos {
        return 0;
    }
    if position.nanos >= end.nanos || end.nanos <= start.nanos {
        return count;
    }
    let elapsed: u128 = position.nanos - start.nanos;
    let span: u128 = end.nanos - start.nanos;
    let mut whole: usize = 0;
    let mut rest: u128 = 0;
    let mut i: usize = 0;
    while i < count
        invariant
            i <= count,
            elapsed < span,
            rest < span,
            whole <= i,
            i * elapsed == whole * span + rest,
        decreases count - i,
    {
        let ghost before = whole * span + rest;
        if rest >= span - elapsed {
            rest = rest - (span - elapsed);
            proof {
                assert((whole + 1) * span == whole * span + span) by (nonlinear_arith);
            }
            whole = whole + 1;
        } else {
            rest = rest + elapsed;
        }
        proof {
            assert((i + 1) * elapsed == i * elapsed + elapsed) by (nonlinear_arith);
        }
        i += 1;
    }
    proof {
        assert(whole as int * span as int == span as int * whole as int) by (nonlinear_arith);
        vstd::arithmetic::div_mod::lemma_fundamental_div_mod_converse(
            (count * elapsed) as int,
            span as int,
            whole as int,
            rest as int,
        );
    }
    whole
}

/// The pieces of a text of which the first `split` characters were sung.
pub open spec fn split_pieces(text: Seq<char>, split: nat) -> Seq<PieceView> {
    (if split > 0 {
        seq![PieceView { text: text.take(split as int), tone: LyricTone::Played }]
    } else {
        seq![]
    }) + if split < text.len() {
        seq![PieceView { text: text.skip(split as int), tone: LyricTone::Upcoming }]
    } else {
        seq![]
    }
}

pub open spec fn progress_pieces(text: Seq<char>, position: nat, start: nat, end: nat) -> Seq<PieceView> {
    split_pieces(text, sung_of(text.len(), position, start, end))
}

/// The pieces of words, each with its own time.
pub open spec fn word_pieces(words: Seq<WordView>, position: nat) -> Seq<PieceView>
    decreases words.len(),
{
    if words.len() == 0 {
        seq![]
    } else {
        let word = words.last();
        word_pieces(words.drop_last(), position) + progress_pieces(word.text, position, word.start, word.end)
    }
}

/// When a line without words ends: four seconds after its start, where nothing
/// later is known.
pub open spec fn end_of(line: LineView) -> nat {
    match line.end {
        Some(end) if end > line.start => end,
        _ => capped(line.start + 4_000_000_000),
    }
}

/// The pieces of a line.
pub open spec fn line_pieces(line: LineView, position: nat, active: bool, distance: nat) -> Seq<PieceView> {
    if !active {
        seq![PieceView { text: line.text, tone: if distance <= 1 { LyricTone::Near } else { LyricTone::Far } }]
    } else if line.words.len() > 0 {
        word_pieces(line.words, position)
    } else {
        progress_pieces(line.text, position, line.start, end_of(line))
    }
}

/// Adds the pieces of a text of which a part was sung.
fn push_progress_spans(pieces: &mut Vec<LyricPiece>, text: &str, position: Duration, start: Duration, end: Duration)
    ensures
        piece_views(final(pieces)@) == piece_views(old(pieces)@) + progress_pieces(text@, position@, start@, end@),
{
    let chars = chars_of(text);
    let split: usize = sung_chars(chars.len(), position, start, end);
    let ghost held = piece_views(pieces@);
    if split > 0 {
        let ghost list = pieces@;
        pieces.push(LyricPiece { text: string_of(take_chars(chars.as_slice(), split)), tone: LyricTone::Played });
        proof {
            assert(piece_views(pieces@) =~= piece_views(list).push(pieces@.last()@));
        }
    }
    if split < chars.len() {
        let ghost list = pieces@;
        pieces.push(LyricPiece { text: string_of(skip_chars(chars.as_slice(), split)), tone: LyricTone::Upcoming });
        proof {
            assert(piece_views(pieces@) =~= piece_views(list).push(pieces@.last()@));
        }
    }
    proof {
        assert(piece_views(pieces@) =~= held + progress_pieces(text@, position@, start@, end@));
    }
}

/// The pieces in which a line is painted.
pub fn lyric_spans(line: &LyricLine, position: Duration, active: bool, distance: usize) -> (r: Vec<LyricPiece>)
    ensures
        piece_views(r@) == line_pieces(line@, position@, active, distance as nat),
{
    let mut out: Vec<LyricPiece> = Vec::new();
    if !active {
        out.push(
            LyricPiece { text: line.text.clone(), tone: if distance <= 1 { LyricTone::Near } else { LyricTone::Far } },
        );
        proof {
            assert(piece_views(out@) =~= line_pieces(line@, position@, active, distance as nat));
        }
        return out;
    }
    if line.words.len() > 0 {
        let ghost words = word_views(line.words@);
        let mut i: usize = 0;
        proof {
            assert(words.take(0) =~= seq![]);
            assert(piece_views(out@) =~= seq![]);
        }
        while i < line.words.len()
            invariant
                i <= line.words@.len(),
                words == word_views(line.words@),
                piece_views(out@) == word_pieces(words.take(i as int), position@),
            decreases line.words@.len() - i,
        {
            let word = &line.words[i];
            push_progress_spans(&mut out, word.text.as_str(), position, word.start, word.end);
            proof {
                assert(words.take(i + 1).drop_last() =~= words.take(i as int));
                assert(words.take(i + 1).last() == word@);
            }
            i += 1;
        }
        proof {
            assert(words.take(i as int) =~= words);
        }
        return out;
    }
    let end: Duration = match line.end {
        Some(end) if end.nanos > line.start.nanos => end,
        _ => line.start.saturating_add(Duration::from_secs(4)),
    };
    push_progress_spans(&mut out, line.text.as_str(), position, line.start, end);
    proof {
        assert(piece_views(Seq::empty()) =~= seq![]);
        assert(seq![] + progress_pieces(line.text@, position@, line.start@, end@) =~= progress_pieces(
            line.text@,
            position@,
            line.start@,
            end@,
        ));
    }
    out
}

// Pieces that are broken into rows.

/// The characters of pieces.
pub open spec fn piece_chars(pieces: Seq<PieceView>) -> Seq<char>
    decreases pieces.len(),
{
    if pieces.len() == 0 {
        seq![]
    } else {
        piece_chars(pieces.drop_last()) + pieces.last().text
    }
}

/// How each of their characters is painted.
pub open spec fn piece_tones(pieces: Seq<PieceView>) -> Seq<LyricTone>
    decreases pieces.len(),
{
    if pieces.len() == 0 {
        seq![]
    } else {
        piece_tones(pieces.drop_last()) + Seq::new(pieces.last().text.len(), |i: int| pieces.last().tone)
    }
}

/// The characters at positions, as pieces: neighbours that are painted alike
/// are one.
pub open spec fn coalesced(s: Seq<char>, tones: Seq<LyricTone>, at: Seq<int>) -> Seq<PieceView>
    decreases at.len(),
{
    if at.len() == 0 {
        seq![]
    } else {
        let before = coalesced(s, tones, at.drop_last());
        let c = s[at.last()];
        let tone = tones[at.last()];
        if before.len() > 0 && before.last().tone == tone {
            before.drop_last().push(PieceView { text: before.last().text.push(c), tone })
        } else {
            before.push(PieceView { text: seq![c], tone })
        }
    }
}

/// The rows of pieces that are broken to a width.
pub open spec fn wrapped_pieces(pieces: Seq<PieceView>, width: u16) -> Seq<Seq<PieceView>> {
    let s = piece_chars(pieces);
    let tones = piece_tones(pieces);
    wrapped_lines(s, width).map_values(|at: Seq<int>| coalesced(s, tones, at))
}

pub open spec fn piece_rows(rows: Seq<Vec<LyricPiece>>) -> Seq<Seq<PieceView>> {
    rows.map_values(|row: Vec<LyricPiece>| piece_views(row@))
}

fn coalesce_styled_units(chars: &Vec<char>, tones: &Vec<LyricTone>, at: &Vec<usize>) -> (r: Vec<LyricPiece>)
    requires
        chars@.len() == tones@.len(),
        forall|k: int| 0 <= k < at@.len() ==> at@[k] < chars@.len(),
    ensures
        piece_views(r@) == coalesced(chars@, tones@, positions(at@)),
{
    let ghost all = positions(at@);
    let mut out: Vec<LyricPiece> = Vec::new();
    let mut i: usize = 0;
    proof {
        assert(piece_views(out@) =~= seq![]);
        assert(all.take(0) =~= seq![]);
    }
    while i < at.len()
        invariant
            i <= at@.len(),
            all == positions(at@),
            chars@.len() == tones@.len(),
            forall|k: int| 0 <= k < at@.len() ==> at@[k] < chars@.len(),
            piece_views(out@) == coalesced(chars@, tones@, all.take(i as int)),
        decreases at@.len() - i,
    {
        let c: char = chars[at[i]];
        let tone: LyricTone = tones[at[i]];
        let ghost held = out@;
        proof {
            assert(all.take(i + 1).drop_last() =~= all.take(i as int));
            assert(all.take(i + 1).last() == at@[i as int]);
        }
        let n: usize = out.len();
        if n > 0 && out[n - 1].tone == tone {
            let mut text: String = out[n - 1].text.clone();
            text.push(c);
            out.pop();
            let ghost rest = out@;
            out.push(LyricPiece { text, tone });
            proof {
                assert(piece_views(held).last() == held.last()@);
                assert(piece_views(out@) =~= piece_views(held).drop_last().push(out@.last()@));
            }
        } else {
            let mut text: String = String::new();
            text.push(c);
            proof {
                assert(text@ =~= seq![c]);
                if n > 0 {
                    assert(piece_views(held).last() == held.last()@);
                }
            }
            out.push(LyricPiece { text, tone });
            proof {
                assert(piece_views(out@) =~= piece_views(held).push(out@.last()@));
            }
        }
        i += 1;
    }
    proof {
        assert(all.take(i as int) =~= all);
    }
    out
}

/// The rows of pieces that are broken to a width.
pub fn wrap_styled_spans(pieces: &Vec<LyricPiece>, width: u16) -> (r: Vec<Vec<LyricPiece>>)
    ensures
        piece_rows(r@) == wrapped_pieces(piece_views(pieces@), width),
{
    let ghost all = piece_views(pieces@);
    let mut text: String = String::new();
    let mut tones: Vec<LyricTone> = Vec::new();
    let mut i: usize = 0;
    proof {
        assert(all.take(0) =~= seq![]);
    }
    while i < pieces.len()
        invariant
            i <= pieces@.len(),
            all == piece_views(pieces@),
            text@ == piece_chars(all.take(i as int)),
            tones@ == piece_tones(all.take(i as int)),
            tones@.len() == text@.len(),
        decreases pieces@.len() - i,
    {
        let ghost held = tones@;
        let piece = &pieces[i];
        let n: usize = piece.text.as_str().unicode_len();
        text.append(piece.text.as_str());
        let mut k: usize = 0;
        while k < n
            invariant
                k <= n,
                tones@ =~= held + Seq::new(k as nat, |j: int| piece.tone),
            decreases n - k,
        {
            tones.push(piece.tone);
            k += 1;
        }
        proof {
            assert(all.take(i + 1).drop_last() =~= all.take(i as int));
            assert(all.take(i + 1).last() == piece@);
            assert(tones@ =~= piece_tones(all.take(i + 1)));
        }
        i += 1;
    }
    proof {
        assert(all.take(i as int) =~= all);
    }
    let chars = chars_of(text.as_str());
    let lines = wrap_positions(text.as_str(), width);
    let ghost rows = wrapped_lines(text@, width);
    let ghost wanted = wrapped_pieces(all, width);
    let mut out: Vec<Vec<LyricPiece>> = Vec::new();
    let mut line: usize = 0;
    proof {
        lemma_positions_in_text(text@, width);
    }
    while line < lines.len()
        invariant
            line <= lines@.len(),
            rows == wrapped_lines(chars@, width),
            position_lines(lines@) == rows,
            chars@ == piece_chars(all),
            tones@ == piece_tones(all),
            tones@.len() == chars@.len(),
            wanted == wrapped_pieces(all, width),
            forall|k: int, j: int| 0 <= k < rows.len() && 0 <= j < rows[k].len() ==> 0 <= #[trigger] rows[k][j] < chars@.len(),
            piece_rows(out@) =~= wanted.take(line as int),
        decreases lines@.len() - line,
    {
        let ghost at = rows[line as int];
        proof {
            assert(at == positions(lines@[line as int]@));
            assert forall|k: int| 0 <= k < lines@[line as int]@.len() implies lines@[line as int]@[k] < chars@.len() by {
                assert(rows[line as int][k] == lines@[line as int]@[k]);
            }
        }
        let row = coalesce_styled_units(&chars, &tones, &lines[line]);
        let ghost held = out@;
        out.push(row);
        proof {
            assert(piece_rows(out@) =~= piece_rows(held).push(piece_views(row@)));
            assert(wanted[line as int] == coalesced(chars@, tones@, at));
        }
        line += 1;
    }
    proof {
        assert(wanted.take(line as int) =~= wanted);
    }
    out
}

// The rows of the panel.

#[derive(Clone, Debug, PartialEq, Eq)]
pub enum LyricDisplayRow {
    Original(Vec<LyricPiece>),
    Translation(String),
}

pub enum RowView {
    Original(Seq<PieceView>),
    Translation(Seq<char>),
}

impl View for LyricDisplayRow {
    type V = RowView;

    open spec fn view(&self) -> RowView {
        match *self {
            LyricDisplayRow::Original(pieces) => RowView::Original(piece_views(pieces@)),
            LyricDisplayRow::Translation(text) => RowView::Translation(text@),
        }
    }
}

pub open spec fn row_views(rows: Seq<LyricDisplayRow>) -> Seq<RowView> {
    rows.map_values(|row: LyricDisplayRow| row@)
}

/// The line that is at the centre: the current one, or the first.
pub open spec fn anchor_of(lyrics: LyricsView, position: nat) -> int {
    let count = started(lyrics.original, position);
    if count > 0 {
        count - 1
    } else {
        0
    }
}

/// The rows of a line: its own, and those of its translation.
pub open spec fn rows_of_line(lyrics: LyricsView, index: int, position: nat, width: u16) -> Seq<RowView> {
    let line = lyrics.original[index];
    let active = started(lyrics.original, position) == index + 1;
    let anchor = anchor_of(lyrics, position);
    let distance = if index >= anchor { index - anchor } else { anchor - index };
    let own = wrapped_pieces(line_pieces(line, position, active, distance as nat), width);
    let translation = match nearest_line(lyrics.translated, line.start) {
        Some(k) => wrapped_text(lyrics.translated[k].text, width),
        None => seq![],
    };
    Seq::new(own.len(), |i: int| RowView::Original(own[i])) + Seq::new(
        translation.len(),
        |i: int| RowView::Translation(translation[i]),
    )
}

/// The rows of the lines from `start` up to `end`.
pub open spec fn rows_between(lyrics: LyricsView, start: int, end: int, position: nat, width: u16) -> Seq<RowView>
    decreases end - start,
{
    if end <= start {
        seq![]
    } else {
        rows_between(lyrics, start, end - 1, position, width) + rows_of_line(lyrics, end - 1, position, width)
    }
}

/// The rows that a panel shows: those around the current line, which stands in
/// the middle as soon as there are enough rows above it.
pub open spec fn shown_rows(lyrics: LyricsView, position: nat, width: u16, height: u16) -> Seq<RowView> {
    let anchor = anchor_of(lyrics, position);
    let n = lyrics.original.len() as int;
    let start = if anchor >= height { anchor - height } else { 0 };
    let end = if anchor + height + 1 <= n { anchor + height + 1 } else { n };
    let rows = rows_between(lyrics, start, end, position, width);
    let above = if anchor < end { rows_between(lyrics, start, anchor, position, width).len() as int } else { 0 };
    let scroll = if above >= height / 2 { above - height / 2 } else { 0 };
    window_of(rows, scroll, height)
}

/// The rows that remain when `scroll` of them have left at the top of a panel.
pub open spec fn window_of(rows: Seq<RowView>, scroll: int, height: u16) -> Seq<RowView> {
    if scroll >= rows.len() {
        seq![]
    } else if rows.len() - scroll <= height {
        rows.skip(scroll)
    } else {
        rows.subrange(scroll, scroll + height)
    }
}

/// Adds the rows of a line.
fn push_line_rows(rows: &mut Vec<LyricDisplayRow>, lyrics: &Lyrics, index: usize, position: Duration, width: u16)
    requires
        index < lyrics.original@.len(),
    ensures
        row_views(final(rows)@) == row_views(old(rows)@) + rows_of_line(lyrics@, index as int, position@, width),
{
    let ghost before = row_views(rows@);
    let current: Option<usize> = lyrics.current_index(position);
    let anchor: usize = match current {
        Some(i) => i,
        None => 0,
    };
    let active: bool = match current {
        Some(i) => i == index,
        None => false,
    };
    let distance: usize = if index >= anchor {
        index - anchor
    } else {
        anchor - index
    };
    let line = &lyrics.original[index];
    proof {
        assert(lyrics@.original[index as int] == line@);
    }
    let pieces = lyric_spans(line, position, active, distance);
    let own = wrap_styled_spans(&pieces, width);
    let ghost own_rows = piece_rows(own@);
    let ghost own_views = Seq::new(own_rows.len(), |i: int| RowView::Original(own_rows[i]));
    proof {
        assert(before + own_views.take(0) =~= before);
    }
    for row in it: own
        invariant
            it.seq() == own@,
            own_rows == piece_rows(own@),
            own_views == Seq::new(own_rows.len(), |i: int| RowView::Original(own_rows[i])),
            row_views(rows@) == before + own_views.take(it.index() as int),
    {
        let ghost held = rows@;
        let ghost k = it.index() as int;
        proof {
            assert(own_rows[k] == piece_views(row@));
        }
        rows.push(LyricDisplayRow::Original(row));
        proof {
            assert(row_views(rows@) =~= row_views(held).push(own_views[k]));
            assert(before + own_views.take(k + 1) =~= (before + own_views.take(k)).push(own_views[k]));
        }
    }
    let ghost middle = before + own_views;
    proof {
        assert(own_views.take(own@.len() as int) =~= own_views);
        assert(row_views(rows@) == middle);
    }
    match lyrics.translation_at(line.start) {
        Some(text) => {
            let lines = wrap_lyric_text(text, width);
            let ghost all = texts(lines@);
            let ghost views = Seq::new(all.len(), |i: int| RowView::Translation(all[i]));
            proof {
                assert(middle + views.take(0) =~= middle);
            }
            for item in it: lines
                invariant
                    it.seq() == lines@,
                    all == texts(lines@),
                    views == Seq::new(all.len(), |i: int| RowView::Translation(all[i])),
                    row_views(rows@) == middle + views.take(it.index() as int),
            {
                let ghost held = rows@;
                let ghost k = it.index() as int;
                proof {
                    assert(all[k] == item@);
                }
                rows.push(LyricDisplayRow::Translation(item));
                proof {
                    assert(row_views(rows@) =~= row_views(held).push(views[k]));
                    assert(middle + views.take(k + 1) =~= (middle + views.take(k)).push(views[k]));
                }
            }
            proof {
                assert(views.take(lines@.len() as int) =~= views);
                assert(row_views(rows@) =~= before + rows_of_line(lyrics@, index as int, position@, width));
            }
        },
        None => {
            proof {
                assert(row_views(rows@) =~= before + rows_of_line(lyrics@, index as int, position@, width));
            }
        },
    }
}

fn rows_within(rows: Vec<LyricDisplayRow>, scroll: usize, height: u16) -> (r: Vec<LyricDisplayRow>)
    ensures
        row_views(r@) == window_of(row_views(rows@), scroll as int, height),
{
    let ghost all = row_views(rows@);
    let count: usize = rows.len();
    let end: usize = if scroll <= count && count - scroll > height as usize {
        scroll + height as usize
    } else {
        count
    };
    let mut out: Vec<LyricDisplayRow> = Vec::new();
    let mut i: usize = 0;
    proof {
        assert(row_views(out@) =~= seq![]);
    }
    for row in it: rows
        invariant
            it.seq() == rows@,
            all == row_views(rows@),
            count == rows@.len(),
            end <= count,
            i == it.index(),
            row_views(out@) == if i <= scroll || end < scroll {
                seq![]
            } else {
                all.subrange(scroll as int, if i <= end { i as int } else { end as int })
            },
    {
        let ghost held = out@;
        if i >= scroll && i < end {
            proof {
                assert(all[i as int] == row@);
            }
            out.push(row);
            proof {
                assert(row_views(out@) =~= row_views(held).push(row@));
                assert(all.subrange(scroll as int, i + 1) =~= all.subrange(scroll as int, i as int).push(row@));
                if i == scroll {
                    assert(all.subrange(scroll as int, i as int) =~= seq![]);
                }
            }
        } else if i >= scroll && end >= scroll && i == scroll {
            proof {
                assert(all.subrange(scroll as int, end as int) =~= seq![]);
            }
        }
        if i < count {
            i += 1;
        }
    }
    proof {
        assert(row_views(out@) =~= window_of(all, scroll as int, height));
    }
    out
}

/// The rows that a panel of a size shows.
pub fn lyric_rows(lyrics: &Lyrics, position: Duration, width: u16, height: u16) -> (r: Vec<LyricDisplayRow>)
    ensures
        row_views(r@) == shown_rows(lyrics@, position@, width, height),
{
    let anchor: usize = match lyrics.current_index(position) {
        Some(i) => i,
        None => 0,
    };
    let radius: usize = height as usize;
    let start: usize = anchor.saturating_sub(radius);
    let limit: usize = anchor.saturating_add(radius + 1);
    let end: usize = if limit <= lyrics.original.len() {
        limit
    } else {
        lyrics.original.len()
    };
    let mut rows: Vec<LyricDisplayRow> = Vec::new();
    let mut above: usize = 0;
    let mut index: usize = start;
    proof {
        assert(row_views(rows@) =~= seq![]);
    }
    while index < end
        invariant
            start <= index,
            index <= end || (end < start && index == start),
            start <= anchor,
            end <= lyrics.original@.len(),
            row_views(rows@) == rows_between(lyrics@, start as int, index as int, position@, width),
            above == if anchor < index {
                rows_between(lyrics@, start as int, anchor as int, position@, width).len() as int
            } else {
                0
            },
        decreases end - index,
    {
        if index == anchor {
            above = rows.len();
        }
        push_line_rows(&mut rows, lyrics, index, position, width);
        index += 1;
    }
    let ghost all = row_views(rows@);
    proof {
        if end < start {
            assert(rows_between(lyrics@, start as int, end as int, position@, width) =~= seq![]);
            assert(rows_between(lyrics@, start as int, start as int, position@, width) =~= seq![]);
        }
        assert(all == rows_between(lyrics@, start as int, end as int, position@, width));
    }
    let middle: usize = (height / 2) as usize;
    let scroll: usize = above.saturating_sub(middle);
    rows_within(rows, scroll, height)
}

/// The panel shows no more rows than it has.
pub proof fn lemma_rows_fit_panel(lyrics: LyricsView, position: nat, width: u16, height: u16)
    ensures
        shown_rows(lyrics, position, width, height).len() <= height,
{
}

proof fn lemma_rows_prefix(lyrics: LyricsView, start: int, middle: int, end: int, position: nat, width: u16)
    requires
        start <= middle <= end,
    ensures
        rows_between(lyrics, start, middle, position, width).is_prefix_of(
            rows_between(lyrics, start, end, position, width),
        ),
    decreases end - middle,
{
    if middle < end {
        lemma_rows_prefix(lyrics, start, middle, end - 1, position, width);
    }
}

/// The panel shows the first row of the line that is sung, in its upper half.
pub proof fn lemma_current_line_is_shown(lyrics: LyricsView, position: nat, width: u16, height: u16)
    requires
        height > 0,
        anchor_of(lyrics, position) < lyrics.original.len(),
        rows_of_line(lyrics, anchor_of(lyrics, position), position, width).len() > 0,
    ensures
        exists|k: int|
            0 <= k <= height / 2 && k < shown_rows(lyrics, position, width, height).len()
                && #[trigger] shown_rows(lyrics, position, width, height)[k] == rows_of_line(
                lyrics,
                anchor_of(lyrics, position),
                position,
                width,
            )[0],
{
    let anchor = anchor_of(lyrics, position);
    let n = lyrics.original.len() as int;
    let start = if anchor >= height { anchor - height } else { 0 };
    let end = if anchor + height + 1 <= n { anchor + height + 1 } else { n };
    let rows = rows_between(lyrics, start, end, position, width);
    let above = rows_between(lyrics, start, anchor, position, width).len() as int;
    let scroll = if above >= height / 2 { above - height / 2 } else { 0 };
    lemma_rows_prefix(lyrics, start, anchor + 1, end, position, width);
    let upto = rows_between(lyrics, start, anchor + 1, position, width);
    assert(upto == rows_between(lyrics, start, anchor, position, width) + rows_of_line(lyrics, anchor, position, width));
    assert(upto[above] == rows_of_line(lyrics, anchor, position, width)[0]);
    assert(rows[above] == upto[above]);
    let k = above - scroll;
    assert(shown_rows(lyrics, position, width, height)[k] == rows[above]);
}

// What is painted.

/// Nothing of a text was sung before its start and all of it from its end on;
/// in between the characters come evenly, and none is taken back.
pub proof fn lemma_sung(count: nat, position: nat, later: nat, start: nat, end: nat)
    requires
        position <= later,
    ensures
        position <= start ==> sung_of(count, position, start, end) == 0,
        start < end <= position ==> sung_of(count, position, start, end) == count,
        sung_of(count, position, start, end) <= sung_of(count, later, start, end) <= count,
        start < position < end ==> sung_of(count, position, start, end) * (end - start) <= count * (position - start)
            < (sung_of(count, position, start, end) + 1) * (end - start),
{
    if start < position < end {
        lemma_sung_between(count, (position - start) as nat, (end - start) as nat);
    }
    if start < later < end {
        lemma_sung_between(count, (later - start) as nat, (end - start) as nat);
        if start < position {
            assert(count * (position - start) <= count * (later - start)) by (nonlinear_arith)
                requires
                    position <= later,
            ;
            vstd::arithmetic::div_mod::lemma_div_is_ordered(
                (count * (position - start)) as int,
                (count * (later - start)) as int,
                (end - start) as int,
            );
        }
    }
}

proof fn lemma_sung_between(count: nat, part: nat, whole: nat)
    requires
        0 < part < whole,
    ensures
        count * part / whole <= count,
        count * part / whole * whole <= count * part < (count * part / whole + 1) * whole,
{
    let product = count * part;
    vstd::arithmetic::div_mod::lemma_fundamental_div_mod(product as int, whole as int);
    let q = product / whole;
    assert(q * whole <= product < (q + 1) * whole) by (nonlinear_arith)
        requires
            product == whole * q + product % whole,
            0 <= product % whole < whole,
    ;
    assert(product <= count * whole) by (nonlinear_arith)
        requires
            product == count * part,
            part < whole,
    ;
    assert(q <= count) by (nonlinear_arith)
        requires
            q * whole <= count * whole,
            whole > 0,
    ;
}

/// The pieces of a text are the text; those of its characters that were sung
/// are painted as such, and the rest as still to come.
pub proof fn lemma_progress_painted(text: Seq<char>, position: nat, start: nat, end: nat)
    ensures
        piece_chars(progress_pieces(text, position, start, end)) == text,
        piece_tones(progress_pieces(text, position, start, end)) == Seq::new(
            text.len(),
            |i: int|
                if i < sung_of(text.len(), position, start, end) {
                    LyricTone::Played
                } else {
                    LyricTone::Upcoming
                },
        ),
{
    lemma_sung(text.len(), position, position, start, end);
    let split = sung_of(text.len(), position, start, end);
    let pieces = progress_pieces(text, position, start, end);
    reveal_with_fuel(piece_chars, 3);
    reveal_with_fuel(piece_tones, 3);
    if 0 < split < text.len() {
        assert(pieces.drop_last() =~= seq![PieceView { text: text.take(split as int), tone: LyricTone::Played }]);
        assert(pieces.drop_last().drop_last() =~= seq![]);
        assert(text.take(split as int) + text.skip(split as int) =~= text);
    } else if pieces.len() > 0 {
        assert(pieces.drop_last() =~= seq![]);
        if split == 0 {
            assert(text.skip(0) =~= text);
        } else {
            assert(text.take(split as int) =~= text);
        }
    } else {
        assert(text =~= seq![]);
    }
    assert(piece_chars(pieces) =~= text);
}

proof fn lemma_pieces_joined(a: Seq<PieceView>, b: Seq<PieceView>)
    ensures
        piece_chars(a + b) == piece_chars(a) + piece_chars(b),
        piece_tones(a + b) == piece_tones(a) + piece_tones(b),
    decreases b.len(),
{
    if b.len() == 0 {
        assert(a + b =~= a);
        assert(piece_chars(a + b) =~= piece_chars(a) + piece_chars(b));
        assert(piece_tones(a + b) =~= piece_tones(a) + piece_tones(b));
    } else {
        lemma_pieces_joined(a, b.drop_last());
        assert((a + b).drop_last() =~= a + b.drop_last());
        assert(piece_chars(a + b) =~= piece_chars(a) + piece_chars(b));
        assert(piece_tones(a + b) =~= piece_tones(a) + piece_tones(b));
    }
}

/// Each word of a line is painted by its own time, in the order of the words.
pub proof fn lemma_words_painted(words: Seq<WordView>, word: WordView, position: nat)
    ensures
        word_pieces(Seq::empty(), position) == Seq::<PieceView>::empty(),
        piece_chars(word_pieces(words.push(word), position)) == piece_chars(word_pieces(words, position)) + word.text,
        piece_tones(word_pieces(words.push(word), position)) == piece_tones(word_pieces(words, position))
            + piece_tones(progress_pieces(word.text, position, word.start, word.end)),
{
    let all = words.push(word);
    assert(all.drop_last() =~= words);
    lemma_progress_painted(word.text, position, word.start, word.end);
    lemma_pieces_joined(word_pieces(words, position), progress_pieces(word.text, position, word.start, word.end));
}

/// A line that is not sung now is one piece, brighter next to the current
/// one; the current line is painted word by word where its words are known,
/// and else evenly up to its end, or four seconds where no end is known.
pub proof fn lemma_line_painted(line: LineView, position: nat, distance: nat)
    ensures
        line_pieces(line, position, false, distance).len() == 1,
        line_pieces(line, position, false, distance)[0].text == line.text,
        distance <= 1 <==> line_pieces(line, position, false, distance)[0].tone is Near,
        distance > 1 <==> line_pieces(line, position, false, distance)[0].tone is Far,
        line.words.len() > 0 ==> line_pieces(line, position, true, distance) == word_pieces(line.words, position),
        line.words.len() == 0 ==> piece_chars(line_pieces(line, position, true, distance)) == line.text,
        line.words.len() == 0 && line.end is Some && line.end->0 > line.start ==> line_pieces(
            line,
            position,
            true,
            distance,
        ) == progress_pieces(line.text, position, line.start, line.end->0),
        line.words.len() == 0 && line.end is None && line.start + 4_000_000_000 <= crate::time::MAX_NANOS
            ==> line_pieces(line, position, true, distance) == progress_pieces(
            line.text,
            position,
            line.start,
            line.start + 4_000_000_000,
        ),
{
    if line.words.len() == 0 {
        lemma_progress_painted(line.text, position, line.start, end_of(line));
    }
}

/// One more character at the end of the last piece, or as a piece of its own.
proof fn lemma_character_added(before: Seq<PieceView>, c: char, tone: LyricTone)
    ensures
        before.len() > 0 && before.last().tone == tone ==> ({
            let all = before.drop_last().push(PieceView { text: before.last().text.push(c), tone });
            piece_chars(all) == piece_chars(before).push(c) && piece_tones(all) == piece_tones(before).push(tone)
        }),
        ({
            let all = before.push(PieceView { text: seq![c], tone });
            piece_chars(all) == piece_chars(before).push(c) && piece_tones(all) == piece_tones(before).push(tone)
        }),
{
    let own = before.push(PieceView { text: seq![c], tone });
    assert(own.drop_last() =~= before);
    assert(piece_chars(own) =~= piece_chars(before).push(c));
    assert(piece_tones(own) =~= piece_tones(before).push(tone));
    if before.len() > 0 && before.last().tone == tone {
        let grown = before.drop_last().push(PieceView { text: before.last().text.push(c), tone });
        assert(grown.drop_last() =~= before.drop_last());
        assert(piece_chars(grown) =~= piece_chars(before).push(c));
        assert(piece_tones(grown) =~= piece_tones(before).push(tone));
    }
}

/// Characters that are gathered into pieces keep their order and how they
/// are painted.
pub proof fn lemma_gathered(s: Seq<char>, tones: Seq<LyricTone>, at: Seq<int>)
    ensures
        piece_chars(coalesced(s, tones, at)) == at.map_values(|i: int| s[i]),
        piece_tones(coalesced(s, tones, at)) == at.map_values(|i: int| tones[i]),
    decreases at.len(),
{
    if at.len() == 0 {
        assert(at.map_values(|i: int| s[i]) =~= seq![]);
        assert(at.map_values(|i: int| tones[i]) =~= seq![]);
    } else {
        lemma_gathered(s, tones, at.drop_last());
        lemma_character_added(coalesced(s, tones, at.drop_last()), s[at.last()], tones[at.last()]);
        assert(at.map_values(|i: int| s[i]) =~= at.drop_last().map_values(|i: int| s[i]).push(s[at.last()]));
        assert(at.map_values(|i: int| tones[i]) =~= at.drop_last().map_values(|i: int| tones[i]).push(
            tones[at.last()],
        ));
    }
}

/// Below the rows of a line stand those of the translation that belongs to
/// its time, and of nothing else.
pub proof fn lemma_translation_below(lyrics: LyricsView, index: int, position: nat, width: u16)
    requires
        0 <= index < lyrics.original.len(),
    ensures
        nearest_line(lyrics.translated, lyrics.original[index].start) is None ==> forall|i: int|
            0 <= i < rows_of_line(lyrics, index, position, width).len() ==> rows_of_line(
                lyrics,
                index,
                position,
                width,
            )[i] is Original,
        nearest_line(lyrics.translated, lyrics.original[index].start) is Some ==> {
            let rows = rows_of_line(lyrics, index, position, width);
            let below = wrapped_text(
                lyrics.translated[nearest_line(lyrics.translated, lyrics.original[index].start)->0].text,
                width,
            );
            &&& rows.len() >= below.len()
            &&& forall|i: int|
                0 <= i < below.len() ==> #[trigger] rows[rows.len() - below.len() + i] == RowView::Translation(below[i])
            &&& forall|i: int| 0 <= i < rows.len() - below.len() ==> #[trigger] rows[i] is Original
        },
{
}

} // verus!
