//! Texts that are broken into lines of a width.

use vstd::prelude::*;

use crate::text::{chars_of, texts};
use crate::tui::width::{char_width, char_width_of};

verus! {

/// The cells that a character takes in a line: at least one.
pub open spec fn cell_of(c: char) -> nat {
    if char_width_of(c) >= 1 {
        char_width_of(c) as nat
    } else {
        1
    }
}

/// A text on its way into lines. Characters are given by their positions.
pub struct Wrapping {
    /// The lines that are complete.
    pub lines: Seq<Seq<int>>,
    /// The line that grows.
    pub current: Seq<int>,
    /// The cells that it takes.
    pub width: nat,
    /// Where in it the last space stands.
    pub last_space: Option<int>,
}

/// The cells that characters take, each by itself.
pub open spec fn cells_sum(s: Seq<char>, at: Seq<int>) -> nat
    decreases at.len(),
{
    if at.len() == 0 {
        0
    } else {
        cells_sum(s, at.drop_last()) + char_width_of(s[at.last()]) as nat
    }
}

/// The positions without those of spaces.
pub open spec fn without_spaces(s: Seq<char>, at: Seq<int>) -> Seq<int>
    decreases at.len(),
{
    if at.len() == 0 {
        at
    } else if s[at.last()] == ' ' {
        without_spaces(s, at.drop_last())
    } else {
        without_spaces(s, at.drop_last()).push(at.last())
    }
}

impl Wrapping {
    /// The line that grows is complete.
    pub open spec fn broken(self) -> Wrapping {
        Wrapping { lines: self.lines.push(self.current), current: seq![], width: 0, last_space: None }
    }

    /// The line that grows is complete up to its last space; what follows
    /// starts the next one.
    pub open spec fn broken_at(self, s: Seq<char>, space: int) -> Wrapping {
        let rest = without_spaces(s, self.current.skip(space));
        Wrapping {
            lines: self.lines.push(self.current.take(space)),
            current: rest,
            width: cells_sum(s, rest),
            last_space: None,
        }
    }

    /// The character at `i` joins the line that grows.
    pub open spec fn joined_by(self, s: Seq<char>, i: int) -> Wrapping {
        Wrapping {
            current: self.current.push(i),
            width: self.width + cell_of(s[i]),
            last_space: if s[i] == ' ' { Some(self.current.len() as int) } else { self.last_space },
            ..self
        }
    }

    /// The text after the character at `i`: spaces start no line, and where the
    /// character does not fit the line is broken before it, at a space if there
    /// is one in it.
    pub open spec fn step(self, s: Seq<char>, i: int, width: nat) -> Wrapping {
        if s[i] == ' ' && self.current.len() == 0 {
            self
        } else if self.width + cell_of(s[i]) > width && self.current.len() > 0 {
            if s[i] == ' ' {
                self.broken()
            } else {
                match self.last_space {
                    Some(space) => self.broken_at(s, space).joined_by(s, i),
                    None => self.broken().joined_by(s, i),
                }
            }
        } else {
            self.joined_by(s, i)
        }
    }
}

pub open spec fn wrapping_of(s: Seq<char>, n: int, width: nat) -> Wrapping
    decreases n,
{
    if n <= 0 {
        Wrapping { lines: seq![], current: seq![], width: 0, last_space: None }
    } else {
        wrapping_of(s, n - 1, width).step(s, n - 1, width)
    }
}

/// The lines of a text that is broken to a width, as positions of its characters.
pub open spec fn wrapped_lines(s: Seq<char>, width: u16) -> Seq<Seq<int>> {
    if width == 0 {
        seq![]
    } else {
        let all = wrapping_of(s, s.len() as int, width as nat);
        if all.current.len() > 0 {
            all.lines.push(all.current)
        } else {
            all.lines
        }
    }
}

/// The positions of a list of machine numbers.
pub open spec fn positions(list: Seq<usize>) -> Seq<int> {
    list.map_values(|i: usize| i as int)
}

pub open spec fn position_lines(lines: Seq<Vec<usize>>) -> Seq<Seq<int>> {
    lines.map_values(|line: Vec<usize>| positions(line@))
}

proof fn lemma_cells_split(s: Seq<char>, at: Seq<int>, k: int)
    requires
        0 <= k <= at.len(),
    ensures
        cells_sum(s, at) == cells_sum(s, at.take(k)) + cells_sum(s, at.skip(k)),
    decreases at.len(),
{
    if k == at.len() {
        assert(at.take(k) =~= at);
        assert(at.skip(k) =~= seq![]);
    } else {
        let t = at.drop_last();
        lemma_cells_split(s, t, k);
        assert(t.take(k) =~= at.take(k));
        assert(at.skip(k).drop_last() =~= t.skip(k));
    }
}

/// The positions behind `from` that are not those of spaces, and their cells.
fn keep_words(chars: &Vec<char>, at: &Vec<usize>, from: usize) -> (r: (Vec<usize>, u32))
    requires
        from <= at@.len(),
        forall|k: int| 0 <= k < at@.len() ==> at@[k] < chars@.len(),
        cells_sum(chars@, positions(at@)) <= 0x1_ffff,
    ensures
        positions(r.0@) == without_spaces(chars@, positions(at@).skip(from as int)),
        r.1 == cells_sum(chars@, positions(r.0@)),
        r.1 <= cells_sum(chars@, positions(at@)),
        forall|k: int| 0 <= k < r.0@.len() ==> r.0@[k] < chars@.len(),
{
    let ghost all = positions(at@).skip(from as int);
    let mut out: Vec<usize> = Vec::new();
    let mut width: u32 = 0;
    let mut i: usize = from;
    proof {
        assert(all.take(0) =~= seq![]);
        assert(positions(out@) =~= seq![]);
        lemma_cells_split(chars@, positions(at@), from as int);
    }
    while i < at.len()
        invariant
            from <= i <= at@.len(),
            all == positions(at@).skip(from as int),
            forall|k: int| 0 <= k < at@.len() ==> at@[k] < chars@.len(),
            forall|k: int| 0 <= k < out@.len() ==> out@[k] < chars@.len(),
            positions(out@) == without_spaces(chars@, all.take(i - from)),
            width == cells_sum(chars@, positions(out@)),
            width <= cells_sum(chars@, all.take(i - from)),
            cells_sum(chars@, all) <= 0x1_ffff,
        decreases at@.len() - i,
    {
        let k: usize = at[i];
        proof {
            assert(all.take(i - from + 1).drop_last() =~= all.take(i - from));
            assert(all.take(i - from + 1).last() == k);
            lemma_cells_split(chars@, all, i - from + 1);
        }
        if chars[k] != ' ' {
            let ghost held = out@;
            width = width + char_width(chars[k]) as u32;
            out.push(k);
            proof {
                assert(positions(out@) =~= positions(held).push(k as int));
                assert(positions(out@).drop_last() =~= positions(held));
            }
        }
        i += 1;
    }
    proof {
        assert(all.take(i - from) =~= all);
    }
    (out, width)
}

/// The first `n` positions.
fn first_positions(at: &Vec<usize>, n: usize) -> (r: Vec<usize>)
    requires
        n <= at@.len(),
    ensures
        r@ == at@.take(n as int),
{
    let mut out: Vec<usize> = Vec::new();
    let mut i: usize = 0;
    while i < n
        invariant
            i <= n <= at@.len(),
            out@ == at@.take(i as int),
        decreases n - i,
    {
        out.push(at[i]);
        proof {
            assert(at@.take(i + 1) =~= at@.take(i as int).push(at@[i as int]));
        }
        i += 1;
    }
    out
}

proof fn lemma_without_spaces(s: Seq<char>, at: Seq<int>)
    ensures
        cells_sum(s, without_spaces(s, at)) <= cells_sum(s, at),
        forall|x: int| #[trigger] without_spaces(s, at).contains(x) ==> at.contains(x),
        without_spaces(s, at).len() <= at.len(),
    decreases at.len(),
{
    if at.len() > 0 {
        let t = at.drop_last();
        lemma_without_spaces(s, t);
        let before = without_spaces(s, t);
        let r = without_spaces(s, at);
        if s[at.last()] != ' ' {
            assert(r.drop_last() =~= before);
        }
        assert forall|x: int| #[trigger] r.contains(x) implies at.contains(x) by {
            let k = choose|k: int| 0 <= k < r.len() && r[k] == x;
            if k < before.len() {
                assert(before.contains(x));
                let m = choose|m: int| 0 <= m < t.len() && t[m] == x;
                assert(at[m] == x);
            } else {
                assert(at[at.len() - 1] == x);
            }
        }
    }
}

/// The positions of the characters of a text that is broken to a width, line by line.
pub fn wrap_positions(text: &str, width: u16) -> (r: Vec<Vec<usize>>)
    ensures
        position_lines(r@) == wrapped_lines(text@, width),
{
    let mut lines: Vec<Vec<usize>> = Vec::new();
    proof {
        assert(position_lines(lines@) =~= seq![]);
    }
    if width == 0 {
        return lines;
    }
    let chars = chars_of(text);
    let mut current: Vec<usize> = Vec::new();
    let mut used: u32 = 0;
    let mut last_space: Option<usize> = None;
    let mut i: usize = 0;
    proof {
        assert(positions(current@) =~= seq![]);
    }
    while i < chars.len()
        invariant
            i <= chars@.len(),
            0 < width,
            ({
                let w = wrapping_of(chars@, i as int, width as nat);
                &&& position_lines(lines@) == w.lines
                &&& positions(current@) == w.current
                &&& used == w.width
                &&& last_space is Some <==> w.last_space is Some
                &&& last_space is Some ==> last_space->0 == w.last_space->0 && 0 < last_space->0 < current@.len()
            }),
            forall|k: int| 0 <= k < current@.len() ==> current@[k] < i,
            cells_sum(chars@, positions(current@)) <= used,
            used <= width || (used <= 0x1_fffe && last_space is None),
            current@.len() == 0 ==> used == 0,
            current@.len() == 0 ==> last_space is None,
        decreases chars@.len() - i,
    {
        let c: char = chars[i];
        let ghost w = wrapping_of(chars@, i as int, width as nat);
        let natural: u16 = char_width(c);
        let cells: u32 = if natural >= 1 {
            natural as u32
        } else {
            1
        };
        if c == ' ' && current.len() == 0 {
            i += 1;
            continue;
        }
        if used + cells > width as u32 && current.len() > 0 {
            if c == ' ' {
                let ghost held = lines@;
                lines.push(current);
                proof {
                    assert(position_lines(lines@) =~= position_lines(held).push(w.current));
                }
                current = Vec::new();
                used = 0;
                last_space = None;
                proof {
                    assert(positions(current@) =~= seq![]);
                }
                i += 1;
                continue;
            }
            match last_space {
                Some(space) => {
                    let head = first_positions(&current, space);
                    let (rest, rest_width) = keep_words(&chars, &current, space);
                    let ghost held = lines@;
                    proof {
                        assert(positions(head@) =~= w.current.take(space as int));
                        lemma_without_spaces(chars@, w.current.skip(space as int));
                        assert forall|k: int| 0 <= k < rest@.len() implies rest@[k] < i by {
                            let kept = without_spaces(chars@, w.current.skip(space as int));
                            assert(positions(rest@)[k] == rest@[k]);
                            assert(kept.contains(kept[k]));
                            let m = choose|m: int|
                                0 <= m < w.current.skip(space as int).len() && w.current.skip(space as int)[m] == kept[k];
                            assert(positions(current@)[m + space] == current@[m + space]);
                        }
                    }
                    lines.push(head);
                    proof {
                        assert(position_lines(lines@) =~= position_lines(held).push(w.current.take(space as int)));
                    }
                    current = rest;
                    used = rest_width;
                    last_space = None;
                },
                None => {
                    let ghost held = lines@;
                    lines.push(current);
                    proof {
                        assert(position_lines(lines@) =~= position_lines(held).push(w.current));
                    }
                    current = Vec::new();
                    used = 0;
                    proof {
                        assert(positions(current@) =~= seq![]);
                    }
                },
            }
        }
        if c == ' ' {
            last_space = Some(current.len());
        }
        used = used + cells;
        let ghost held = current@;
        current.push(i);
        proof {
            assert(positions(current@) =~= positions(held).push(i as int));
            assert(positions(current@).drop_last() =~= positions(held));
            assert(positions(current@).last() == i);
            assert(cells_sum(chars@, positions(current@)) == cells_sum(chars@, positions(held)) + natural);
        }
        i += 1;
    }
    let ghost w = wrapping_of(chars@, chars@.len() as int, width as nat);
    if current.len() > 0 {
        let ghost held = lines@;
        lines.push(current);
        proof {
            assert(position_lines(lines@) =~= position_lines(held).push(w.current));
        }
    }
    lines
}

/// The characters at positions of a text.
pub open spec fn text_at(s: Seq<char>, at: Seq<int>) -> Seq<char> {
    at.map_values(|k: int| s[k])
}

/// The lines of a text that is broken to a width.
pub open spec fn wrapped_text(s: Seq<char>, width: u16) -> Seq<Seq<char>> {
    wrapped_lines(s, width).map_values(|at: Seq<int>| text_at(s, at))
}

/// All positions of the lines, one after the other.
pub open spec fn all_positions(lines: Seq<Seq<int>>) -> Seq<int>
    decreases lines.len(),
{
    if lines.len() == 0 {
        seq![]
    } else {
        all_positions(lines.drop_last()) + lines.last()
    }
}

/// The positions below `n`.
pub open spec fn positions_below(n: int) -> Seq<int> {
    Seq::new(n as nat, |i: int| i)
}

/// A line is one character, or it fits the width.
pub open spec fn fits(s: Seq<char>, line: Seq<int>, width: nat) -> bool {
    line.len() == 1 || cells_sum(s, line) <= width
}

proof fn lemma_without_spaces_add(s: Seq<char>, a: Seq<int>, b: Seq<int>)
    ensures
        without_spaces(s, a + b) == without_spaces(s, a) + without_spaces(s, b),
    decreases b.len(),
{
    if b.len() == 0 {
        assert(a + b =~= a);
        assert(without_spaces(s, a) + without_spaces(s, b) =~= without_spaces(s, a));
    } else {
        let t = b.drop_last();
        lemma_without_spaces_add(s, a, t);
        assert((a + b).drop_last() =~= a + t);
        assert((a + b).last() == b.last());
        if s[b.last()] != ' ' {
            assert(without_spaces(s, a) + without_spaces(s, b) =~= (without_spaces(s, a) + without_spaces(s, t)).push(
                b.last(),
            ));
        }
    }
}

proof fn lemma_without_spaces_again(s: Seq<char>, at: Seq<int>)
    ensures
        without_spaces(s, without_spaces(s, at)) == without_spaces(s, at),
    decreases at.len(),
{
    if at.len() > 0 {
        let t = at.drop_last();
        lemma_without_spaces_again(s, t);
        if s[at.last()] != ' ' {
            assert(without_spaces(s, at).drop_last() =~= without_spaces(s, t));
        }
    }
}

/// What the lines and the growing line hold after `n` characters: every
/// character that is no space, in order.
proof fn lemma_wrapping_keeps_words(s: Seq<char>, n: int, width: nat)
    requires
        0 <= n <= s.len(),
    ensures
        ({
            let w = wrapping_of(s, n, width);
            without_spaces(s, all_positions(w.lines) + w.current) == without_spaces(s, positions_below(n))
        }),
    decreases n,
{
    let w = wrapping_of(s, n, width);
    if n == 0 {
        assert(all_positions(w.lines) + w.current =~= positions_below(0));
    } else {
        let i = n - 1;
        let b = wrapping_of(s, i, width);
        lemma_wrapping_keeps_words(s, i, width);
        let before = all_positions(b.lines) + b.current;
        assert(positions_below(n).drop_last() =~= positions_below(i));
        assert(positions_below(n).last() == i);
        if s[i] == ' ' && b.current.len() == 0 {
        } else if b.width + cell_of(s[i]) > width && b.current.len() > 0 {
            if s[i] == ' ' {
                assert(w.lines.drop_last() =~= b.lines);
                assert(all_positions(w.lines) + w.current =~= before);
            } else {
                match b.last_space {
                    Some(space) => {
                        let tail = b.current.skip(space);
                        let rest = without_spaces(s, tail);
                        let head = b.current.take(space);
                        assert(w.lines.drop_last() =~= b.lines);
                        lemma_wrapping_shape(s, i, width);
                        assert(head + tail =~= b.current);
                        let upto = all_positions(b.lines) + head;
                        assert(all_positions(w.lines) == upto);
                        assert(all_positions(w.lines) + w.current =~= (upto + rest).push(i));
                        assert(before =~= upto + tail);
                        lemma_without_spaces_add(s, upto, rest);
                        lemma_without_spaces_add(s, upto, tail);
                        lemma_without_spaces_again(s, tail);
                        assert((upto + rest).push(i).drop_last() =~= upto + rest);
                    },
                    None => {
                        assert(w.lines.drop_last() =~= b.lines);
                        assert(all_positions(w.lines) == before);
                        assert(w.current =~= seq![i]);
                        assert(all_positions(w.lines) + w.current =~= before.push(i));
                        assert(before.push(i).drop_last() =~= before);
                    },
                }
            }
        } else {
            assert(all_positions(w.lines) + w.current =~= before.push(i));
            assert(before.push(i).drop_last() =~= before);
        }
    }
}

/// No line is empty, and the last space of the growing line is inside it.
proof fn lemma_wrapping_shape(s: Seq<char>, n: int, width: nat)
    requires
        0 <= n <= s.len(),
    ensures
        ({
            let w = wrapping_of(s, n, width);
            &&& forall|k: int| 0 <= k < w.lines.len() ==> (#[trigger] w.lines[k]).len() > 0
            &&& w.last_space is Some ==> 0 < w.last_space->0 < w.current.len() && s[w.current[w.last_space->0]] == ' '
        }),
    decreases n,
{
    if n > 0 {
        lemma_wrapping_shape(s, n - 1, width);
        let b = wrapping_of(s, n - 1, width);
        let w = wrapping_of(s, n, width);
        assert(w == b.step(s, n - 1, width));
        if w.lines.len() > b.lines.len() {
            assert(w.lines.drop_last() =~= b.lines);
            assert forall|k: int| 0 <= k < w.lines.len() implies (#[trigger] w.lines[k]).len() > 0 by {
                if k < b.lines.len() {
                    assert(w.lines[k] == b.lines[k]);
                }
            }
        }
    }
}

proof fn lemma_wrapping_fits(s: Seq<char>, n: int, width: nat)
    requires
        0 <= n <= s.len(),
        width > 0,
        forall|k: int| 0 <= k < s.len() ==> 1 <= char_width_of(#[trigger] s[k]) <= 2,
    ensures
        ({
            let w = wrapping_of(s, n, width);
            &&& forall|k: int| 0 <= k < w.lines.len() ==> fits(s, #[trigger] w.lines[k], width)
            &&& fits(s, w.current, width)
            &&& w.width == cells_sum(s, w.current)
            &&& w.last_space is Some ==> w.width <= width
            &&& forall|k: int| 0 <= k < w.current.len() ==> 0 <= #[trigger] w.current[k] < n
        }),
    decreases n,
{
    if n > 0 {
        let i = n - 1;
        lemma_wrapping_fits(s, i, width);
        lemma_wrapping_shape(s, i, width);
        let b = wrapping_of(s, i, width);
        let w = wrapping_of(s, n, width);
        assert(w == b.step(s, i, width));
        assert(1 <= char_width_of(s[i]) <= 2);
        if s[i] == ' ' && b.current.len() == 0 {
        } else if b.width + cell_of(s[i]) > width && b.current.len() > 0 {
            assert forall|k: int| 0 <= k < b.lines.len() implies w.lines[k] == b.lines[k] by {}
            if s[i] == ' ' {
            } else {
                match b.last_space {
                    Some(space) => {
                        let tail = b.current.skip(space);
                        let rest = without_spaces(s, tail);
                        let head = b.current.take(space);
                        lemma_cells_split(s, b.current, space);
                        lemma_without_spaces(s, tail);
                        assert(head.last() == b.current[space - 1]);
                        assert(cells_sum(s, head) >= 1);
                        // The space itself is left out.
                        lemma_cells_split(s, tail, 1);
                        assert(tail.take(1) =~= seq![b.current[space]]);
                        assert(tail.take(1).drop_last() =~= seq![]);
                        assert(cells_sum(s, tail.take(1)) >= 1);
                        assert(seq![b.current[space]] + tail.skip(1) =~= tail);
                        lemma_without_spaces_add(s, seq![b.current[space]], tail.skip(1));
                        assert(seq![b.current[space]].drop_last() =~= seq![]);
                        assert(without_spaces(s, seq![b.current[space]].drop_last()) =~= seq![]);
                        assert(seq![b.current[space]].last() == b.current[space]);
                        assert(without_spaces(s, seq![b.current[space]]) =~= seq![]);
                        assert(rest =~= without_spaces(s, tail.skip(1)));
                        lemma_without_spaces(s, tail.skip(1));
                        assert(w.current.drop_last() =~= rest);
                        assert(w.current =~= rest.push(i));
                        assert(cells_sum(s, w.current) == cells_sum(s, rest) + char_width_of(s[i]));
                        assert(cells_sum(s, head) <= width);
                        assert forall|k: int| 0 <= k < w.lines.len() implies fits(s, #[trigger] w.lines[k], width) by {
                            if k == b.lines.len() {
                                assert(w.lines[k] == head);
                            }
                        }
                        assert forall|k: int| 0 <= k < w.current.len() implies 0 <= #[trigger] w.current[k] < n by {
                            if k < rest.len() {
                                assert(rest.contains(rest[k]));
                                let m = choose|m: int| 0 <= m < tail.len() && tail[m] == rest[k];
                                assert(tail[m] == b.current[m + space]);
                            }
                        }
                    },
                    None => {
                        assert(w.current =~= seq![i]);
                        assert(w.current.drop_last() =~= seq![]);
                        assert(cells_sum(s, w.current.drop_last()) == 0);
                        assert(w.current.last() == i);
                        assert(cells_sum(s, w.current) == char_width_of(s[i]));
                    },
                }
            }
        } else {
            assert(w.current.drop_last() =~= b.current);
            assert(w.current.last() == i);
            assert(cells_sum(s, w.current) == cells_sum(s, b.current) + char_width_of(s[i]));
            if b.current.len() == 0 {
                assert(w.current.len() == 1);
            }
        }
    }
}

/// A text that is broken to a width keeps every character that is no space, in
/// order; no line is empty.
pub proof fn lemma_wrapped_keeps_words(s: Seq<char>, width: u16)
    requires
        width > 0,
    ensures
        without_spaces(s, all_positions(wrapped_lines(s, width))) == without_spaces(s, positions_below(s.len() as int)),
        forall|k: int| 0 <= k < wrapped_lines(s, width).len() ==> (#[trigger] wrapped_lines(s, width)[k]).len() > 0,
{
    let n = s.len() as int;
    let w = wrapping_of(s, n, width as nat);
    lemma_wrapping_keeps_words(s, n, width as nat);
    lemma_wrapping_shape(s, n, width as nat);
    if w.current.len() > 0 {
        assert(w.lines.push(w.current).drop_last() =~= w.lines);
    } else {
        assert(all_positions(w.lines) + w.current =~= all_positions(w.lines));
    }
}

/// Where every character takes one or two cells, no line of more than one
/// character is wider than the width.
pub proof fn lemma_wrapped_fits(s: Seq<char>, width: u16)
    requires
        width > 0,
        forall|k: int| 0 <= k < s.len() ==> 1 <= char_width_of(#[trigger] s[k]) <= 2,
    ensures
        forall|k: int| 0 <= k < wrapped_lines(s, width).len() ==> fits(s, #[trigger] wrapped_lines(s, width)[k], width as nat),
{
    lemma_wrapping_fits(s, s.len() as int, width as nat);
}

/// The lines of a text that is broken to a width.
pub fn wrap_lyric_text(text: &str, width: u16) -> (r: Vec<String>)
    ensures
        texts(r@) == wrapped_text(text@, width),
{
    let chars = chars_of(text);
    let lines = wrap_positions(text, width);
    let ghost all = wrapped_lines(text@, width);
    let mut out: Vec<String> = Vec::new();
    let mut i: usize = 0;
    proof {
        lemma_positions_in_text(text@, width);
    }
    while i < lines.len()
        invariant
            i <= lines@.len(),
            chars@ == text@,
            all == wrapped_lines(text@, width),
            position_lines(lines@) == all,
            forall|k: int, j: int| 0 <= k < all.len() && 0 <= j < all[k].len() ==> 0 <= #[trigger] all[k][j] < text@.len(),
            texts(out@) =~= wrapped_text(text@, width).take(i as int),
        decreases lines@.len() - i,
    {
        let mut line: String = String::new();
        let mut j: usize = 0;
        let ghost at = all[i as int];
        proof {
            assert(at == positions(lines@[i as int]@));
        }
        while j < lines[i].len()
            invariant
                i < lines@.len(),
                chars@ == text@,
                at == positions(lines@[i as int]@),
                forall|j: int| 0 <= j < at.len() ==> 0 <= #[trigger] at[j] < text@.len(),
                j <= at.len(),
                line@ =~= text_at(text@, at).take(j as int),
            decreases at.len() - j,
        {
            proof {
                assert(at[j as int] == lines@[i as int]@[j as int]);
            }
            line.push(chars[lines[i][j]]);
            j += 1;
        }
        let ghost held = out@;
        out.push(line);
        proof {
            assert(line@ =~= text_at(text@, at));
            assert(texts(out@) =~= texts(held).push(line@));
            assert(wrapped_text(text@, width)[i as int] == text_at(text@, at));
        }
        i += 1;
    }
    proof {
        assert(wrapped_text(text@, width).take(i as int) =~= wrapped_text(text@, width));
    }
    out
}

/// The lines hold positions of the text.
pub proof fn lemma_positions_in_text(s: Seq<char>, width: u16)
    ensures
        forall|k: int, j: int|
            0 <= k < wrapped_lines(s, width).len() && 0 <= j < wrapped_lines(s, width)[k].len() ==> 0
                <= #[trigger] wrapped_lines(s, width)[k][j] < s.len(),
{
    if width > 0 {
        lemma_positions_below(s, s.len() as int, width as nat);
    }
}

proof fn lemma_positions_below(s: Seq<char>, n: int, width: nat)
    requires
        0 <= n <= s.len(),
    ensures
        ({
            let w = wrapping_of(s, n, width);
            &&& forall|k: int, j: int| 0 <= k < w.lines.len() && 0 <= j < w.lines[k].len() ==> 0 <= #[trigger] w.lines[k][j] < n
            &&& forall|j: int| 0 <= j < w.current.len() ==> 0 <= #[trigger] w.current[j] < n
        }),
    decreases n,
{
    if n > 0 {
        let i = n - 1;
        lemma_positions_below(s, i, width);
        lemma_wrapping_shape(s, i, width);
        let b = wrapping_of(s, i, width);
        let w = wrapping_of(s, n, width);
        assert(w == b.step(s, i, width));
        if b.last_space is Some {
            let space = b.last_space->0;
            let tail = b.current.skip(space);
            let rest = without_spaces(s, tail);
            lemma_without_spaces(s, tail);
            assert forall|k: int| 0 <= k < rest.len() implies 0 <= #[trigger] rest[k] < i by {
                assert(rest.contains(rest[k]));
                let m = choose|m: int| 0 <= m < tail.len() && tail[m] == rest[k];
                assert(tail[m] == b.current[m + space]);
            }
        }
        assert forall|k: int, j: int| 0 <= k < w.lines.len() && 0 <= j < w.lines[k].len() implies 0
            <= #[trigger] w.lines[k][j] < n by {
            if k < b.lines.len() {
                assert(w.lines[k] == b.lines[k]);
                assert(0 <= b.lines[k][j] < i);
            }
        }
    }
}

} // verus!
