//! File paths as text, with `/` between their components.

use vstd::prelude::*;

use crate::text::{
    chars_of, first_of, last_of, lemma_first_of, lemma_first_of_is, lemma_last_of, rfind_char, same_chars, skip_chars,
    slices, split_char, split_of, string_of, take_chars,
};

verus! {

/// A path without the separators at its end, and without the points that
/// follow a separator there.
pub open spec fn without_ending(path: Seq<char>) -> Seq<char>
    decreases path.len(),
{
    if path.len() > 0 && (path.last() == '/' || (path.len() > 1 && path.last() == '.' && path[path.len() - 2] == '/')) {
        without_ending(path.drop_last())
    } else {
        path
    }
}

/// The last component of a path: what follows its last separator.
pub open spec fn file_name_of(path: Seq<char>) -> Seq<char> {
    let kept = without_ending(path);
    kept.skip(last_of(kept, '/') + 1)
}

/// Whether a component names something, and is not one of the two that stand
/// for a directory on the way.
pub open spec fn is_name(component: Seq<char>) -> bool {
    component.len() > 0 && component != "."@ && component != ".."@
}

/// How much of a file name stands before its extension: everything where it
/// has no point, or only one at its start.
pub open spec fn stem_length(name: Seq<char>) -> int {
    let point = last_of(name, '.');
    if point <= 0 || name == ".."@ {
        name.len() as int
    } else {
        point
    }
}

/// The extension of a path: what follows the last point of its file name.
pub open spec fn extension_of(path: Seq<char>) -> Option<Seq<char>> {
    let name = file_name_of(path);
    if stem_length(name) < name.len() {
        Some(name.skip(stem_length(name) + 1))
    } else {
        None
    }
}

/// The path with another extension, if it names a file.
pub open spec fn with_extension_of(path: Seq<char>, extension: Seq<char>) -> Seq<char> {
    let kept = without_ending(path);
    let name = file_name_of(path);
    if !is_name(name) {
        path
    } else {
        kept.take(kept.len() - name.len() + stem_length(name)) + (if extension.len() > 0 {
            "."@ + extension
        } else {
            extension
        })
    }
}

/// `part` below `base`; a part that starts at the root stands by itself.
pub open spec fn join_of(base: Seq<char>, part: Seq<char>) -> Seq<char> {
    if base.len() == 0 || (part.len() > 0 && part[0] == '/') {
        part
    } else if base.last() == '/' {
        base + part
    } else {
        base + "/"@ + part
    }
}

/// The path without its ending.
fn trim_ending(path: &[char]) -> (r: &[char])
    ensures
        r@ == without_ending(path@),
{
    let mut n: usize = path.len();
    proof {
        assert(path@.take(n as int) =~= path@);
    }
    while n > 0 && (path[n - 1] == '/' || (n > 1 && path[n - 1] == '.' && path[n - 2] == '/'))
        invariant
            n <= path@.len(),
            without_ending(path@) == without_ending(path@.take(n as int)),
        decreases n,
    {
        proof {
            assert(path@.take(n as int).drop_last() =~= path@.take(n - 1));
        }
        n -= 1;
    }
    take_chars(path, n)
}

/// Where the file name starts in a path without its ending.
fn name_start(path: &[char]) -> (r: usize)
    ensures
        r == last_of(path@, '/') + 1,
        r <= path@.len(),
{
    match rfind_char(path, '/') {
        Some(i) => i + 1,
        None => 0,
    }
}

fn names_something(name: &[char]) -> (r: bool)
    ensures
        r == is_name(name@),
{
    proof {
        reveal_strlit(".");
        reveal_strlit("..");
        if name@.len() == 1 && name@[0] == '.' {
            assert(name@ =~= "."@);
        }
        if name@.len() == 2 && name@[0] == '.' && name@[1] == '.' {
            assert(name@ =~= ".."@);
        }
    }
    let point: bool = name.len() == 1 && name[0] == '.';
    let points: bool = name.len() == 2 && name[0] == '.' && name[1] == '.';
    name.len() > 0 && !point && !points
}

fn stem_end(name: &[char]) -> (r: usize)
    ensures
        r == stem_length(name@),
        r <= name@.len(),
{
    proof {
        lemma_last_of(name@, '.');
        reveal_strlit("..");
        assert(name@ == ".."@ ==> last_of(name@, '.') == 1);
        if name@.len() == 2 && name@[0] == '.' && name@[1] == '.' {
            assert(name@ =~= ".."@);
        }
    }
    if name.len() == 2 && name[0] == '.' && name[1] == '.' {
        return 2;
    }
    match rfind_char(name, '.') {
        Some(i) => if i == 0 {
            name.len()
        } else {
            i
        },
        None => name.len(),
    }
}

/// The extension of a path.
pub fn extension(path: &str) -> (r: Option<String>)
    ensures
        crate::text::text_option(r) == extension_of(path@),
{
    let chars = chars_of(path);
    let kept = trim_ending(chars.as_slice());
    let name = skip_chars(kept, name_start(kept));
    let end: usize = stem_end(name);
    if end < name.len() {
        Some(string_of(skip_chars(name, end + 1)))
    } else {
        None
    }
}

/// The path with another extension.
pub fn with_extension(path: &str, extension: &str) -> (r: String)
    ensures
        r@ == with_extension_of(path@, extension@),
{
    let chars = chars_of(path);
    let kept = trim_ending(chars.as_slice());
    let start: usize = name_start(kept);
    let name = skip_chars(kept, start);
    if !names_something(name) {
        return path.to_owned();
    }
    let end: usize = stem_end(name);
    let total: usize = kept.len();
    assert(start + end <= total);
    let mut out: String = string_of(take_chars(kept, start + end));
    if extension.unicode_len() > 0 {
        out.append(".");
        proof {
            assert((kept@.take(start + end) + "."@) + extension@ =~= kept@.take(start + end) + ("."@ + extension@));
        }
    }
    out.append(extension);
    out
}

/// `part` below `base`.
pub fn join(base: &str, part: &str) -> (r: String)
    ensures
        r@ == join_of(base@, part@),
{
    let b = chars_of(base);
    let p = chars_of(part);
    if b.len() == 0 || (p.len() > 0 && p[0] == '/') {
        return part.to_owned();
    }
    let mut out: String = base.to_owned();
    if b[b.len() - 1] != '/' {
        out.append("/");
    }
    out.append(part);
    out
}

/// Whether a segment of a path is one of its components. A segment that says
/// nothing, or a point that does not start the path, is none.
pub open spec fn is_component(segment: Seq<char>, first: bool) -> bool {
    segment.len() > 0 && (segment != seq!['.'] || first)
}

/// The components among the segments of a path.
pub open spec fn components_among(segments: Seq<Seq<char>>) -> Seq<Seq<char>>
    decreases segments.len(),
{
    if segments.len() == 0 {
        segments
    } else {
        let before = components_among(segments.drop_last());
        if is_component(segments.last(), segments.len() == 1) {
            before.push(segments.last())
        } else {
            before
        }
    }
}

/// The components of a path.
pub open spec fn components_of(path: Seq<char>) -> Seq<Seq<char>> {
    components_among(split_of(path, '/'))
}

pub open spec fn is_absolute_of(path: Seq<char>) -> bool {
    path.len() > 0 && path[0] == '/'
}

/// Whether a path starts with all the components of another.
pub open spec fn is_below_of(path: Seq<char>, root: Seq<char>) -> bool {
    &&& is_absolute_of(root) ==> is_absolute_of(path)
    &&& !is_absolute_of(root) && components_of(root).len() > 0 ==> !is_absolute_of(path)
    &&& components_of(root).is_prefix_of(components_of(path))
}

/// Whether two texts are the same path: the same components, from the root or
/// from where one stands.
pub open spec fn same_path_of(a: Seq<char>, b: Seq<char>) -> bool {
    is_absolute_of(a) == is_absolute_of(b) && components_of(a) == components_of(b)
}

fn components(path: &[char]) -> (r: Vec<&[char]>)
    ensures
        slices(r@) == components_of(path@),
{
    let segments = split_char(path, '/');
    let ghost all = slices(segments@);
    let mut out: Vec<&[char]> = Vec::new();
    let mut i: usize = 0;
    proof {
        assert(slices(out@) =~= all.take(0));
    }
    while i < segments.len()
        invariant
            i <= segments@.len(),
            all == slices(segments@),
            slices(out@) == components_among(all.take(i as int)),
        decreases segments@.len() - i,
    {
        let segment = segments[i];
        proof {
            assert(all.take(i + 1).drop_last() =~= all.take(i as int));
            assert(all.take(i + 1).last() == segment@);
            if segment@.len() == 1 && segment@[0] == '.' {
                assert(segment@ =~= seq!['.']);
            }
        }
        let point: bool = segment.len() == 1 && segment[0] == '.';
        if segment.len() > 0 && (!point || i == 0) {
            let ghost held = out@;
            out.push(segment);
            proof {
                assert(slices(out@) =~= slices(held).push(segment@));
            }
        }
        i += 1;
    }
    proof {
        assert(all.take(i as int) =~= all);
    }
    out
}

/// Whether two texts are the same path.
pub fn same_path(a: &str, b: &str) -> (r: bool)
    ensures
        r == same_path_of(a@, b@),
{
    let r: bool = is_below(a, b) && is_below(b, a) && starts_at_root(a) == starts_at_root(b);
    proof {
        let p = components_of(a@);
        let q = components_of(b@);
        if p.is_prefix_of(q) && q.is_prefix_of(p) {
            assert(p =~= q);
        }
        assert(p.subrange(0, p.len() as int) =~= p);
    }
    r
}

fn starts_at_root(path: &str) -> (r: bool)
    ensures
        r == is_absolute_of(path@),
{
    let chars = chars_of(path);
    chars.len() > 0 && chars[0] == '/'
}

/// Whether a path starts with all the components of another.
pub fn is_below(path: &str, root: &str) -> (r: bool)
    ensures
        r == is_below_of(path@, root@),
{
    let p = chars_of(path);
    let b = chars_of(root);
    let parts = components(p.as_slice());
    let base = components(b.as_slice());
    let path_absolute: bool = p.len() > 0 && p[0] == '/';
    let root_absolute: bool = b.len() > 0 && b[0] == '/';
    proof {
        assert(slices(base@).len() == base@.len());
        assert(slices(parts@).len() == parts@.len());
    }
    if root_absolute && !path_absolute {
        return false;
    }
    if !root_absolute && base.len() > 0 && path_absolute {
        return false;
    }
    if base.len() > parts.len() {
        return false;
    }
    let mut i: usize = 0;
    while i < base.len()
        invariant
            i <= base@.len() <= parts@.len(),
            slices(base@) == components_of(root@),
            slices(parts@) == components_of(path@),
            forall|j: int| 0 <= j < i ==> (#[trigger] base@[j])@ == parts@[j]@,
        decreases base@.len() - i,
    {
        if !same_chars(base[i], parts[i]) {
            proof {
                assert(slices(base@)[i as int] != slices(parts@)[i as int]);
                assert(slices(parts@).subrange(0, base@.len() as int)[i as int] == slices(parts@)[i as int]);
            }
            return false;
        }
        i += 1;
    }
    proof {
        assert(slices(base@) =~= slices(parts@).subrange(0, base@.len() as int)) by {
            assert forall|j: int| 0 <= j < base@.len() implies slices(base@)[j] == slices(parts@)[j] by {
                assert(base@[j]@ == parts@[j]@);
            }
        }
    }
    true
}

// The order of paths.

/// Whether a text stands before another, character by character.
pub open spec fn text_before(a: Seq<char>, b: Seq<char>) -> bool
    decreases a.len(),
{
    if b.len() == 0 {
        false
    } else if a.len() == 0 {
        true
    } else if a[0] != b[0] {
        a[0] < b[0]
    } else {
        text_before(a.drop_first(), b.drop_first())
    }
}

/// The place of a component among the others: the directory in which one
/// stands comes first, then the one above it, then all that have a name.
pub open spec fn component_rank(component: Seq<char>) -> int {
    if component == "."@ {
        0
    } else if component == ".."@ {
        1
    } else {
        2
    }
}

pub open spec fn component_before(a: Seq<char>, b: Seq<char>) -> bool {
    component_rank(a) < component_rank(b) || (component_rank(a) == component_rank(b) && text_before(a, b))
}

/// Whether some components stand before others, component by component.
pub open spec fn components_before(a: Seq<Seq<char>>, b: Seq<Seq<char>>) -> bool
    decreases a.len(),
{
    if b.len() == 0 {
        false
    } else if a.len() == 0 {
        true
    } else if a[0] != b[0] {
        component_before(a[0], b[0])
    } else {
        components_before(a.drop_first(), b.drop_first())
    }
}

/// Whether a path stands before another. The root stands before every
/// component, and the path that is empty before all others.
pub open spec fn path_before(a: Seq<char>, b: Seq<char>) -> bool {
    if is_absolute_of(a) == is_absolute_of(b) {
        components_before(components_of(a), components_of(b))
    } else if is_absolute_of(a) {
        components_of(b).len() > 0
    } else {
        components_of(a).len() == 0
    }
}

proof fn lemma_text_order(a: Seq<char>, b: Seq<char>, c: Seq<char>)
    ensures
        !text_before(a, a),
        a == b || text_before(a, b) || text_before(b, a),
        text_before(a, b) && text_before(b, c) ==> text_before(a, c),
    decreases a.len(),
{
    if a.len() > 0 {
        let d = if b.len() > 0 { b.drop_first() } else { b };
        let e = if c.len() > 0 { c.drop_first() } else { c };
        lemma_text_order(a.drop_first(), d, e);
        if b.len() > 0 && a[0] == b[0] && a.drop_first() == d {
            assert(a =~= seq![a[0]] + a.drop_first());
            assert(b =~= seq![b[0]] + b.drop_first());
        }
    } else if b.len() == 0 {
        assert(a =~= b);
    }
}

proof fn lemma_component_order(a: Seq<char>, b: Seq<char>, c: Seq<char>)
    ensures
        !component_before(a, a),
        a == b || component_before(a, b) || component_before(b, a),
        component_before(a, b) && component_before(b, c) ==> component_before(a, c),
{
    lemma_text_order(a, b, c);
}

proof fn lemma_components_order(a: Seq<Seq<char>>, b: Seq<Seq<char>>, c: Seq<Seq<char>>)
    ensures
        !components_before(a, a),
        a == b || components_before(a, b) || components_before(b, a),
        components_before(a, b) && components_before(b, c) ==> components_before(a, c),
    decreases a.len(),
{
    if a.len() > 0 {
        let d = if b.len() > 0 { b.drop_first() } else { b };
        let e = if c.len() > 0 { c.drop_first() } else { c };
        lemma_components_order(a.drop_first(), d, e);
        if b.len() > 0 {
            lemma_component_order(a[0], b[0], a[0]);
            if c.len() > 0 {
                lemma_component_order(a[0], b[0], c[0]);
            }
            if a[0] == b[0] && a.drop_first() == d {
                assert(a =~= seq![a[0]] + a.drop_first());
                assert(b =~= seq![b[0]] + b.drop_first());
            }
        }
    } else if b.len() == 0 {
        assert(a =~= b);
    }
}

/// Of two paths that are not the same exactly one stands before the other, and
/// what stands before a path stands before all that it stands before.
pub proof fn lemma_path_order(a: Seq<char>, b: Seq<char>, c: Seq<char>)
    ensures
        same_path_of(a, b) <==> !path_before(a, b) && !path_before(b, a),
        !(path_before(a, b) && path_before(b, a)),
        path_before(a, b) && path_before(b, c) ==> path_before(a, c),
{
    let p = components_of(a);
    let q = components_of(b);
    let r = components_of(c);
    lemma_components_order(p, q, r);
    lemma_components_order(q, p, q);
    lemma_components_order(p, q, p);
    lemma_components_order(p, r, q);
    lemma_components_order(q, r, p);
}

fn text_precedes(a: &[char], b: &[char]) -> (r: bool)
    ensures
        r == text_before(a@, b@),
{
    let mut i: usize = 0;
    proof {
        assert(a@.skip(0) =~= a@);
        assert(b@.skip(0) =~= b@);
    }
    while i < a.len() && i < b.len() && a[i] == b[i]
        invariant
            i <= a@.len(),
            i <= b@.len(),
            text_before(a@, b@) == text_before(a@.skip(i as int), b@.skip(i as int)),
        decreases a@.len() - i,
    {
        proof {
            assert(a@.skip(i as int).drop_first() =~= a@.skip(i + 1));
            assert(b@.skip(i as int).drop_first() =~= b@.skip(i + 1));
        }
        i += 1;
    }
    if i >= b.len() {
        false
    } else if i >= a.len() {
        true
    } else {
        a[i] < b[i]
    }
}

fn rank_component(component: &[char]) -> (r: u8)
    ensures
        r == component_rank(component@),
{
    proof {
        reveal_strlit(".");
        reveal_strlit("..");
        if component@.len() == 1 && component@[0] == '.' {
            assert(component@ =~= "."@);
        }
        if component@.len() == 2 && component@[0] == '.' && component@[1] == '.' {
            assert(component@ =~= ".."@);
        }
    }
    if component.len() == 1 && component[0] == '.' {
        0
    } else if component.len() == 2 && component[0] == '.' && component[1] == '.' {
        1
    } else {
        2
    }
}

/// Whether a path stands before another.
pub fn path_precedes(a: &str, b: &str) -> (r: bool)
    ensures
        r == path_before(a@, b@),
{
    let left = chars_of(a);
    let right = chars_of(b);
    let p = components(left.as_slice());
    let q = components(right.as_slice());
    let left_absolute: bool = left.len() > 0 && left[0] == '/';
    let right_absolute: bool = right.len() > 0 && right[0] == '/';
    let ghost all_left = slices(p@);
    let ghost all_right = slices(q@);
    if left_absolute != right_absolute {
        proof {
            assert(all_left.len() == p@.len() && all_right.len() == q@.len());
        }
        return if left_absolute {
            q.len() > 0
        } else {
            p.len() == 0
        };
    }
    let mut i: usize = 0;
    proof {
        assert(all_left.skip(0) =~= all_left);
        assert(all_right.skip(0) =~= all_right);
    }
    while i < p.len() && i < q.len() && same_chars(p[i], q[i])
        invariant
            i <= p@.len(),
            i <= q@.len(),
            all_left == slices(p@),
            all_right == slices(q@),
            components_before(all_left, all_right) == components_before(
                all_left.skip(i as int),
                all_right.skip(i as int),
            ),
        decreases p@.len() - i,
    {
        proof {
            assert(all_left.skip(i as int).drop_first() =~= all_left.skip(i + 1));
            assert(all_right.skip(i as int).drop_first() =~= all_right.skip(i + 1));
        }
        i += 1;
    }
    if i >= q.len() {
        false
    } else if i >= p.len() {
        true
    } else {
        proof {
            assert(all_left.skip(i as int)[0] == p@[i as int]@);
            assert(all_right.skip(i as int)[0] == q@[i as int]@);
        }
        let x: u8 = rank_component(p[i]);
        let y: u8 = rank_component(q[i]);
        x < y || (x == y && text_precedes(p[i], q[i]))
    }
}

/// What follows a separator without holding one is the last piece.
pub proof fn lemma_split_last(s: Seq<char>, c: char, last: Seq<char>)
    requires
        !last.contains(c),
    ensures
        split_of(s + seq![c] + last, c) == split_of(s, c).push(last),
    decreases s.len(),
{
    let whole = s + seq![c] + last;
    lemma_first_of(s, c);
    let i = first_of(s, c);
    if i < s.len() {
        lemma_first_of_is(whole, c, i);
        assert(whole.take(i) =~= s.take(i));
        assert(whole.skip(i + 1) =~= s.skip(i + 1) + seq![c] + last);
        lemma_split_last(s.skip(i + 1), c, last);
        assert(split_of(whole, c) == seq![s.take(i)] + split_of(s.skip(i + 1), c).push(last));
        assert(split_of(s, c) == seq![s.take(i)] + split_of(s.skip(i + 1), c));
        assert(seq![s.take(i)] + split_of(s.skip(i + 1), c).push(last) =~= (seq![s.take(i)] + split_of(
            s.skip(i + 1),
            c,
        )).push(last));
    } else {
        lemma_first_of_is(whole, c, s.len() as int);
        assert(whole.take(s.len() as int) =~= s);
        assert(whole.skip(s.len() as int + 1) =~= last);
        lemma_first_of(last, c);
        assert(split_of(last, c) == seq![last]);
        assert(split_of(whole, c) == seq![s] + seq![last]);
        assert(split_of(s, c) == seq![s]);
        assert(seq![s] + seq![last] =~= seq![s].push(last));
    }
}

/// The components of a path in which something follows a separator.
proof fn lemma_components_last(path: Seq<char>, last: Seq<char>)
    requires
        !last.contains('/'),
    ensures
        components_of(path + seq!['/'] + last) == if last.len() > 0 && last != seq!['.'] {
            components_of(path).push(last)
        } else {
            components_of(path)
        },
{
    lemma_split_last(path, '/', last);
    let pieces = split_of(path, '/');
    assert(pieces.push(last).drop_last() =~= pieces);
    assert(pieces.len() > 0);
}

/// The ending of a path adds no component.
pub proof fn lemma_ending(path: Seq<char>)
    ensures
        components_of(without_ending(path)) == components_of(path),
    decreases path.len(),
{
    if path.len() > 0 && path.last() == '/' {
        let rest = path.drop_last();
        assert(rest + seq!['/'] + Seq::<char>::empty() =~= path);
        lemma_components_last(rest, Seq::empty());
        lemma_ending(rest);
    } else if path.len() > 1 && path.last() == '.' && path[path.len() - 2] == '/' {
        let rest = path.drop_last();
        let before = rest.drop_last();
        assert(before + seq!['/'] + seq!['.'] =~= path);
        assert(before + seq!['/'] + Seq::<char>::empty() =~= rest);
        lemma_components_last(before, seq!['.']);
        lemma_components_last(before, Seq::empty());
        lemma_ending(rest);
    }
}

/// The file name of a path is its last component.
pub proof fn lemma_file_name(path: Seq<char>)
    requires
        is_name(file_name_of(path)),
    ensures
        components_of(path).len() > 0,
        components_of(path).last() == file_name_of(path),
{
    let kept = without_ending(path);
    let name = file_name_of(path);
    lemma_ending(path);
    lemma_last_of(kept, '/');
    let i = last_of(kept, '/');
    reveal_strlit(".");
    assert("."@ =~= seq!['.']);
    assert(!name.contains('/'));
    if i < 0 {
        assert(name =~= kept);
        lemma_first_of(kept, '/');
        assert(split_of(kept, '/') =~= seq![kept]);
        assert(components_among(seq![kept].drop_last()) =~= Seq::empty());
    } else {
        assert(kept.take(i) + seq!['/'] + name =~= kept);
        lemma_components_last(kept.take(i), name);
    }
}

/// A name below a directory is one more component, and starts where the
/// directory does.
pub proof fn lemma_join(base: Seq<char>, part: Seq<char>)
    requires
        is_name(part),
        !part.contains('/'),
    ensures
        components_of(join_of(base, part)) == components_of(base).push(part),
        is_absolute_of(join_of(base, part)) == is_absolute_of(base),
        is_below_of(join_of(base, part), base),
{
    let whole = join_of(base, part);
    reveal_strlit(".");
    reveal_strlit("/");
    assert("."@ =~= seq!['.']);
    assert("/"@ =~= seq!['/']);
    assert(part[0] != '/');
    if base.len() == 0 {
        lemma_first_of(part, '/');
        lemma_first_of(base, '/');
        assert(split_of(part, '/') =~= seq![part]);
        assert(split_of(base, '/') =~= seq![base]);
        assert(seq![part].drop_last() =~= Seq::empty());
        assert(seq![base].drop_last() =~= Seq::empty());
        assert(components_among(seq![part]) == components_among(Seq::empty()).push(part));
        assert(components_among(seq![base]) == components_among(Seq::empty()));
    } else if base.last() == '/' {
        let rest = base.drop_last();
        assert(rest + seq!['/'] + part =~= whole);
        assert(rest + seq!['/'] + Seq::<char>::empty() =~= base);
        lemma_components_last(rest, part);
        lemma_components_last(rest, Seq::empty());
    } else {
        lemma_components_last(base, part);
    }
    let before = components_of(base);
    assert(before.push(part).subrange(0, before.len() as int) =~= before);
}

/// A path that names a file names one with the extension that it is given.
pub proof fn lemma_with_extension(path: Seq<char>, extension: Seq<char>)
    requires
        is_name(file_name_of(path)),
        extension.len() > 0,
        !extension.contains('/'),
        !extension.contains('.'),
    ensures
        is_name(file_name_of(with_extension_of(path, extension))),
        extension_of(with_extension_of(path, extension)) == Some(extension),
{
    let kept = without_ending(path);
    let name = file_name_of(path);
    let start = kept.len() - name.len();
    let stem = stem_length(name);
    lemma_last_of(kept, '/');
    lemma_last_of(name, '.');
    reveal_strlit(".");
    reveal_strlit("..");
    let whole = with_extension_of(path, extension);
    let named = name.take(stem) + "."@ + extension;
    assert(whole =~= kept.take(start) + named);
    assert(whole.last() == extension.last());
    assert(without_ending(whole) == whole);
    lemma_last_of(whole, '/');
    assert(start == 0 || whole[start - 1] == '/');
    assert forall|i: int| start <= i < whole.len() implies whole[i] != '/' by {
        if i < start + stem {
            assert(whole[i] == kept[i]);
        } else if i > start + stem {
            assert(whole[i] == extension[i - start - stem - 1]);
        }
    }
    assert(last_of(whole, '/') == start - 1);
    assert(file_name_of(whole) =~= named);
    lemma_last_of(named, '.');
    assert forall|i: int| stem < i < named.len() implies named[i] != '.' by {
        assert(named[i] == extension[i - stem - 1]);
    }
    assert(named[stem] == '.');
    assert(last_of(named, '.') == stem);
    assert(named.skip(stem + 1) =~= extension);
    assert(named.last() != '.');
}

/// Two texts that are the same path name the same file, with the same extension.
pub proof fn lemma_same_path_names(a: Seq<char>, b: Seq<char>)
    requires
        is_name(file_name_of(a)),
        is_name(file_name_of(b)),
        same_path_of(a, b),
    ensures
        file_name_of(a) == file_name_of(b),
        extension_of(a) == extension_of(b),
{
    lemma_file_name(a);
    lemma_file_name(b);
}

proof fn lemma_without_ending(path: Seq<char>)
    ensures
        ({
            let kept = without_ending(path);
            &&& kept.is_prefix_of(path)
            &&& kept.len() > 0 ==> kept.last() != '/'
            &&& kept.len() > 1 ==> !(kept.last() == '.' && kept[kept.len() - 2] == '/')
        }),
    decreases path.len(),
{
    if path.len() > 0 && (path.last() == '/' || (path.len() > 1 && path.last() == '.' && path[path.len() - 2] == '/')) {
        lemma_without_ending(path.drop_last());
    } else {
        assert(path.subrange(0, path.len() as int) =~= path);
    }
}

/// Whether a path names something shows in its last component.
proof fn lemma_names_by_component(path: Seq<char>)
    ensures
        is_name(file_name_of(path)) <==> components_of(path).len() > 0 && is_name(components_of(path).last()),
{
    let kept = without_ending(path);
    let name = file_name_of(path);
    if is_name(name) {
        lemma_file_name(path);
    } else {
        lemma_ending(path);
        lemma_without_ending(path);
        lemma_last_of(kept, '/');
        let i = last_of(kept, '/');
        reveal_strlit(".");
        reveal_strlit("..");
        assert("."@ =~= seq!['.']);
        assert(!name.contains('/'));
        if i < 0 {
            assert(name =~= kept);
            lemma_first_of(kept, '/');
            assert(split_of(kept, '/') =~= seq![kept]);
            assert(components_among(seq![kept].drop_last()) =~= Seq::empty());
        } else {
            assert(name.len() > 0);
            assert(kept.take(i) + seq!['/'] + name =~= kept);
            if name == "."@ {
                assert(kept.last() == '.' && kept[kept.len() - 2] == '/');
            }
            lemma_components_last(kept.take(i), name);
        }
    }
}

/// A file name with another extension.
pub open spec fn renamed_component(name: Seq<char>, extension: Seq<char>) -> Seq<char> {
    name.take(stem_length(name)) + (if extension.len() > 0 {
        "."@ + extension
    } else {
        extension
    })
}

/// Another extension changes the last component of a path that names a file,
/// and nothing else.
pub proof fn lemma_with_extension_components(path: Seq<char>, extension: Seq<char>)
    requires
        is_name(file_name_of(path)),
        !extension.contains('/'),
    ensures
        is_absolute_of(with_extension_of(path, extension)) == is_absolute_of(path),
        components_of(path).len() > 0,
        ({
            let changed = renamed_component(components_of(path).last(), extension);
            is_component(changed, false) ==> components_of(with_extension_of(path, extension)) == components_of(
                path,
            ).drop_last().push(changed)
        }),
{
    let kept = without_ending(path);
    let name = file_name_of(path);
    let stem = stem_length(name);
    let changed = renamed_component(name, extension);
    let whole = with_extension_of(path, extension);
    lemma_file_name(path);
    lemma_ending(path);
    lemma_without_ending(path);
    lemma_last_of(kept, '/');
    lemma_last_of(name, '.');
    let i = last_of(kept, '/');
    reveal_strlit(".");
    reveal_strlit("..");
    assert("."@ =~= seq!['.']);
    assert(!name.contains('/'));
    assert(stem > 0);
    assert forall|k: int| 0 <= k < changed.len() implies changed[k] != '/' by {
        if k < stem {
            assert(changed[k] == name[k]);
            assert(name.contains(name[k]));
        } else if k > stem {
            assert(changed[k] == extension[k - stem - 1]);
            assert(extension.contains(extension[k - stem - 1]));
        }
    }
    assert(kept[0] == path[0]) by {
        assert(path.subrange(0, kept.len() as int)[0] == path[0]);
    }
    if i < 0 {
        assert(whole =~= changed);
        assert(name =~= kept);
        lemma_first_of(kept, '/');
        lemma_first_of(changed, '/');
        assert(split_of(kept, '/') =~= seq![kept]);
        assert(split_of(changed, '/') =~= seq![changed]);
        assert(seq![kept].drop_last() =~= Seq::empty());
        assert(seq![changed].drop_last() =~= Seq::empty());
        assert(components_among(seq![kept]) == components_among(Seq::empty()).push(kept));
        assert(components_of(kept) =~= seq![kept]);
        if is_component(changed, false) {
            assert(components_of(changed) =~= seq![kept].drop_last().push(changed));
        }
    } else {
        assert(whole =~= kept.take(i) + seq!['/'] + changed);
        assert(kept =~= kept.take(i) + seq!['/'] + name);
        lemma_components_last(kept.take(i), name);
        lemma_components_last(kept.take(i), changed);
        assert(components_of(kept.take(i)).push(name).drop_last() =~= components_of(kept.take(i)));
        assert(whole[0] == kept[0]);
    }
}

/// Texts that are the same path are the same path with another extension too.
pub proof fn lemma_same_path_with_extension(a: Seq<char>, b: Seq<char>, extension: Seq<char>)
    requires
        same_path_of(a, b),
        extension.len() > 0,
        !extension.contains('/'),
    ensures
        same_path_of(with_extension_of(a, extension), with_extension_of(b, extension)),
{
    lemma_names_by_component(a);
    lemma_names_by_component(b);
    if is_name(file_name_of(a)) {
        lemma_with_extension_components(a, extension);
        lemma_with_extension_components(b, extension);
        reveal_strlit(".");
        let name = components_of(a).last();
        let changed = renamed_component(name, extension);
        lemma_last_of(name, '.');
        assert(changed.len() > 1);
    }
}

/// A path keeps an extension that it is given twice.
pub proof fn lemma_with_extension_twice(path: Seq<char>, extension: Seq<char>)
    requires
        extension.len() > 0,
        !extension.contains('/'),
        !extension.contains('.'),
    ensures
        with_extension_of(with_extension_of(path, extension), extension) == with_extension_of(path, extension),
{
    if is_name(file_name_of(path)) {
        let whole = with_extension_of(path, extension);
        let name = file_name_of(whole);
        let kept = without_ending(whole);
        lemma_with_extension(path, extension);
        lemma_last_of(kept, '/');
        lemma_last_of(name, '.');
        reveal_strlit(".");
        assert(whole.last() == extension.last());
        assert(extension.contains(extension.last()));
        assert(kept == whole);
        let stem = stem_length(name);
        assert(name.skip(stem + 1) =~= extension);
        assert(name[stem] == '.');
        assert(name =~= name.take(stem) + "."@ + extension);
        assert(whole =~= whole.take(whole.len() - name.len() + stem) + ("."@ + extension));
    }
}

/// Every path lies below itself, and what lies below a part of a path lies
/// below what that part lies below.
pub proof fn lemma_below(path: Seq<char>, middle: Seq<char>, root: Seq<char>)
    requires
        is_below_of(path, middle),
        is_below_of(middle, root),
        components_of(middle).len() > 0,
    ensures
        is_below_of(path, root),
        is_below_of(path, path),
{
    let p = components_of(path);
    let m = components_of(middle);
    let r = components_of(root);
    assert(p.subrange(0, p.len() as int) =~= p);
    assert(p.subrange(0, r.len() as int) =~= m.subrange(0, r.len() as int)) by {
        assert forall|i: int| 0 <= i < r.len() implies p[i] == m[i] by {
            assert(p.subrange(0, m.len() as int)[i] == m[i]);
        }
    }
}

} // verus!
