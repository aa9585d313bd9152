//! Paths, as text with `/` between their components.
//!
//! A path is read the way Unix reads one: several separators in a row are one, a `.` is nothing
//! but at the front of a path that does not start at the root, and so is a separator at the end.
//! What is handed back of a path is a stretch of it as it was written, not a tidied copy.

use vstd::prelude::*;
use vstd::string::*;

use crate::text;

verus! {

broadcast use vstd::string::group_string_axioms;

// ---------------------------------------------------------------------------------------------
// What a path is
// ---------------------------------------------------------------------------------------------

/// A stretch of a path, by the characters it starts and ends at.
pub struct Part {
    /// Where it starts.
    pub start: int,
    /// Where it ends.
    pub end: int,
}

/// Whether what stands between two separators names nothing.
pub open spec fn is_nothing(part: Seq<char>) -> bool {
    part.len() == 0 || (part.len() == 1 && part[0] == '.')
}

/// The stretches of a path between its separators that name something, from `from` on.
pub open spec fn parts_from(path: Seq<char>, from: int) -> Seq<Part>
    decreases path.len() - from,
{
    let end = text::next_at(path, '/', from);
    let behind = if from <= end < path.len() {
        parts_from(path, end + 1)
    } else {
        Seq::empty()
    };
    if is_nothing(path.subrange(from, end)) {
        behind
    } else {
        seq![Part { start: from, end }] + behind
    }
}

/// The stretches of a path that name something.
pub open spec fn parts(path: Seq<char>) -> Seq<Part> {
    parts_from(path, 0)
}

/// Whether a path starts at the root.
pub open spec fn is_rooted(path: Seq<char>) -> bool {
    path.len() > 0 && path[0] == '/'
}

/// What a path starts with ahead of anything it names: the root, the `.` it starts with, or
/// nothing.
pub open spec fn head(path: Seq<char>) -> Seq<Seq<char>> {
    if is_rooted(path) || (path.len() > 0 && path[0] == '.' && (path.len() == 1 || path[1] == '/')) {
        seq![path.take(1)]
    } else {
        Seq::empty()
    }
}

/// What a stretch of a path reads.
pub open spec fn written(path: Seq<char>, part: Part) -> Seq<char> {
    path.subrange(part.start, part.end)
}

/// The components of a path, which is what two paths to the same place have in common.
pub open spec fn components(path: Seq<char>) -> Seq<Seq<char>> {
    head(path) + parts(path).map_values(|part: Part| written(path, part))
}

/// The last component of a path, where that is a name: what the file or folder is called.
pub open spec fn name_of(path: Seq<char>) -> Option<Seq<char>> {
    if parts(path).len() > 0 && written(path, parts(path).last()) != ".."@ {
        Some(written(path, parts(path).last()))
    } else {
        None
    }
}

/// Where the last `mark` ahead of `to` is, if there is one.
pub open spec fn last_at(s: Seq<char>, mark: char, to: int) -> Option<int>
    decreases to,
{
    if to <= 0 {
        None
    } else if s[to - 1] == mark {
        Some(to - 1)
    } else {
        last_at(s, mark, to - 1)
    }
}

/// What stands behind the last dot of a file's name. A name whose only dot is the one it starts
/// with has no extension, and neither has a path that ends in no name.
pub open spec fn extension_of(path: Seq<char>) -> Option<Seq<char>> {
    match name_of(path) {
        None => None,
        Some(name) => match last_at(name, '.', name.len() as int) {
            Some(dot) => if dot > 0 {
                Some(name.skip(dot + 1))
            } else {
                None
            },
            None => None,
        },
    }
}

/// One path taken from another: the other's own, where it starts at the root.
pub open spec fn joined(base: Seq<char>, path: Seq<char>) -> Seq<char> {
    if is_rooted(path) {
        path
    } else if base.len() == 0 || base.last() == '/' {
        base + path
    } else {
        base + "/"@ + path
    }
}

/// Whether a path starts with every component of another.
pub open spec fn starts_with(path: Seq<char>, base: Seq<char>) -> bool {
    components(base).is_prefix_of(components(path))
}

/// How far down components lead: one down for each name, and one back up for each `..`.
pub open spec fn depth(names: Seq<Seq<char>>) -> int
    decreases names.len(),
{
    if names.len() == 0 {
        0
    } else if names.last() == ".."@ {
        depth(names.drop_last()) - 1
    } else {
        depth(names.drop_last()) + 1
    }
}

/// Whether components never lead out of where they are taken from.
pub open spec fn stay_inside(names: Seq<Seq<char>>) -> bool {
    forall|i: int| 0 <= i <= names.len() ==> depth(#[trigger] names.take(i)) >= 0
}

/// Whether a path is the other one, or somewhere inside it: it starts with it, and does not lead
/// out of it again by a `..`.
pub open spec fn is_inside(path: Seq<char>, base: Seq<char>) -> bool {
    starts_with(path, base) && stay_inside(components(path).skip(components(base).len() as int))
}

/// What is left of a path that starts with `base` once `base` is taken off the front of it: from the first
/// to the last of the components that are left, as they were written.
pub open spec fn taken_off(path: Seq<char>, base: Seq<char>) -> Seq<char> {
    let taken = components(base).len();
    if taken == 0 {
        path.take(
            if parts(path).len() == 0 {
                head(path).len() as int
            } else {
                parts(path).last().end
            },
        )
    } else {
        let left = parts(path).skip(taken - head(path).len());
        if left.len() == 0 {
            Seq::empty()
        } else {
            path.subrange(left[0].start, left.last().end)
        }
    }
}

/// A path relative to `base`, where it is inside it.
pub open spec fn relative_to(path: Seq<char>, base: Seq<char>) -> Option<Seq<char>> {
    if is_inside(path, base) {
        Some(taken_off(path, base))
    } else {
        None
    }
}

// ---------------------------------------------------------------------------------------------
// Reading paths
// ---------------------------------------------------------------------------------------------

/// The parts of a path behind the separator the part at `from` ends with.
spec fn parts_behind(path: Seq<char>, from: int) -> Seq<Part> {
    let end = text::next_at(path, '/', from);
    if from <= end < path.len() {
        parts_from(path, end + 1)
    } else {
        Seq::empty()
    }
}

/// One part more, where there is one, ahead of the parts behind it.
proof fn lemma_one_part_more(path: Seq<char>, from: int)
    requires
        0 <= from <= path.len(),
    ensures
        from <= text::next_at(path, '/', from) <= path.len(),
        is_nothing(path.subrange(from, text::next_at(path, '/', from))) ==> parts_from(path, from)
            == parts_behind(path, from),
        !is_nothing(path.subrange(from, text::next_at(path, '/', from))) ==> {
            &&& parts_from(path, from).len() == parts_behind(path, from).len() + 1
            &&& parts_from(path, from)[0] == (Part {
                start: from,
                end: text::next_at(path, '/', from),
            })
            &&& parts_from(path, from).skip(1) == parts_behind(path, from)
            &&& forall|i: int|
                1 <= i < parts_from(path, from).len() ==> #[trigger] parts_from(path, from)[i]
                    == parts_behind(path, from)[i - 1]
        },
{
    text::lemma_next_at(path, '/', from);
    let behind = parts_behind(path, from);
    let all = parts_from(path, from);
    if !is_nothing(path.subrange(from, text::next_at(path, '/', from))) {
        assert(all == seq![Part { start: from, end: text::next_at(path, '/', from) }] + behind);
        assert(all.skip(1) =~= behind);
    }
}

/// Parts sit in the path they are parts of, in order.
proof fn lemma_parts_are_stretches(path: Seq<char>, from: int)
    requires
        0 <= from <= path.len(),
    ensures
        forall|i: int|
            0 <= i < parts_from(path, from).len() ==> from <= (#[trigger] parts_from(
                path,
                from,
            )[i]).start < parts_from(path, from)[i].end <= path.len(),
        forall|i: int, j: int|
            0 <= i < j < parts_from(path, from).len() ==> (#[trigger] parts_from(
                path,
                from,
            )[i]).end < (#[trigger] parts_from(path, from)[j]).start,
    decreases path.len() - from,
{
    lemma_one_part_more(path, from);
    let end = text::next_at(path, '/', from);
    if end < path.len() {
        lemma_parts_are_stretches(path, end + 1);
    }
    let all = parts_from(path, from);
    let behind = parts_behind(path, from);
    assert forall|i: int, j: int| 0 <= i < j < all.len() implies (#[trigger] all[i]).end < (
    #[trigger] all[j]).start by {
        if !is_nothing(path.subrange(from, end)) {
            assert(all[j] == behind[j - 1]);
            if i > 0 {
                assert(all[i] == behind[i - 1]);
            }
        }
    }
}

/// The parts of a path, by the characters each starts and ends at.
fn parts_of(path: &[char]) -> (found: Vec<(usize, usize)>)
    ensures
        found@.len() == parts(path@).len(),
        forall|i: int|
            0 <= i < found@.len() ==> (#[trigger] found@[i]).0 == parts(path@)[i].start
                && found@[i].1 == parts(path@)[i].end,
        forall|i: int|
            0 <= i < found@.len() ==> (#[trigger] found@[i]).0 < found@[i].1 <= path@.len(),
        forall|i: int, j: int|
            0 <= i < j < found@.len() ==> (#[trigger] found@[i]).1 < (#[trigger] found@[j]).0,
{
    let ghost all = parts(path@);
    proof {
        lemma_parts_are_stretches(path@, 0);
    }
    let mut found: Vec<(usize, usize)> = Vec::new();
    let mut from: usize = 0;
    assert(all.skip(0) =~= all);
    loop
        invariant
            all == parts(path@),
            from <= path@.len(),
            found@.len() <= all.len(),
            forall|i: int|
                0 <= i < found@.len() ==> (#[trigger] found@[i]).0 == all[i].start
                    && found@[i].1 == all[i].end,
            all.skip(found@.len() as int) == parts_from(path@, from as int),
            forall|i: int|
                0 <= i < all.len() ==> 0 <= (#[trigger] all[i]).start < all[i].end <= path@.len(),
            forall|i: int, j: int|
                0 <= i < j < all.len() ==> (#[trigger] all[i]).end < (#[trigger] all[j]).start,
        decreases path@.len() - from,
    {
        let end: usize = text::next_char(path, '/', from);
        let ghost left = all.skip(found@.len() as int);
        let nothing: bool = end == from || (end - from == 1 && path[from] == '.');
        proof {
            let part = path@.subrange(from as int, end as int);
            if end > from {
                assert(part[0] == path@[from as int]);
            }
            assert(nothing == is_nothing(part));
        }
        proof {
            lemma_one_part_more(path@, from as int);
        }
        if !nothing {
            assert(left[0] == all[found@.len() as int]);
            found.push((from, end));
            assert(all.skip(found@.len() as int) =~= left.skip(1));
        }
        if end == path.len() {
            assert(all.skip(found@.len() as int).len() == 0);
            return found;
        }
        from = end + 1;
    }
}

/// What a path's file is called - see [`name_of`].
pub fn file_name(path: &str) -> (name: Option<String>)
    ensures
        match name {
            Some(name) => name_of(path@) == Some(name@),
            None => name_of(path@) is None,
        },
{
    let chars = text::chars_of(path);
    let found = parts_of(chars.as_slice());
    if found.len() == 0 {
        return None;
    }
    let (start, end) = found[found.len() - 1];
    let name = text::string_of(chars.as_slice(), start, end);
    assert(name@ == written(path@, parts(path@).last()));
    if text::same(name.as_str(), "..") {
        return None;
    }
    Some(name)
}

/// The extension of a path's file - see [`extension_of`].
pub fn extension(path: &str) -> (extension: Option<String>)
    ensures
        match extension {
            Some(extension) => extension_of(path@) == Some(extension@),
            None => extension_of(path@) is None,
        },
{
    let name = match file_name(path) {
        Some(name) => name,
        None => {
            return None;
        },
    };
    let chars = text::chars_of(name.as_str());
    let mut dot: usize = chars.len();
    while dot > 0 && chars[dot - 1] != '.'
        invariant
            dot <= chars@.len(),
            chars@ == name@,
            last_at(name@, '.', name@.len() as int) == last_at(name@, '.', dot as int),
        decreases dot,
    {
        dot -= 1;
    }
    if dot <= 1 {
        return None;
    }
    assert(name@.skip(dot as int) =~= chars@.subrange(dot as int, chars@.len() as int));
    Some(text::string_of(chars.as_slice(), dot, chars.len()))
}

/// One path taken from another - see [`joined`].
pub fn join(base: &str, path: &str) -> (whole: String)
    ensures
        whole@ == joined(base@, path@),
{
    let chars = text::chars_of(path);
    if chars.len() > 0 && chars[0] == '/' {
        return path.to_owned();
    }
    let under = text::chars_of(base);
    let mut whole = base.to_owned();
    if under.len() > 0 && under[under.len() - 1] != '/' {
        whole.append("/");
    }
    whole.append(path);
    whole
}

/// How much of a path its head is.
fn head_length(path: &[char]) -> (length: usize)
    ensures
        length == head(path@).len(),
        length <= 1,
        length <= path@.len(),
{
    if path.len() > 0 && (path[0] == '/' || (path[0] == '.' && (path.len() == 1 || path[1]
        == '/'))) {
        1
    } else {
        0
    }
}

/// Whether two stretches of two texts read the same.
fn same_stretch(
    left: &[char],
    from: usize,
    to: usize,
    right: &[char],
    start: usize,
    end: usize,
) -> (same: bool)
    requires
        from <= to <= left@.len(),
        start <= end <= right@.len(),
    ensures
        same == (left@.subrange(from as int, to as int) == right@.subrange(
            start as int,
            end as int,
        )),
{
    let ghost one = left@.subrange(from as int, to as int);
    let ghost other = right@.subrange(start as int, end as int);
    if to - from != end - start {
        assert(one.len() != other.len());
        return false;
    }
    let mut at: usize = 0;
    while at < to - from
        invariant
            from <= to <= left@.len(),
            start <= end <= right@.len(),
            to - from == end - start,
            at <= to - from,
            one == left@.subrange(from as int, to as int),
            other == right@.subrange(start as int, end as int),
            forall|i: int| 0 <= i < at ==> one[i] == other[i],
        decreases to - from - at,
    {
        if left[from + at] != right[start + at] {
            assert(one[at as int] != other[at as int]);
            return false;
        }
        at += 1;
    }
    assert(one =~= other);
    true
}

/// How many components two paths have at the front of them that are the same, of those that
/// follow the same head.
fn front_of(path: &[char], base: &[char]) -> (found: Option<(Vec<(usize, usize)>, usize)>)
    ensures
        match found {
            Some((found, taken)) => {
                &&& starts_with(path@, base@)
                &&& taken == parts(base@).len()
                &&& found@.len() == parts(path@).len()
                &&& taken <= found@.len()
                &&& head(base@).len() > 0 ==> head(path@).len() > 0
                &&& taken > 0 ==> head(path@).len() == head(base@).len()
                &&& forall|i: int|
                    0 <= i < found@.len() ==> (#[trigger] found@[i]).0 == parts(path@)[i].start
                        && found@[i].1 == parts(path@)[i].end && found@[i].0 < found@[i].1
                        <= path@.len()
                &&& forall|i: int, j: int|
                    0 <= i < j < found@.len() ==> (#[trigger] found@[i]).1 < (
                    #[trigger] found@[j]).0
            },
            None => !starts_with(path@, base@),
        },
{
    let path_parts = parts_of(path);
    let base_parts = parts_of(base);
    let path_head: usize = head_length(path);
    let base_head: usize = head_length(base);
    let ghost ours = components(path@);
    let ghost theirs = components(base@);
    proof {
        assert(forall|i: int|
            #![trigger parts(path@)[i]]
            0 <= i < parts(path@).len() ==> ours[path_head + i] == written(path@, parts(path@)[i]));
        assert(forall|i: int|
            #![trigger parts(base@)[i]]
            0 <= i < parts(base@).len() ==> theirs[base_head + i] == written(
                base@,
                parts(base@)[i],
            ));
        assert(starts_with(path@, base@) <==> (theirs.len() <= ours.len() && forall|i: int|
            0 <= i < theirs.len() ==> theirs[i] == ours[i])) by {
            if theirs.len() <= ours.len() && (forall|i: int|
                0 <= i < theirs.len() ==> theirs[i] == ours[i]) {
                assert(ours.subrange(0, theirs.len() as int) =~= theirs);
            }
            if starts_with(path@, base@) {
                assert forall|i: int| 0 <= i < theirs.len() implies theirs[i] == ours[i] by {
                    assert(ours.subrange(0, theirs.len() as int)[i] == ours[i]);
                }
            }
        }
    }
    if base_parts.len() == 0 && base_head == 0 {
        return Some((path_parts, 0));
    }
    if base_head > 0 {
        if path_head == 0 {
            proof {
                if starts_with(path@, base@) {
                    lemma_heads_are_apart(path@, base@);
                }
            }
            return None;
        }
        if path[0] != base[0] {
            proof {
                assert(theirs[0][0] == base@[0]);
                assert(ours[0][0] == path@[0]);
            }
            return None;
        }
        assert(ours[0] =~= theirs[0]);
    } else if path_head > 0 {
        proof {
            if starts_with(path@, base@) {
                lemma_heads_are_apart(base@, path@);
                assert(theirs[0] == ours[0]);
            }
        }
        return None;
    }
    if base_parts.len() > path_parts.len() {
        return None;
    }
    let mut at: usize = 0;
    while at < base_parts.len()
        invariant
            ours == components(path@),
            theirs == components(base@),
            path_head == head(path@).len(),
            base_head == head(base@).len(),
            path_head == base_head,
            at <= base_parts@.len() <= path_parts@.len(),
            path_parts@.len() == parts(path@).len(),
            base_parts@.len() == parts(base@).len(),
            forall|i: int|
                0 <= i < path_parts@.len() ==> (#[trigger] path_parts@[i]).0 == parts(
                    path@,
                )[i].start && path_parts@[i].1 == parts(path@)[i].end && path_parts@[i].0
                    < path_parts@[i].1 <= path@.len(),
            forall|i: int|
                0 <= i < base_parts@.len() ==> (#[trigger] base_parts@[i]).0 == parts(
                    base@,
                )[i].start && base_parts@[i].1 == parts(base@)[i].end && base_parts@[i].0
                    < base_parts@[i].1 <= base@.len(),
            starts_with(path@, base@) <==> (theirs.len() <= ours.len() && forall|i: int|
                0 <= i < theirs.len() ==> theirs[i] == ours[i]),
            forall|i: int| 0 <= i < base_head + at ==> theirs[i] == ours[i],
        decreases base_parts@.len() - at,
    {
        let (from, to) = path_parts[at];
        let (start, end) = base_parts[at];
        proof {
            assert(ours[path_head + at] == written(path@, parts(path@)[at as int]));
            assert(theirs[base_head + at] == written(base@, parts(base@)[at as int]));
        }
        if !same_stretch(path, from, to, base, start, end) {
            return None;
        }
        at += 1;
    }
    let taken: usize = base_parts.len();
    Some((path_parts, taken))
}

/// A head is never what a path names first.
proof fn lemma_heads_are_apart(headless: Seq<char>, headed: Seq<char>)
    requires
        head(headless).len() == 0,
        head(headed).len() > 0,
        components(headless).len() > 0,
    ensures
        components(headless)[0] != components(headed)[0],
{
    lemma_parts_name_something(headless, 0);
    let first = parts(headless)[0];
    assert(components(headless)[0] == written(headless, first));
    assert(components(headed)[0] == headed.take(1));
    let named = written(headless, first);
    if named == headed.take(1) {
        assert(named[0] == headed[0]);
    }
}

proof fn lemma_parts_name_something(path: Seq<char>, from: int)
    requires
        0 <= from <= path.len(),
    ensures
        forall|i: int|
            0 <= i < parts_from(path, from).len() ==> !is_nothing(
                written(path, #[trigger] parts_from(path, from)[i]),
            ) && !written(path, parts_from(path, from)[i]).contains('/'),
    decreases path.len() - from,
{
    text::lemma_next_at(path, '/', from);
    lemma_one_part_more(path, from);
    let end = text::next_at(path, '/', from);
    if end < path.len() {
        lemma_parts_name_something(path, end + 1);
    }
    let part = path.subrange(from, end);
    if part.contains('/') {
        let at = choose|at: int| 0 <= at < part.len() && part[at] == '/';
        assert(path[from + at] == '/');
    }
}

/// Whether the parts of a path from `from` on, with `headed` components ahead of them, lead out of
/// where they are taken from - see [`stay_inside`].
fn leads_out(path: &[char], found: &Vec<(usize, usize)>, from: usize, headed: usize) -> (out: bool)
    requires
        from <= found@.len() == parts(path@).len(),
        forall|i: int|
            0 <= i < found@.len() ==> (#[trigger] found@[i]).0 == parts(path@)[i].start
                && found@[i].1 == parts(path@)[i].end && found@[i].0 < found@[i].1 <= path@.len(),
        headed <= head(path@).len(),
        headed > 0 ==> from == 0,
    ensures
        out == !stay_inside(components(path@).skip(head(path@).len() + from - headed)),
{
    let ghost skipped = head(path@).len() + from - headed;
    let ghost left = components(path@).skip(skipped);
    proof {
        assert(left.take(0).len() == 0);
        if headed > 0 {
            assert(left =~= components(path@));
            assert(left[0] == path@.take(1));
            assert(left.take(1).drop_last() =~= left.take(0));
            assert(left.take(1).last() == path@.take(1));
            reveal_strlit("..");
            assert(path@.take(1).len() != ".."@.len());
            assert(depth(left.take(0)) == 0);
            assert(depth(left.take(1)) == 1);
        }
    }
    let mut deep: u128 = headed as u128;
    let mut at: usize = from;
    while at < found.len()
        invariant
            from <= at <= found@.len(),
            found@.len() == parts(path@).len(),
            skipped == head(path@).len() + from - headed,
            left == components(path@).skip(skipped),
            headed <= head(path@).len() <= 1,
            forall|i: int|
                0 <= i < found@.len() ==> (#[trigger] found@[i]).0 == parts(path@)[i].start
                    && found@[i].1 == parts(path@)[i].end && found@[i].0 < found@[i].1
                    <= path@.len(),
            deep <= headed + (at - from),
            deep == depth(left.take(headed + (at - from))),
            forall|i: int|
                0 <= i <= headed + (at - from) ==> depth(#[trigger] left.take(i)) >= 0,
        decreases found@.len() - at,
    {
        let (start, end) = found[at];
        let up: bool = end - start == 2 && path[start] == '.' && path[start + 1] == '.';
        proof {
            let k = headed + (at - from);
            let name = written(path@, parts(path@)[at as int]);
            assert(left[k] == components(path@)[skipped + k]);
            assert(left[k] == name);
            reveal_strlit("..");
            if up {
                assert(name =~= ".."@);
            } else if name == ".."@ {
                assert(name[0] == path@[start as int] && name[1] == path@[start + 1]);
            }
            assert(left.take(k + 1).drop_last() =~= left.take(k));
            assert(left.take(k + 1).last() == name);
        }
        if up {
            if deep == 0 {
                assert(depth(left.take(headed + (at - from) + 1)) < 0);
                return true;
            }
            deep -= 1;
        } else {
            deep += 1;
        }
        at += 1;
    }
    assert(left.len() == headed + (found@.len() - from));
    false
}

/// A path relative to `base`, where it is inside it - see [`relative_to`].
pub fn strip_prefix(path: &str, base: &str) -> (left: Option<String>)
    ensures
        match left {
            Some(left) => relative_to(path@, base@) == Some(left@),
            None => relative_to(path@, base@) is None,
        },
{
    let path_chars = text::chars_of(path);
    let base_chars = text::chars_of(base);
    match front_of(path_chars.as_slice(), base_chars.as_slice()) {
        None => None,
        Some((found, taken)) => {
            let base_head: usize = head_length(base_chars.as_slice());
            let ghost left = parts(path@).skip(taken as int);
            let path_head: usize = head_length(path_chars.as_slice());
            if leads_out(path_chars.as_slice(), &found, taken, path_head - base_head) {
                return None;
            }
            if taken == 0 && base_head == 0 {
                let end: usize = if found.len() == 0 {
                    head_length(path_chars.as_slice())
                } else {
                    found[found.len() - 1].1
                };
                assert(path@.take(end as int) =~= path_chars@.subrange(0, end as int));
                return Some(text::string_of(path_chars.as_slice(), 0, end));
            }
            if taken == found.len() {
                assert(left.len() == 0);
                return Some(String::new());
            }
            assert(left[0] == parts(path@)[taken as int]);
            assert(left.last() == parts(path@).last());
            let start: usize = found[taken].0;
            let end: usize = found[found.len() - 1].1;
            Some(text::string_of(path_chars.as_slice(), start, end))
        },
    }
}

/// Whether two paths name the same place, however each is written.
pub fn same_path(left: &str, right: &str) -> (same: bool)
    ensures
        same == (components(left@) == components(right@)),
{
    let left_chars = text::chars_of(left);
    let right_chars = text::chars_of(right);
    let within: bool = front_of(left_chars.as_slice(), right_chars.as_slice()).is_some();
    let around: bool = front_of(right_chars.as_slice(), left_chars.as_slice()).is_some();
    proof {
        let one = components(left@);
        let other = components(right@);
        if within && around {
            assert(one.subrange(0, other.len() as int) == other);
            assert(other.subrange(0, one.len() as int) == one);
            assert(one =~= one.subrange(0, one.len() as int));
        }
        if one == other {
            assert(one.subrange(0, one.len() as int) =~= one);
        }
    }
    within && around
}

/// A path as a repo's files are named: relative to the repo when it is inside it, and as it
/// stands when it is not.
pub open spec fn named_in_repo(path: Seq<char>, repo_root: Seq<char>) -> Seq<char> {
    match relative_to(path, repo_root) {
        Some(left) => left,
        None => path,
    }
}

/// A path as the panes name files: relative to the repo when it is inside it, and as it
/// stands when it is not.
pub fn path_in_repo(path: &str, repo_root: &str) -> (named: String)
    ensures
        named@ == named_in_repo(path@, repo_root@),
{
    match strip_prefix(path, repo_root) {
        Some(left) => left,
        None => path.to_owned(),
    }
}

// ---------------------------------------------------------------------------------------------
// What paths promise
// ---------------------------------------------------------------------------------------------

/// What the parts of a path from `from` on read.
spec fn names_from(path: Seq<char>, from: int) -> Seq<Seq<char>> {
    parts_from(path, from).map_values(|part: Part| written(path, part))
}

proof fn lemma_one_name_more(path: Seq<char>, from: int)
    requires
        0 <= from <= path.len(),
    ensures
        ({
            let end = text::next_at(path, '/', from);
            let here = path.subrange(from, end);
            let behind = if end < path.len() {
                names_from(path, end + 1)
            } else {
                Seq::empty()
            };
            names_from(path, from) == if is_nothing(here) {
                behind
            } else {
                seq![here] + behind
            }
        }),
{
    text::lemma_next_at(path, '/', from);
    lemma_one_part_more(path, from);
    let end = text::next_at(path, '/', from);
    let here = path.subrange(from, end);
    let behind = if end < path.len() {
        names_from(path, end + 1)
    } else {
        Seq::empty()
    };
    if is_nothing(here) {
        assert(names_from(path, from) =~= behind);
    } else {
        assert(names_from(path, from) =~= seq![here] + behind);
    }
}

proof fn lemma_names_of_the_second(first: Seq<char>, second: Seq<char>, from: int)
    requires
        0 <= from <= second.len(),
    ensures
        names_from(first + seq!['/'] + second, first.len() + 1 + from) == names_from(second, from),
    decreases second.len() - from,
{
    let both = first + seq!['/'] + second;
    let behind = first.len() + 1;
    lemma_one_name_more(both, behind + from);
    lemma_one_name_more(second, from);
    text::lemma_next_at(second, '/', from);
    text::lemma_next_at_in_the_second(first, '/', second, from);
    let end = text::next_at(second, '/', from);
    assert(both.subrange(behind + from, behind + end) =~= second.subrange(from, end));
    if end < second.len() {
        lemma_names_of_the_second(first, second, end + 1);
    }
}

proof fn lemma_names_of_both(first: Seq<char>, second: Seq<char>, from: int)
    requires
        0 <= from <= first.len(),
    ensures
        names_from(first + seq!['/'] + second, from) == names_from(first, from) + names_from(
            second,
            0,
        ),
    decreases first.len() - from,
{
    let both = first + seq!['/'] + second;
    lemma_one_name_more(both, from);
    lemma_one_name_more(first, from);
    text::lemma_next_at(first, '/', from);
    text::lemma_next_at_in_the_first(first, '/', second, from);
    let end = text::next_at(first, '/', from);
    assert(both.subrange(from, end) =~= first.subrange(from, end));
    if end < first.len() {
        lemma_names_of_both(first, second, end + 1);
    } else {
        lemma_names_of_the_second(first, second, 0);
    }
    assert(names_from(both, from) =~= names_from(first, from) + names_from(second, 0));
}

/// What is named by a path that has no separator in it: itself, unless that is nothing or a dot.
proof fn lemma_one_name(name: Seq<char>)
    requires
        !name.contains('/'),
    ensures
        names_from(name, 0) == if is_nothing(name) {
            Seq::<Seq<char>>::empty()
        } else {
            seq![name]
        },
{
    assert forall|i: int| 0 <= i < name.len() implies name[i] != '/' by {
        if name[i] == '/' {
            assert(name.contains('/'));
        }
    }
    text::lemma_next_at_is(name, '/', 0, name.len() as int);
    lemma_one_name_more(name, 0);
    assert(name.subrange(0, name.len() as int) =~= name);
    assert(seq![name] + Seq::<Seq<char>>::empty() =~= seq![name]);
}

/// The components of a path are what stands between its separators: two paths with a separator
/// between them have the components of the first and then those of the second, less the root or the
/// dot the second starts with. A path with no separator in it is its own component, but for nothing
/// at all, and the root and a dot on their own are one component each.
pub proof fn law_components_stand_between_separators(
    first: Seq<char>,
    second: Seq<char>,
    name: Seq<char>,
)
    requires
        !name.contains('/'),
    ensures
        first.len() > 0 ==> components(first + seq!['/'] + second) == components(first) + (if
        second.len() > 0 && (second[0] == '/' || (second[0] == '.' && (second.len() == 1
            || second[1] == '/'))) {
            components(second).skip(1)
        } else {
            components(second)
        }),
        name.len() > 0 ==> components(name) == seq![name],
        components(Seq::<char>::empty()) == Seq::<Seq<char>>::empty(),
        components(seq!['/']) == seq![seq!['/']],
{
    let both = first + seq!['/'] + second;
    lemma_names_of_both(first, second, 0);
    if first.len() > 0 {
        assert(both[0] == first[0]);
        assert(both.take(1) =~= first.take(1));
        if first.len() > 1 {
            assert(both[1] == first[1]);
        }
        let left = if second.len() > 0 && (second[0] == '/' || (second[0] == '.' && (second.len()
            == 1 || second[1] == '/'))) {
            components(second).skip(1)
        } else {
            components(second)
        };
        assert(left =~= names_from(second, 0));
        assert(components(both) =~= components(first) + left);
    }
    lemma_one_name(name);
    if name.len() > 0 {
        assert(name[0] != '/') by {
            if name[0] == '/' {
                assert(name.contains('/'));
            }
        }
        if name.len() > 1 {
            assert(name[1] != '/') by {
                if name[1] == '/' {
                    assert(name.contains('/'));
                }
            }
        }
        assert(name.take(1) =~= name || name.len() > 1);
        assert(components(name) =~= seq![name]);
    }
    let none = Seq::<char>::empty();
    assert(!none.contains('/'));
    lemma_one_name(none);
    assert(components(none) =~= Seq::<Seq<char>>::empty());
    lemma_names_of_both(none, none, 0);
    assert(none + seq!['/'] + none =~= seq!['/']);
    assert(seq!['/'].take(1) =~= seq!['/']);
    assert(components(seq!['/']) =~= seq![seq!['/']]);
}

/// A path taken from another is itself where it starts at the root. Otherwise it has the components of
/// the other and then its own, less the dot it starts with.
pub proof fn law_a_path_is_taken_from_its_base(base: Seq<char>, path: Seq<char>)
    ensures
        path.len() > 0 && path[0] == '/' ==> joined(base, path) == path,
        !(path.len() > 0 && path[0] == '/') && base.len() > 0 ==> components(joined(base, path))
            == components(base) + (if path.len() > 0 && path[0] == '.' && (path.len() == 1
            || path[1] == '/') {
            components(path).skip(1)
        } else {
            components(path)
        }),
        base.len() == 0 ==> joined(base, path) == path,
{
    reveal_strlit("/");
    assert("/"@ =~= seq!['/']);
    let none = Seq::<char>::empty();
    if base.len() == 0 {
        assert(base + path =~= path);
    } else if !is_rooted(path) {
        let own = if path.len() > 0 && path[0] == '.' && (path.len() == 1 || path[1] == '/') {
            components(path).skip(1)
        } else {
            components(path)
        };
        assert(own =~= names_from(path, 0));
        if base.last() == '/' {
            let front = base.drop_last();
            assert(base =~= front + seq!['/'] + none);
            assert(base + path =~= front + seq!['/'] + path);
            lemma_names_of_both(front, none, 0);
            lemma_names_of_both(front, path, 0);
            assert(!none.contains('/'));
            lemma_one_name(none);
            assert((base + path)[0] == base[0]);
            assert((base + path).take(1) =~= base.take(1));
            if base.len() > 1 {
                assert((base + path)[1] == base[1]);
            }
            assert(components(base + path) =~= components(base) + own);
        } else {
            assert(!none.contains('/'));
            law_components_stand_between_separators(base, path, none);
        }
    }
}

/// What a file is called is what stands behind the last separator of its path, and its extension is
/// what stands behind the last dot of that, where there is anything ahead of the dot.
pub proof fn law_a_file_is_called_what_its_path_ends_in(
    folder: Seq<char>,
    stem: Seq<char>,
    extension: Seq<char>,
)
    requires
        stem.len() > 0,
        !stem.contains('/'),
        !extension.contains('/'),
        !extension.contains('.'),
        stem + seq!['.'] + extension != ".."@,
    ensures
        name_of(folder + seq!['/'] + stem + seq!['.'] + extension) == Some(
            stem + seq!['.'] + extension,
        ),
        extension_of(folder + seq!['/'] + stem + seq!['.'] + extension) == Some(extension),
        extension.len() > 0 ==> extension_of(folder + seq!['/'] + seq!['.'] + extension) is None,
        !stem.contains('.') ==> extension_of(folder + seq!['/'] + stem) is None,
{
    let name = stem + seq!['.'] + extension;
    assert(!name.contains('/')) by {
        if name.contains('/') {
            let at = choose|at: int| 0 <= at < name.len() && name[at] == '/';
            if at < stem.len() {
                assert(stem[at] == '/');
            } else if at > stem.len() {
                assert(extension[at - stem.len() - 1] == '/');
            }
        }
    }
    assert(folder + seq!['/'] + stem + seq!['.'] + extension =~= folder + seq!['/'] + name);
    lemma_last_name(folder, name);
    lemma_last_dot(stem, extension, name.len() as int);
    assert(name.skip(stem.len() as int + 1) =~= extension);
    if extension.len() > 0 {
        let hidden = seq!['.'] + extension;
        assert(!hidden.contains('/')) by {
            if hidden.contains('/') {
                let at = choose|at: int| 0 <= at < hidden.len() && hidden[at] == '/';
                assert(extension[at - 1] == '/');
            }
        }
        assert(folder + seq!['/'] + seq!['.'] + extension =~= folder + seq!['/'] + hidden);
        let none = Seq::<char>::empty();
        assert(none + seq!['.'] + extension =~= hidden);
        lemma_last_dot(none, extension, hidden.len() as int);
        assert(hidden != ".."@) by {
            reveal_strlit("..");
            if hidden == ".."@ {
                assert(extension[0] == hidden[1]);
                assert(extension.contains(extension[0]));
            }
        }
        lemma_last_name(folder, hidden);
    }
    if !stem.contains('.') {
        reveal_strlit("..");
        assert(stem != ".."@) by {
            if stem == ".."@ {
                assert(stem[0] == '.');
                assert(stem.contains('.'));
            }
        }
        assert(!is_nothing(stem)) by {
            if is_nothing(stem) {
                assert(stem[0] == '.');
                assert(stem.contains('.'));
            }
        }
        lemma_last_name(folder, stem);
        lemma_no_dot(stem, stem.len() as int);
    }
}

proof fn lemma_last_name(folder: Seq<char>, name: Seq<char>)
    requires
        !name.contains('/'),
        !is_nothing(name),
        name != ".."@,
    ensures
        name_of(folder + seq!['/'] + name) == Some(name),
{
    let path = folder + seq!['/'] + name;
    lemma_names_of_both(folder, name, 0);
    lemma_one_name(name);
    let names = names_from(path, 0);
    assert(names.last() == name);
    assert(names.last() == written(path, parts(path).last()));
}

proof fn lemma_last_dot(front: Seq<char>, behind: Seq<char>, to: int)
    requires
        !behind.contains('.'),
        front.len() < to <= front.len() + 1 + behind.len(),
    ensures
        last_at(front + seq!['.'] + behind, '.', to) == Some(front.len() as int),
    decreases to,
{
    let name = front + seq!['.'] + behind;
    if to - 1 > front.len() {
        assert(name[to - 1] == behind[to - 2 - front.len()]);
        assert(behind.contains(behind[to - 2 - front.len()]));
        lemma_last_dot(front, behind, to - 1);
    }
}

proof fn lemma_no_dot(name: Seq<char>, to: int)
    requires
        !name.contains('.'),
        0 <= to <= name.len(),
    ensures
        last_at(name, '.', to) is None,
    decreases to,
{
    if to > 0 {
        assert(name.contains(name[to - 1]));
        lemma_no_dot(name, to - 1);
    }
}

/// The part a path names first from `from` on starts there or behind a separator.
proof fn lemma_names_behind(path: Seq<char>, from: int, at: int)
    requires
        0 <= from <= path.len(),
        0 <= at < parts_from(path, from).len(),
    ensures
        names_from(path, parts_from(path, from)[at].start) == names_from(path, from).skip(at),
        text::next_at(path, '/', parts_from(path, from)[at].start) == parts_from(
            path,
            from,
        )[at].end,
        0 <= parts_from(path, from)[at].start <= path.len(),
    decreases path.len() - from,
{
    text::lemma_next_at(path, '/', from);
    lemma_one_part_more(path, from);
    lemma_one_name_more(path, from);
    let end = text::next_at(path, '/', from);
    if is_nothing(path.subrange(from, end)) {
        lemma_names_behind(path, end + 1, at);
    } else if at > 0 {
        lemma_names_behind(path, end + 1, at - 1);
        assert(names_from(path, from).skip(at) =~= names_from(path, end + 1).skip(at - 1));
    } else {
        assert(names_from(path, from).skip(0) =~= names_from(path, from));
    }
}

/// Cutting a path off behind the last part of it, or the start of it, takes no name away.
proof fn lemma_names_of_a_stretch(path: Seq<char>, from: int, start: int, end: int)
    requires
        0 <= start <= from <= path.len(),
        parts_from(path, from).len() > 0,
        end == parts_from(path, from).last().end,
    ensures
        from <= end <= path.len(),
        names_from(path.subrange(start, end), from - start) == names_from(path, from),
    decreases path.len() - from,
{
    lemma_parts_are_stretches(path, from);
    text::lemma_next_at(path, '/', from);
    lemma_one_part_more(path, from);
    lemma_one_name_more(path, from);
    let next = text::next_at(path, '/', from);
    let cut = path.subrange(start, end);
    let last = parts_from(path, from).last();
    assert(from <= last.start < last.end <= path.len());
    lemma_one_name_more(cut, from - start);
    let here = path.subrange(from, next);
    if parts_behind(path, from).len() > 0 {
        assert(parts_behind(path, from).last() == last) by {
            if !is_nothing(here) {
                let all = parts_from(path, from);
                assert(all[all.len() - 1] == parts_behind(path, from)[all.len() - 2]);
            }
        }
        lemma_names_of_a_stretch(path, next + 1, start, end);
        lemma_parts_are_stretches(path, next + 1);
        assert(next + 1 <= last.start < end);
        assert forall|i: int| from - start <= i < next - start implies cut[i] != '/' by {
            assert(cut[i] == path[start + i]);
        }
        assert(cut[next - start] == path[next]);
        text::lemma_next_at_is(cut, '/', from - start, next - start);
        assert(cut.subrange(from - start, next - start) =~= here);
    } else {
        assert(!is_nothing(here));
        assert(parts_from(path, from)[0] == last);
        assert(end == next);
        assert forall|i: int| from - start <= i < cut.len() implies cut[i] != '/' by {
            assert(cut[i] == path[start + i]);
        }
        text::lemma_next_at_is(cut, '/', from - start, cut.len() as int);
        assert(cut.subrange(from - start, cut.len() as int) =~= here);
        if next < path.len() {
            assert(names_from(path, next + 1) =~= Seq::<Seq<char>>::empty());
        }
    }
}

/// A path relative to another has the components that are left of it once those of the other are
/// taken off the front: the other's, and then its own, are the components of the path. It is a stretch
/// of the path that starts with the first of its components and ends with the last. There is such a
/// path only where it starts with every component of the other.
pub proof fn law_a_path_is_its_base_and_what_is_left(path: Seq<char>, base: Seq<char>)
    requires
        components(base).len() > 0,
    ensures
        relative_to(path, base) matches Some(left) ==> components(path) == components(base)
            + components(left),
        relative_to(path, base) matches Some(left) ==> left.len() > 0 ==> components(left).len() > 0
            && components(left).first().is_prefix_of(left) && components(left).last().is_suffix_of(
            left,
        ),
        relative_to(path, base) matches Some(left) ==> text::contains(path, left),
        relative_to(path, base) is Some ==> components(base).is_prefix_of(components(path)),
        named_in_repo(path, base) == (match relative_to(path, base) {
            Some(left) => left,
            None => path,
        }),
{
    if relative_to(path, base) is Some {
        let ours = components(path);
        let theirs = components(base);
        let headed = head(path).len();
        let taken = theirs.len() - headed;
        assert(theirs[0] == ours[0]) by {
            assert(ours.subrange(0, theirs.len() as int)[0] == ours[0]);
        }
        if headed > 0 && head(base).len() == 0 {
            lemma_heads_are_apart(base, path);
        }
        assert(taken >= 0);
        let all = parts(path);
        let left = all.skip(taken);
        lemma_parts_are_stretches(path, 0);
        lemma_parts_name_something(path, 0);
        if left.len() == 0 {
            let none = Seq::<char>::empty();
            assert(!none.contains('/'));
            lemma_one_name(none);
            assert(components(none) =~= Seq::<Seq<char>>::empty());
            assert(ours =~= theirs + components(none)) by {
                assert(ours.subrange(0, theirs.len() as int) =~= ours);
            }
            assert(path.subrange(0, 0) =~= none);
            assert(text::occurs_at(path, none, 0));
        } else {
            let start = all[taken].start;
            let end = all.last().end;
            assert(left[0] == all[taken] && left.last() == all.last());
            lemma_names_behind(path, 0, taken);
            let rest = parts_from(path, start);
            assert(rest.len() == names_from(path, start).len());
            lemma_rest_ends_alike(path, 0, taken);
            lemma_names_of_a_stretch(path, start, start, end);
            let kept = path.subrange(start, end);
            let first = path.subrange(start, all[taken].end);
            assert(first == written(path, all[taken]));
            assert(!is_nothing(first) && !first.contains('/'));
            assert(head(kept).len() == 0) by {
                assert(kept[0] == first[0]);
                assert(first.contains(first[0]));
                if kept.len() > 1 && kept[0] == '.' && kept[1] == '/' {
                    if first.len() > 1 {
                        assert(first[1] == kept[1]);
                        assert(first.contains(first[1]));
                    }
                }
                if kept.len() == 1 {
                    assert(first =~= kept);
                }
            }
            assert(components(kept) =~= names_from(kept, 0));
            assert(text::occurs_at(path, kept, start));
            assert(kept.subrange(0, first.len() as int) =~= first);
            let last = written(path, all.last());
            assert(kept.subrange(kept.len() - last.len(), kept.len() as int) =~= last);
            assert(names_from(path, 0).skip(taken).first() == first);
            assert(names_from(path, 0).skip(taken).last() == last);
            assert(ours.skip(theirs.len() as int) =~= names_from(path, 0).skip(taken));
            assert(ours =~= theirs + ours.skip(theirs.len() as int)) by {
                assert(ours.subrange(0, theirs.len() as int) == theirs);
            }
        }
    }
}

/// The last part of a path is the last of the parts from any of them on.
proof fn lemma_rest_ends_alike(path: Seq<char>, from: int, at: int)
    requires
        0 <= from <= path.len(),
        0 <= at < parts_from(path, from).len(),
    ensures
        parts_from(path, parts_from(path, from)[at].start).len() > 0,
        parts_from(path, parts_from(path, from)[at].start).last() == parts_from(path, from).last(),
    decreases path.len() - from,
{
    text::lemma_next_at(path, '/', from);
    lemma_one_part_more(path, from);
    let end = text::next_at(path, '/', from);
    let all = parts_from(path, from);
    if is_nothing(path.subrange(from, end)) {
        lemma_rest_ends_alike(path, end + 1, at);
    } else if at > 0 {
        lemma_rest_ends_alike(path, end + 1, at - 1);
        assert(all[all.len() - 1] == parts_behind(path, from)[all.len() - 2]);
    }
}

/// A path is inside another exactly where it starts with every component of it and, up to none of the
/// components behind those, has gone up by `..` more often than it has gone down by a name.
pub proof fn law_a_path_leads_out_by_going_up(path: Seq<char>, base: Seq<char>)
    ensures
        relative_to(path, base) is Some <==> components(base).is_prefix_of(components(path))
            && forall|to: int|
            0 <= to <= components(path).len() - components(base).len() ==> 2 * (
            #[trigger] components(path).skip(components(base).len() as int).take(to)).filter(
                |name: Seq<char>| name == ".."@,
            ).len() <= to,
{
    let left = components(path).skip(components(base).len() as int);
    assert forall|to: int| 0 <= to <= left.len() implies depth(#[trigger] left.take(to)) == to - 2
        * left.take(to).filter(|name: Seq<char>| name == ".."@).len() by {
        lemma_depth_is(left.take(to));
    }
}

proof fn lemma_depth_is(names: Seq<Seq<char>>)
    ensures
        depth(names) == names.len() - 2 * names.filter(|name: Seq<char>| name == ".."@).len(),
    decreases names.len(),
{
    reveal(Seq::filter);
    if names.len() > 0 {
        lemma_depth_is(names.drop_last());
    }
}

/// A path relative to one with no components in it is the front of it that ends with its last
/// component.
pub proof fn law_a_path_is_all_that_is_left_of_nothing(path: Seq<char>, base: Seq<char>)
    requires
        components(base).len() == 0,
    ensures
        relative_to(path, base) matches Some(left) ==> components(left) == components(path)
            && left.is_prefix_of(path) && (left.len() > 0 ==> components(left).len() > 0
            && components(left).last().is_suffix_of(left)),
{
    if let Some(left) = relative_to(path, base) {
        let all = parts(path);
        lemma_parts_are_stretches(path, 0);
        lemma_parts_name_something(path, 0);
        if all.len() > 0 {
            let end = all.last().end;
            let last = written(path, all.last());
            lemma_names_of_a_stretch(path, 0, 0, end);
            assert(left =~= path.subrange(0, end));
            assert(all.last().end > all.last().start >= 0);
            assert(left[0] == path[0]);
            if left.len() == 1 {
                assert(last =~= left);
            } else {
                assert(left[1] == path[1]);
            }
            assert(left.take(1) =~= path.take(1));
            assert(components(left) =~= components(path));
            assert(left.subrange(left.len() - last.len(), left.len() as int) =~= last);
            assert(names_from(path, 0).last() == last);
        } else {
            let none = Seq::<char>::empty();
            assert(names_from(path, 0) =~= Seq::<Seq<char>>::empty());
            assert(left =~= path.subrange(0, left.len() as int));
            if head(path).len() > 0 {
                if path[0] == '/' {
                    assert(left =~= seq!['/']);
                    assert(!none.contains('/'));
                    law_components_stand_between_separators(none, none, none);
                } else {
                    assert(left =~= seq!['.']);
                    assert(!left.contains('/'));
                    law_components_stand_between_separators(none, none, left);
                }
                assert(path.take(1) =~= left);
                assert(components(path) =~= seq![left]);
                assert(left.subrange(0, 1) =~= left);
            } else {
                assert(left =~= none);
                assert(!none.contains('/'));
                law_components_stand_between_separators(none, none, none);
                assert(components(path) =~= Seq::<Seq<char>>::empty());
            }
        }
    }
}

} // verus!
