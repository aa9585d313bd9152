//! Text, as bytes and as characters: the slicing, trimming and number reading that the rest of
//! the crate is written with.
//!
//! A column an editor reports is a number of bytes, so what is said about columns here is said
//! about the bytes of a text (`str::spec_bytes`); everything else is said about its characters.

use vstd::prelude::*;
use vstd::string::*;
use vstd::utf8::*;

verus! {

broadcast use vstd::string::group_string_axioms;

/// Appends one character: what `String::push` documents.
pub assume_specification[ String::push ](s: &mut String, c: char)
    ensures
        final(s)@ == old(s)@.push(c),
;

/// `String::from_utf8`: the text whose UTF-8 the bytes are, and nothing for bytes that are no
/// UTF-8.
#[verifier::external_body]
pub(crate) fn text_of_bytes(bytes: Vec<u8>) -> (text: Option<String>)
    ensures
        text is Some <==> valid_utf8(bytes@),
        text matches Some(text) ==> text@ == decode_utf8(bytes@),
{
    String::from_utf8(bytes).ok()
}

// ---------------------------------------------------------------------------------------------
// Bytes of a text
// ---------------------------------------------------------------------------------------------

/// No character takes more than four bytes.
pub proof fn lemma_bytes_are_few(chars: Seq<char>)
    ensures
        encode_utf8(chars).len() <= 4 * chars.len(),
    decreases chars.len(),
{
    if chars.len() > 0 {
        lemma_bytes_are_few(chars.drop_first());
    }
}

/// The characters of a text are the ones its bytes decode to.
pub proof fn lemma_text_is_its_bytes(s: &str)
    ensures
        valid_utf8(s.spec_bytes()),
        decode_utf8(s.spec_bytes()) == s@,
{
    encode_utf8_valid_utf8(s@);
    encode_utf8_decode_utf8(s@);
}

/// The bytes of two texts one behind the other are the bytes of each, one behind the other.
pub proof fn lemma_bytes_of_both(left: Seq<char>, right: Seq<char>)
    ensures
        encode_utf8(left + right) == encode_utf8(left) + encode_utf8(right),
    decreases left.len(),
{
    if left.len() == 0 {
        assert(left + right =~= right);
        assert(encode_utf8(left) + encode_utf8(right) =~= encode_utf8(right));
    } else {
        lemma_bytes_of_both(left.drop_first(), right);
        assert((left + right).drop_first() =~= left.drop_first() + right);
        assert(encode_utf8(left + right) =~= encode_utf8(left) + encode_utf8(right));
    }
}

/// A place that is a boundary of a text is a boundary of any stretch of it that ends on one.
pub proof fn lemma_boundary_of_prefix(bytes: Seq<u8>, at: int, end: int)
    requires
        valid_utf8(bytes),
        0 <= at <= end <= bytes.len(),
        is_char_boundary(bytes, end),
    ensures
        valid_utf8(bytes.subrange(0, end)),
        is_char_boundary(bytes.subrange(0, end), at) <==> is_char_boundary(bytes, at),
{
    valid_utf8_split(bytes, end);
    let prefix = bytes.subrange(0, end);
    is_char_boundary_start_end_of_seq(prefix);
    if at < end {
        is_char_boundary_iff_not_is_continuation_byte(bytes, at);
        is_char_boundary_iff_not_is_continuation_byte(prefix, at);
    }
}

/// A place past a boundary of a text is a boundary of it exactly when it is one of what is left.
pub proof fn lemma_boundary_of_suffix(bytes: Seq<u8>, at: int, start: int)
    requires
        valid_utf8(bytes),
        0 <= start <= at <= bytes.len(),
        is_char_boundary(bytes, start),
    ensures
        valid_utf8(bytes.subrange(start, bytes.len() as int)),
        is_char_boundary(bytes.subrange(start, bytes.len() as int), at - start)
            <==> is_char_boundary(bytes, at),
{
    valid_utf8_split(bytes, start);
    let suffix = bytes.subrange(start, bytes.len() as int);
    is_char_boundary_start_end_of_seq(bytes);
    is_char_boundary_start_end_of_seq(suffix);
    if at < bytes.len() {
        is_char_boundary_iff_not_is_continuation_byte(bytes, at);
        is_char_boundary_iff_not_is_continuation_byte(suffix, at - start);
    }
}

/// An ASCII byte of a text is a character of it, so both its ends are boundaries.
pub proof fn lemma_ascii_byte_is_a_character(bytes: Seq<u8>, at: int)
    requires
        valid_utf8(bytes),
        0 <= at < bytes.len(),
        bytes[at] < 0x80,
    ensures
        is_char_boundary(bytes, at),
        is_char_boundary(bytes, at + 1),
    decreases bytes.len(),
{
    is_char_boundary_iff_not_is_continuation_byte(bytes, at);
    let suffix = bytes.subrange(at, bytes.len() as int);
    lemma_boundary_of_suffix(bytes, at + 1, at);
    assert(suffix[0] == bytes[at]);
    assert(length_of_first_scalar(suffix) == 1);
    reveal_with_fuel(is_char_boundary, 2);
    assert(is_char_boundary(suffix, 1));
}

/// What is behind a text in a longer one starts where the text ends, on a boundary.
proof fn lemma_boundary_behind(chars: Seq<char>, rest: Seq<u8>)
    requires
        valid_utf8(encode_utf8(chars) + rest),
    ensures
        is_char_boundary(encode_utf8(chars) + rest, encode_utf8(chars).len() as int),
    decreases chars.len(),
{
    let whole = encode_utf8(chars) + rest;
    if chars.len() > 0 {
        encode_utf8_first_scalar(chars);
        let front = encode_scalar(chars[0] as u32);
        assert(whole[0] == encode_utf8(chars)[0]);
        assert(pop_first_scalar(whole) =~= encode_utf8(chars.drop_first()) + rest);
        lemma_boundary_behind(chars.drop_first(), rest);
        assert(encode_utf8(chars).len() == front.len() + encode_utf8(chars.drop_first()).len());
    }
}

/// A text that is anywhere in another starts and ends on boundaries of it.
pub proof fn lemma_text_within_is_on_boundaries(bytes: Seq<u8>, chars: Seq<char>, at: int)
    requires
        valid_utf8(bytes),
        chars.len() > 0,
        occurs_at(bytes, encode_utf8(chars), at),
    ensures
        is_char_boundary(bytes, at),
        is_char_boundary(bytes, at + encode_utf8(chars).len()),
{
    let sought = encode_utf8(chars);
    encode_utf8_valid_utf8(chars);
    encode_utf8_first_scalar(chars);
    assert(sought.len() > 0);
    is_char_boundary_start_end_of_seq(sought);
    is_char_boundary_iff_not_is_continuation_byte(sought, 0);
    assert(bytes[at] == bytes.subrange(at, at + sought.len())[0]);
    is_char_boundary_iff_not_is_continuation_byte(bytes, at);
    let end = at + sought.len();
    lemma_boundary_of_suffix(bytes, end, at);
    let from = bytes.subrange(at, bytes.len() as int);
    let rest = bytes.subrange(end, bytes.len() as int);
    assert(from =~= sought + rest);
    lemma_boundary_behind(chars, rest);
}

/// One stretch of a text, by the bytes it starts and ends at.
pub fn slice(s: &str, start: usize, end: usize) -> (stretch: &str)
    requires
        start <= end <= s.spec_bytes().len(),
        is_char_boundary(s.spec_bytes(), start as int),
        is_char_boundary(s.spec_bytes(), end as int),
    ensures
        stretch.spec_bytes() == s.spec_bytes().subrange(start as int, end as int),
{
    proof {
        lemma_text_is_its_bytes(s);
        lemma_boundary_of_prefix(s.spec_bytes(), start as int, end as int);
    }
    let front = s.split_at(end).0;
    let stretch = front.split_at(start).1;
    assert(stretch.spec_bytes() =~= s.spec_bytes().subrange(start as int, end as int));
    stretch
}

/// Whether two byte strings are the same.
pub fn same_bytes(left: &[u8], right: &[u8]) -> (same: bool)
    ensures
        same == (left@ == right@),
{
    if left.len() != right.len() {
        return false;
    }
    let mut at: usize = 0;
    while at < left.len()
        invariant
            left@.len() == right@.len(),
            at <= left@.len(),
            forall|i: int| 0 <= i < at ==> left@[i] == right@[i],
        decreases left@.len() - at,
    {
        if left[at] != right[at] {
            return false;
        }
        at += 1;
    }
    assert(left@ =~= right@);
    true
}

/// Whether two texts read the same.
pub fn same(left: &str, right: &str) -> (same: bool)
    ensures
        same == (left@ == right@),
{
    proof {
        lemma_text_is_its_bytes(left);
        lemma_text_is_its_bytes(right);
    }
    same_bytes(left.as_bytes(), right.as_bytes())
}

/// Whether `needle` is in `haystack` at `at`.
pub open spec fn occurs_at<T>(haystack: Seq<T>, needle: Seq<T>, at: int) -> bool {
    0 <= at && at + needle.len() <= haystack.len() && haystack.subrange(at, at + needle.len())
        == needle
}

/// Whether `at` is the first place `needle` is in `haystack`.
pub open spec fn first_at<T>(haystack: Seq<T>, needle: Seq<T>, at: int) -> bool {
    &&& occurs_at(haystack, needle, at)
    &&& forall|earlier: int| 0 <= earlier < at ==> !#[trigger] occurs_at(haystack, needle, earlier)
}

/// Whether `needle` is in `haystack` at all.
pub open spec fn contains<T>(haystack: Seq<T>, needle: Seq<T>) -> bool {
    exists|at: int| #[trigger] occurs_at(haystack, needle, at)
}

fn bytes_at(haystack: &[u8], needle: &[u8], at: usize) -> (here: bool)
    requires
        at + needle@.len() <= haystack@.len(),
    ensures
        here == occurs_at(haystack@, needle@, at as int),
{
    let length: usize = haystack.len();
    let mut matched: usize = 0;
    while matched < needle.len()
        invariant
            at + needle@.len() <= haystack@.len(),
            length == haystack@.len(),
            matched <= needle@.len(),
            forall|i: int| 0 <= i < matched ==> haystack@[at + i] == needle@[i],
        decreases needle@.len() - matched,
    {
        if haystack[at + matched] != needle[matched] {
            proof {
                let here = haystack@.subrange(at as int, at + needle@.len());
                assert(here[matched as int] != needle@[matched as int]);
            }
            return false;
        }
        matched += 1;
    }
    assert(haystack@.subrange(at as int, at + needle@.len()) =~= needle@);
    true
}

/// Whether one text is anywhere in another.
pub fn has_text(haystack: &str, needle: &str) -> (has: bool)
    ensures
        has == contains(haystack@, needle@),
{
    let chars = chars_of(haystack);
    let sought = chars_of(needle);
    if sought.len() > chars.len() {
        return false;
    }
    let length: usize = chars.len();
    let last: usize = length - sought.len();
    let mut at: usize = 0;
    loop
        invariant
            chars@ == haystack@,
            sought@ == needle@,
            length == chars@.len(),
            last == chars@.len() - sought@.len(),
            at <= last,
            forall|earlier: int|
                0 <= earlier < at ==> !#[trigger] occurs_at(haystack@, needle@, earlier),
        decreases last - at,
    {
        let mut matched: usize = 0;
        while matched < sought.len() && chars[at + matched] == sought[matched]
            invariant
                at + sought@.len() <= chars@.len(),
                length == chars@.len(),
                matched <= sought@.len(),
                forall|i: int| 0 <= i < matched ==> chars@[at + i] == sought@[i],
            decreases sought@.len() - matched,
        {
            matched += 1;
        }
        let ghost here = chars@.subrange(at as int, at + sought@.len());
        if matched == sought.len() {
            assert(here =~= sought@);
            assert(occurs_at(haystack@, needle@, at as int));
            return true;
        }
        assert(here[matched as int] != sought@[matched as int]);
        assert(!occurs_at(haystack@, needle@, at as int));
        if at == last {
            return false;
        }
        at += 1;
    }
}

/// The first place one byte string is in another.
pub fn find(haystack: &[u8], needle: &[u8]) -> (found: Option<usize>)
    ensures
        match found {
            Some(at) => first_at(haystack@, needle@, at as int),
            None => !contains(haystack@, needle@),
        },
{
    if needle.len() > haystack.len() {
        return None;
    }
    let last: usize = haystack.len() - needle.len();
    let mut at: usize = 0;
    while at <= last
        invariant
            last == haystack@.len() - needle@.len(),
            at <= last + 1,
            forall|earlier: int|
                0 <= earlier < at ==> !#[trigger] occurs_at(haystack@, needle@, earlier),
        decreases last + 1 - at,
    {
        if bytes_at(haystack, needle, at) {
            return Some(at);
        }
        if at == last {
            return None;
        }
        at += 1;
    }
    None
}

/// The first place one thing is in another, if it is in it at all.
pub open spec fn first_in<T>(haystack: Seq<T>, needle: Seq<T>) -> Option<int> {
    if contains(haystack, needle) {
        Some(choose|at: int| first_at(haystack, needle, at))
    } else {
        None
    }
}

/// Where there is a place there is a first one.
pub proof fn lemma_there_is_a_first<T>(haystack: Seq<T>, needle: Seq<T>, at: int)
    requires
        occurs_at(haystack, needle, at),
    ensures
        exists|first: int| first_at(haystack, needle, first),
    decreases at,
{
    if exists|earlier: int| 0 <= earlier < at && #[trigger] occurs_at(haystack, needle, earlier) {
        let earlier = choose|earlier: int|
            0 <= earlier < at && #[trigger] occurs_at(haystack, needle, earlier);
        lemma_there_is_a_first(haystack, needle, earlier);
    } else {
        assert(first_at(haystack, needle, at));
    }
}

/// There is only one first place.
pub proof fn lemma_first_in<T>(haystack: Seq<T>, needle: Seq<T>, at: int)
    requires
        first_at(haystack, needle, at),
    ensures
        first_in(haystack, needle) == Some(at),
{
    assert(occurs_at(haystack, needle, at));
    let chosen = choose|chosen: int| first_at(haystack, needle, chosen);
    assert(first_at(haystack, needle, chosen));
    if chosen < at {
        assert(occurs_at(haystack, needle, chosen));
    } else if at < chosen {
        assert(occurs_at(haystack, needle, at));
    }
}

/// Whether one byte string comes behind another, byte for byte.
pub open spec fn is_after(left: Seq<u8>, right: Seq<u8>) -> bool
    decreases left.len(),
{
    if left.len() == 0 {
        false
    } else if right.len() == 0 {
        true
    } else if left[0] != right[0] {
        left[0] > right[0]
    } else {
        is_after(left.drop_first(), right.drop_first())
    }
}

/// Byte strings are in one order, in which the same ones are together and no others.
pub proof fn lemma_byte_order(first: Seq<u8>, second: Seq<u8>, third: Seq<u8>)
    ensures
        is_after(first, second) ==> !is_after(second, first),
        !is_after(first, second) && !is_after(second, third) ==> !is_after(first, third),
        first != second ==> is_after(first, second) || is_after(second, first),
    decreases first.len() + second.len() + third.len(),
{
    if first.len() > 0 && second.len() > 0 {
        let rest = if third.len() > 0 {
            third.drop_first()
        } else {
            third
        };
        if third.len() > 0 {
            lemma_byte_order(first.drop_first(), second.drop_first(), rest);
        } else {
            lemma_byte_order(first.drop_first(), second.drop_first(), Seq::empty());
        }
        if first != second && first[0] == second[0] {
            assert(first =~= seq![first[0]] + first.drop_first());
            assert(second =~= seq![second[0]] + second.drop_first());
        }
    } else if first != second {
        assert(first.len() > 0 || second.len() > 0) by {
            if first.len() == 0 && second.len() == 0 {
                assert(first =~= second);
            }
        }
    }
}

/// [`is_after`], worked out for the bytes of two texts.
pub fn comes_after(left: &str, right: &str) -> (after: bool)
    ensures
        after == is_after(left.spec_bytes(), right.spec_bytes()),
{
    let ours = left.as_bytes();
    let theirs = right.as_bytes();
    let mut at: usize = 0;
    assert(ours@.skip(0) =~= ours@);
    assert(theirs@.skip(0) =~= theirs@);
    while at < ours.len() && at < theirs.len()
        invariant
            ours@ == left.spec_bytes(),
            theirs@ == right.spec_bytes(),
            at <= ours@.len(),
            at <= theirs@.len(),
            is_after(ours@, theirs@) == is_after(ours@.skip(at as int), theirs@.skip(at as int)),
        decreases ours@.len() - at,
    {
        assert(ours@.skip(at as int).drop_first() =~= ours@.skip(at + 1));
        assert(theirs@.skip(at as int).drop_first() =~= theirs@.skip(at + 1));
        if ours[at] != theirs[at] {
            return ours[at] > theirs[at];
        }
        at += 1;
    }
    at < ours.len()
}

/// Where the next `mark` is, from `from` on, or the end where there is none.
pub open spec fn next_at<T>(s: Seq<T>, mark: T, from: int) -> int
    decreases s.len() - from,
{
    if from < s.len() && s[from] != mark {
        next_at(s, mark, from + 1)
    } else {
        from
    }
}

/// What [`next_at`] names is the first `mark` there is, with nothing but other things ahead of it.
pub proof fn lemma_next_at<T>(s: Seq<T>, mark: T, from: int)
    requires
        0 <= from <= s.len(),
    ensures
        from <= next_at(s, mark, from) <= s.len(),
        next_at(s, mark, from) < s.len() ==> s[next_at(s, mark, from)] == mark,
        forall|i: int| from <= i < next_at(s, mark, from) ==> s[i] != mark,
    decreases s.len() - from,
{
    if from < s.len() && s[from] != mark {
        lemma_next_at(s, mark, from + 1);
    }
}

/// The only place with a `mark` at it, or the end, and none ahead of it is the one [`next_at`]
/// names.
pub proof fn lemma_next_at_is<T>(s: Seq<T>, mark: T, from: int, at: int)
    requires
        0 <= from <= at <= s.len(),
        at < s.len() ==> s[at] == mark,
        forall|i: int| from <= i < at ==> s[i] != mark,
    ensures
        next_at(s, mark, from) == at,
    decreases at - from,
{
    if from < at {
        lemma_next_at_is(s, mark, from + 1, at);
    }
}

/// [`next_at`], worked out for bytes.
pub fn next_byte(bytes: &[u8], mark: u8, from: usize) -> (at: usize)
    requires
        from <= bytes@.len(),
    ensures
        from <= at <= bytes@.len(),
        at == next_at(bytes@, mark, from as int),
{
    let mut at: usize = from;
    while at < bytes.len() && bytes[at] != mark
        invariant
            from <= at <= bytes@.len(),
            next_at(bytes@, mark, from as int) == next_at(bytes@, mark, at as int),
        decreases bytes@.len() - at,
    {
        at += 1;
    }
    at
}

/// [`next_at`], worked out for characters.
pub fn next_char(chars: &[char], mark: char, from: usize) -> (at: usize)
    requires
        from <= chars@.len(),
    ensures
        from <= at <= chars@.len(),
        at == next_at(chars@, mark, from as int),
{
    let mut at: usize = from;
    while at < chars.len() && chars[at] != mark
        invariant
            from <= at <= chars@.len(),
            next_at(chars@, mark, from as int) == next_at(chars@, mark, at as int),
        decreases chars@.len() - at,
    {
        at += 1;
    }
    at
}

// ---------------------------------------------------------------------------------------------
// Characters of a text
// ---------------------------------------------------------------------------------------------

/// The characters of a text, one by one.
pub fn chars_of(s: &str) -> (chars: Vec<char>)
    ensures
        chars@ == s@,
{
    let mut chars: Vec<char> = Vec::new();
    for c in it: s.chars()
        invariant
            it.seq() == s@,
            chars@ == s@.take(it.index()),
    {
        chars.push(c);
        assert(chars@ =~= s@.take(it.index() + 1));
    }
    assert(s@.take(s@.len() as int) =~= s@);
    chars
}

/// A stretch of characters, as a text.
pub fn string_of(chars: &[char], start: usize, end: usize) -> (text: String)
    requires
        start <= end <= chars@.len(),
    ensures
        text@ == chars@.subrange(start as int, end as int),
{
    let mut text = String::new();
    let mut at: usize = start;
    while at < end
        invariant
            start <= at <= end <= chars@.len(),
            text@ == chars@.subrange(start as int, at as int),
        decreases end - at,
    {
        text.push(chars[at]);
        at += 1;
        assert(text@ =~= chars@.subrange(start as int, at as int));
    }
    text
}

/// Three texts, one behind another.
pub fn around(before: &str, between: &str, after: &str) -> (text: String)
    ensures
        text@ == before@ + between@ + after@,
{
    let mut text = before.to_owned();
    text.append(between);
    text.append(after);
    text
}

/// The characters Unicode calls white space.
pub open spec fn is_white_space(c: char) -> bool {
    let point = c as int;
    ||| 0x9 <= point <= 0xd
    ||| point == 0x20
    ||| point == 0x85
    ||| point == 0xa0
    ||| point == 0x1680
    ||| 0x2000 <= point <= 0x200a
    ||| point == 0x2028
    ||| point == 0x2029
    ||| point == 0x202f
    ||| point == 0x205f
    ||| point == 0x3000
}

/// Whether a character is white space.
pub fn white_space(c: char) -> (white: bool)
    ensures
        white == is_white_space(c),
{
    let point: u32 = c as u32;
    (0x9 <= point && point <= 0xd) || point == 0x20 || point == 0x85 || point == 0xa0 || point
        == 0x1680 || (0x2000 <= point && point <= 0x200a) || point == 0x2028 || point == 0x2029
        || point == 0x202f || point == 0x205f || point == 0x3000
}

/// A text without the white space it starts with.
pub open spec fn trim_start(s: Seq<char>) -> Seq<char>
    decreases s.len(),
{
    if s.len() > 0 && is_white_space(s[0]) {
        trim_start(s.drop_first())
    } else {
        s
    }
}

/// A text without the white space it ends with.
pub open spec fn trim_end(s: Seq<char>) -> Seq<char>
    decreases s.len(),
{
    if s.len() > 0 && is_white_space(s.last()) {
        trim_end(s.drop_last())
    } else {
        s
    }
}

/// A text without the white space at either end of it.
pub open spec fn trimmed(s: Seq<char>) -> Seq<char> {
    trim_end(trim_start(s))
}

/// Where what is left of a stretch of characters starts and ends once it is trimmed.
pub fn trim(chars: &[char], from: usize, to: usize) -> (kept: (usize, usize))
    requires
        from <= to <= chars@.len(),
    ensures
        from <= kept.0 <= kept.1 <= to,
        chars@.subrange(kept.0 as int, kept.1 as int) == trimmed(
            chars@.subrange(from as int, to as int),
        ),
{
    let ghost whole = chars@.subrange(from as int, to as int);
    let mut start: usize = from;
    while start < to && white_space(chars[start])
        invariant
            from <= start <= to <= chars@.len(),
            whole == chars@.subrange(from as int, to as int),
            trim_start(chars@.subrange(start as int, to as int)) == trim_start(whole),
        decreases to - start,
    {
        proof {
            let rest = chars@.subrange(start as int, to as int);
            assert(rest.drop_first() =~= chars@.subrange(start + 1, to as int));
        }
        start += 1;
    }
    let ghost front = chars@.subrange(start as int, to as int);
    assert(trim_start(whole) == front);
    let mut end: usize = to;
    while end > start && white_space(chars[end - 1])
        invariant
            from <= start <= end <= to <= chars@.len(),
            trim_end(chars@.subrange(start as int, end as int)) == trim_end(front),
        decreases end,
    {
        proof {
            let rest = chars@.subrange(start as int, end as int);
            assert(rest.drop_last() =~= chars@.subrange(start as int, end - 1));
        }
        end -= 1;
    }
    (start, end)
}

/// A text without the white space at either end of it.
pub fn trim_text(s: &str) -> (text: String)
    ensures
        text@ == trimmed(s@),
{
    let chars = chars_of(s);
    assert(chars@.subrange(0, chars@.len() as int) =~= s@);
    let (start, end) = trim(chars.as_slice(), 0, chars.len());
    string_of(chars.as_slice(), start, end)
}

/// A character with an ASCII capital letter made small, and any other left as it is.
pub open spec fn small(c: char) -> char {
    if 'A' <= c <= 'Z' {
        ((c as u8) + 32) as char
    } else {
        c
    }
}

/// A text with its ASCII capital letters made small.
pub open spec fn ascii_small(s: Seq<char>) -> Seq<char> {
    s.map_values(|c: char| small(c))
}

/// [`small`], worked out.
pub fn small_letter(c: char) -> (letter: char)
    ensures
        letter == small(c),
{
    if 'A' <= c && c <= 'Z' {
        ((c as u8) + 32) as char
    } else {
        c
    }
}

/// A text in small letters, where it is not ASCII.
pub uninterp spec fn lowercase(s: Seq<char>) -> Seq<char>;

/// A text in small letters, ASCII or not.
pub open spec fn lowered(s: Seq<char>) -> Seq<char> {
    if is_ascii_chars(s) {
        ascii_small(s)
    } else {
        lowercase(s)
    }
}

/// `str::to_lowercase`: the letters Unicode has small ones of made small, which for a text of
/// ASCII are the ASCII capitals.
#[verifier::external_body]
pub(crate) fn lowercase_text(s: &str) -> (text: String)
    ensures
        text@ == (if is_ascii_chars(s@) {
            ascii_small(s@)
        } else {
            lowercase(s@)
        }),
{
    s.to_lowercase()
}

/// What a text that may be there reads.
pub open spec fn maybe(text: Option<String>) -> Option<Seq<char>> {
    match text {
        Some(text) => Some(text@),
        None => None,
    }
}

// ---------------------------------------------------------------------------------------------
// Numbers in a text
// ---------------------------------------------------------------------------------------------

/// The character of one decimal digit.
pub open spec fn digit(value: nat) -> char {
    (48 + value) as char
}

/// A number written in decimal, with no leading zero.
pub open spec fn decimal(value: nat) -> Seq<char>
    decreases value,
{
    if value < 10 {
        seq![digit(value)]
    } else {
        decimal(value / 10).push(digit(value % 10))
    }
}

/// Whether a character is a decimal digit.
pub open spec fn is_digit(c: char) -> bool {
    '0' <= c <= '9'
}

/// The number a run of decimal digits reads as.
pub open spec fn decimal_value(digits: Seq<char>) -> nat
    decreases digits.len(),
{
    if digits.len() == 0 {
        0
    } else {
        10 * decimal_value(digits.drop_last()) + (digits.last() as nat - 48) as nat
    }
}

/// Whether a text is decimal digits and nothing else.
pub open spec fn all_digits(s: Seq<char>) -> bool {
    forall|i: int| 0 <= i < s.len() ==> is_digit(#[trigger] s[i])
}

/// A text without the plus sign a number may start with.
pub open spec fn unsigned(s: Seq<char>) -> Seq<char> {
    if s.len() > 0 && s[0] == '+' {
        s.drop_first()
    } else {
        s
    }
}

/// The length a text reads as: decimal digits, with a plus sign ahead of them or not, and no
/// more than a `usize` holds.
pub open spec fn read_length(s: Seq<char>) -> Option<usize> {
    let digits = unsigned(s);
    if digits.len() > 0 && all_digits(digits) && decimal_value(digits) <= usize::MAX {
        Some(decimal_value(digits) as usize)
    } else {
        None
    }
}

/// Writes a number at the end of a text, in decimal.
pub fn push_decimal(text: &mut String, value: u128)
    ensures
        final(text)@ == old(text)@ + decimal(value as nat),
    decreases value,
{
    if value >= 10 {
        push_decimal(text, value / 10);
    }
    let last: u8 = 48 + (value % 10) as u8;
    text.push(last as char);
    assert(text@ =~= old(text)@ + decimal(value as nat));
}

proof fn lemma_decimal_value_grows(digits: Seq<char>, shown: int)
    requires
        0 <= shown <= digits.len(),
        all_digits(digits),
    ensures
        decimal_value(digits.take(shown)) <= decimal_value(digits),
    decreases digits.len() - shown,
{
    if shown < digits.len() {
        lemma_decimal_value_grows(digits, shown + 1);
        assert(digits.take(shown + 1).drop_last() =~= digits.take(shown));
    } else {
        assert(digits.take(shown) =~= digits);
    }
}

/// Reads a stretch of characters as a length - see [`read_length`].
pub fn parse_length(chars: &[char], from: usize, to: usize) -> (length: Option<usize>)
    requires
        from <= to <= chars@.len(),
    ensures
        length == read_length(chars@.subrange(from as int, to as int)),
{
    let ghost whole = chars@.subrange(from as int, to as int);
    let start: usize = if from < to && chars[from] == '+' {
        from + 1
    } else {
        from
    };
    let ghost digits = chars@.subrange(start as int, to as int);
    proof {
        if from < to {
            assert(whole[0] == chars@[from as int]);
        }
        if from < to && chars@[from as int] == '+' {
            assert(digits =~= whole.drop_first());
        } else {
            assert(digits =~= whole);
        }
        assert(digits == unsigned(whole));
    }
    if start == to {
        return None;
    }
    let mut value: usize = 0;
    let mut at: usize = start;
    while at < to
        invariant
            start <= at <= to <= chars@.len(),
            whole == chars@.subrange(from as int, to as int),
            digits == chars@.subrange(start as int, to as int),
            digits == unsigned(whole),
            digits.len() > 0,
            forall|i: int| 0 <= i < at - start ==> is_digit(#[trigger] digits[i]),
            value == decimal_value(digits.take(at - start)),
        decreases to - at,
    {
        let c: char = chars[at];
        assert(c == digits[at - start]);
        if !('0' <= c && c <= '9') {
            return None;
        }
        let shown: usize = (c as u32 - 48) as usize;
        proof {
            assert(digits.take(at - start + 1).drop_last() =~= digits.take(at - start));
            assert(decimal_value(digits.take(at - start + 1)) == 10 * value + shown);
            if all_digits(digits) {
                lemma_decimal_value_grows(digits, at - start + 1);
            }
        }
        value = match value.checked_mul(10) {
            Some(tens) => match tens.checked_add(shown) {
                Some(sum) => sum,
                None => {
                    return None;
                },
            },
            None => {
                return None;
            },
        };
        at += 1;
    }
    assert(digits.take(to - start) =~= digits);
    Some(value)
}

/// A text as `{:?}` writes it.
pub uninterp spec fn quoted(s: Seq<char>) -> Seq<char>;

/// `format!("{:?}")` of a text: in quotes, with what would not read plainly escaped. Not stated:
/// which characters those are.
#[verifier::external_body]
pub(crate) fn quoted_text(s: &str) -> (text: String)
    ensures
        text@ == quoted(s@),
{
    format!("{s:?}")
}

/// Bytes read as text the way `String::from_utf8_lossy` reads them, where they are no UTF-8.
pub uninterp spec fn lossy_text(bytes: Seq<u8>) -> Seq<char>;

/// Bytes read as text: what they are the UTF-8 of, and [`lossy_text`] where they are not UTF-8.
pub open spec fn read_text(bytes: Seq<u8>) -> Seq<char> {
    if valid_utf8(bytes) {
        decode_utf8(bytes)
    } else {
        lossy_text(bytes)
    }
}

/// `String::from_utf8_lossy`: bytes that are UTF-8 as the text they are, and any others with a
/// replacement character for what is not - which is a function of the bytes alone.
#[verifier::external_body]
pub(crate) fn text_of_any_bytes(bytes: &[u8]) -> (text: String)
    ensures
        text@ == (if valid_utf8(bytes@) {
            decode_utf8(bytes@)
        } else {
            lossy_text(bytes@)
        }),
{
    String::from_utf8_lossy(bytes).to_string()
}

/// What is written in decimal is no longer than the powers of ten below the number are many.
pub proof fn lemma_decimal_is_short(value: nat)
    requires
        value < 100_000_000,
    ensures
        decimal(value).len() <= 8,
{
    reveal_with_fuel(decimal, 9);
}

/// What is written in decimal reads back as the number it was written from.
pub proof fn lemma_decimal_reads_back(value: nat)
    ensures
        decimal(value).len() > 0,
        all_digits(decimal(value)),
        decimal_value(decimal(value)) == value,
        value <= usize::MAX ==> read_length(decimal(value)) == Some(value as usize),
    decreases value,
{
    if value < 10 {
        let written = decimal(value);
        assert(written.drop_last() =~= Seq::<char>::empty());
        assert(decimal_value(written.drop_last()) == 0);
    } else {
        lemma_decimal_reads_back(value / 10);
        let written = decimal(value);
        assert(written.drop_last() =~= decimal(value / 10));
        assert(written.last() == digit(value % 10));
    }
}

// ---------------------------------------------------------------------------------------------
// What texts promise
// ---------------------------------------------------------------------------------------------

/// White space is exactly the characters Unicode gives that property.
pub proof fn law_white_space_is_what_unicode_has(c: char)
    ensures
        is_white_space(c) <==> seq![
            0x9int,
            0xa,
            0xb,
            0xc,
            0xd,
            0x20,
            0x85,
            0xa0,
            0x1680,
            0x2000,
            0x2001,
            0x2002,
            0x2003,
            0x2004,
            0x2005,
            0x2006,
            0x2007,
            0x2008,
            0x2009,
            0x200a,
            0x2028,
            0x2029,
            0x202f,
            0x205f,
            0x3000,
        ].contains(c as int),
{
    let all = seq![
        0x9int,
        0xa,
        0xb,
        0xc,
        0xd,
        0x20,
        0x85,
        0xa0,
        0x1680,
        0x2000,
        0x2001,
        0x2002,
        0x2003,
        0x2004,
        0x2005,
        0x2006,
        0x2007,
        0x2008,
        0x2009,
        0x200a,
        0x2028,
        0x2029,
        0x202f,
        0x205f,
        0x3000,
    ];
    let point = c as int;
    if 0x9 <= point <= 0xd {
        assert(all[point - 0x9] == point);
    } else if 0x2000 <= point <= 0x200a {
        assert(all[point - 0x2000 + 9] == point);
    }
    assert(all[5] == 0x20 && all[6] == 0x85 && all[7] == 0xa0 && all[8] == 0x1680);
    assert(all[20] == 0x2028 && all[21] == 0x2029 && all[22] == 0x202f && all[23] == 0x205f
        && all[24] == 0x3000);
}

/// A text trimmed is the stretch of it from the first character that is not white space to the last.
pub proof fn law_a_text_is_trimmed_at_both_ends(s: Seq<char>, start: int, end: int)
    requires
        0 <= start <= end <= s.len(),
        forall|i: int| 0 <= i < start ==> is_white_space(#[trigger] s[i]),
        forall|i: int| end <= i < s.len() ==> is_white_space(#[trigger] s[i]),
        start < end ==> !is_white_space(s[start]) && !is_white_space(s[end - 1]),
    ensures
        trimmed(s) == s.subrange(start, end),
    decreases s.len(),
{
    if start > 0 {
        assert(is_white_space(s[0]));
        law_a_text_is_trimmed_at_both_ends(s.drop_first(), start - 1, end - 1);
        assert(s.drop_first().subrange(start - 1, end - 1) =~= s.subrange(start, end));
    } else if s.len() > 0 && start == end {
        assert(is_white_space(s[0]));
        law_a_text_is_trimmed_at_both_ends(s.drop_first(), 0, 0);
        assert(s.drop_first().subrange(0, 0) =~= s.subrange(start, end));
    } else {
        lemma_trimmed_at_the_end(s, end);
        assert(s.take(end) =~= s.subrange(start, end));
    }
}

proof fn lemma_trimmed_at_the_end(s: Seq<char>, end: int)
    requires
        0 <= end <= s.len(),
        forall|i: int| end <= i < s.len() ==> is_white_space(#[trigger] s[i]),
        end > 0 ==> !is_white_space(s[end - 1]),
    ensures
        trim_end(s) == s.take(end),
    decreases s.len(),
{
    if end < s.len() {
        assert(is_white_space(s[s.len() - 1]));
        lemma_trimmed_at_the_end(s.drop_last(), end);
        assert(s.drop_last().take(end) =~= s.take(end));
    } else {
        assert(s.take(end) =~= s);
    }
}

/// Nothing is left of a text trimmed exactly where it is nothing but white space.
pub proof fn law_only_white_space_is_trimmed_away(s: Seq<char>)
    ensures
        trimmed(s).len() == 0 <==> forall|i: int|
            0 <= i < s.len() ==> is_white_space(#[trigger] s[i]),
    decreases s.len(),
{
    if forall|i: int| 0 <= i < s.len() ==> is_white_space(#[trigger] s[i]) {
        law_a_text_is_trimmed_at_both_ends(s, 0, 0);
    } else if is_white_space(s[0]) {
        let rest = s.drop_first();
        law_only_white_space_is_trimmed_away(rest);
        let at = choose|i: int| 0 <= i < s.len() && !is_white_space(#[trigger] s[i]);
        assert(rest[at - 1] == s[at]);
    } else {
        lemma_front_is_kept(s);
    }
}

proof fn lemma_front_is_kept(s: Seq<char>)
    requires
        s.len() > 0,
        !is_white_space(s[0]),
    ensures
        trim_end(s).len() > 0,
    decreases s.len(),
{
    if is_white_space(s.last()) {
        assert(s.len() > 1);
        lemma_front_is_kept(s.drop_last());
    }
}

/// One text comes after another exactly where they agree up to a place at which it has the greater
/// byte, or at which the other has ended and it goes on.
pub proof fn law_the_first_difference_decides(left: Seq<u8>, right: Seq<u8>)
    ensures
        is_after(left, right) <==> exists|at: int|
            0 <= at < left.len() && at <= right.len() && #[trigger] left.take(at) == right.take(at)
                && (at == right.len() || left[at] > right[at]),
    decreases left.len(),
{
    if is_after(left, right) {
        if right.len() == 0 || left[0] > right[0] {
            assert(left.take(0) =~= right.take(0));
        } else {
            let fewer = left.drop_first();
            let rest = right.drop_first();
            law_the_first_difference_decides(fewer, rest);
            let at = choose|at: int|
                0 <= at < fewer.len() && at <= rest.len() && #[trigger] fewer.take(at)
                    == rest.take(at) && (at == rest.len() || fewer[at] > rest[at]);
            assert(left.take(at + 1) =~= seq![left[0]] + fewer.take(at));
            assert(right.take(at + 1) =~= seq![right[0]] + rest.take(at));
            assert(left.take(at + 1) == right.take(at + 1));
        }
    }
    if exists|at: int|
        0 <= at < left.len() && at <= right.len() && #[trigger] left.take(at) == right.take(at) && (
        at == right.len() || left[at] > right[at]) {
        let at = choose|at: int|
            0 <= at < left.len() && at <= right.len() && #[trigger] left.take(at) == right.take(at)
                && (at == right.len() || left[at] > right[at]);
        if at > 0 {
            assert(left[0] == left.take(at)[0] && right[0] == right.take(at)[0]);
            let fewer = left.drop_first();
            let rest = right.drop_first();
            assert(fewer.take(at - 1) =~= left.take(at).drop_first());
            assert(rest.take(at - 1) =~= right.take(at).drop_first());
            law_the_first_difference_decides(fewer, rest);
            assert(fewer.take(at - 1) == rest.take(at - 1));
        }
    }
}

/// A text in small letters is as long as it was, with each of the capitals `A` to `Z` in it the letter
/// thirty-two further on and everything else as it was.
pub proof fn law_only_capitals_are_made_small(s: Seq<char>)
    ensures
        ascii_small(s).len() == s.len(),
        forall|i: int|
            0 <= i < s.len() ==> {
                let point = s[i] as int;
                (#[trigger] ascii_small(s)[i]) as int == if 65 <= point <= 90 {
                    point + 32
                } else {
                    point
                }
            },
        is_ascii_chars(s) ==> lowered(s) == ascii_small(s),
        !is_ascii_chars(s) ==> lowered(s) == lowercase(s),
{
}

/// A number written out is its digits, read back as the number, and starts with a nought only where
/// it is one. Each digit further on counts for one and the ones ahead of it for ten times as much.
pub proof fn law_a_number_reads_back(value: nat, digits: Seq<char>, digit: char)
    requires
        '0' <= digit <= '9',
    ensures
        decimal_value(decimal(value)) == value,
        decimal(value).len() > 0,
        forall|i: int| 0 <= i < decimal(value).len() ==> '0' <= #[trigger] decimal(value)[i] <= '9',
        value > 0 ==> decimal(value)[0] != '0',
        decimal_value(digits.push(digit)) == 10 * decimal_value(digits) + (digit as int - 48),
        decimal_value(Seq::<char>::empty()) == 0,
        value <= usize::MAX ==> read_length(decimal(value)) == Some(value as usize),
        value <= usize::MAX ==> read_length(seq!['+'] + decimal(value)) == Some(value as usize),
        value > usize::MAX ==> read_length(decimal(value)) is None,
    decreases value,
{
    assert(digits.push(digit).drop_last() =~= digits);
    if value >= 10 {
        law_a_number_reads_back(value / 10, digits, digit);
        let last = (48 + value % 10) as char;
        assert(decimal(value).drop_last() =~= decimal(value / 10));
    } else {
        assert(decimal(value).drop_last() =~= Seq::<char>::empty());
        assert(decimal_value(Seq::<char>::empty()) == 0);
    }
    assert((seq!['+'] + decimal(value)).drop_first() =~= decimal(value));
    assert(unsigned(decimal(value)) == decimal(value));
}

/// What a length is read from is digits, with a plus ahead of them or not, and nothing else.
pub proof fn law_a_length_is_nothing_but_digits(s: Seq<char>)
    ensures
        read_length(s) is Some ==> s.len() > 0 && forall|i: int|
            0 <= i < s.len() ==> ('0' <= #[trigger] s[i] <= '9' || (i == 0 && s[0] == '+' && s.len()
                > 1)),
{
    if read_length(s) is Some && s[0] == '+' {
        assert forall|i: int| 0 <= i < s.len() implies ('0' <= #[trigger] s[i] <= '9' || (i == 0
            && s[0] == '+' && s.len() > 1)) by {
            if i > 0 {
                assert(s.drop_first()[i - 1] == s[i]);
            }
        }
    }
}

/// The first place a text is found at is one it is at, with no earlier one; there is none exactly
/// where it is nowhere.
pub proof fn law_a_text_is_found_where_it_is_first<T>(haystack: Seq<T>, needle: Seq<T>, at: int)
    ensures
        first_in(haystack, needle) matches Some(found) ==> {
            &&& 0 <= found && found + needle.len() <= haystack.len()
            &&& haystack.subrange(found, found + needle.len()) == needle
            &&& 0 <= at < found ==> haystack.subrange(at, at + needle.len()) != needle
        },
        first_in(haystack, needle) is None && 0 <= at && at + needle.len() <= haystack.len()
            ==> haystack.subrange(at, at + needle.len()) != needle,
{
    if contains(haystack, needle) {
        let somewhere = choose|at: int| #[trigger] occurs_at(haystack, needle, at);
        lemma_there_is_a_first(haystack, needle, somewhere);
        let found = first_in(haystack, needle)->0;
        assert(first_at(haystack, needle, found));
        assert(0 <= at < found ==> !occurs_at(haystack, needle, at));
    } else {
        assert(!occurs_at(haystack, needle, at));
    }
}

/// Of two texts with a mark between them, the next mark ahead of it is that of the first, or that one.
pub proof fn lemma_next_at_in_the_first<T>(first: Seq<T>, mark: T, second: Seq<T>, from: int)
    requires
        0 <= from <= first.len(),
    ensures
        next_at(first + seq![mark] + second, mark, from) == next_at(first, mark, from),
{
    let both = first + seq![mark] + second;
    lemma_next_at(first, mark, from);
    let at = next_at(first, mark, from);
    assert forall|i: int| from <= i < at implies both[i] != mark by {
        assert(both[i] == first[i]);
    }
    if at < first.len() {
        assert(both[at] == first[at]);
    }
    lemma_next_at_is(both, mark, from, at);
}

/// Of two texts with a mark between them, the next mark behind it is that of the second.
pub proof fn lemma_next_at_in_the_second<T>(first: Seq<T>, mark: T, second: Seq<T>, from: int)
    requires
        0 <= from <= second.len(),
    ensures
        next_at(first + seq![mark] + second, mark, first.len() + 1 + from) == first.len() + 1
            + next_at(second, mark, from),
{
    let both = first + seq![mark] + second;
    lemma_next_at(second, mark, from);
    let at = next_at(second, mark, from);
    let behind = first.len() + 1;
    assert forall|i: int| behind + from <= i < behind + at implies both[i] != mark by {
        assert(both[i] == second[i - behind]);
    }
    if at < second.len() {
        assert(both[behind + at] == second[at]);
    }
    lemma_next_at_is(both, mark, behind + from, behind + at);
}

/// A text holds each stretch it is put together of.
pub proof fn lemma_is_held(front: Seq<char>, sought: Seq<char>, rest: Seq<char>)
    ensures
        contains(front + sought + rest, sought),
{
    let whole = front + sought + rest;
    assert(whole.subrange(front.len() as int, front.len() as int + sought.len()) =~= sought);
    assert(occurs_at(whole, sought, front.len() as int));
}

} // verus!
