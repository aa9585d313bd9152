//! The lines of a text, by the bytes they start and end at.
//!
//! A newline is one byte, and no part of any other character, so where a line starts and ends is
//! said of the bytes of a text alone.

use vstd::prelude::*;
use vstd::string::*;
use vstd::utf8::*;

use crate::text;

verus! {

broadcast use vstd::string::group_string_axioms;

/// The byte a line ends with.
pub const NEWLINE: u8 = 10;

/// Where the line that starts at `start` ends: at its newline, or at the end of the text.
pub open spec fn line_end(bytes: Seq<u8>, start: int) -> int {
    text::next_at(bytes, NEWLINE, start)
}

/// Where a line starts, counted from zero: each behind the newline of the one ahead of it. A text
/// has one line more than it has newlines.
pub open spec fn line_start(bytes: Seq<u8>, line: nat) -> Option<int>
    decreases line,
{
    if line == 0 {
        Some(0)
    } else {
        match line_start(bytes, (line - 1) as nat) {
            None => None,
            Some(start) => if line_end(bytes, start) < bytes.len() {
                Some(line_end(bytes, start) + 1)
            } else {
                None
            },
        }
    }
}

/// A line starts and ends on boundaries of the text it is in.
pub proof fn lemma_line_is_a_stretch(bytes: Seq<u8>, line: nat)
    requires
        valid_utf8(bytes),
        line_start(bytes, line) is Some,
    ensures
        0 <= line_start(bytes, line)->0 <= line_end(bytes, line_start(bytes, line)->0)
            <= bytes.len(),
        is_char_boundary(bytes, line_start(bytes, line)->0),
        is_char_boundary(bytes, line_end(bytes, line_start(bytes, line)->0)),
    decreases line,
{
    is_char_boundary_start_end_of_seq(bytes);
    if line > 0 {
        lemma_line_is_a_stretch(bytes, (line - 1) as nat);
        let before = line_start(bytes, (line - 1) as nat)->0;
        text::lemma_next_at(bytes, NEWLINE, before);
        text::lemma_ascii_byte_is_a_character(bytes, line_end(bytes, before));
    }
    let start = line_start(bytes, line)->0;
    text::lemma_next_at(bytes, NEWLINE, start);
    if line_end(bytes, start) < bytes.len() {
        text::lemma_ascii_byte_is_a_character(bytes, line_end(bytes, start));
    }
}

/// A line ends ahead of where any later line starts.
pub proof fn lemma_lines_are_in_order(bytes: Seq<u8>, line: nat, later: nat)
    requires
        valid_utf8(bytes),
        line < later,
        line_start(bytes, later) is Some,
    ensures
        line_start(bytes, line) is Some,
        line_end(bytes, line_start(bytes, line)->0) < line_start(bytes, later)->0,
    decreases later,
{
    if line + 1 < later {
        lemma_lines_are_in_order(bytes, line, (later - 1) as nat);
        lemma_line_is_a_stretch(bytes, (later - 1) as nat);
    }
}

/// Where a line no text has started by is not one a later line starts at either.
proof fn lemma_no_line_behind(bytes: Seq<u8>, line: nat, later: nat)
    requires
        line <= later,
        line_start(bytes, line) is None,
    ensures
        line_start(bytes, later) is None,
    decreases later,
{
    if line < later {
        lemma_no_line_behind(bytes, line, (later - 1) as nat);
    }
}

/// Where a line starts, if the text has it - see [`line_start`].
pub fn start_of(s: &str, line: usize) -> (start: Option<usize>)
    ensures
        match start {
            Some(start) => line_start(s.spec_bytes(), line as nat) == Some(start as int),
            None => line_start(s.spec_bytes(), line as nat) is None,
        },
{
    proof {
        text::lemma_text_is_its_bytes(s);
    }
    let bytes = s.as_bytes();
    let mut start: usize = 0;
    let mut passed: usize = 0;
    while passed < line
        invariant
            bytes@ == s.spec_bytes(),
            valid_utf8(bytes@),
            passed <= line,
            start <= bytes@.len(),
            line_start(bytes@, passed as nat) == Some(start as int),
        decreases line - passed,
    {
        let end: usize = text::next_byte(bytes, NEWLINE, start);
        if end == bytes.len() {
            proof {
                assert(line_start(bytes@, (passed + 1) as nat) is None);
                lemma_no_line_behind(bytes@, (passed + 1) as nat, line as nat);
            }
            return None;
        }
        start = end + 1;
        passed += 1;
    }
    Some(start)
}

/// Where the line that starts at `start` ends - see [`line_end`].
pub fn end_of(s: &str, start: usize) -> (end: usize)
    requires
        start <= s.spec_bytes().len(),
    ensures
        start <= end <= s.spec_bytes().len(),
        end == line_end(s.spec_bytes(), start as int),
{
    text::next_byte(s.as_bytes(), NEWLINE, start)
}

/// How many newlines there are in the rest of a text, from `from` on.
pub open spec fn newlines_from(bytes: Seq<u8>, from: int) -> nat
    decreases bytes.len() - from,
{
    if from >= bytes.len() {
        0
    } else if bytes[from] == NEWLINE {
        1 + newlines_from(bytes, from + 1)
    } else {
        newlines_from(bytes, from + 1)
    }
}

/// How many newlines there are in a text.
pub open spec fn newlines(bytes: Seq<u8>) -> nat {
    newlines_from(bytes, 0)
}

/// The newlines from a place on are the one its line ends with, and those behind it.
proof fn lemma_newlines_by_line(bytes: Seq<u8>, start: int)
    requires
        0 <= start <= bytes.len(),
    ensures
        start <= line_end(bytes, start) <= bytes.len(),
        newlines_from(bytes, start) == if line_end(bytes, start) < bytes.len() {
            1 + newlines_from(bytes, line_end(bytes, start) + 1)
        } else {
            0
        },
    decreases bytes.len() - start,
{
    if start < bytes.len() && bytes[start] != NEWLINE {
        lemma_newlines_by_line(bytes, start + 1);
    }
}

/// A text has one line more than it has newlines: it has every line up to that number, and none
/// past it. Behind the start of a line are the newlines of that line and the lines behind it.
pub proof fn law_a_text_has_one_line_more_than_newlines(bytes: Seq<u8>, line: nat)
    ensures
        line_start(bytes, line) is Some <==> line <= newlines(bytes),
        line_start(bytes, line) matches Some(start) ==> 0 <= start <= bytes.len() && newlines_from(
            bytes,
            start,
        ) == newlines(bytes) - line,
    decreases line,
{
    if line > 0 {
        law_a_text_has_one_line_more_than_newlines(bytes, (line - 1) as nat);
        if let Some(start) = line_start(bytes, (line - 1) as nat) {
            lemma_newlines_by_line(bytes, start);
        }
    }
}

/// The newlines from a place on are those of the rest of the text.
pub proof fn lemma_newlines_are(bytes: Seq<u8>, from: int)
    requires
        0 <= from <= bytes.len(),
    ensures
        newlines_from(bytes, from) == bytes.subrange(from, bytes.len() as int).filter(
            |b: u8| b == 10,
        ).len(),
    decreases bytes.len() - from,
{
    reveal(Seq::filter);
    let rest = bytes.subrange(from, bytes.len() as int);
    if from < bytes.len() {
        lemma_newlines_are(bytes, from + 1);
        let first = seq![bytes[from]];
        let behind = bytes.subrange(from + 1, bytes.len() as int);
        assert(rest =~= first + behind);
        Seq::filter_distributes_over_add(first, behind, |b: u8| b == 10);
        assert(first.drop_last() =~= Seq::<u8>::empty());
        assert(first.filter(|b: u8| b == 10).len() == if bytes[from] == 10 {
            1nat
        } else {
            0nat
        }) by {
            assert(first.last() == bytes[from]);
            assert(Seq::<u8>::empty().filter(|b: u8| b == 10).len() == 0);
        }
    }
}

/// A line starts the text, or stands behind a newline.
pub proof fn lemma_line_starts_behind_a_newline(bytes: Seq<u8>, line: nat)
    ensures
        line_start(bytes, line) matches Some(start) ==> start == 0 || bytes[start - 1] == 10,
{
    if line > 0 {
        law_a_text_has_one_line_more_than_newlines(bytes, (line - 1) as nat);
        if let Some(start) = line_start(bytes, (line - 1) as nat) {
            text::lemma_next_at(bytes, NEWLINE, start);
        }
    }
}

/// What starts the text, or stands behind a newline, is the line with as many newlines ahead of it as
/// there are.
pub proof fn lemma_line_starts_here(bytes: Seq<u8>, start: int)
    requires
        0 <= start <= bytes.len(),
        start == 0 || bytes[start - 1] == 10,
    ensures
        line_start(bytes, bytes.subrange(0, start).filter(|b: u8| b == 10).len()) == Some(start),
{
    let line = bytes.subrange(0, start).filter(|b: u8| b == 10).len();
    lemma_newlines_are(bytes, 0);
    lemma_newlines_are(bytes, start);
    assert(bytes.subrange(0, bytes.len() as int) =~= bytes.subrange(0, start) + bytes.subrange(
        start,
        bytes.len() as int,
    ));
    Seq::filter_distributes_over_add(
        bytes.subrange(0, start),
        bytes.subrange(start, bytes.len() as int),
        |b: u8| b == 10,
    );
    law_a_text_has_one_line_more_than_newlines(bytes, line);
    let there = line_start(bytes, line)->0;
    lemma_line_starts_behind_a_newline(bytes, line);
    if there < start {
        lemma_fewer_newlines_further_on(bytes, there, start);
    } else if start < there {
        lemma_fewer_newlines_further_on(bytes, start, there);
    }
}

proof fn lemma_fewer_newlines_further_on(bytes: Seq<u8>, from: int, to: int)
    requires
        0 <= from < to <= bytes.len(),
        bytes[to - 1] == 10,
    ensures
        newlines_from(bytes, from) > newlines_from(bytes, to),
    decreases to - from,
{
    if from + 1 < to {
        lemma_fewer_newlines_further_on(bytes, from + 1, to);
    }
}

/// A line has as many newlines ahead of it as its number, and a text has no line past the number of
/// its newlines.
pub proof fn lemma_newlines_ahead_of_a_line(bytes: Seq<u8>, line: nat)
    ensures
        line_start(bytes, line) is Some <==> line <= bytes.filter(|b: u8| b == 10).len(),
        line_start(bytes, line) matches Some(start) ==> {
            &&& 0 <= start <= bytes.len()
            &&& start == 0 || bytes[start - 1] == 10
            &&& bytes.subrange(0, start).filter(|b: u8| b == 10).len() == line
        },
{
    law_a_text_has_one_line_more_than_newlines(bytes, line);
    lemma_line_starts_behind_a_newline(bytes, line);
    lemma_newlines_are(bytes, 0);
    assert(bytes.subrange(0, bytes.len() as int) =~= bytes);
    if let Some(start) = line_start(bytes, line) {
        lemma_newlines_are(bytes, start);
        assert(bytes =~= bytes.subrange(0, start) + bytes.subrange(start, bytes.len() as int));
        Seq::filter_distributes_over_add(
            bytes.subrange(0, start),
            bytes.subrange(start, bytes.len() as int),
            |b: u8| b == 10,
        );
    }
}

} // verus!
