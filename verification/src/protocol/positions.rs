//! The one place a position is turned from the editor's units into the server's, and back.
//!
//! An editor counts how far into a line a place is in bytes. A server counts in whichever units
//! it agreed to - see [`PositionEncoding`] - and the two are the same number only on a line of
//! ASCII.

use vstd::prelude::*;
use vstd::string::*;
use vstd::utf8::*;

use crate::error::{Fault, LspError};
use crate::lines;
use crate::payload::LspPosition;
use crate::process::PositionEncoding;
use crate::text;

verus! {

broadcast use vstd::string::group_string_axioms;

// ---------------------------------------------------------------------------------------------
// What a column is
// ---------------------------------------------------------------------------------------------

/// The last place at or ahead of `at` that a character starts or the text ends at.
pub open spec fn boundary_before(bytes: Seq<u8>, at: int) -> int
    decreases at,
{
    if at <= 0 || is_char_boundary(bytes, at) {
        at
    } else {
        boundary_before(bytes, at - 1)
    }
}

/// A column held to the line it is a column of.
pub open spec fn held_to(bytes: Seq<u8>, column: int) -> int {
    if column <= bytes.len() {
        column
    } else {
        bytes.len() as int
    }
}

/// Where a column cuts its line: at the column, at the end of the line where the column is past
/// it, and at the start of the character where it lands inside one.
pub open spec fn cut_at(bytes: Seq<u8>, column: int) -> int {
    boundary_before(bytes, held_to(bytes, column))
}

/// How many UTF-16 code units a character is.
pub open spec fn units_of(c: char) -> nat {
    if c as int >= 0x10000 {
        2
    } else {
        1
    }
}

/// How many UTF-16 code units a text is.
pub open spec fn units(chars: Seq<char>) -> nat
    decreases chars.len(),
{
    if chars.len() == 0 {
        0
    } else {
        units_of(chars[0]) + units(chars.drop_first())
    }
}

/// How many bytes the longest front of a text that is no more than `limit` UTF-16 code units is.
pub open spec fn bytes_within(chars: Seq<char>, limit: int) -> nat
    decreases chars.len(),
{
    if chars.len() == 0 || units_of(chars[0]) > limit {
        0
    } else {
        encode_scalar(chars[0] as u32).len() + bytes_within(
            chars.drop_first(),
            limit - units_of(chars[0]),
        )
    }
}

/// How many units a byte column is, against the line it is a column of: so many bytes, or so many
/// UTF-16 code units, each held to what a protocol column holds.
pub open spec fn counted(bytes: Seq<u8>, column: int, encoding: PositionEncoding) -> u32 {
    let cut = cut_at(bytes, column);
    match encoding {
        PositionEncoding::Utf8 => cut as u32,
        PositionEncoding::Utf16 => units(decode_utf8(bytes.subrange(0, cut))) as u32,
    }
}

/// The byte column a server's column is, against the line it is a column of.
pub open spec fn counted_back(bytes: Seq<u8>, character: u32, encoding: PositionEncoding) -> int {
    match encoding {
        PositionEncoding::Utf8 => cut_at(bytes, character as int),
        PositionEncoding::Utf16 => bytes_within(decode_utf8(bytes), character as int) as int,
    }
}

/// A line without the carriage returns at its end.
pub open spec fn without_returns(line: Seq<u8>) -> Seq<u8>
    decreases line.len(),
{
    if line.len() > 0 && line.last() == 13u8 {
        without_returns(line.drop_last())
    } else {
        line
    }
}

/// What one line of a document reads, by its number counted from zero.
pub open spec fn line_in(bytes: Seq<u8>, line: nat) -> Option<Seq<u8>> {
    match lines::line_start(bytes, line) {
        None => None,
        Some(start) => Some(
            without_returns(bytes.subrange(start, lines::line_end(bytes, start))),
        ),
    }
}

// ---------------------------------------------------------------------------------------------
// Counting columns
// ---------------------------------------------------------------------------------------------

/// A cut is a place in its line.
pub proof fn lemma_cut_is_a_place(bytes: Seq<u8>, column: int)
    requires
        valid_utf8(bytes),
        0 <= column,
    ensures
        0 <= cut_at(bytes, column) <= bytes.len(),
        cut_at(bytes, column) <= column,
        is_char_boundary(bytes, cut_at(bytes, column)),
{
    is_char_boundary_start_end_of_seq(bytes);
    lemma_boundary_is_a_place(bytes, held_to(bytes, column));
}

proof fn lemma_boundary_is_a_place(bytes: Seq<u8>, at: int)
    requires
        valid_utf8(bytes),
        0 <= at <= bytes.len(),
    ensures
        0 <= boundary_before(bytes, at) <= at,
        is_char_boundary(bytes, boundary_before(bytes, at)),
    decreases at,
{
    is_char_boundary_start_end_of_seq(bytes);
    if at > 0 && !is_char_boundary(bytes, at) {
        lemma_boundary_is_a_place(bytes, at - 1);
    }
}

/// [`cut_at`], worked out.
fn cut(line: &str, column: usize) -> (at: usize)
    ensures
        at == cut_at(line.spec_bytes(), column as int),
        at <= line.spec_bytes().len(),
        is_char_boundary(line.spec_bytes(), at as int),
{
    proof {
        text::lemma_text_is_its_bytes(line);
        is_char_boundary_start_end_of_seq(line.spec_bytes());
    }
    let length: usize = line.as_bytes().len();
    let mut at: usize = if column <= length {
        column
    } else {
        length
    };
    while at > 0 && !line.is_char_boundary(at)
        invariant
            at <= line.spec_bytes().len(),
            cut_at(line.spec_bytes(), column as int) == boundary_before(
                line.spec_bytes(),
                at as int,
            ),
        decreases at,
    {
        at -= 1;
    }
    proof {
        lemma_cut_is_a_place(line.spec_bytes(), column as int);
    }
    at
}

/// A character has no more UTF-16 code units than it has bytes.
proof fn lemma_character_units(c: char)
    ensures
        1 <= units_of(c) <= encode_scalar(c as u32).len() <= 4,
{
}

/// How many UTF-16 code units a character is - see [`units_of`].
fn character_units(c: char) -> (count: u32)
    ensures
        count == units_of(c),
{
    if c as u32 >= 0x10000 {
        2
    } else {
        1
    }
}

/// A text has no more UTF-16 code units than it has bytes.
proof fn lemma_units_fit(chars: Seq<char>)
    ensures
        units(chars) <= encode_utf8(chars).len(),
    decreases chars.len(),
{
    if chars.len() > 0 {
        lemma_units_fit(chars.drop_first());
        lemma_character_units(chars[0]);
    }
}

/// How many UTF-16 code units a text is - see [`units`].
fn count_units(s: &str) -> (count: usize)
    ensures
        count == units(s@),
{
    let chars = text::chars_of(s);
    let length: usize = s.as_bytes().len();
    proof {
        lemma_units_fit(s@);
        assert(s@.skip(0) =~= s@);
    }
    let mut count: usize = 0;
    let mut at: usize = 0;
    while at < chars.len()
        invariant
            chars@ == s@,
            at <= chars@.len(),
            length == encode_utf8(s@).len(),
            units(s@) <= length,
            count + units(s@.skip(at as int)) == units(s@),
        decreases chars@.len() - at,
    {
        let ghost left = s@.skip(at as int);
        assert(left.drop_first() =~= s@.skip(at + 1));
        count += character_units(chars[at]) as usize;
        at += 1;
    }
    assert(s@.skip(at as int).len() == 0);
    count
}

/// The column the server wants, from the byte column the editor gives, against the line it
/// falls on.
///
/// This is the whole of the encoding question, in one function, on purpose: it is the bug
/// every LSP client has, it is invisible in a file of ASCII, and the only defence is that
/// there is one place to get it right. A column past the end of the line is clamped to the
/// end, which is what the protocol says to do with one.
pub fn lsp_character(line: &str, byte_column: usize, encoding: PositionEncoding) -> (character: u32)
    ensures
        character == counted(line.spec_bytes(), byte_column as int, encoding),
{
    let cut: usize = cut(line, byte_column);
    match encoding {
        PositionEncoding::Utf8 => cut as u32,
        PositionEncoding::Utf16 => {
            proof {
                text::lemma_text_is_its_bytes(line);
                is_char_boundary_start_end_of_seq(line.spec_bytes());
            }
            let front = text::slice(line, 0, cut);
            proof {
                text::lemma_text_is_its_bytes(front);
            }
            let count: usize = count_units(front);
            count as u32
        },
    }
}

/// How many bytes a character is.
fn width(c: char) -> (bytes: usize)
    ensures
        bytes == encode_scalar(c as u32).len(),
        1 <= bytes <= 4,
{
    let point: u32 = c as u32;
    if point < 0x80 {
        1
    } else if point < 0x800 {
        2
    } else if point < 0x10000 {
        3
    } else {
        4
    }
}

/// A front of a text is no longer than the text.
proof fn lemma_within_fits(chars: Seq<char>, limit: int)
    ensures
        bytes_within(chars, limit) <= encode_utf8(chars).len(),
    decreases chars.len(),
{
    if chars.len() > 0 && units_of(chars[0]) <= limit {
        lemma_within_fits(chars.drop_first(), limit - units_of(chars[0]));
    }
}

/// The byte column a server's column falls on, against the line it falls on: the way back from
/// [`lsp_character`], for the places a server names rather than the ones it is asked about.
///
/// The same rules in the other direction. A column past the end of the line is the end of it,
/// and one landing inside a character - between the two halves of an emoji's surrogate pair,
/// say - belongs to that character's start.
pub fn byte_column(line: &str, character: u32, encoding: PositionEncoding) -> (column: usize)
    ensures
        column == counted_back(line.spec_bytes(), character, encoding),
        column <= line.spec_bytes().len(),
{
    match encoding {
        PositionEncoding::Utf8 => cut(line, character as usize),
        PositionEncoding::Utf16 => {
            let chars = text::chars_of(line);
            let length: usize = line.as_bytes().len();
            proof {
                text::lemma_text_is_its_bytes(line);
                lemma_within_fits(line@, character as int);
                assert(line@.skip(0) =~= line@);
            }
            let mut left: u32 = character;
            let mut column: usize = 0;
            let mut at: usize = 0;
            while at < chars.len()
                invariant
                    chars@ == line@,
                    at <= chars@.len(),
                    left <= character,
                    decode_utf8(line.spec_bytes()) == line@,
                    encoding == PositionEncoding::Utf16,
                    length == line.spec_bytes().len(),
                    bytes_within(line@, character as int) <= length,
                    column + bytes_within(line@.skip(at as int), left as int) == bytes_within(
                        line@,
                        character as int,
                    ),
                decreases chars@.len() - at,
            {
                let ghost rest = line@.skip(at as int);
                assert(rest.drop_first() =~= line@.skip(at + 1));
                let here: u32 = character_units(chars[at]);
                if here > left {
                    return column;
                }
                left -= here;
                column += width(chars[at]);
                at += 1;
            }
            assert(line@.skip(at as int).len() == 0);
            column
        },
    }
}

/// One line of a document, by its number counted from zero. `None` says the position is
/// past the end of the file, which is a caller working from a stale copy of it.
pub fn line_of(text: &str, line: usize) -> (found: Option<&str>)
    ensures
        match found {
            Some(found) => line_in(text.spec_bytes(), line as nat) == Some(found.spec_bytes()),
            None => line_in(text.spec_bytes(), line as nat) is None,
        },
{
    proof {
        text::lemma_text_is_its_bytes(text);
    }
    let start: usize = match lines::start_of(text, line) {
        Some(start) => start,
        None => {
            return None;
        },
    };
    proof {
        lines::lemma_line_is_a_stretch(text.spec_bytes(), line as nat);
    }
    let bytes = text.as_bytes();
    let mut end: usize = lines::end_of(text, start);
    let ghost whole = bytes@.subrange(start as int, end as int);
    while end > start && bytes[end - 1] == 13
        invariant
            bytes@ == text.spec_bytes(),
            valid_utf8(bytes@),
            start <= end <= bytes@.len(),
            is_char_boundary(bytes@, end as int),
            without_returns(bytes@.subrange(start as int, end as int)) == without_returns(whole),
        decreases end,
    {
        proof {
            text::lemma_ascii_byte_is_a_character(bytes@, end - 1);
            let here = bytes@.subrange(start as int, end as int);
            assert(here.drop_last() =~= bytes@.subrange(start as int, end - 1));
        }
        end -= 1;
    }
    Some(text::slice(text, start, end))
}

/// The character a caret sits behind: the last one of its line ahead of the column.
pub open spec fn behind(bytes: Seq<u8>, at: LspPosition) -> Option<char> {
    match line_in(bytes, at.line as nat) {
        None => None,
        Some(line) => {
            let front = decode_utf8(line.subrange(0, cut_at(line, at.column as int)));
            if front.len() == 0 {
                None
            } else {
                Some(front.last())
            }
        },
    }
}

/// The character immediately before a position, which is the one just typed when the
/// position is a caret and somebody is typing.
///
/// It is what says whether a completion is being asked for because of a trigger character:
/// the caret in `thing.|` sits behind a `.`, and whether that `.` means anything is the
/// server's own list to say - see [`crate::protocol::trigger_characters`].
///
/// Counted in the editor's bytes rather than the server's units, because it is read against
/// the text this side holds. `None` at the start of a line and past the end of the file. A
/// column landing inside a character belongs to that character, exactly as it does in
/// [`lsp_character`], so the answer is the character before *that* one.
pub fn character_before(text: &str, at: &LspPosition) -> (character: Option<char>)
    ensures
        character == behind(text.spec_bytes(), *at),
{
    let line = match line_of(text, at.line) {
        Some(line) => line,
        None => {
            return None;
        },
    };
    let cut: usize = cut(line, at.column);
    proof {
        text::lemma_text_is_its_bytes(line);
        is_char_boundary_start_end_of_seq(line.spec_bytes());
    }
    let front = text::slice(line, 0, cut);
    proof {
        text::lemma_text_is_its_bytes(front);
    }
    let chars = text::chars_of(front);
    if chars.len() == 0 {
        None
    } else {
        Some(chars[chars.len() - 1])
    }
}

/// The position a request goes out with, or why there is none.
pub open spec fn asked_at(bytes: Seq<u8>, at: LspPosition, encoding: PositionEncoding) -> Result<
    u32,
    Fault,
> {
    match line_in(bytes, at.line as nat) {
        None => Err(Fault::LinePastFile { line: at.line }),
        Some(line) => Ok(counted(line, at.column as int, encoding)),
    }
}

/// The position a request goes out with, in the server's own units.
pub fn position_in(text: &str, at: &LspPosition, encoding: PositionEncoding) -> (character: Result<
    u32,
    LspError,
>)
    ensures
        match character {
            Ok(character) => asked_at(text.spec_bytes(), *at, encoding) == Ok::<u32, Fault>(
                character,
            ),
            Err(error) => asked_at(text.spec_bytes(), *at, encoding) == Err::<u32, Fault>(error@),
        },
{
    match line_of(text, at.line) {
        None => Err(LspError::LinePastFile { line: at.line }),
        Some(line) => Ok(lsp_character(line, at.column, encoding)),
    }
}

/// A place a server named, in the editor's units, or why it is none.
pub open spec fn named_at(
    bytes: Seq<u8>,
    line: u32,
    character: u32,
    encoding: PositionEncoding,
) -> Result<LspPosition, Fault> {
    match line_in(bytes, line as nat) {
        None => Err(Fault::LinePastFile { line: line as usize }),
        Some(on) => Ok(
            LspPosition {
                line: line as usize,
                column: counted_back(on, character, encoding) as usize,
            },
        ),
    }
}

/// A place a server named, in the editor's units: the line as it is, and the column turned
/// back into bytes against the line it falls on - see [`byte_column`].
pub fn position_from(
    text: &str,
    line: u32,
    character: u32,
    encoding: PositionEncoding,
) -> (position: Result<LspPosition, LspError>)
    ensures
        match position {
            Ok(position) => named_at(text.spec_bytes(), line, character, encoding) == Ok::<
                LspPosition,
                Fault,
            >(position),
            Err(error) => named_at(text.spec_bytes(), line, character, encoding) == Err::<
                LspPosition,
                Fault,
            >(error@),
        },
{
    match line_of(text, line as usize) {
        None => Err(LspError::LinePastFile { line: line as usize }),
        Some(on) => Ok(
            LspPosition { line: line as usize, column: byte_column(on, character, encoding) },
        ),
    }
}

// ---------------------------------------------------------------------------------------------
// What counting columns promises
// ---------------------------------------------------------------------------------------------

proof fn lemma_within_exactly(front: Seq<char>, rest: Seq<char>)
    ensures
        bytes_within(front + rest, units(front) as int) == encode_utf8(front).len(),
    decreases front.len(),
{
    let whole = front + rest;
    if front.len() == 0 {
        assert(whole =~= rest);
    } else {
        lemma_within_exactly(front.drop_first(), rest);
        assert(whole.drop_first() =~= front.drop_first() + rest);
        assert(whole[0] == front[0]);
    }
}

/// A column counted in a server's units and counted back is the column it was - or the start of
/// the character it landed inside, or the end of the line it was past. Whichever units the server
/// counts in, no place is moved on its way there and back.
pub proof fn law_a_column_survives_the_way_there_and_back(
    bytes: Seq<u8>,
    column: int,
    encoding: PositionEncoding,
)
    requires
        valid_utf8(bytes),
        bytes.len() <= u32::MAX,
        0 <= column,
    ensures
        counted_back(bytes, counted(bytes, column, encoding), encoding) == cut_at(bytes, column),
        is_char_boundary(bytes, column) ==> cut_at(bytes, column) == column,
{
    lemma_cut_is_a_place(bytes, column);
    is_char_boundary_start_end_of_seq(bytes);
    let cut = cut_at(bytes, column);
    match encoding {
        PositionEncoding::Utf8 => {},
        PositionEncoding::Utf16 => {
            let front = bytes.subrange(0, cut);
            let rest = bytes.subrange(cut, bytes.len() as int);
            valid_utf8_split(bytes, cut);
            decode_utf8_split(bytes, cut);
            decode_utf8_encode_utf8(front);
            lemma_units_fit(decode_utf8(front));
            lemma_within_exactly(decode_utf8(front), decode_utf8(rest));
        },
    }
    if is_char_boundary(bytes, column) {
        lemma_boundary_is_within(bytes, column);
    }
}

/// A boundary is no further than the end.
proof fn lemma_boundary_is_within(bytes: Seq<u8>, at: int)
    requires
        valid_utf8(bytes),
        is_char_boundary(bytes, at),
    ensures
        0 <= at <= bytes.len(),
{
}

/// No boundary stands between a place and the last one at or ahead of it.
proof fn lemma_last_boundary(bytes: Seq<u8>, at: int, boundary: int)
    requires
        0 <= boundary <= at,
        is_char_boundary(bytes, boundary),
    ensures
        boundary <= boundary_before(bytes, at),
    decreases at,
{
    if at > 0 && !is_char_boundary(bytes, at) {
        lemma_last_boundary(bytes, at - 1, boundary);
    }
}

/// A text and another behind it are the UTF-16 code units of both.
proof fn lemma_units_of_both(front: Seq<char>, rest: Seq<char>)
    ensures
        units(front + rest) == units(front) + units(rest),
    decreases front.len(),
{
    let whole = front + rest;
    if front.len() == 0 {
        assert(whole =~= rest);
    } else {
        assert(whole.drop_first() =~= front.drop_first() + rest);
        lemma_units_of_both(front.drop_first(), rest);
    }
}

/// What is counted at a boundary is what is ahead of it.
proof fn lemma_counted_at_a_boundary(bytes: Seq<u8>, at: int, encoding: PositionEncoding)
    requires
        valid_utf8(bytes),
        bytes.len() <= u32::MAX,
        is_char_boundary(bytes, at),
    ensures
        0 <= at <= bytes.len(),
        cut_at(bytes, at) == at,
        valid_utf8(bytes.subrange(0, at)),
        counted(bytes, at, encoding) == match encoding {
            PositionEncoding::Utf8 => at,
            PositionEncoding::Utf16 => units(decode_utf8(bytes.subrange(0, at))) as int,
        },
{
    lemma_boundary_is_within(bytes, at);
    valid_utf8_split(bytes, at);
    let front = bytes.subrange(0, at);
    decode_utf8_encode_utf8(front);
    lemma_units_fit(decode_utf8(front));
}

/// The further on a boundary is, the more is ahead of it.
proof fn lemma_counted_on(bytes: Seq<u8>, one: int, other: int, encoding: PositionEncoding)
    requires
        valid_utf8(bytes),
        bytes.len() <= u32::MAX,
        is_char_boundary(bytes, one),
        is_char_boundary(bytes, other),
        one <= other,
    ensures
        counted(bytes, one, encoding) <= counted(bytes, other, encoding),
{
    lemma_counted_at_a_boundary(bytes, one, encoding);
    lemma_counted_at_a_boundary(bytes, other, encoding);
    let upto = bytes.subrange(0, other);
    text::lemma_boundary_of_prefix(bytes, one, other);
    decode_utf8_split(upto, one);
    assert(upto.subrange(0, one) =~= bytes.subrange(0, one));
    lemma_units_of_both(
        decode_utf8(upto.subrange(0, one)),
        decode_utf8(upto.subrange(one, upto.len() as int)),
    );
}

/// A column further on is never counted as less: going along a line, a server's column never falls.
pub proof fn law_a_column_further_on_is_counted_no_less(
    bytes: Seq<u8>,
    one: int,
    other: int,
    encoding: PositionEncoding,
)
    requires
        valid_utf8(bytes),
        bytes.len() <= u32::MAX,
        0 <= one <= other,
    ensures
        counted(bytes, one, encoding) <= counted(bytes, other, encoding),
{
    lemma_cut_is_a_place(bytes, one);
    lemma_cut_is_a_place(bytes, other);
    lemma_last_boundary(bytes, held_to(bytes, other), cut_at(bytes, one));
    lemma_counted_at_a_boundary(bytes, cut_at(bytes, one), encoding);
    lemma_counted_at_a_boundary(bytes, cut_at(bytes, other), encoding);
    lemma_counted_on(bytes, cut_at(bytes, one), cut_at(bytes, other), encoding);
}

/// The longest front of a text within a limit is one within it, and no front within it is longer.
proof fn lemma_longest_front(chars: Seq<char>, limit: int) -> (taken: int)
    requires
        0 <= limit,
    ensures
        0 <= taken <= chars.len(),
        encode_utf8(chars.take(taken)).len() == bytes_within(chars, limit),
        units(chars.take(taken)) <= limit,
        taken < chars.len() ==> units(chars.take(taken + 1)) > limit,
    decreases chars.len(),
{
    if chars.len() == 0 || units_of(chars[0]) > limit {
        assert(chars.take(0) =~= Seq::empty());
        if chars.len() > 0 {
            assert(chars.take(1).drop_first() =~= Seq::empty());
        }
        0
    } else {
        let rest = chars.drop_first();
        let taken = lemma_longest_front(rest, limit - units_of(chars[0])) + 1;
        assert(chars.take(taken).drop_first() =~= rest.take(taken - 1));
        if taken < chars.len() {
            assert(chars.take(taken + 1).drop_first() =~= rest.take(taken));
        }
        taken
    }
}

/// A server's column is the last boundary of its line that is counted no further: it is one, and
/// every boundary counted no further is at it or ahead of it.
pub proof fn law_a_column_counted_back_is_the_last_boundary_it_reaches(
    bytes: Seq<u8>,
    character: u32,
    at: int,
    encoding: PositionEncoding,
)
    requires
        valid_utf8(bytes),
        bytes.len() <= u32::MAX,
        is_char_boundary(bytes, at),
    ensures
        is_char_boundary(bytes, counted_back(bytes, character, encoding)),
        counted(bytes, counted_back(bytes, character, encoding), encoding) <= character,
        counted(bytes, at, encoding) <= character <==> at <= counted_back(
            bytes,
            character,
            encoding,
        ),
{
    let back = counted_back(bytes, character, encoding);
    lemma_counted_back_is_a_place(bytes, character, encoding);
    lemma_counted_at_a_boundary(bytes, back, encoding);
    lemma_counted_at_a_boundary(bytes, at, encoding);
    match encoding {
        PositionEncoding::Utf8 => {
            lemma_cut_is_a_place(bytes, character as int);
            if at <= character {
                lemma_last_boundary(bytes, held_to(bytes, character as int), at);
            }
        },
        PositionEncoding::Utf16 => {
            let chars = decode_utf8(bytes);
            let taken = lemma_longest_front(chars, character as int);
            lemma_front_of(bytes, taken);
            if at > back {
                // One character more is past the column, and the boundary is at least that far on.
                assert(taken < chars.len()) by {
                    if taken == chars.len() {
                        assert(chars.take(taken) =~= chars);
                        decode_utf8_encode_utf8(bytes);
                    }
                }
                lemma_front_of(bytes, taken + 1);
                lemma_next_character(bytes, taken, at);
                let next = encode_utf8(chars.take(taken + 1)).len() as int;
                lemma_counted_at_a_boundary(bytes, next, encoding);
                lemma_counted_on(bytes, next, at, encoding);
            } else {
                lemma_counted_on(bytes, at, back, encoding);
            }
        },
    }
}

/// The first characters of a text are the text up to a boundary.
proof fn lemma_front_of(bytes: Seq<u8>, taken: int)
    requires
        valid_utf8(bytes),
        0 <= taken <= decode_utf8(bytes).len(),
    ensures
        ({
            let front = decode_utf8(bytes).take(taken);
            let end = encode_utf8(front).len() as int;
            &&& end <= bytes.len()
            &&& is_char_boundary(bytes, end)
            &&& bytes.subrange(0, end) == encode_utf8(front)
            &&& decode_utf8(bytes.subrange(0, end)) == front
        }),
    decreases bytes.len(),
{
    let chars = decode_utf8(bytes);
    let front = chars.take(taken);
    let rest = chars.skip(taken);
    decode_utf8_encode_utf8(bytes);
    assert(front + rest =~= chars);
    text::lemma_bytes_of_both(front, rest);
    encode_utf8_decode_utf8(front);
    let end = encode_utf8(front).len() as int;
    assert(bytes.subrange(0, end) =~= encode_utf8(front));
    is_char_boundary_start_end_of_seq(bytes);
    if taken > 0 {
        let fewer = pop_first_scalar(bytes);
        encode_utf8_first_scalar(chars);
        assert(fewer =~= encode_utf8(chars.drop_first()));
        encode_utf8_valid_utf8(chars.drop_first());
        encode_utf8_decode_utf8(chars.drop_first());
        lemma_front_of(fewer, taken - 1);
        assert(chars.drop_first().take(taken - 1) =~= front.drop_first());
    }
}

/// No boundary stands inside a character: one past so many characters is past the next one too.
proof fn lemma_next_character(bytes: Seq<u8>, taken: int, at: int)
    requires
        valid_utf8(bytes),
        0 <= taken < decode_utf8(bytes).len(),
        is_char_boundary(bytes, at),
        at > encode_utf8(decode_utf8(bytes).take(taken)).len(),
    ensures
        at >= encode_utf8(decode_utf8(bytes).take(taken + 1)).len(),
{
    let chars = decode_utf8(bytes);
    lemma_boundary_is_within(bytes, at);
    lemma_front_of(bytes, taken);
    valid_utf8_split(bytes, at);
    decode_utf8_split(bytes, at);
    decode_utf8_encode_utf8(bytes.subrange(0, at));
    let front = decode_utf8(bytes.subrange(0, at));
    assert(front =~= chars.take(front.len() as int));
    if front.len() <= taken {
        lemma_shorter_is_no_longer(chars, front.len() as int, taken);
    } else {
        lemma_shorter_is_no_longer(chars, taken + 1, front.len() as int);
    }
}

proof fn lemma_shorter_is_no_longer(chars: Seq<char>, one: int, other: int)
    requires
        0 <= one <= other <= chars.len(),
    ensures
        encode_utf8(chars.take(one)).len() <= encode_utf8(chars.take(other)).len(),
{
    assert(chars.take(other) =~= chars.take(one) + chars.subrange(one, other));
    text::lemma_bytes_of_both(chars.take(one), chars.subrange(one, other));
}

/// On a line of ASCII every column is the same number in bytes and in UTF-16 code units.
pub proof fn law_ascii_counts_the_same_in_either_unit(bytes: Seq<u8>, column: int)
    requires
        valid_utf8(bytes),
        forall|i: int| 0 <= i < bytes.len() ==> #[trigger] bytes[i] < 0x80,
        0 <= column,
    ensures
        counted(bytes, column, PositionEncoding::Utf16) == counted(
            bytes,
            column,
            PositionEncoding::Utf8,
        ),
        column <= bytes.len() ==> cut_at(bytes, column) == column,
{
    is_char_boundary_start_end_of_seq(bytes);
    let held = held_to(bytes, column);
    if held < bytes.len() {
        text::lemma_ascii_byte_is_a_character(bytes, held);
    }
    let front = bytes.subrange(0, held);
    valid_utf8_split(bytes, held);
    lemma_ascii_units(front);
}

proof fn lemma_ascii_units(bytes: Seq<u8>)
    requires
        valid_utf8(bytes),
        forall|i: int| 0 <= i < bytes.len() ==> #[trigger] bytes[i] < 0x80,
    ensures
        units(decode_utf8(bytes)) == bytes.len(),
    decreases bytes.len(),
{
    if bytes.len() > 0 {
        let rest = pop_first_scalar(bytes);
        assert(rest =~= bytes.subrange(1, bytes.len() as int));
        lemma_ascii_units(rest);
        let chars = decode_utf8(bytes);
        assert(chars.drop_first() =~= decode_utf8(rest));
        let first = bytes[0];
        assert((first & 0x7f) < 0x80) by (bit_vector);
    }
}

/// A place a server names is always a place in the text it was named in, in whichever units it
/// was named.
pub proof fn law_a_named_place_is_in_the_text(
    bytes: Seq<u8>,
    line: u32,
    character: u32,
    encoding: PositionEncoding,
)
    requires
        valid_utf8(bytes),
        bytes.len() <= usize::MAX,
    ensures
        named_at(bytes, line, character, encoding) matches Ok(at) ==> crate::edits::place_in(
            bytes,
            at,
        ) is Ok,
{
    if let Some(start) = lines::line_start(bytes, line as nat) {
        lines::lemma_line_is_a_stretch(bytes, line as nat);
        let end = lines::line_end(bytes, start);
        let whole = bytes.subrange(start, end);
        lemma_stretch_of_text(bytes, start, end);
        lemma_returns_are_at_the_end(whole);
        let on = without_returns(whole);
        lemma_counted_back_is_a_place(on, character, encoding);
        let column = counted_back(on, character, encoding);
        text::lemma_boundary_of_prefix(whole, column, on.len() as int);
        text::lemma_boundary_of_prefix(bytes, start, end);
        let upto = bytes.subrange(0, end);
        text::lemma_boundary_of_suffix(upto, start + column, start);
        assert(upto.subrange(start, upto.len() as int) =~= whole);
        text::lemma_boundary_of_prefix(bytes, start + column, end);
    }
}

proof fn lemma_stretch_of_text(bytes: Seq<u8>, start: int, end: int)
    requires
        valid_utf8(bytes),
        0 <= start <= end <= bytes.len(),
        is_char_boundary(bytes, start),
        is_char_boundary(bytes, end),
    ensures
        valid_utf8(bytes.subrange(start, end)),
{
    text::lemma_boundary_of_prefix(bytes, start, end);
    let upto = bytes.subrange(0, end);
    text::lemma_boundary_of_suffix(upto, start, start);
    assert(upto.subrange(start, upto.len() as int) =~= bytes.subrange(start, end));
}

/// What is taken off the end of a line leaves a front of it.
proof fn lemma_returns_are_at_the_end(line: Seq<u8>)
    requires
        valid_utf8(line),
    ensures
        without_returns(line).len() <= line.len(),
        without_returns(line) == line.subrange(0, without_returns(line).len() as int),
        is_char_boundary(line, without_returns(line).len() as int),
        valid_utf8(without_returns(line)),
    decreases line.len(),
{
    is_char_boundary_start_end_of_seq(line);
    if line.len() > 0 && line.last() == 13u8 {
        text::lemma_ascii_byte_is_a_character(line, line.len() - 1);
        let shorter = line.drop_last();
        assert(shorter =~= line.subrange(0, line.len() - 1));
        valid_utf8_split(line, line.len() - 1);
        lemma_returns_are_at_the_end(shorter);
        let kept = without_returns(line).len() as int;
        text::lemma_boundary_of_prefix(line, kept, line.len() - 1);
        assert(shorter.subrange(0, kept) =~= line.subrange(0, kept));
    } else {
        assert(line.subrange(0, line.len() as int) =~= line);
    }
}

/// The way back from a server's column always comes to a place in the line.
pub proof fn lemma_counted_back_is_a_place(bytes: Seq<u8>, character: u32, encoding: PositionEncoding)
    requires
        valid_utf8(bytes),
    ensures
        0 <= counted_back(bytes, character, encoding) <= bytes.len(),
        is_char_boundary(bytes, counted_back(bytes, character, encoding)),
{
    match encoding {
        PositionEncoding::Utf8 => {
            lemma_cut_is_a_place(bytes, character as int);
        },
        PositionEncoding::Utf16 => {
            decode_utf8_encode_utf8(bytes);
            lemma_within_is_a_boundary(decode_utf8(bytes), character as int);
        },
    }
}

proof fn lemma_within_is_a_boundary(chars: Seq<char>, limit: int)
    ensures
        bytes_within(chars, limit) <= encode_utf8(chars).len(),
        is_char_boundary(encode_utf8(chars), bytes_within(chars, limit) as int),
    decreases chars.len(),
{
    let bytes = encode_utf8(chars);
    encode_utf8_valid_utf8(chars);
    is_char_boundary_start_end_of_seq(bytes);
    if chars.len() > 0 && units_of(chars[0]) <= limit {
        let rest = chars.drop_first();
        lemma_within_is_a_boundary(rest, limit - units_of(chars[0]));
        encode_utf8_first_scalar(chars);
        assert(pop_first_scalar(bytes) =~= encode_utf8(rest));
    }
}

// ---------------------------------------------------------------------------------------------
// What a column is, said of the text alone
// ---------------------------------------------------------------------------------------------

/// A text is as many UTF-16 code units as it has characters, and one more for each at or past
/// 0x10000.
proof fn lemma_units_are(chars: Seq<char>)
    ensures
        units(chars) == chars.len() + chars.filter(|c: char| c as int >= 0x10000).len(),
    decreases chars.len(),
{
    reveal(Seq::filter);
    if chars.len() > 0 {
        let fewer = chars.drop_last();
        lemma_units_are(fewer);
        lemma_units_of_both(fewer, seq![chars.last()]);
        assert(fewer + seq![chars.last()] =~= chars);
        assert(seq![chars.last()].drop_first() =~= Seq::empty());
        assert(units(seq![chars.last()]) == units_of(chars.last())) by {
            assert(seq![chars.last()][0] == chars.last());
            assert(units(Seq::<char>::empty()) == 0);
        }
    }
}

/// A column a server counts in bytes is the number of bytes ahead of it, and one it counts in UTF-16
/// is the number of characters ahead of it, with one more for each that is at or past 0x10000 - the
/// ones UTF-16 takes two code units for.
pub proof fn law_a_column_is_what_is_ahead_of_it(bytes: Seq<u8>, at: int)
    requires
        valid_utf8(bytes),
        bytes.len() <= u32::MAX,
        is_char_boundary(bytes, at),
    ensures
        counted(bytes, at, PositionEncoding::Utf8) == at,
        counted(bytes, at, PositionEncoding::Utf16) == decode_utf8(bytes.subrange(0, at)).len()
            + decode_utf8(bytes.subrange(0, at)).filter(|c: char| c as int >= 0x10000).len(),
{
    lemma_counted_at_a_boundary(bytes, at, PositionEncoding::Utf8);
    lemma_counted_at_a_boundary(bytes, at, PositionEncoding::Utf16);
    lemma_units_are(decode_utf8(bytes.subrange(0, at)));
}

/// On a line with nothing at or past 0x10000 on it, a column in UTF-16 is the number of characters
/// ahead of it, however many bytes those take.
pub proof fn law_a_column_of_plain_characters_is_how_many_they_are(bytes: Seq<u8>, at: int)
    requires
        valid_utf8(bytes),
        bytes.len() <= u32::MAX,
        is_char_boundary(bytes, at),
        forall|i: int|
            0 <= i < decode_utf8(bytes).len() ==> 0x10000 > #[trigger] decode_utf8(
                bytes,
            )[i] as int,
    ensures
        counted(bytes, at, PositionEncoding::Utf16) == decode_utf8(bytes.subrange(0, at)).len(),
{
    broadcast use Seq::lemma_filter_pred;

    law_a_column_is_what_is_ahead_of_it(bytes, at);
    lemma_boundary_is_within(bytes, at);
    decode_utf8_split(bytes, at);
    let front = decode_utf8(bytes.subrange(0, at));
    let wide = front.filter(|c: char| c as int >= 0x10000);
    if wide.len() > 0 {
        front.lemma_filter_contains_rev(|c: char| c as int >= 0x10000, wide[0]);
        let at = choose|at: int| 0 <= at < front.len() && front[at] == wide[0];
        assert(decode_utf8(bytes)[at] == front[at]);
        assert(wide[0] as int >= 0x10000);
    }
}

/// A column that is no boundary of its line - inside a character, or past the end - is counted as the
/// last boundary ahead of it.
pub proof fn law_a_column_is_counted_as_the_last_boundary_ahead_of_it(
    bytes: Seq<u8>,
    column: int,
    at: int,
    encoding: PositionEncoding,
)
    requires
        valid_utf8(bytes),
        bytes.len() <= u32::MAX,
        is_char_boundary(bytes, at),
        at <= column,
        forall|x: int| at < x <= column ==> !is_char_boundary(bytes, x),
    ensures
        counted(bytes, column, encoding) == counted(bytes, at, encoding),
{
    is_char_boundary_start_end_of_seq(bytes);
    lemma_boundary_is_within(bytes, at);
    lemma_cut_is_a_place(bytes, column);
    lemma_counted_at_a_boundary(bytes, at, encoding);
    if column > bytes.len() {
        assert(at == bytes.len()) by {
            if at < bytes.len() {
                assert(is_char_boundary(bytes, bytes.len() as int));
            }
        }
    }
    lemma_last_boundary(bytes, held_to(bytes, column), at);
}

/// A line of a text is a stretch of it that starts the text or stands behind a newline, with as many
/// newlines ahead of it as its number. It runs up to the next newline or the end of the text, and
/// neither that newline nor the carriage returns ahead of it are part of it. A text has no line past
/// the number of its newlines.
pub proof fn law_a_line_is_what_stands_between_two_newlines(
    bytes: Seq<u8>,
    start: int,
    cut: int,
    end: int,
    line: nat,
)
    requires
        0 <= start <= cut <= end <= bytes.len(),
        start == 0 || bytes[start - 1] == 10,
        end == bytes.len() || bytes[end] == 10,
        forall|i: int| start <= i < end ==> bytes[i] != 10,
        forall|i: int| cut <= i < end ==> bytes[i] == 13,
        cut == start || bytes[cut - 1] != 13,
    ensures
        line_in(bytes, bytes.subrange(0, start).filter(|b: u8| b == 10).len()) == Some(
            bytes.subrange(start, cut),
        ),
        line_in(bytes, line) is Some <==> line <= bytes.filter(|b: u8| b == 10).len(),
{
    let ahead = bytes.subrange(0, start).filter(|b: u8| b == 10).len();
    lines::lemma_line_starts_here(bytes, start);
    text::lemma_next_at_is(bytes, 10, start, end);
    let whole = bytes.subrange(start, end);
    lemma_only_returns_are_taken(whole);
    let kept = without_returns(whole).len() as int;
    if kept < cut - start {
        assert(whole[cut - start - 1] == bytes[cut - 1]);
    } else if kept > cut - start {
        assert(whole[kept - 1] == bytes[start + kept - 1]);
    }
    assert(whole.subrange(0, kept) =~= bytes.subrange(start, cut));
    lines::law_a_text_has_one_line_more_than_newlines(bytes, line);
    lines::lemma_newlines_are(bytes, 0);
    assert(bytes.subrange(0, bytes.len() as int) =~= bytes);
}

proof fn lemma_only_returns_are_taken(line: Seq<u8>)
    ensures
        without_returns(line).len() <= line.len(),
        without_returns(line) == line.subrange(0, without_returns(line).len() as int),
        forall|i: int| without_returns(line).len() <= i < line.len() ==> line[i] == 13,
        without_returns(line).len() > 0 ==> without_returns(line).last() != 13,
    decreases line.len(),
{
    if line.len() > 0 && line.last() == 13u8 {
        let shorter = line.drop_last();
        lemma_only_returns_are_taken(shorter);
        let kept = without_returns(line).len() as int;
        assert(shorter.subrange(0, kept) =~= line.subrange(0, kept));
        assert forall|i: int| kept <= i < line.len() implies line[i] == 13 by {
            if i < shorter.len() {
                assert(shorter[i] == line[i]);
            }
        }
    } else {
        assert(line.subrange(0, line.len() as int) =~= line);
    }
}

/// The character a caret sits behind is the one that ends at the last boundary ahead of the caret,
/// on the line the caret is on: none at the start of the line, and none on a line there is not.
pub proof fn law_a_caret_sits_behind_the_character_that_ends_there(
    bytes: Seq<u8>,
    at: LspPosition,
    line: Seq<u8>,
    boundary: int,
)
    requires
        valid_utf8(line),
        is_char_boundary(line, boundary),
        boundary <= at.column,
        forall|x: int| boundary < x <= at.column ==> !is_char_boundary(line, x),
    ensures
        line_in(bytes, at.line as nat) is None ==> behind(bytes, at) is None,
        line_in(bytes, at.line as nat) == Some(line) ==> match behind(bytes, at) {
            None => boundary == 0,
            Some(c) => boundary > 0 && decode_utf8(line.subrange(0, boundary)).last() == c,
        },
{
    is_char_boundary_start_end_of_seq(line);
    lemma_boundary_is_within(line, boundary);
    lemma_cut_is_a_place(line, at.column as int);
    if at.column > line.len() {
        assert(boundary == line.len()) by {
            if boundary < line.len() {
                assert(is_char_boundary(line, line.len() as int));
            }
        }
    }
    lemma_last_boundary(line, held_to(line, at.column as int), boundary);
    valid_utf8_split(line, boundary);
    let front = line.subrange(0, boundary);
    decode_utf8_encode_utf8(front);
    if boundary > 0 {
        assert(decode_utf8(front).len() > 0) by {
            if decode_utf8(front).len() == 0 {
                assert(encode_utf8(decode_utf8(front)).len() == 0);
            }
        }
    }
}

/// A place between two characters of a text survives the way to a server and back: counted in the
/// server's units and named again, it is the same line and the same column. A place on a line the
/// text has not is refused both ways, for the line it is.
pub proof fn law_a_place_survives_the_way_there_and_back(
    bytes: Seq<u8>,
    at: LspPosition,
    encoding: PositionEncoding,
)
    requires
        valid_utf8(bytes),
        bytes.len() <= u32::MAX,
        at.line <= u32::MAX,
    ensures
        match line_in(bytes, at.line as nat) {
            None => {
                &&& asked_at(bytes, at, encoding) == Err::<u32, Fault>(
                    Fault::LinePastFile { line: at.line },
                )
                &&& forall|character: u32| #[trigger]
                    named_at(bytes, at.line as u32, character, encoding) == Err::<
                        LspPosition,
                        Fault,
                    >(Fault::LinePastFile { line: at.line })
            },
            Some(line) => is_char_boundary(line, at.column as int) ==> {
                &&& asked_at(bytes, at, encoding) matches Ok(character)
                &&& named_at(bytes, at.line as u32, character, encoding) == Ok::<
                    LspPosition,
                    Fault,
                >(at)
            },
        },
{
    if let Some(start) = lines::line_start(bytes, at.line as nat) {
        lines::lemma_line_is_a_stretch(bytes, at.line as nat);
        let end = lines::line_end(bytes, start);
        let whole = bytes.subrange(start, end);
        lemma_stretch_of_text(bytes, start, end);
        lemma_returns_are_at_the_end(whole);
        law_a_column_survives_the_way_there_and_back(
            without_returns(whole),
            at.column as int,
            encoding,
        );
    }
}

/// A place on a line a text has is never refused: one past the end of the line, or inside a character
/// of it, goes out as the last place between two characters ahead of it.
pub proof fn law_a_place_on_a_line_is_never_refused(
    bytes: Seq<u8>,
    at: LspPosition,
    boundary: usize,
    encoding: PositionEncoding,
)
    requires
        valid_utf8(bytes),
        bytes.len() <= u32::MAX,
        line_in(bytes, at.line as nat) matches Some(line) && is_char_boundary(
            line,
            boundary as int,
        ) && boundary <= at.column && forall|x: int|
            boundary < x <= at.column ==> !is_char_boundary(line, x),
    ensures
        asked_at(bytes, at, encoding) is Ok,
        asked_at(bytes, at, encoding) == asked_at(
            bytes,
            LspPosition { line: at.line, column: boundary },
            encoding,
        ),
{
    lemma_line_is_text(bytes, at.line as nat);
    let line = line_in(bytes, at.line as nat)->0;
    law_a_column_is_counted_as_the_last_boundary_ahead_of_it(
        line,
        at.column as int,
        boundary as int,
        encoding,
    );
}

/// A place a server names on a line a text has is a place between two characters of that line, and of
/// those the last one that is counted no further than the server says.
pub proof fn law_a_place_a_server_names_is_the_last_it_reaches(
    bytes: Seq<u8>,
    line: u32,
    character: u32,
    encoding: PositionEncoding,
    boundary: int,
)
    requires
        valid_utf8(bytes),
        bytes.len() <= u32::MAX,
        line_in(bytes, line as nat) matches Some(on) && is_char_boundary(on, boundary),
    ensures
        named_at(bytes, line, character, encoding) matches Ok(at) && {
            let on = line_in(bytes, line as nat)->0;
            &&& at.line == line
            &&& is_char_boundary(on, at.column as int)
            &&& counted(on, boundary, encoding) <= character <==> boundary <= at.column
        },
{
    lemma_line_is_text(bytes, line as nat);
    let on = line_in(bytes, line as nat)->0;
    law_a_column_counted_back_is_the_last_boundary_it_reaches(on, character, boundary, encoding);
    lemma_boundary_is_within(on, counted_back(on, character, encoding));
}

proof fn lemma_line_is_text(bytes: Seq<u8>, line: nat)
    requires
        valid_utf8(bytes),
        line_in(bytes, line) is Some,
    ensures
        valid_utf8(line_in(bytes, line)->0),
        line_in(bytes, line)->0.len() <= bytes.len(),
{
    let start = lines::line_start(bytes, line)->0;
    lines::lemma_line_is_a_stretch(bytes, line);
    let end = lines::line_end(bytes, start);
    lemma_stretch_of_text(bytes, start, end);
    lemma_returns_are_at_the_end(bytes.subrange(start, end));
}

} // verus!
