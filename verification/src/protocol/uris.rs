//! Paths as `file://` URIs, and back.

use vstd::prelude::*;
use vstd::string::*;
use vstd::utf8::*;

use crate::text;

verus! {

broadcast use vstd::string::group_string_axioms;

// ---------------------------------------------------------------------------------------------
// What a URI is
// ---------------------------------------------------------------------------------------------

/// The bytes a URI writes as they are: letters, digits, `-`, `_`, `.`, `~`, and the `/` a path is
/// made with.
pub open spec fn is_unreserved(byte: u8) -> bool {
    ||| 65 <= byte <= 90
    ||| 97 <= byte <= 122
    ||| 48 <= byte <= 57
    ||| byte == 45
    ||| byte == 95
    ||| byte == 46
    ||| byte == 126
    ||| byte == 47
}

/// A number below sixteen as a digit, in capitals.
pub open spec fn hex_digit(value: int) -> char {
    if value < 10 {
        (48 + value) as char
    } else {
        (55 + value) as char
    }
}

/// One byte of a path as a URI writes it.
pub open spec fn escaped_byte(byte: u8) -> Seq<char> {
    if is_unreserved(byte) {
        seq![byte as char]
    } else {
        seq!['%', hex_digit(byte as int / 16), hex_digit(byte as int % 16)]
    }
}

/// The bytes of a path as a URI writes them.
pub open spec fn escaped(bytes: Seq<u8>) -> Seq<char>
    decreases bytes.len(),
{
    if bytes.len() == 0 {
        Seq::empty()
    } else {
        escaped_byte(bytes[0]) + escaped(bytes.drop_first())
    }
}

/// A path as a `file://` URI.
pub open spec fn uri_of(path: Seq<char>) -> Seq<char> {
    "file://"@ + escaped(encode_utf8(path))
}

/// What a digit is worth, in small letters or in capitals.
pub open spec fn hex_value(byte: u8) -> Option<int> {
    if 48 <= byte <= 57 {
        Some(byte - 48)
    } else if 65 <= byte <= 70 {
        Some(byte - 55)
    } else if 97 <= byte <= 102 {
        Some(byte - 87)
    } else {
        None
    }
}

/// The byte two characters behind a `%` stand for: two digits, or a digit with a plus sign ahead
/// of it.
pub open spec fn hex_byte(first: u8, second: u8) -> Option<u8> {
    if first == 43 {
        match hex_value(second) {
            Some(low) => Some(low as u8),
            None => None,
        }
    } else {
        match (hex_value(first), hex_value(second)) {
            (Some(high), Some(low)) => Some((16 * high + low) as u8),
            _ => None,
        }
    }
}

/// The rest of a URI's path with its escapes undone, from `from` on. A `%` with no two digits
/// behind it stands for itself, and one behind which the next two bytes are not even text makes
/// the whole of it nothing.
pub open spec fn unescaped(bytes: Seq<u8>, from: int) -> Option<Seq<u8>>
    decreases bytes.len() - from,
{
    if from >= bytes.len() {
        Some(Seq::empty())
    } else if bytes[from] == 37 && from + 2 < bytes.len() {
        if !valid_utf8(bytes.subrange(from + 1, from + 3)) {
            None
        } else {
            match hex_byte(bytes[from + 1], bytes[from + 2]) {
                Some(byte) => ahead_of(byte, unescaped(bytes, from + 3)),
                None => ahead_of(bytes[from], unescaped(bytes, from + 1)),
            }
        }
    } else {
        ahead_of(bytes[from], unescaped(bytes, from + 1))
    }
}

/// One byte ahead of others, where there are others.
pub open spec fn ahead_of(byte: u8, rest: Option<Seq<u8>>) -> Option<Seq<u8>> {
    match rest {
        Some(rest) => Some(seq![byte] + rest),
        None => None,
    }
}

/// The path a URI names, by the bytes of the URI: nothing for one that does not start with
/// `file:///`, and nothing for one whose escapes do not come to text.
pub open spec fn path_named(uri: Seq<u8>) -> Option<Seq<char>> {
    if uri.len() < 8 || uri.subrange(0, 8) != encode_utf8("file:///"@) {
        None
    } else {
        match unescaped(uri, 7) {
            Some(path) => if valid_utf8(path) {
                Some(decode_utf8(path))
            } else {
                None
            },
            None => None,
        }
    }
}

// ---------------------------------------------------------------------------------------------
// Writing and reading URIs
// ---------------------------------------------------------------------------------------------

/// [`hex_digit`], worked out.
fn digit(value: u8) -> (digit: char)
    requires
        value < 16,
    ensures
        digit == hex_digit(value as int),
{
    if value < 10 {
        (48 + value) as char
    } else {
        (55 + value) as char
    }
}

/// [`hex_value`], worked out.
fn value_of(byte: u8) -> (value: Option<u8>)
    ensures
        match value {
            Some(value) => hex_value(byte) == Some(value as int) && value < 16,
            None => hex_value(byte) is None,
        },
{
    if 48 <= byte && byte <= 57 {
        Some(byte - 48)
    } else if 65 <= byte && byte <= 70 {
        Some(byte - 55)
    } else if 97 <= byte && byte <= 102 {
        Some(byte - 87)
    } else {
        None
    }
}

/// [`hex_byte`], worked out.
fn byte_of(first: u8, second: u8) -> (byte: Option<u8>)
    ensures
        byte == hex_byte(first, second),
{
    if first == 43 {
        return value_of(second);
    }
    match (value_of(first), value_of(second)) {
        (Some(high), Some(low)) => Some(16 * high + low),
        _ => None,
    }
}

/// A path as a `file://` URI. Everything outside the unreserved set is escaped, so a repo
/// under a folder with a space or an accent in its name is named correctly.
pub fn file_uri(path: &str) -> (uri: String)
    ensures
        uri@ == uri_of(path@),
{
    let bytes = path.as_bytes();
    let mut uri = "file://".to_owned();
    let mut at: usize = 0;
    assert(bytes@.skip(0) =~= bytes@);
    while at < bytes.len()
        invariant
            bytes@ == encode_utf8(path@),
            at <= bytes@.len(),
            uri@ + escaped(bytes@.skip(at as int)) == uri_of(path@),
        decreases bytes@.len() - at,
    {
        let byte: u8 = bytes[at];
        let ghost before = uri@;
        let ghost left = bytes@.skip(at as int);
        assert(left.drop_first() =~= bytes@.skip(at + 1));
        if (65 <= byte && byte <= 90) || (97 <= byte && byte <= 122) || (48 <= byte && byte <= 57)
            || byte == 45 || byte == 95 || byte == 46 || byte == 126 || byte == 47 {
            uri.push(byte as char);
        } else {
            uri.push('%');
            uri.push(digit(byte / 16));
            uri.push(digit(byte % 16));
        }
        assert(uri@ =~= before + escaped_byte(byte));
        assert(uri@ + escaped(bytes@.skip(at + 1)) =~= before + escaped(left));
        at += 1;
    }
    assert(uri@ + escaped(bytes@.skip(at as int)) =~= uri@);
    uri
}

/// The path a `file://` URI names. `None` for anything else - a server may answer with a
/// `jdt:` or `untitled:` URI, which names nothing on disk.
pub fn path_from_file_uri(uri: &str) -> (path: Option<String>)
    ensures
        match path {
            Some(path) => path_named(uri.spec_bytes()) == Some(path@),
            None => path_named(uri.spec_bytes()) is None,
        },
{
    let bytes = uri.as_bytes();
    // `file:///path` has an empty authority; anything else is a host we cannot open.
    if bytes.len() < 8 || !text::same_bytes(&bytes[0..8], "file:///".as_bytes()) {
        return None;
    }
    let mut decoded: Vec<u8> = Vec::new();
    let mut index: usize = 7;
    let ghost whole = unescaped(bytes@, 7);
    assert(whole matches Some(all) ==> decoded@ + all =~= all);
    while index < bytes.len()
        invariant
            bytes@ == uri.spec_bytes(),
            bytes@.len() >= 8,
            bytes@.subrange(0, 8) == encode_utf8("file:///"@),
            index <= bytes@.len(),
            whole == unescaped(bytes@, 7),
            match unescaped(bytes@, index as int) {
                Some(rest) => whole == Some(decoded@ + rest),
                None => whole is None,
            },
        decreases bytes@.len() - index,
    {
        let ghost before = decoded@;
        let byte: u8 = bytes[index];
        if byte == 37 && bytes.len() - index > 2 {
            let mut pair: Vec<u8> = Vec::new();
            pair.push(bytes[index + 1]);
            pair.push(bytes[index + 2]);
            assert(pair@ =~= bytes@.subrange(index + 1, index + 3));
            if text::text_of_bytes(pair).is_none() {
                return None;
            }
            if let Some(byte) = byte_of(bytes[index + 1], bytes[index + 2]) {
                decoded.push(byte);
                proof {
                    if let Some(rest) = unescaped(bytes@, index + 3) {
                        assert(decoded@ + rest =~= before + (seq![byte] + rest));
                    }
                }
                index += 3;
                continue ;
            }
        }
        decoded.push(byte);
        proof {
            if let Some(rest) = unescaped(bytes@, index + 1) {
                assert(decoded@ + rest =~= before + (seq![byte] + rest));
            }
        }
        index += 1;
    }
    assert(decoded@ + Seq::<u8>::empty() =~= decoded@);
    text::text_of_bytes(decoded)
}

// ---------------------------------------------------------------------------------------------
// What a URI promises
// ---------------------------------------------------------------------------------------------

/// What a path is written with in a URI.
pub open spec fn is_plain(c: char) -> bool {
    c == '%' || ((c as int) < 0x80 && is_unreserved(c as u8))
}

proof fn lemma_plain_is_ascii(c: char)
    requires
        is_plain(c),
    ensures
        '\0' <= c <= '\u{7f}',
{
}

/// What an escaped path is written with.
proof fn lemma_escaped_is_plain(bytes: Seq<u8>)
    ensures
        forall|i: int|
            0 <= i < escaped(bytes).len() ==> is_plain(#[trigger] escaped(bytes)[i]),
    decreases bytes.len(),
{
    if bytes.len() > 0 {
        lemma_escaped_is_plain(bytes.drop_first());
        let first = escaped_byte(bytes[0]);
        lemma_escaped_byte(bytes[0]);
        assert forall|i: int| 0 <= i < escaped(bytes).len() implies is_plain(
            #[trigger] escaped(bytes)[i],
        ) by {
            if i < first.len() {
                assert(escaped(bytes)[i] == first[i]);
            } else {
                assert(escaped(bytes)[i] == escaped(bytes.drop_first())[i - first.len()]);
            }
        }
    }
}

/// One byte as a URI writes it: itself, or the two digits that read back as it.
proof fn lemma_escaped_byte(byte: u8)
    ensures
        forall|i: int|
            0 <= i < escaped_byte(byte).len() ==> is_plain(#[trigger] escaped_byte(byte)[i]),
        !is_unreserved(byte) ==> hex_byte(
            hex_digit(byte as int / 16) as u8,
            hex_digit(byte as int % 16) as u8,
        ) == Some(byte),
{
}

/// A path is written in a URI with nothing but letters, digits, `-`, `_`, `.`, `~`, `/` and the
/// `%` of an escape, whatever is in the path.
pub proof fn law_a_uri_is_written_plainly(path: Seq<char>)
    ensures
        forall|i: int|
            7 <= i < uri_of(path).len() ==> is_plain(#[trigger] uri_of(path)[i]),
        is_ascii_chars(uri_of(path)),
{
    reveal_strlit("file://");
    let tail = escaped(encode_utf8(path));
    lemma_escaped_is_plain(encode_utf8(path));
    assert forall|i: int| 7 <= i < uri_of(path).len() implies is_plain(
        #[trigger] uri_of(path)[i],
    ) by {
        assert(uri_of(path)[i] == tail[i - 7]);
    }
    assert forall|i: int| 0 <= i < uri_of(path).len() implies ('\0' <= #[trigger] uri_of(path)[i]
        <= '\u{7f}') by {
        if i >= 7 {
            lemma_plain_is_ascii(uri_of(path)[i]);
        } else {
            assert(uri_of(path)[i] == "file://"@[i]);
        }
    }
}

/// Two ASCII bytes are text.
proof fn lemma_two_plain_bytes_are_text(pair: Seq<u8>)
    requires
        pair.len() == 2,
        pair[0] < 0x80,
        pair[1] < 0x80,
    ensures
        valid_utf8(pair),
{
    reveal_with_fuel(valid_utf8, 3);
    let rest = pop_first_scalar(pair);
    assert(rest =~= pair.subrange(1, 2));
    assert(pop_first_scalar(rest).len() == 0);
    let first = pair[0];
    let second = pair[1];
    assert((first & 0x7f) < 0x80 && (second & 0x7f) < 0x80) by (bit_vector);
}

/// Escapes undone are what was escaped.
proof fn lemma_unescaped_is_what_was_escaped(bytes: Seq<u8>, uri: Seq<u8>, from: int)
    requires
        0 <= from <= uri.len(),
        uri.len() - from == escaped(bytes).len(),
        forall|i: int|
            0 <= i < escaped(bytes).len() ==> uri[from + i] == #[trigger] escaped(bytes)[i] as u8,
    ensures
        unescaped(uri, from) == Some(bytes),
    decreases bytes.len(),
{
    if bytes.len() == 0 {
        assert(Seq::<u8>::empty() =~= bytes);
    } else {
        let byte = bytes[0];
        let rest = bytes.drop_first();
        let first = escaped_byte(byte);
        let all = escaped(bytes);
        lemma_escaped_byte(byte);
        assert(forall|i: int| 0 <= i < first.len() ==> first[i] == #[trigger] all[i]);
        assert forall|i: int| 0 <= i < escaped(rest).len() implies uri[from + first.len() + i]
            == #[trigger] escaped(rest)[i] as u8 by {
            assert(all[first.len() + i] == escaped(rest)[i]);
        }
        lemma_unescaped_is_what_was_escaped(rest, uri, from + first.len());
        assert(seq![byte] + rest =~= bytes);
        assert(uri[from] == all[0] as u8);
        if !is_unreserved(byte) {
            assert(uri[from + 1] == all[1] as u8);
            assert(uri[from + 2] == all[2] as u8);
            assert(first[1] == all[1] && first[2] == all[2]);
            lemma_two_plain_bytes_are_text(uri.subrange(from + 1, from + 3));
        }
    }
}

/// A path that starts at the root reads back off the URI it was written as, whatever is in it.
pub proof fn law_a_path_reads_back_off_its_uri(path: Seq<char>)
    requires
        path.len() > 0,
        path[0] == '/',
    ensures
        path_named(encode_utf8(uri_of(path))) == Some(path),
{
    reveal_strlit("file://");
    reveal_strlit("file:///");
    let bytes = encode_utf8(path);
    let uri = uri_of(path);
    law_a_uri_is_written_plainly(path);
    is_ascii_chars_encode_utf8(uri);
    let written = encode_utf8(uri);
    assert(bytes[0] == 47u8) by {
        encode_utf8_first_scalar(path);
        assert(bytes =~= encode_scalar('/' as u32) + encode_utf8(path.drop_first()));
        assert(leading_byte_width_1(47) == 47u8) by (bit_vector)
            requires
                leading_byte_width_1(47) == (47u32 & 0x7f) as u8,
        ;
    }
    assert(escaped(bytes)[0] == escaped_byte(bytes[0])[0]);
    assert(is_ascii_chars("file:///"@));
    is_ascii_chars_encode_utf8("file:///"@);
    assert(written.subrange(0, 8) =~= encode_utf8("file:///"@));
    lemma_unescaped_is_what_was_escaped(bytes, written, 7);
    encode_utf8_valid_utf8(path);
    encode_utf8_decode_utf8(path);
}

/// Whether a digit stands for a value below sixteen, in small letters or in capitals.
pub open spec fn stands_for(digit: u8, value: int) -> bool {
    (0 <= value <= 9 && digit == 48 + value) || (10 <= value <= 15 && (digit == 55 + value || digit
        == 87 + value))
}

/// Whether a stretch of a URI spells a byte: the byte itself, a percent sign and two digits, or a
/// percent sign, a plus sign and one digit.
pub open spec fn spells(stretch: Seq<u8>, byte: u8) -> bool {
    ||| byte != 37 && stretch == seq![byte]
    ||| {
        &&& stretch.len() == 3
        &&& stretch[0] == 37
        &&& stands_for(stretch[1], byte as int / 16)
        &&& stands_for(stretch[2], byte as int % 16)
    }
    ||| {
        &&& stretch.len() == 3
        &&& stretch[0] == 37
        &&& stretch[1] == 43
        &&& stands_for(stretch[2], byte as int)
    }
}

proof fn lemma_spelled_out(stretches: Seq<Seq<u8>>, bytes: Seq<u8>, uri: Seq<u8>, from: int)
    requires
        0 <= from <= uri.len(),
        uri.skip(from) == stretches.flatten(),
        stretches.len() == bytes.len(),
        forall|i: int| 0 <= i < bytes.len() ==> spells(#[trigger] stretches[i], bytes[i]),
    ensures
        unescaped(uri, from) == Some(bytes),
    decreases bytes.len(),
{
    if bytes.len() == 0 {
        assert(uri.skip(from).len() == 0);
        assert(Seq::<u8>::empty() =~= bytes);
    } else {
        let first = stretches[0];
        let rest = stretches.drop_first();
        let byte = bytes[0];
        assert(spells(first, byte));
        assert(uri.skip(from) == first + rest.flatten());
        assert forall|i: int| 0 <= i < first.len() implies uri[from + i] == #[trigger] first[i] by {
            assert(uri.skip(from)[i] == uri[from + i]);
            assert((first + rest.flatten())[i] == first[i]);
        }
        assert(uri.skip(from + first.len()) =~= rest.flatten()) by {
            assert(uri.skip(from + first.len()) =~= uri.skip(from).skip(first.len() as int));
            assert((first + rest.flatten()).skip(first.len() as int) =~= rest.flatten());
        }
        assert forall|i: int| 0 <= i < rest.len() implies spells(
            #[trigger] rest[i],
            bytes.drop_first()[i],
        ) by {
            assert(rest[i] == stretches[i + 1]);
        }
        assert(uri[from] == first[0]);
        lemma_spelled_out(rest, bytes.drop_first(), uri, from + first.len());
        assert(seq![byte] + bytes.drop_first() =~= bytes);
        if first.len() == 3 {
            assert(uri[from + 1] == first[1] && uri[from + 2] == first[2]);
            lemma_two_plain_bytes_are_text(uri.subrange(from + 1, from + 3));
        }
    }
}

/// A URI names the path its bytes spell, however each of them is spelled: as itself, or as a percent
/// sign and its two digits, in small letters or in capitals. One that does not start with `file:///`
/// names none, and neither does one whose bytes are no text.
pub proof fn law_a_uri_names_what_it_spells(stretches: Seq<Seq<u8>>, bytes: Seq<u8>, uri: Seq<u8>)
    requires
        bytes.len() > 0,
        bytes[0] == 47,
        stretches.len() == bytes.len(),
        stretches[0] == seq![47u8],
        forall|i: int| 0 <= i < bytes.len() ==> spells(#[trigger] stretches[i], bytes[i]),
    ensures
        valid_utf8(bytes) ==> path_named(encode_utf8("file://"@) + stretches.flatten()) == Some(
            decode_utf8(bytes),
        ),
        !valid_utf8(bytes) ==> path_named(encode_utf8("file://"@) + stretches.flatten()) is None,
        !(uri.len() >= 8 && uri.take(8) == encode_utf8("file:///"@)) ==> path_named(uri) is None,
{
    reveal_strlit("file://");
    reveal_strlit("file:///");
    assert(is_ascii_chars("file://"@) && is_ascii_chars("file:///"@));
    is_ascii_chars_encode_utf8("file://"@);
    is_ascii_chars_encode_utf8("file:///"@);
    let front = encode_utf8("file://"@);
    let whole = front + stretches.flatten();
    assert(stretches.flatten() == stretches[0] + stretches.drop_first().flatten());
    assert(whole.skip(7) =~= stretches.flatten());
    assert(whole[7] == stretches.flatten()[0]);
    assert(whole.subrange(0, 8) =~= encode_utf8("file:///"@));
    lemma_spelled_out(stretches, bytes, whole, 7);
    if uri.len() >= 8 {
        assert(uri.subrange(0, 8) =~= uri.take(8));
    }
}

/// Whether a character stands for itself in a URI: a letter, a digit, `-`, `_`, `.`, `~` or `/`.
pub open spec fn stands_for_itself(c: char) -> bool {
    'A' <= c <= 'Z' || 'a' <= c <= 'z' || '0' <= c <= '9' || c == '-' || c == '_' || c == '.' || c
        == '~' || c == '/'
}

proof fn lemma_escapes_are_capitals(bytes: Seq<u8>, at: int)
    requires
        0 <= at < escaped(bytes).len(),
    ensures
        stands_for_itself(escaped(bytes)[at]) || escaped(bytes)[at] == '%',
        escaped(bytes)[at] == '%' ==> at + 2 < escaped(bytes).len() && ('0' <= escaped(bytes)[at + 1]
            <= '9' || 'A' <= escaped(bytes)[at + 1] <= 'F') && ('0' <= escaped(bytes)[at + 2] <= '9'
            || 'A' <= escaped(bytes)[at + 2] <= 'F'),
    decreases bytes.len(),
{
    let first = escaped_byte(bytes[0]);
    let rest = escaped(bytes.drop_first());
    if at >= first.len() {
        lemma_escapes_are_capitals(bytes.drop_first(), at - first.len());
        assert(escaped(bytes)[at] == rest[at - first.len()]);
        if rest[at - first.len()] == '%' {
            assert(escaped(bytes)[at + 1] == rest[at - first.len() + 1]);
            assert(escaped(bytes)[at + 2] == rest[at - first.len() + 2]);
        }
    } else {
        assert(escaped(bytes)[at] == first[at]);
        if first.len() == 3 {
            assert(escaped(bytes)[1] == first[1] && escaped(bytes)[2] == first[2]);
        }
    }
}

proof fn lemma_plain_is_as_it_is(bytes: Seq<u8>)
    requires
        forall|i: int| 0 <= i < bytes.len() ==> stands_for_itself(#[trigger] bytes[i] as char),
    ensures
        escaped(bytes) == bytes.map_values(|byte: u8| byte as char),
    decreases bytes.len(),
{
    if bytes.len() > 0 {
        let rest = bytes.drop_first();
        assert(forall|i: int| 0 <= i < rest.len() ==> rest[i] == bytes[i + 1]);
        lemma_plain_is_as_it_is(rest);
        assert(stands_for_itself(bytes[0] as char));
        assert(escaped_byte(bytes[0]) == seq![bytes[0] as char]);
    }
    assert(escaped(bytes) =~= bytes.map_values(|byte: u8| byte as char));
}

/// A path made of characters that stand for themselves is written as it is; in any URI everything
/// else is percent signs with two digits behind each, in capitals.
pub proof fn law_only_what_must_be_is_escaped(path: Seq<char>)
    ensures
        (forall|i: int| 0 <= i < path.len() ==> stands_for_itself(#[trigger] path[i])) ==> uri_of(
            path,
        ) == "file://"@ + path,
        forall|i: int|
            7 <= i < uri_of(path).len() ==> (stands_for_itself(#[trigger] uri_of(path)[i])
                || uri_of(path)[i] == '%'),
        forall|i: int|
            7 <= i < uri_of(path).len() && (#[trigger] uri_of(path)[i]) == '%' ==> i + 2 < uri_of(
                path,
            ).len() && ('0' <= uri_of(path)[i + 1] <= '9' || 'A' <= uri_of(path)[i + 1] <= 'F') && (
            '0' <= uri_of(path)[i + 2] <= '9' || 'A' <= uri_of(path)[i + 2] <= 'F'),
{
    reveal_strlit("file://");
    let bytes = encode_utf8(path);
    let uri = uri_of(path);
    assert forall|i: int| 7 <= i < uri.len() implies (stands_for_itself(#[trigger] uri[i]) || uri[i]
        == '%') && (uri[i] == '%' ==> i + 2 < uri.len() && ('0' <= uri[i + 1] <= '9' || 'A' <= uri[i
        + 1] <= 'F') && ('0' <= uri[i + 2] <= '9' || 'A' <= uri[i + 2] <= 'F')) by {
        lemma_escapes_are_capitals(bytes, i - 7);
        assert(uri[i] == escaped(bytes)[i - 7]);
        if uri[i] == '%' {
            assert(uri[i + 1] == escaped(bytes)[i - 6]);
            assert(uri[i + 2] == escaped(bytes)[i - 5]);
        }
    }
    if forall|i: int| 0 <= i < path.len() ==> stands_for_itself(#[trigger] path[i]) {
        assert(is_ascii_chars(path)) by {
            assert forall|i: int| 0 <= i < path.len() implies 0x80 > #[trigger] path[i] as int by {
                assert(stands_for_itself(path[i]));
            }
        }
        is_ascii_chars_encode_utf8(path);
        assert forall|i: int| 0 <= i < bytes.len() implies stands_for_itself(
            #[trigger] bytes[i] as char,
        ) && bytes[i] as char == path[i] by {
            assert(stands_for_itself(path[i]));
        }
        lemma_plain_is_as_it_is(bytes);
        assert(escaped(bytes) =~= path);
    }
}

/// A percent sign stands for itself where it has no two characters behind it, or two that are plain but
/// spell nothing. One with half a character behind it makes the whole of the path nothing.
pub proof fn law_a_percent_sign_that_spells_nothing_stands_for_itself(bytes: Seq<u8>, from: int)
    requires
        0 <= from < bytes.len(),
        bytes[from] == 37,
    ensures
        from + 2 >= bytes.len() || (bytes[from + 1] < 0x80 && bytes[from + 2] < 0x80 && forall|
            byte: u8,
        |
            !#[trigger] spells(bytes.subrange(from, from + 3), byte)) ==> unescaped(bytes, from)
            == match unescaped(bytes, from + 1) {
            Some(rest) => Some(seq![37u8] + rest),
            None => None,
        },
        from + 2 < bytes.len() && !valid_utf8(bytes.subrange(from + 1, from + 3)) ==> unescaped(
            bytes,
            from,
        ) is None,
{
    if from + 2 < bytes.len() && bytes[from + 1] < 0x80 && bytes[from + 2] < 0x80 {
        let stretch = bytes.subrange(from, from + 3);
        lemma_two_plain_bytes_are_text(bytes.subrange(from + 1, from + 3));
        if let Some(byte) = hex_byte(bytes[from + 1], bytes[from + 2]) {
            assert(stretch[0] == 37 && stretch[1] == bytes[from + 1] && stretch[2] == bytes[from
                + 2]);
            assert(spells(stretch, byte));
        }
    }
}

} // verus!
