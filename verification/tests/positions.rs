//! Columns: bytes on this side, and whatever a server agreed to on the other.

use moon_lsp::process::PositionEncoding;
use moon_lsp::{protocol, LspError, LspPosition};

/// The one that matters. `héllo` is five characters, six bytes and five UTF-16 units, so a
/// column past the accent is a different number depending on what is counting - and a client
/// that hands a UTF-16 server its byte columns points at the wrong place on every line
/// holding anything but ASCII.
#[test]
fn a_column_past_an_accent_is_counted_in_the_units_the_server_agreed_to() {
    let line = "let héllo = 1;";
    // The byte column of the `=`: `let ` is 4, `héllo` is 6 bytes, the space is one.
    let byte_column: usize = 11;
    assert_eq!(&line[byte_column..byte_column + 1], "=");

    assert_eq!(
        protocol::lsp_character(line, byte_column, PositionEncoding::Utf8),
        11,
        "a server counting bytes wants the column unchanged"
    );
    assert_eq!(
        protocol::lsp_character(line, byte_column, PositionEncoding::Utf16),
        10,
        "the two bytes of é are one UTF-16 unit"
    );
}

#[test]
fn a_column_landing_inside_a_character_belongs_to_the_start_of_it() {
    let line = "héllo";
    // Between the two bytes of é, which is not a place a character starts.
    assert_eq!(protocol::lsp_character(line, 2, PositionEncoding::Utf16), 1);
    assert_eq!(protocol::lsp_character(line, 2, PositionEncoding::Utf8), 1);
}

#[test]
fn a_column_past_the_end_of_a_line_is_the_end_of_it() {
    assert_eq!(
        protocol::lsp_character("ab", 99, PositionEncoding::Utf16),
        2
    );
}

#[test]
fn an_emoji_is_two_utf16_units_and_four_bytes() {
    let line = "x = \"🌙\";";
    let after_the_moon: usize = 4 + 1 + "🌙".len();
    assert_eq!(
        protocol::lsp_character(line, after_the_moon, PositionEncoding::Utf16),
        7,
        "five ASCII characters and the two units of the moon"
    );
    assert_eq!(
        protocol::lsp_character(line, after_the_moon, PositionEncoding::Utf8),
        9
    );
}

#[test]
fn a_position_is_taken_against_the_line_it_falls_on() {
    let text = "fn main() {}\nlet héllo = 1;\n";
    let at = LspPosition {
        line: 1,
        column: 11,
    };
    assert_eq!(
        protocol::position_in(text, &at, PositionEncoding::Utf16)
            .expect("expected a position on the second line"),
        10
    );
}

#[test]
fn a_position_past_the_end_of_the_file_is_refused() {
    let at = LspPosition { line: 9, column: 0 };
    let error = protocol::position_in("one line\n", &at, PositionEncoding::Utf8)
        .expect_err("expected a line past the end to be refused");
    assert!(error.to_string().contains("past the end"), "{}", error.to_string());
    assert_eq!(error, LspError::LinePastFile { line: 9 });
    assert_eq!(error.to_string(), "line 10 is past the end of the file");
}

/// The character a caret sits behind, which is what says a trigger was just typed. Counted
/// in the editor's bytes against the text this side holds, so a line with an accent on it
/// answers with the character rather than with half of one.
#[test]
fn the_character_a_caret_sits_behind_is_read_off_the_text_this_side_holds() {
    let text = "let x = thing.\nlet café = 1;\n";
    let behind = |line: usize, column: usize| {
        protocol::character_before(text, &LspPosition { line, column })
    };

    assert_eq!(behind(0, "let x = thing.".len()), Some('.'));
    assert_eq!(behind(0, "let x = thing".len()), Some('g'));
    // The start of a line is behind nothing, and neither is a line past the end of the file.
    assert_eq!(behind(0, 0), None);
    assert_eq!(behind(9, 0), None);
    // `é` is two bytes: a column past it answers with it, and one landing inside it belongs
    // to it and answers with what is before it.
    assert_eq!(behind(1, "let café".len()), Some('é'));
    assert_eq!(behind(1, "let caf".len() + 1), Some('f'));
}

/// The way back from a server's column to the editor's bytes, which every place a rename names
/// goes through: an accent is two bytes and one UTF-16 unit, an emoji four bytes and two.
#[test]
fn a_column_a_server_names_is_turned_back_into_bytes_against_its_line() {
    let line = "let café = \"😀\"; café";
    let utf16 = |byte_column: usize| line[..byte_column].encode_utf16().count() as u32;
    let second: usize = line.rfind("café").expect("the second café");

    assert_eq!(
        protocol::byte_column(line, utf16(second), PositionEncoding::Utf16),
        second
    );
    assert_eq!(
        protocol::byte_column(line, second as u32, PositionEncoding::Utf8),
        second
    );
    // Between the two halves of the emoji is the emoji, and past the end is the end.
    let emoji: usize = line.find('😀').expect("the emoji");
    assert_eq!(
        protocol::byte_column(line, utf16(emoji) + 1, PositionEncoding::Utf16),
        emoji
    );
    assert_eq!(
        protocol::byte_column(line, 400, PositionEncoding::Utf16),
        line.len()
    );
}

/// Every place between two characters survives the way to a server and back, in either unit.
#[test]
fn a_column_survives_the_way_there_and_back() {
    let line = "a é 日本 😀 z";
    for encoding in [PositionEncoding::Utf8, PositionEncoding::Utf16] {
        for (column, _) in line.char_indices() {
            let character: u32 = protocol::lsp_character(line, column, encoding);
            assert_eq!(protocol::byte_column(line, character, encoding), column);
        }
    }
}

/// ASCII is the same number in either unit, which is why a client that never converts seems to
/// work until the first accent.
#[test]
fn ascii_counts_the_same_in_either_unit() {
    for column in 0..6 {
        assert_eq!(
            protocol::lsp_character("plain", column, PositionEncoding::Utf8),
            protocol::lsp_character("plain", column, PositionEncoding::Utf16)
        );
    }
}

#[test]
fn a_line_reads_without_what_ends_it() {
    let text = "one\r\ntwo\n\nlast";
    assert_eq!(protocol::line_of(text, 0), Some("one"));
    assert_eq!(protocol::line_of(text, 1), Some("two"));
    assert_eq!(protocol::line_of(text, 2), Some(""));
    assert_eq!(protocol::line_of(text, 3), Some("last"));
    assert_eq!(protocol::line_of(text, 4), None);
    // What is behind the last newline is a line too, with nothing on it.
    assert_eq!(protocol::line_of("one\n", 1), Some(""));
    assert_eq!(protocol::line_of("", 0), Some(""));
}

#[test]
fn a_place_a_server_names_is_a_place_in_the_text() {
    let text = "fn main() {}\nlet héllo = 1;\n";
    assert_eq!(
        protocol::position_from(text, 1, 10, PositionEncoding::Utf16),
        Ok(LspPosition { line: 1, column: 11 })
    );
    assert_eq!(
        protocol::position_from(text, 7, 0, PositionEncoding::Utf16),
        Err(LspError::LinePastFile { line: 7 })
    );
}

/// Going along a line a server's column never falls, and a server's column is the last boundary
/// counted no further.
#[test]
fn a_column_counted_back_is_the_last_boundary_it_reaches() {
    let line = "aé😀b";
    for encoding in [PositionEncoding::Utf8, PositionEncoding::Utf16] {
        let counted: Vec<u32> = (0..=line.len() + 1)
            .map(|column| protocol::lsp_character(line, column, encoding))
            .collect();
        assert!(counted.windows(2).all(|pair| pair[0] <= pair[1]), "{counted:?}");
        for character in 0..=9 {
            let last = (0..=line.len())
                .filter(|at| line.is_char_boundary(*at) && counted[*at] <= character)
                .max();
            assert_eq!(
                Some(protocol::byte_column(line, character, encoding)),
                last,
                "{character}"
            );
        }
    }
}

/// A text has one line more than it has newlines.
#[test]
fn a_text_has_one_line_more_than_it_has_newlines() {
    for (text, newlines) in [("", 0), ("a", 0), ("\n", 1), ("a\nb", 1), ("a\r\n\nb\n", 3)] {
        assert!(protocol::line_of(text, newlines).is_some());
        assert!(protocol::line_of(text, newlines + 1).is_none());
    }
}
