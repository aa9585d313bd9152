//! Putting edits into a text, all of them or none.

use moon_lsp::edits;
use moon_lsp::{LspError, LspPosition, LspTextEdit};

fn at(line: usize, column: usize) -> LspPosition {
    LspPosition { line, column }
}

fn edit(start: LspPosition, end: LspPosition, new_text: &str) -> LspTextEdit {
    LspTextEdit {
        start,
        end,
        new_text: new_text.to_string(),
    }
}

/// Edits go in against the text they were worked out against, all of them or none: one that
/// does not fit the text, or two that overlap, refuse the lot.
#[test]
fn edits_go_in_together_or_not_at_all() {
    let text = "greet();\ngreet();\n";

    // Handed in back to front, and put in as though they were not.
    assert_eq!(
        edits::apply(
            text,
            &[
                edit(at(1, 0), at(1, 5), "hello"),
                edit(at(0, 0), at(0, 5), "hi")
            ]
        )
        .expect("expected both edits to fit"),
        "hi();\nhello();\n"
    );
    assert!(
        edits::apply(text, &[edit(at(0, 0), at(0, 40), "x")]).is_err(),
        "a column past the end of its line is an edit for another text"
    );
    assert!(
        edits::apply(text, &[edit(at(5, 0), at(5, 1), "x")]).is_err(),
        "a line past the end is an edit for another text"
    );
    assert!(
        edits::apply(
            text,
            &[edit(at(0, 0), at(0, 4), "a"), edit(at(0, 2), at(0, 6), "b")]
        )
        .is_err(),
        "two edits over the same text have no order that keeps both meaning what they meant"
    );
}

/// Each way of not fitting says which it was, in a sentence counted from one.
#[test]
fn each_edit_that_does_not_fit_is_refused_for_what_is_wrong_with_it() {
    let text = "héllo\nworld";
    let refused = |start: LspPosition, end: LspPosition| {
        edits::apply(text, &[edit(start, end, "x")]).expect_err("expected the edit not to fit")
    };

    let past = refused(at(2, 0), at(2, 1));
    assert_eq!(past, LspError::LinePastText { line: 2 });
    assert_eq!(past.to_string(), "line 3 is past the end of the text");

    let inside = refused(at(0, 2), at(0, 3));
    assert_eq!(inside, LspError::NotAPlace { line: 0, column: 2 });
    assert_eq!(inside.to_string(), "column 2 of line 1 is not a place in the text");

    let beyond = refused(at(1, 0), at(1, 6));
    assert_eq!(beyond, LspError::NotAPlace { line: 1, column: 6 });

    let backwards = refused(at(1, 3), at(1, 1));
    assert_eq!(backwards, LspError::EditEndsBeforeItStarts);
    assert_eq!(backwards.to_string(), "an edit ends before it starts");

    let overlapping = edits::apply(
        text,
        &[edit(at(1, 0), at(1, 3), "a"), edit(at(1, 2), at(1, 4), "b")],
    )
    .expect_err("expected the overlap to be refused");
    assert_eq!(overlapping, LspError::EditsOverlap);
    assert_eq!(overlapping.to_string(), "two of the edits overlap");
}

#[test]
fn a_place_is_an_offset_into_the_text() {
    let text = "héllo\nworld\n";
    assert_eq!(edits::offset_of(text, &at(0, 3)), Ok(3));
    assert_eq!(edits::offset_of(text, &at(1, 0)), Ok(7));
    assert_eq!(edits::offset_of(text, &at(1, 5)), Ok(12));
    assert_eq!(edits::offset_of(text, &at(2, 0)), Ok(13));
    assert_eq!(
        edits::offset_of(text, &at(3, 0)),
        Err(LspError::LinePastText { line: 3 })
    );
}

#[test]
fn edits_are_put_in_the_order_they_sit_in_whatever_order_they_come_in() {
    let text = "abc";
    let ranges = edits::byte_ranges(
        text,
        &[
            edit(at(0, 2), at(0, 3), "C"),
            edit(at(0, 0), at(0, 0), "^"),
            edit(at(0, 0), at(0, 1), "A"),
        ],
    )
    .expect("expected the edits to fit");
    assert_eq!(
        ranges,
        [
            (0..0, "^".to_string()),
            (0..1, "A".to_string()),
            (2..3, "C".to_string())
        ]
    );
    assert_eq!(
        edits::apply(
            text,
            &[
                edit(at(0, 2), at(0, 3), "C"),
                edit(at(0, 0), at(0, 0), "^"),
                edit(at(0, 0), at(0, 1), "A"),
            ]
        )
        .as_deref(),
        Ok("^AbC")
    );
}

/// Two edits that only touch are not over the same text, and two put in at one place go in the
/// order they came.
#[test]
fn edits_that_touch_do_not_overlap() {
    assert_eq!(
        edits::apply("ab", &[edit(at(0, 1), at(0, 2), "B"), edit(at(0, 0), at(0, 1), "A")])
            .as_deref(),
        Ok("AB")
    );
    assert_eq!(
        edits::apply("ab", &[edit(at(0, 1), at(0, 1), "1"), edit(at(0, 1), at(0, 1), "2")])
            .as_deref(),
        Ok("a12b")
    );
}

#[test]
fn no_edits_leave_a_text_as_it_was() {
    assert_eq!(edits::apply("as it was\n", &[]).as_deref(), Ok("as it was\n"));
}

/// Where one edit does not fit, the lot is refused whatever order they come in.
#[test]
fn a_misfit_refuses_the_lot_in_either_order() {
    let fits = edit(at(0, 0), at(0, 1), "A");
    let misfit = edit(at(7, 0), at(7, 0), "");
    assert_eq!(
        edits::apply("ab", &[fits.clone(), misfit.clone()]),
        Err(LspError::LinePastText { line: 7 })
    );
    assert_eq!(
        edits::apply("ab", &[misfit, fits]),
        Err(LspError::LinePastText { line: 7 })
    );
}

/// Edits handed in any order come out in the order they sit in, under the conditions they go in.
#[test]
fn edits_are_seated_in_the_order_they_sit_in() {
    let seated = edits::in_place(
        "ab\ncd\n",
        vec![
            edit(at(1, 0), at(1, 2), "last"),
            edit(at(0, 1), at(0, 2), "second"),
            edit(at(0, 1), at(0, 1), "first"),
        ],
    )
    .expect("expected the edits to fit");
    assert_eq!(
        seated
            .iter()
            .map(|edit| edit.new_text.as_str())
            .collect::<Vec<_>>(),
        ["first", "second", "last"]
    );
    assert_eq!(
        edits::in_place(
            "ab\ncd\n",
            vec![edit(at(0, 1), at(1, 1), ""), edit(at(1, 0), at(1, 0), "")]
        ),
        Err(LspError::EditsOverlap)
    );
}
