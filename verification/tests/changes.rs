//! What a rename or a code action would change.

use moon_lsp::error::Answer;
use moon_lsp::process::PositionEncoding;
use moon_lsp::{edits, protocol, LspError, LspPosition};

/// One edit, as a server writes it.
fn edit(line: u32, start: u32, end: u32) -> String {
    format!(
        r#"{{ "range": {{ "start": {{ "line": {line}, "character": {start} }}, "end": {{ "line": {line}, "character": {end} }} }}, "newText": "hello" }}"#
    )
}

/// The two files of a crate.
fn texts(file_path: &str) -> Result<String, LspError> {
    match file_path {
        "src/lib.rs" => Ok("pub fn greet() {}\n".to_string()),
        "src/main.rs" => Ok("fn main() { let é = lib::greet(); }\n".to_string()),
        other => Err(LspError::Told {
            said: format!("asked for {other}"),
        }),
    }
}

/// A rename's answer is one entry per file, relative to the repo, every place in bytes - and a
/// file the answer names twice is one entry.
#[test]
fn a_rename_answer_is_one_entry_per_file_with_every_place_in_bytes() {
    let root = "/home/dev/repo";
    let answer = format!(
        r#"{{
        "documentChanges": [
            {{ "textDocument": {{ "uri": "file:///home/dev/repo/src/main.rs", "version": 2 }}, "edits": [{}] }},
            {{ "textDocument": {{ "uri": "file:///home/dev/repo/src/lib.rs", "version": null }}, "edits": [{}] }}
        ]
    }}"#,
        edit(0, 25, 30),
        edit(0, 7, 12)
    );

    let files = protocol::file_edits_from(&answer, root, PositionEncoding::Utf16, &texts)
        .expect("expected the answer to be read");
    assert_eq!(
        files
            .iter()
            .map(|file| file.file_path.as_str())
            .collect::<Vec<_>>(),
        ["src/main.rs", "src/lib.rs"]
    );
    // The `é` to the left of the call is one UTF-16 unit and two bytes.
    assert_eq!(
        files[0].edits[0].start,
        LspPosition {
            line: 0,
            column: 26
        }
    );
    assert_eq!(
        edits::apply(&texts("src/main.rs").unwrap(), &files[0].edits)
            .expect("expected the edit to fit the text it was worked out against"),
        "fn main() { let é = lib::hello(); }\n"
    );

    // The older shape of the same answer reads the same, in the order of the files' names.
    let changes = format!(
        r#"{{ "changes": {{
        "file:///home/dev/repo/src/main.rs": [{}],
        "file:///home/dev/repo/src/lib.rs": [{}]
    }}}}"#,
        edit(0, 25, 30),
        edit(0, 7, 12)
    );
    let files = protocol::file_edits_from(&changes, root, PositionEncoding::Utf16, &texts)
        .expect("expected the older shape to be read");
    assert_eq!(files[0].file_path, "src/lib.rs");
    assert_eq!(
        files[1].edits[0].start,
        LspPosition {
            line: 0,
            column: 26
        }
    );
}

/// A rename that would write outside the repo, or create, rename or delete a file, is refused
/// whole rather than carried out in part.
#[test]
fn a_rename_outside_the_repo_or_that_moves_files_is_refused_whole() {
    let root = "/home/dev/repo";
    let text =
        |_: &str| -> Result<String, LspError> { Ok("pub fn greet() {}\n".to_string()) };
    let one = edit(0, 7, 12);

    let outside = format!(
        r#"{{ "changes": {{
        "file:///home/dev/repo/src/lib.rs": [{one}],
        "file:///home/dev/.cargo/registry/src/dep/lib.rs": [{one}]
    }}}}"#
    );
    let refused = protocol::file_edits_from(&outside, root, PositionEncoding::Utf16, &text)
        .err()
        .expect("an edit outside the repo has to be refused");
    assert!(
        refused.to_string().contains("outside the repo"),
        "{}",
        refused.to_string()
    );
    assert_eq!(
        refused,
        LspError::OutsideTheRepo {
            path: "/home/dev/.cargo/registry/src/dep/lib.rs".to_string()
        }
    );
    assert_eq!(
        refused.to_string(),
        "the edit is to /home/dev/.cargo/registry/src/dep/lib.rs, which is outside the repo"
    );

    let moves_a_file = format!(
        r#"{{ "documentChanges": [
        {{ "kind": "rename", "oldUri": "file:///home/dev/repo/src/a.rs", "newUri": "file:///home/dev/repo/src/b.rs" }},
        {{ "textDocument": {{ "uri": "file:///home/dev/repo/src/lib.rs", "version": 1 }}, "edits": [{one}] }}
    ]}}"#
    );
    let refused = protocol::file_edits_from(&moves_a_file, root, PositionEncoding::Utf16, &text)
        .expect_err("a file operation this client never offered has to be refused");
    assert_eq!(refused, LspError::MovesFiles);
    assert_eq!(
        refused.to_string(),
        "the edit would create, rename or delete a file, which this client never said it could do"
    );
}

/// A file an answer names twice is one entry, with the edits of both in the order they sit in.
#[test]
fn a_file_named_twice_is_one_entry() {
    let answer = format!(
        r#"{{ "documentChanges": [
        {{ "textDocument": {{ "uri": "file:///home/dev/repo/src/lib.rs", "version": 1 }}, "edits": [{}] }},
        {{ "textDocument": {{ "uri": "file:///home/dev/repo/src/main.rs", "version": 1 }}, "edits": [{}] }},
        {{ "textDocument": {{ "uri": "file:///home/dev/repo/src/lib.rs", "version": 1 }}, "edits": [{}] }}
    ]}}"#,
        edit(0, 7, 12),
        edit(0, 25, 30),
        edit(0, 0, 3)
    );
    let files =
        protocol::file_edits_from(&answer, "/home/dev/repo", PositionEncoding::Utf16, &texts)
            .expect("expected the answer to be read");
    assert_eq!(files.len(), 2);
    assert_eq!(files[0].file_path, "src/lib.rs");
    assert_eq!(files[0].edits.len(), 2);
    assert_eq!(files[0].edits[0].start, LspPosition { line: 0, column: 0 });
    assert_eq!(files[0].edits[1].start, LspPosition { line: 0, column: 7 });
}

/// Every other way of an answer not fitting is refused for what is wrong with it.
#[test]
fn an_answer_that_does_not_fit_is_refused_for_what_is_wrong_with_it() {
    let root = "/home/dev/repo";
    let asked = |answer: &str| {
        protocol::file_edits_from(answer, root, PositionEncoding::Utf16, &texts)
            .expect_err("expected the answer to be refused")
    };

    let nowhere = asked(&format!(
        r#"{{ "changes": {{ "untitled:Untitled-1": [{}] }} }}"#,
        edit(0, 0, 1)
    ));
    assert_eq!(
        nowhere,
        LspError::NoFileOnDisk {
            uri: "untitled:Untitled-1".to_string()
        }
    );
    assert_eq!(
        nowhere.to_string(),
        "the edit is to untitled:Untitled-1, which is no file on disk"
    );

    let stale = asked(&format!(
        r#"{{ "changes": {{ "file:///home/dev/repo/src/lib.rs": [{}] }} }}"#,
        edit(8, 0, 1)
    ));
    assert_eq!(
        stale,
        LspError::DoesNotFit {
            file_path: "src/lib.rs".to_string(),
            line: 8
        }
    );
    assert_eq!(stale.to_string(), "the edits to src/lib.rs do not fit it");

    let unread = asked(&format!(
        r#"{{ "changes": {{ "file:///home/dev/repo/src/gone.rs": [{}] }} }}"#,
        edit(0, 0, 1)
    ));
    assert_eq!(unread.to_string(), "asked for src/gone.rs");

    assert_eq!(asked("7"), LspError::Unreadable { answer: Answer::Edits });
    assert_eq!(
        protocol::file_edits_from("null", root, PositionEncoding::Utf16, &texts),
        Ok(vec![])
    );
}

/// A code action answer offers what can be carried out - literal actions with an edit that fits
/// - the preferred first, and leaves out commands, disabled actions, and edits outside the repo.
#[test]
fn code_actions_offered_are_the_ones_that_can_be_carried_out_preferred_first() {
    let text = |_: &str| -> Result<String, LspError> { Ok("let x = 5;\n".to_string()) };
    let edit_to = |file: &str| {
        format!(
            r#"{{ "changes": {{ "file:///home/dev/{file}": [
            {{ "range": {{ "start": {{ "line": 0, "character": 5 }}, "end": {{ "line": 0, "character": 5 }} }}, "newText": ": i32" }}
        ]}}}}"#
        )
    };
    let here = edit_to("repo/src/lib.rs");
    let elsewhere = edit_to(".cargo/registry/dep.rs");
    let answer = format!(
        r#"[
        {{ "title": "Run the tests", "command": "rust-analyzer.runSingle" }},
        {{ "title": "Insert explicit type `i32`", "kind": "refactor.rewrite", "edit": {here} }},
        {{ "title": "Prefix with an underscore", "kind": "quickfix", "isPreferred": true, "edit": {here} }},
        {{ "title": "Not now", "kind": "refactor", "disabled": {{ "reason": "no" }}, "edit": {here} }},
        {{ "title": "Edit a dependency", "kind": "quickfix", "edit": {elsewhere} }},
        {{ "title": "Only a command", "kind": "refactor", "command": {{ "title": "x", "command": "y" }} }}
    ]"#
    );
    let actions =
        protocol::code_actions_from(&answer, "/home/dev/repo", PositionEncoding::Utf16, &text)
            .expect("expected the actions to be read");
    assert_eq!(
        actions
            .iter()
            .map(|action| action.title.as_str())
            .collect::<Vec<_>>(),
        ["Prefix with an underscore", "Insert explicit type `i32`"]
    );
    assert_eq!(actions[1].kind.as_deref(), Some("refactor.rewrite"));
    assert_eq!(actions[1].files[0].file_path, "src/lib.rs");
    assert!(actions[0].preferred);
    assert!(!actions[1].preferred);

    assert_eq!(
        protocol::code_actions_from("7", "/home/dev/repo", PositionEncoding::Utf16, &text),
        Err(LspError::Unreadable {
            answer: Answer::CodeAction
        })
    );
    assert_eq!(
        protocol::code_actions_from("null", "/home/dev/repo", PositionEncoding::Utf16, &text),
        Ok(vec![])
    );
}

/// One file's edits, as the answer to a rename.
fn renamed(edits: &[String]) -> String {
    format!(
        r#"{{ "changes": {{ "file:///home/dev/repo/src/lib.rs": [{}] }} }}"#,
        edits.join(", ")
    )
}

/// Edits over the same text of a file, and one that ends before it starts, refuse the lot: what is
/// handed back never overlaps.
#[test]
fn edits_of_a_file_that_overlap_are_refused_whole() {
    let root = "/home/dev/repo";
    let asked = |edits: &[String]| {
        protocol::file_edits_from(&renamed(edits), root, PositionEncoding::Utf16, &texts)
    };
    assert_eq!(
        asked(&[edit(0, 4, 8), edit(0, 7, 12)]),
        Err(LspError::EditsOverlap)
    );
    assert_eq!(
        asked(&[edit(0, 7, 12), edit(0, 7, 12)]),
        Err(LspError::EditsOverlap)
    );
    assert_eq!(
        asked(&[edit(0, 0, 3), edit(0, 12, 7)]),
        Err(LspError::EditEndsBeforeItStarts)
    );

    // Over two entries of one file as well, however far apart they stand.
    let twice = format!(
        r#"{{ "documentChanges": [
        {{ "textDocument": {{ "uri": "file:///home/dev/repo/src/lib.rs", "version": 1 }}, "edits": [{}] }},
        {{ "textDocument": {{ "uri": "file:///home/dev/repo/src/main.rs", "version": 1 }}, "edits": [{}] }},
        {{ "textDocument": {{ "uri": "file:///home/dev/repo/src/lib.rs", "version": 1 }}, "edits": [{}] }}
    ]}}"#,
        edit(0, 7, 12),
        edit(0, 25, 30),
        edit(0, 9, 10)
    );
    assert_eq!(
        protocol::file_edits_from(&twice, root, PositionEncoding::Utf16, &texts),
        Err(LspError::EditsOverlap)
    );
}

/// Edits that only touch are handed back in the order they sit in: text put in where another edit
/// starts is ahead of it.
#[test]
fn edits_of_a_file_come_in_the_order_they_sit_in() {
    let files = protocol::file_edits_from(
        &renamed(&[edit(0, 7, 12), edit(0, 12, 14), edit(0, 7, 7), edit(0, 0, 3)]),
        "/home/dev/repo",
        PositionEncoding::Utf16,
        &texts,
    )
    .expect("expected the answer to be read");
    assert_eq!(
        files[0]
            .edits
            .iter()
            .map(|edit| (edit.start.column, edit.end.column))
            .collect::<Vec<_>>(),
        [(0, 3), (7, 7), (7, 12), (12, 14)]
    );
}

/// An action whose edits overlap is left out rather than offered.
#[test]
fn an_action_whose_edits_overlap_is_not_offered() {
    let apart = renamed(&[edit(0, 0, 3), edit(0, 7, 12)]);
    let over = renamed(&[edit(0, 0, 8), edit(0, 7, 12)]);
    let actions = protocol::code_actions_from(
        &format!(
            r#"[{{ "title": "Over", "edit": {over} }}, {{ "title": "Apart", "edit": {apart} }}]"#
        ),
        "/home/dev/repo",
        PositionEncoding::Utf16,
        &texts,
    )
    .expect("expected the actions to be read");
    assert_eq!(actions.len(), 1);
    assert_eq!(actions[0].title, "Apart");
    assert_eq!(actions[0].files[0].edits.len(), 2);
}

/// An edit to a file that is only reached by leading out of the repo again is one outside it.
#[test]
fn an_edit_that_leads_out_of_the_repo_is_refused_whole() {
    let answer = format!(
        r#"{{ "changes": {{
        "file:///home/dev/repo/src/lib.rs": [{0}],
        "file:///home/dev/repo/../other/lib.rs": [{0}]
    }}}}"#,
        edit(0, 7, 12)
    );
    assert_eq!(
        protocol::file_edits_from(&answer, "/home/dev/repo", PositionEncoding::Utf16, &texts),
        Err(LspError::OutsideTheRepo {
            path: "/home/dev/repo/../other/lib.rs".to_string()
        })
    );
}
