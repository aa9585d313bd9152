//! What a server's answers mean.

use moon_lsp::error::Answer;
use moon_lsp::process::PositionEncoding;
use moon_lsp::protocol;
use moon_lsp::{edits, LspCompletionKind, LspError, LspPosition, LspSeverity, LspSignature};

#[test]
fn a_server_that_asked_for_utf8_and_was_answered_with_nothing_is_taken_to_count_utf16() {
    assert_eq!(
        protocol::agreed_encoding(r#"{ "capabilities": {} }"#).expect("expected a readable reply"),
        PositionEncoding::Utf16,
        "the protocol's default is what a server that agreed to nothing means"
    );

    assert_eq!(
        protocol::agreed_encoding(r#"{ "capabilities": { "positionEncoding": "utf-8" } }"#)
            .expect("expected a readable reply"),
        PositionEncoding::Utf8
    );
    assert_eq!(
        protocol::agreed_encoding(r#"{ "capabilities": { "positionEncoding": "utf-32" } }"#)
            .expect("expected a readable reply"),
        PositionEncoding::Utf16
    );
}

/// Every kind of answer is refused in none of the shapes the protocol gives it, and says which it
/// was.
#[test]
fn an_answer_in_no_shape_of_the_protocol_is_refused() {
    let unreadable = |answer: Answer| LspError::Unreadable { answer };
    assert_eq!(protocol::agreed_encoding("7"), Err(unreadable(Answer::Initialize)));
    assert_eq!(protocol::trigger_characters("7"), Err(unreadable(Answer::Initialize)));
    assert_eq!(protocol::formats("7"), Err(unreadable(Answer::Initialize)));
    assert_eq!(
        protocol::text_edits_from("7", "", PositionEncoding::Utf8),
        Err(unreadable(Answer::Formatting))
    );
    assert_eq!(protocol::hover_markdown_from("7"), Err(unreadable(Answer::Hover)));
    assert_eq!(protocol::signature_from("7"), Err(unreadable(Answer::SignatureHelp)));
    assert_eq!(
        protocol::renamable_name("7", "", PositionEncoding::Utf8),
        Err(unreadable(Answer::PrepareRename))
    );
    assert_eq!(protocol::completions_from("7"), Err(unreadable(Answer::Completion)));
    assert_eq!(
        protocol::locations_from("7", "/repo", &|_: &str| None),
        Err(unreadable(Answer::Places))
    );
    assert_eq!(
        unreadable(Answer::Initialize).to_string(),
        "the language server's initialize reply could not be read"
    );
    assert_eq!(unreadable(Answer::Formatting).to_string(), "the formatting answer could not be read");
    assert_eq!(unreadable(Answer::Hover).to_string(), "the hover answer could not be read");
    assert_eq!(
        unreadable(Answer::CodeAction).to_string(),
        "the code action answer could not be read"
    );
    assert_eq!(
        unreadable(Answer::SignatureHelp).to_string(),
        "the signature help answer could not be read"
    );
    assert_eq!(
        unreadable(Answer::PrepareRename).to_string(),
        "the prepareRename answer could not be read"
    );
    assert_eq!(unreadable(Answer::Edits).to_string(), "the answer's edits could not be read");
    assert_eq!(unreadable(Answer::Places).to_string(), "the answer's places could not be read");
    assert_eq!(
        unreadable(Answer::Completion).to_string(),
        "the completion answer could not be read"
    );
}

#[test]
fn a_definition_is_read_as_a_repo_path_and_a_line_counted_from_one() {
    let answer = r#"{
        "uri": "file:///tmp/a%20repo/src/main.rs",
        "range": {
            "start": { "line": 41, "character": 3 },
            "end": { "line": 41, "character": 8 }
        }
    }"#;

    let locations = protocol::locations_from(answer, "/tmp/a repo", &|_: &str| None)
        .expect("expected a readable definition");
    assert_eq!(locations.len(), 1);
    assert_eq!(locations[0].file_path, "src/main.rs");
    assert_eq!(
        locations[0].line_number, 42,
        "the protocol counts lines from zero and the panes from one"
    );
}

#[test]
fn a_definition_outside_the_repo_keeps_the_path_that_names_it() {
    let answer = r#"[{
        "uri": "file:///home/dev/.cargo/registry/serde/lib.rs",
        "range": {
            "start": { "line": 0, "character": 0 },
            "end": { "line": 0, "character": 1 }
        }
    }]"#;
    let locations = protocol::locations_from(answer, "/home/dev/repo", &|_: &str| None)
        .expect("expected a readable definition");
    assert_eq!(
        locations[0].file_path,
        "/home/dev/.cargo/registry/serde/lib.rs"
    );
}

/// A place may also come as a link, whose target is what is opened; a place that is no file on disk
/// is no place to open; and a server with no answer has none.
#[test]
fn places_are_read_in_every_shape_they_come_in() {
    let links = r#"[
        { "targetUri": "file:///repo/a.rs",
          "targetRange": { "start": { "line": 2, "character": 0 }, "end": { "line": 9, "character": 0 } },
          "targetSelectionRange": { "start": { "line": 4, "character": 3 }, "end": { "line": 4, "character": 5 } } }
    ]"#;
    let locations = protocol::locations_from(links, "/repo", &|_: &str| None)
        .expect("expected the links to be read");
    assert_eq!(locations.len(), 1);
    assert_eq!(locations[0].file_path, "a.rs");
    assert_eq!(locations[0].line_number, 5);

    let virtual_file = r#"{ "uri": "jdt://contents/rt.jar", "range": {
        "start": { "line": 0, "character": 0 }, "end": { "line": 0, "character": 1 } } }"#;
    assert_eq!(
        protocol::locations_from(virtual_file, "/repo", &|_: &str| None),
        Ok(vec![])
    );
    assert_eq!(
        protocol::locations_from("null", "/repo", &|_: &str| None),
        Ok(vec![])
    );
}

/// What a caller decides with: whether an item is a function is the one thing that says
/// whether taking it should write the parentheses of a call, and the kind is the only place
/// the answer comes from. An item with no kind stays an item with no kind - a server that did
/// not say is not a server that said "variable".
#[test]
fn a_completion_keeps_the_kind_the_server_gave_it_and_none_where_it_gave_none() {
    // The kinds are a bare integer on the wire, so a server may send one newer than the
    // list this client was written against. Carried as nothing rather than guessed at.
    let answer = r#"[
        { "label": "greet", "kind": 3, "detail": "fn(&str) -> String" },
        { "label": "greeting", "kind": 6 },
        { "label": "Greeter", "kind": 22, "insertText": "Greeter" },
        { "label": "grep" },
        { "label": "growl", "kind": 99 }
    ]"#;

    let completions = protocol::completions_from(answer).expect("expected a readable list");
    let kinds: Vec<Option<LspCompletionKind>> = completions.iter().map(|item| item.kind).collect();
    assert_eq!(
        kinds,
        [
            Some(LspCompletionKind::Function),
            Some(LspCompletionKind::Variable),
            Some(LspCompletionKind::Struct),
            None,
            None,
        ]
    );
    // And the three fields that were already carried are still carried beside it.
    assert_eq!(completions[0].label, "greet");
    assert_eq!(completions[0].detail.as_deref(), Some("fn(&str) -> String"));
    assert_eq!(completions[0].insert, "greet");
}

/// A list may come on its own or inside an object, what is to be typed is the text a server gave
/// for it, and a server that offers nothing offers nothing.
#[test]
fn completions_are_read_in_every_shape_they_come_in() {
    let list = r#"{ "isIncomplete": true, "items": [
        { "label": "greet(…)", "insertText": "greet" }
    ] }"#;
    let completions = protocol::completions_from(list).expect("expected a readable list");
    assert_eq!(completions.len(), 1);
    assert_eq!(completions[0].label, "greet(…)");
    assert_eq!(completions[0].insert, "greet");
    assert_eq!(protocol::completions_from("null"), Ok(vec![]));
}

#[test]
fn a_file_uri_escapes_what_a_path_may_hold_and_reads_back_the_same() {
    let path = "/tmp/a repo/src/café.rs";
    let uri = protocol::file_uri(path);
    assert_eq!(uri, "file:///tmp/a%20repo/src/caf%C3%A9.rs");
    assert_eq!(
        protocol::path_from_file_uri(&uri).expect("expected the path back"),
        path
    );
}

#[test]
fn a_uri_that_names_nothing_on_disk_is_no_place_to_open() {
    assert!(protocol::path_from_file_uri("untitled:Untitled-1").is_none());
    assert!(protocol::path_from_file_uri("jdt://contents/rt.jar").is_none());
}

/// Whatever a path holds, its URI is plain ASCII, and reads back as the path.
#[test]
fn a_uri_is_written_plainly_whatever_the_path_holds() {
    for path in ["/plain/a-b_c.d~e", "/100%/#?&", "/日本/😀", "/a b\t\n"] {
        let uri = protocol::file_uri(path);
        assert!(
            uri.chars().all(|c| c.is_ascii_alphanumeric() || "-_.~/%:".contains(c)),
            "{uri}"
        );
        assert_eq!(protocol::path_from_file_uri(&uri).as_deref(), Some(path));
    }
    assert_eq!(protocol::file_uri("/plain/a-b_c.d~e"), "file:///plain/a-b_c.d~e");
}

/// An escape that is none stands for itself, and bytes that are no text name no path.
#[test]
fn an_escape_that_is_none_stands_for_itself() {
    assert_eq!(protocol::path_from_file_uri("file:///a%zz").as_deref(), Some("/a%zz"));
    assert_eq!(protocol::path_from_file_uri("file:///a%2").as_deref(), Some("/a%2"));
    assert_eq!(protocol::path_from_file_uri("file:///a%41").as_deref(), Some("/aA"));
    assert_eq!(protocol::path_from_file_uri("file:///a%ff"), None);
    assert_eq!(protocol::path_from_file_uri("file:///a%2é"), None);
    assert_eq!(protocol::path_from_file_uri("file://host/a"), None);
    assert_eq!(protocol::path_from_file_uri("file:///a%2Fb").as_deref(), Some("/a/b"));
    assert_eq!(protocol::path_from_file_uri("file:///a%2fb").as_deref(), Some("/a/b"));
}

/// The lists the two servers on this machine really send, kept rather than thrown away: the
/// `.` that means "what is on this thing" is the only character both of them name, so the
/// only honest source for the rest is the reply itself.
#[test]
fn the_trigger_characters_a_server_names_in_its_reply_are_kept_as_it_named_them() {
    let rust = r#"{
        "capabilities": {
            "completionProvider": {
                "resolveProvider": false,
                "triggerCharacters": [":", ".", "'", "("]
            }
        }
    }"#;
    assert_eq!(
        protocol::trigger_characters(rust).expect("expected a readable reply"),
        [':', '.', '\'', '(']
    );

    let typescript = r#"{
        "capabilities": {
            "completionProvider": {
                "triggerCharacters": [".", "\"", "'", "/", "@", "<"],
                "resolveProvider": true
            }
        }
    }"#;
    assert_eq!(
        protocol::trigger_characters(typescript).expect("expected a readable reply"),
        ['.', '"', '\'', '/', '@', '<']
    );
}

/// Every way of a server naming nothing comes to the same empty list: one that offers
/// completions without naming a trigger, and one that offers no completions at all. And a
/// server that names something no keystroke can be - the protocol says a character, and
/// `->` is two - has named nothing that could ever match one, so it is dropped rather than
/// half-matched.
#[test]
fn a_server_that_names_no_triggers_or_names_something_no_keystroke_can_be_triggers_on_nothing() {
    assert!(
        protocol::trigger_characters(r#"{ "capabilities": { "completionProvider": {} } }"#)
            .expect("expected a readable reply")
            .is_empty()
    );

    assert!(protocol::trigger_characters(r#"{ "capabilities": {} }"#)
        .expect("expected a readable reply")
        .is_empty());

    let two_characters = r#"{
        "capabilities": { "completionProvider": { "triggerCharacters": ["->", ".", ""] } }
    }"#;
    assert_eq!(
        protocol::trigger_characters(two_characters).expect("expected a readable reply"),
        ['.']
    );
}

/// A server answers a prepareRename with the range of the name or with the text to offer, and
/// nothing at all where there is nothing to rename.
#[test]
fn what_a_server_would_rename_is_read_off_the_range_it_names_or_the_text_it_offers() {
    let text = "fn main() {}\nlet héllo = greet();\n";
    let range =
        r#"{ "start": { "line": 1, "character": 12 }, "end": { "line": 1, "character": 17 } }"#;

    assert_eq!(
        protocol::renamable_name(range, text, PositionEncoding::Utf16)
            .expect("expected a range to be read"),
        Some("greet".to_string())
    );
    let offered = r#"{
        "range": { "start": { "line": 1, "character": 12 }, "end": { "line": 1, "character": 17 } },
        "placeholder": "greet"
    }"#;
    assert_eq!(
        protocol::renamable_name(offered, text, PositionEncoding::Utf16)
            .expect("expected a placeholder to be read"),
        Some("greet".to_string())
    );
    assert_eq!(
        protocol::renamable_name("null", text, PositionEncoding::Utf16)
            .expect("expected nothing to be read as nothing"),
        None
    );
    // Never asked for, so a server sending it is refused rather than guessed at.
    let refused = protocol::renamable_name(
        r#"{ "defaultBehavior": true }"#,
        text,
        PositionEncoding::Utf16,
    )
    .expect_err("expected the default behaviour to be refused");
    assert_eq!(refused, LspError::DefaultBehaviour);
    assert_eq!(
        refused.to_string(),
        "the server answered prepareRename with its default behaviour, which this client never \
         said it understood"
    );
}

/// A range that runs backwards names nothing.
#[test]
fn a_name_that_ends_before_it_starts_is_refused() {
    let backwards =
        r#"{ "start": { "line": 0, "character": 4 }, "end": { "line": 0, "character": 2 } }"#;
    let refused = protocol::renamable_name(backwards, "fn main() {}", PositionEncoding::Utf8)
        .expect_err("expected the range to be refused");
    assert_eq!(refused, LspError::NameEndsBeforeItStarts);
    assert_eq!(refused.to_string(), "the name to rename ends before it starts");
}

/// Whether a server formats is read off its reply in all three shapes it can say it in, and
/// said nothing is no.
#[test]
fn whether_a_server_formats_is_read_off_its_reply() {
    assert!(
        protocol::formats(r#"{ "capabilities": { "documentFormattingProvider": true } }"#).unwrap()
    );
    assert!(protocol::formats(
        r#"{ "capabilities": { "documentFormattingProvider": { "workDoneProgress": false } } }"#
    )
    .unwrap());
    assert!(!protocol::formats(r#"{ "capabilities": {} }"#).unwrap());
    assert!(
        !protocol::formats(r#"{ "capabilities": { "documentFormattingProvider": false } }"#)
            .unwrap()
    );
}

/// A formatting answer is edits to the one document, in bytes, that go straight into it.
#[test]
fn a_formatting_answer_is_edits_in_bytes_to_the_text_the_server_had() {
    let text = "let é  = 1;\n";
    let answer = r#"[
        { "range": { "start": { "line": 0, "character": 5 }, "end": { "line": 0, "character": 7 } }, "newText": " " }
    ]"#;
    let converted = protocol::text_edits_from(answer, text, PositionEncoding::Utf16)
        .expect("expected the edits to be read");
    assert_eq!(
        edits::apply(text, &converted).expect("expected the edits to fit"),
        "let é = 1;\n"
    );
    assert!(
        protocol::text_edits_from("null", text, PositionEncoding::Utf16)
            .unwrap()
            .is_empty()
    );
}

/// Edits come out in the order they start in, and one that names a line the text does not have
/// refuses the lot.
#[test]
fn converted_edits_are_in_order_or_not_at_all() {
    let text = "one\ntwo\n";
    let answer = r#"[
        { "range": { "start": { "line": 1, "character": 0 }, "end": { "line": 1, "character": 3 } }, "newText": "2" },
        { "range": { "start": { "line": 0, "character": 0 }, "end": { "line": 0, "character": 3 } }, "newText": "1" }
    ]"#;
    let converted = protocol::text_edits_from(answer, text, PositionEncoding::Utf8)
        .expect("expected the edits to be read");
    assert_eq!(converted[0].new_text, "1");
    assert_eq!(converted[1].start, LspPosition { line: 1, column: 0 });

    let past = r#"[
        { "range": { "start": { "line": 7, "character": 0 }, "end": { "line": 7, "character": 0 } }, "newText": "" }
    ]"#;
    assert_eq!(
        protocol::text_edits_from(past, text, PositionEncoding::Utf8),
        Err(LspError::LinePastFile { line: 7 })
    );
}

/// A hover answer is one markdown text whichever of the protocol's shapes it came in, code in a
/// named language as a fenced block, and nothing to say as nothing.
#[test]
fn a_hover_answer_is_one_markdown_text_whatever_shape_it_came_in() {
    let markup = r#"{ "contents": { "kind": "markdown", "value": "```rust\nfn greet()\n```\nSays hello." } }"#;
    assert_eq!(
        protocol::hover_markdown_from(markup).unwrap().as_deref(),
        Some("```rust\nfn greet()\n```\nSays hello.")
    );
    let marked =
        r#"{ "contents": [{ "language": "python", "value": "def greet()" }, "Says *hello*."] }"#;
    assert_eq!(
        protocol::hover_markdown_from(marked).unwrap().as_deref(),
        Some("```python\ndef greet()\n```\n\nSays *hello*.")
    );
    let plain = r#"{ "contents": { "kind": "plaintext", "value": "a_b" } }"#;
    assert_eq!(
        protocol::hover_markdown_from(plain).unwrap().as_deref(),
        Some("```\na_b\n```")
    );
    assert_eq!(protocol::hover_markdown_from("null").unwrap(), None);
    assert_eq!(
        protocol::hover_markdown_from(r#"{ "contents": "  " }"#).unwrap(),
        None
    );
}

/// What a server publishes about a file is read off the notification, and turned into the
/// editor's bytes against the text it is about - a diagnostic about a line the text no longer
/// has left out, and one with no severity read as an error.
#[test]
fn published_diagnostics_are_read_into_bytes_against_the_text_they_are_about() {
    let notification = r#"{ "jsonrpc": "2.0", "method": "textDocument/publishDiagnostics", "params": {
        "uri": "file:///home/dev/repo/src/lib.rs",
        "diagnostics": [
            { "range": { "start": { "line": 0, "character": 8 }, "end": { "line": 0, "character": 9 } },
              "severity": 2, "message": "unused variable: `x`", "source": "rustc" },
            { "range": { "start": { "line": 0, "character": 13 }, "end": { "line": 0, "character": 14 } },
              "message": "expected `;`" },
            { "range": { "start": { "line": 9, "character": 0 }, "end": { "line": 9, "character": 1 } },
              "severity": 1, "message": "about a line that is gone" }
        ]
    }}"#;
    let (path, published) =
        protocol::published_diagnostics(notification).expect("expected a readable notification");
    assert_eq!(path, "/home/dev/repo/src/lib.rs");

    let text = "let é = 1; x = 2\n";
    let diagnostics = protocol::diagnostics_from(&published, text, PositionEncoding::Utf16);
    assert_eq!(
        diagnostics.len(),
        2,
        "the one past the end of the text is left out"
    );
    assert_eq!(diagnostics[0].severity, LspSeverity::Warning);
    assert_eq!(diagnostics[0].start, LspPosition { line: 0, column: 9 });
    assert_eq!(diagnostics[0].source.as_deref(), Some("rustc"));
    assert_eq!(diagnostics[1].severity, LspSeverity::Error);
}

/// What is no notification about a file on disk publishes nothing, and what was published is found
/// again at the place it is about.
#[test]
fn diagnostics_are_found_at_the_place_they_are_about() {
    assert!(protocol::published_diagnostics("{}").is_none());
    assert!(protocol::published_diagnostics(
        r#"{ "params": { "uri": "untitled:1", "diagnostics": [] } }"#
    )
    .is_none());

    let (_, published) = protocol::published_diagnostics(
        r#"{ "params": { "uri": "file:///a.rs", "diagnostics": [
            { "range": { "start": { "line": 1, "character": 4 }, "end": { "line": 1, "character": 9 } },
              "severity": 4, "message": "here", "code": "E1" },
            { "range": { "start": { "line": 3, "character": 0 }, "end": { "line": 5, "character": 2 } },
              "severity": 3, "message": "across lines" }
        ] } }"#,
    )
    .expect("expected a readable notification");
    let found = |line: usize, character: u32| -> Vec<String> {
        protocol::diagnostics_at(&published, line, character)
            .iter()
            .map(|diagnostic| diagnostic.message.clone())
            .collect()
    };
    assert_eq!(found(1, 4), ["here"]);
    assert_eq!(found(1, 9), ["here"]);
    assert_eq!(found(1, 3), Vec::<String>::new());
    assert_eq!(found(1, 10), Vec::<String>::new());
    assert_eq!(found(4, 80), ["across lines"]);
    assert_eq!(found(5, 3), Vec::<String>::new());
    // A line no server could have named is not the one its number comes round to.
    assert_eq!(found(u32::MAX as usize + 2, 4), Vec::<String>::new());
}

/// A signature shows the parameter being typed, named by its text or by where it is in
/// UTF-16 units of the label - both as bytes of the label.
#[test]
fn a_signature_shows_the_parameter_being_typed_as_bytes_of_its_label() {
    let by_text = r#"{ "signatures": [{ "label": "fn add(a: u32, b: u32) -> u32",
        "parameters": [{ "label": "a: u32" }, { "label": "b: u32" }] }], "activeParameter": 1 }"#;
    let signature = protocol::signature_from(by_text)
        .unwrap()
        .expect("a signature");
    assert_eq!(
        &signature.label[signature.active_parameter.clone().unwrap()],
        "b: u32"
    );

    let by_place = r#"{ "signatures": [{ "label": "fn café(é: u8, b: u8)",
        "parameters": [{ "label": [8, 13] }, { "label": [15, 20] }], "activeParameter": 0,
        "documentation": { "kind": "markdown", "value": "Brews." } }] }"#;
    let signature = protocol::signature_from(by_place)
        .unwrap()
        .expect("a signature");
    assert_eq!(
        &signature.label[signature.active_parameter.clone().unwrap()],
        "é: u8"
    );
    assert_eq!(signature.documentation.as_deref(), Some("Brews."));

    assert_eq!(
        protocol::signature_from(r#"{ "signatures": [] }"#).unwrap(),
        None
    );
    assert_eq!(protocol::signature_from("null").unwrap(), None);
}

/// A list of places carries what each of its lines reads, each file read once however many of
/// its lines are named - and a file that cannot be read keeps its place, without its line.
#[test]
fn places_carry_what_their_line_reads_off_each_file_read_once() {
    let place = |file: &str, line: u32| {
        format!(
            r#"{{ "uri": "file:///home/dev/repo/{file}", "range": {{
            "start": {{ "line": {line}, "character": 0 }}, "end": {{ "line": {line}, "character": 1 }} }} }}"#
        )
    };
    let answer = format!(
        "[{}, {}, {}]",
        place("src/lib.rs", 0),
        place("src/lib.rs", 2),
        place("src/gone.rs", 0)
    );
    let reads = std::cell::Cell::new(0);
    let locations = protocol::locations_from(&answer, "/home/dev/repo", &|path: &str| {
        reads.set(reads.get() + 1);
        if path.ends_with("src/lib.rs") {
            Some("pub fn greet() {}\n\nfn main() { greet(); }\n".to_string())
        } else {
            None
        }
    })
    .expect("expected the places to be read");

    assert_eq!(
        locations
            .iter()
            .map(|location| location.line_text.as_deref())
            .collect::<Vec<_>>(),
        [
            Some("pub fn greet() {}"),
            Some("fn main() { greet(); }"),
            None
        ]
    );
    assert_eq!(reads.get(), 2, "each file is read once");
}

/// Nothing to say is nothing in every shape: a fence round nothing is not something said.
#[test]
fn a_hover_with_nothing_in_it_says_nothing_whatever_shape_it_came_in() {
    for nothing in [
        r#"{"contents":{"kind":"plaintext","value":""}}"#,
        r#"{"contents":{"kind":"plaintext","value":" \n"}}"#,
        r#"{"contents":{"kind":"markdown","value":"\n"}}"#,
        r#"{"contents":{"language":"rust","value":" "}}"#,
        r#"{"contents":[{"language":"rust","value":""},"",{"language":"c","value":"\t"}]}"#,
        r#"{"contents":[]}"#,
    ] {
        assert_eq!(protocol::hover_markdown_from(nothing), Ok(None), "{nothing}");
    }
    assert_eq!(
        protocol::hover_markdown_from(r#"{"contents":["", {"language":"rust","value":"x"}]}"#),
        Ok(Some("\n\n```rust\nx\n```".to_string()))
    );
}

/// A signature and a parameter there are none of are the first ones there are.
#[test]
fn a_signature_and_a_parameter_out_of_range_are_the_first() {
    let out_of_range = r#"{"signatures":[{"label":"f(a)","parameters":[{"label":"a"}]}],"activeSignature":7,"activeParameter":5}"#;
    assert_eq!(
        protocol::signature_from(out_of_range),
        Ok(Some(LspSignature {
            label: "f(a)".to_string(),
            active_parameter: Some(2..3),
            documentation: None,
        }))
    );
    let of_its_own = r#"{"signatures":[{"label":"f(a, b)","activeParameter":9,"parameters":[{"label":"a"},{"label":"b"}]}],"activeParameter":1}"#;
    assert_eq!(
        protocol::signature_from(of_its_own).unwrap().unwrap().active_parameter,
        Some(2..3)
    );
    let none_at_all = r#"{"signatures":[{"label":"f()","parameters":[]}],"activeParameter":0}"#;
    assert_eq!(
        protocol::signature_from(none_at_all).unwrap().unwrap().active_parameter,
        None
    );
    let not_in_the_label = r#"{"signatures":[{"label":"f()","parameters":[{"label":"a"}]}]}"#;
    assert_eq!(
        protocol::signature_from(not_in_the_label).unwrap().unwrap().active_parameter,
        None
    );
}

/// A string is as long as it is written: from the quote it starts with to the one it ends with, and
/// a quote behind a backslash ends nothing.
#[test]
fn the_longest_string_of_an_answer_is_as_long_as_it_is_written() {
    let longest = protocol::wire::longest_string;
    assert_eq!(longest("null"), 0);
    assert_eq!(longest("[\"\"]"), 0);
    assert_eq!(longest(r#"{"uri":"file:///a"}"#), 9);
    assert_eq!(longest(r#"["é", "ab"]"#), 2);
    assert_eq!(longest(r#"["a\"b", "c"]"#), 4);
    assert_eq!(longest(r#"["\\", "abcdef"]"#), 6);
    assert_eq!(longest("[1,                    2]"), 0);
    assert!(!protocol::wire::too_long(r#"{"uri":"file:///a"}"#));
}
