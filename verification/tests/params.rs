//! What is asked of a server.

use moon_lsp::json::Json;
use moon_lsp::protocol::{self, AskedBecause};
use moon_lsp::{ClientIdentity, LspFormatting, LspPlaces};

/// A value inside a value.
fn at<'a>(value: &'a Json, path: &[&str]) -> Option<&'a Json> {
    let mut value = value;
    for name in path {
        value = value.get(name)?;
    }
    Some(value)
}

/// What a server is told it is talking to when nobody said: this crate, not whatever
/// application happens to vendor it. The name goes into every server's log and a few servers
/// change what they offer by it, so a library that announced one host application's name would
/// be lying to every other caller - and to its own example.
#[test]
fn a_server_is_told_it_is_talking_to_this_crate_when_the_caller_says_nothing() {
    let params = protocol::initialize_params("/tmp/a repo", &ClientIdentity::default(), 7);
    assert_eq!(
        at(&params, &["clientInfo", "name"]).and_then(|it| it.as_str()),
        Some("moon_lsp")
    );
    assert_eq!(
        at(&params, &["clientInfo", "version"]).and_then(|it| it.as_str()),
        Some("0.1.0"),
        "a version is worth sending: it is what tells one bug report from another"
    );
}

/// A caller that says who it is has that go out instead, version and all. A caller with no
/// version to give sends no version rather than an empty one.
#[test]
fn a_caller_that_says_who_it_is_has_its_own_name_and_version_sent() {
    let params = protocol::initialize_params(
        "/tmp/a repo",
        &ClientIdentity::new("moonreview", "0.20.0"),
        7,
    );
    assert_eq!(
        at(&params, &["clientInfo"]).expect("expected a clientInfo"),
        &Json::object()
            .with("name", Json::text("moonreview"))
            .with("version", Json::text("0.20.0"))
    );

    let versionless = protocol::initialize_params(
        "/tmp/a repo",
        &ClientIdentity {
            name: "a script".to_string(),
            version: None,
        },
        7,
    );
    assert_eq!(
        at(&versionless, &["clientInfo"]).expect("expected a clientInfo"),
        &Json::object().with("name", Json::text("a script"))
    );
}

/// The repo a server is started in, and who it is to watch for going away.
#[test]
fn a_server_is_told_the_repo_it_is_started_in() {
    let params = protocol::initialize_params("/tmp/a repo", &ClientIdentity::default(), 7);
    assert_eq!(at(&params, &["processId"]), Some(&Json::whole(7)));
    assert_eq!(
        at(&params, &["rootUri"]).and_then(|it| it.as_str()),
        Some("file:///tmp/a%20repo")
    );
}

/// A completion request says why it is being asked, because the answers really are
/// different: a server told a `.` was just typed answers with the members of what is to the
/// left of it, and the same server asked the same place with nothing said answers with
/// everything in scope.
#[test]
fn a_completion_asked_after_a_trigger_says_which_one_and_one_asked_while_typing_says_neither() {
    let after_a_dot = protocol::completion_params(
        "file:///tmp/a.rs",
        4,
        18,
        AskedBecause::OneOfItsTriggersWasTyped('.'),
    );
    assert_eq!(
        at(&after_a_dot, &["context"]).expect("expected a context"),
        &Json::object()
            .with("triggerKind", Json::whole(2))
            .with("triggerCharacter", Json::text("."))
    );
    // And it is still a question about the same place, in the server's own units.
    assert_eq!(
        at(&after_a_dot, &["position"]).expect("expected a position"),
        &Json::object()
            .with("line", Json::whole(4))
            .with("character", Json::whole(18))
    );

    let while_typing = protocol::completion_params(
        "file:///tmp/a.rs",
        4,
        18,
        AskedBecause::SomebodyIsTyping,
    );
    assert_eq!(
        at(&while_typing, &["context"]).expect("expected a context"),
        &Json::object().with("triggerKind", Json::whole(1))
    );

    // A server only reads a context off a client that said it would send one.
    let params = protocol::initialize_params("/tmp/a repo", &ClientIdentity::default(), 7);
    assert_eq!(
        at(
            &params,
            &["capabilities", "textDocument", "completion", "contextSupport"]
        ),
        Some(&Json::Bool(true))
    );
}

/// The four kinds of place are four methods, and only references say anything more than the
/// position: that the declaration is wanted among them.
#[test]
fn each_kind_of_place_is_its_own_request_and_references_include_the_declaration() {
    assert_eq!(
        protocol::places_method(LspPlaces::TypeDefinition),
        "textDocument/typeDefinition"
    );
    assert_eq!(
        protocol::places_method(LspPlaces::References),
        "textDocument/references"
    );
    let references = protocol::places_params("file:///repo/a.rs", 0, 7, LspPlaces::References);
    assert_eq!(
        at(&references, &["context", "includeDeclaration"]),
        Some(&Json::Bool(true))
    );
    let definition = protocol::places_params("file:///repo/a.rs", 0, 7, LspPlaces::Definition);
    assert!(definition.get("context").is_none());
    assert_eq!(
        protocol::places_method(LspPlaces::Definition),
        "textDocument/definition"
    );
    assert_eq!(
        protocol::places_method(LspPlaces::Implementation),
        "textDocument/implementation"
    );
}

/// A document goes out whole: when it is opened, and every time it changes.
#[test]
fn a_document_is_told_whole() {
    assert_eq!(
        protocol::did_open_params("file:///a.rs", "rust", "fn a() {}"),
        Json::object().with(
            "textDocument",
            Json::object()
                .with("uri", Json::text("file:///a.rs"))
                .with("languageId", Json::text("rust"))
                .with("version", Json::whole(1))
                .with("text", Json::text("fn a() {}"))
        )
    );
    let changed = protocol::did_change_params("file:///a.rs", "fn b() {}");
    assert_eq!(
        at(&changed, &["contentChanges"]),
        Some(&Json::list().and(Json::object().with("text", Json::text("fn b() {}"))))
    );
    assert_eq!(
        protocol::did_close_params("file:///a.rs"),
        Json::object().with(
            "textDocument",
            Json::object().with("uri", Json::text("file:///a.rs"))
        )
    );
}

#[test]
fn a_rename_says_the_new_name_and_a_format_says_how_to_indent() {
    let rename = protocol::rename_params("file:///a.rs", 1, 2, "tea");
    assert_eq!(
        rename.get("newName").and_then(|name| name.as_str()),
        Some("tea")
    );
    assert_eq!(at(&rename, &["position", "line"]), Some(&Json::whole(1)));

    let format = protocol::formatting_params(
        "file:///a.rs",
        LspFormatting {
            tab_size: 4,
            insert_spaces: true,
        },
    );
    assert_eq!(
        format.get("options"),
        Some(
            &Json::object()
                .with("tabSize", Json::whole(4))
                .with("insertSpaces", Json::Bool(true))
        )
    );
}

/// What a server found wrong goes back to it exactly as it said it.
#[test]
fn code_actions_are_asked_for_with_what_the_server_said_was_wrong() {
    let (_, published) = protocol::published_diagnostics(
        r#"{ "params": { "uri": "file:///a.rs", "diagnostics": [
            { "range": { "start": { "line": 0, "character": 0 }, "end": { "line": 0, "character": 3 } },
              "message": "here", "data": { "rendered": "kept" } }
        ] } }"#,
    )
    .expect("expected a readable notification");
    let params = protocol::code_action_params("file:///a.rs", 0, 1, &published);
    let carried = match at(&params, &["context", "diagnostics"]) {
        Some(Json::List(carried)) => carried,
        _ => panic!("expected a list of diagnostics"),
    };
    assert_eq!(carried.len(), 1);
    let written = match &carried[0] {
        Json::Verbatim(written) => written,
        _ => panic!("expected the diagnostic as it was written"),
    };
    assert!(written.contains("rendered"), "{written}");
    assert_eq!(
        at(&params, &["range", "start", "character"]),
        Some(&Json::whole(1))
    );
    assert_eq!(
        at(&params, &["context", "triggerKind"]),
        Some(&Json::whole(1))
    );
}
