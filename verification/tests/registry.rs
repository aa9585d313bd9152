//! The servers running for each workspace, and what is asked of them.

use moon_lsp::json::Json;
use moon_lsp::languages::Found;
use moon_lsp::process::{
    Asked, Incoming, LanguageServer, Outcome, PositionEncoding, Refusal, CONTENT_MODIFIED,
    REQUEST_TIMEOUT, SETTLING, STARTING_CEILING,
};
use moon_lsp::protocol;
use moon_lsp::registry::{status_without_a_server, Opening};
use moon_lsp::{
    languages, ClientIdentity, LspError, LspFormatting, LspPlaces, LspPosition, LspRegistry,
    LspSeverity, LspStatus, LspWork, Workspace,
};

/// Whenever these tests take place.
const NOW: u64 = 1_000_000_000_000;

/// Nothing is installed.
fn nothing(_: &str) -> bool {
    false
}

/// Everything is installed.
fn everything(_: &str) -> bool {
    true
}

fn here() -> Workspace<'static> {
    Workspace {
        key: "one window",
        root: "/home/dev/repo",
    }
}

/// A server that has replied to `initialize` so.
fn started(name: &'static str, reply: &str) -> LanguageServer {
    let mut server = LanguageServer::new(name, NOW);
    server
        .initialized(reply, NOW)
        .expect("expected a readable reply");
    server
}

/// A rust server that counts bytes, completes after a dot and formats.
fn rust() -> LanguageServer {
    started(
        "rust",
        r#"{ "capabilities": {
            "positionEncoding": "utf-8",
            "documentFormattingProvider": true,
            "completionProvider": { "triggerCharacters": [".", ":"] }
        } }"#,
    )
}

/// A registry with a rust server in it, and a file open there.
fn registry_with(text: &str) -> LspRegistry {
    let mut registry = LspRegistry::new("/usr/bin".to_string());
    assert!(registry.started("one window", rust()));
    registry
        .server("one window", "rust")
        .expect("expected the server that was started")
        .remember_document("src/main.rs", text);
    registry
}

fn uri(params: &Json) -> Option<&str> {
    params.get("textDocument")?.get("uri")?.as_str()
}

fn character(params: &Json) -> Option<&Json> {
    params.get("position")?.get("character")
}

/// How this case was found: a `rust-analyzer` on PATH that is really a rustup shim for a
/// component nobody added exits the moment it is spoken to. Being on PATH is not the same as
/// running, and a file behind a server like that must not read as forever starting.
#[test]
fn a_server_that_is_installed_and_will_not_start_is_given_up_on() {
    let mut found = Found::default();
    let mut registry = LspRegistry::new(String::new());
    let key = ("one window".to_string(), languages::rust_analyzer().name);
    assert!(!registry.gave_up_on(&key));

    registry.give_up_on(&key);
    assert!(registry.gave_up_on(&key));
    assert_eq!(
        status_without_a_server(languages::for_file("main.rs").as_ref(), false),
        LspStatus::Unavailable,
        "a server that would not start reads the same as one that is not there"
    );

    // And so it reads, for this workspace and no other.
    assert_eq!(
        registry.status("one window", "main.rs", &mut found, &everything, NOW),
        LspStatus::Unavailable
    );
    assert_eq!(
        registry.did_open(&here(), "main.rs", "", &mut found, &everything),
        Opening::Nothing
    );
    assert_eq!(
        registry.status("another window", "main.rs", &mut found, &everything, NOW),
        LspStatus::Starting
    );
}

/// A file goes from having a server to start, through one that is starting, to one that is ready -
/// and stays there while the server goes on checking the project.
#[test]
fn a_file_is_unavailable_then_starting_then_ready_and_stays_ready() {
    let mut found = Found::default();
    let mut registry = LspRegistry::new("/usr/bin".to_string());
    assert_eq!(
        registry.status("one window", "README.md", &mut found, &everything, NOW),
        LspStatus::Unavailable
    );
    assert_eq!(
        registry.status("one window", "main.py", &mut found, &nothing, NOW),
        LspStatus::Unavailable
    );
    assert_eq!(
        registry.status("one window", "main.rs", &mut found, &everything, NOW),
        LspStatus::Starting
    );
    assert!(registry.started("one window", rust()));
    assert_eq!(
        registry.status("one window", "main.rs", &mut found, &everything, NOW),
        LspStatus::Starting
    );
    assert_eq!(
        registry.status("one window", "main.rs", &mut found, &everything, NOW + SETTLING),
        LspStatus::Ready
    );
    let begin = Json::object()
        .with("method", Json::text("$/progress"))
        .with(
            "params",
            Json::object().with("token", Json::text("again")).with(
                "value",
                Json::object()
                    .with("kind", Json::text("begin"))
                    .with("title", Json::text("Indexing")),
            ),
        );
    let server = registry
        .server("one window", "rust")
        .expect("expected a running server");
    assert_eq!(
        server.handle_message(&begin, NOW + SETTLING),
        Incoming::Nothing
    );
    assert_eq!(
        registry.status("one window", "main.rs", &mut found, &everything, NOW + SETTLING),
        LspStatus::Ready
    );
    // Another window's server is another server.
    assert_eq!(
        registry.status("another window", "main.rs", &mut found, &everything, NOW + SETTLING),
        LspStatus::Starting
    );
}

/// Where a server is installed is looked for once.
#[test]
fn where_a_server_is_installed_is_looked_for_once() {
    let mut found = Found::default();
    let looks = std::cell::Cell::new(0);
    let look = |path: &str| {
        looks.set(looks.get() + 1);
        path == "/usr/bin/rust-analyzer"
    };
    let mut registry = LspRegistry::new("/opt/bin:/usr/bin".to_string());
    assert_eq!(
        registry.status("one window", "main.rs", &mut found, &look, NOW),
        LspStatus::Starting
    );
    assert_eq!(looks.get(), 2);
    assert_eq!(
        languages::installed_at(&mut found, "rust-analyzer", "/opt/bin:/usr/bin", &look).as_deref(),
        Some("/usr/bin/rust-analyzer")
    );
    assert_eq!(looks.get(), 2);

    // Once for the process, whichever registry asks: what one found is there for the next, even
    // where it has gone from the disk since.
    let mut another = LspRegistry::new("/opt/bin:/usr/bin".to_string());
    assert_eq!(
        another.status("one window", "main.rs", &mut found, &nothing, NOW),
        LspStatus::Starting
    );
    // Another search path is another question.
    let mut elsewhere = LspRegistry::new("/opt/bin".to_string());
    assert_eq!(
        elsewhere.status("one window", "main.rs", &mut found, &look, NOW),
        LspStatus::Unavailable
    );
    assert_eq!(looks.get(), 3);
}

/// The first server handed in for a workspace is the one that is held.
#[test]
fn the_first_server_started_is_the_one_that_is_held() {
    let mut registry = LspRegistry::new(String::new());
    assert_eq!(registry.agreed_encoding("one window", "rust"), None);
    assert!(registry.started("one window", rust()));
    assert!(!registry.started("one window", started("rust", r#"{ "capabilities": {} }"#)));
    assert_eq!(
        registry.agreed_encoding("one window", "rust"),
        Some(PositionEncoding::Utf8)
    );
    assert!(registry.started("another window", started("rust", r#"{ "capabilities": {} }"#)));
    assert_eq!(
        registry.agreed_encoding("another window", "rust"),
        Some(PositionEncoding::Utf16)
    );
    assert_eq!(
        registry.trigger_characters("one window", "main.rs"),
        ['.', ':']
    );
    assert_eq!(
        registry.trigger_characters("another window", "main.rs"),
        Vec::<char>::new()
    );
}

#[test]
fn a_registry_says_who_it_was_told_it_is() {
    let registry = LspRegistry::new(String::new());
    assert_eq!(registry.client().name, "moon_lsp");
    let registry = registry.identifying_as(ClientIdentity::new("my-editor", "2.0"));
    assert_eq!(registry.client().name, "my-editor");
    assert_eq!(registry.client().version.as_deref(), Some("2.0"));
}

/// Opening a file starts its server, tells it of the file, and tells it of a change the second
/// time; closing it leaves nothing to tell.
#[test]
fn a_file_is_opened_once_and_changed_from_then_on() {
    let mut found = Found::default();
    let mut registry = LspRegistry::new("/usr/bin".to_string());
    assert_eq!(
        registry.did_open(&here(), "src/main.rs", "fn a() {}", &mut found, &everything),
        Opening::Start(languages::rust_analyzer())
    );
    assert!(registry.started("one window", rust()));

    let opened = match registry.did_open(&here(), "src/main.rs", "fn a() {}", &mut found, &everything) {
        Opening::Tell("rust", message) => message,
        other => panic!("expected something to tell, got {other:?}"),
    };
    assert_eq!(
        opened.get("method").and_then(|method| method.as_str()),
        Some("textDocument/didOpen")
    );
    assert_eq!(
        opened.get("params"),
        Some(&protocol::did_open_params(
            "file:///home/dev/repo/src/main.rs",
            "rust",
            "fn a() {}"
        ))
    );
    assert_eq!(
        registry.did_change(&here(), "src/main.rs", "fn b() {}", &mut found, &everything),
        None,
        "nothing has the file open yet"
    );
    registry
        .server("one window", "rust")
        .expect("expected a running server")
        .remember_document("src/main.rs", "fn a() {}");

    let again = match registry.did_open(&here(), "src/main.rs", "fn b() {}", &mut found, &everything) {
        Opening::Tell("rust", message) => message,
        other => panic!("expected something to tell, got {other:?}"),
    };
    assert_eq!(
        again.get("method").and_then(|method| method.as_str()),
        Some("textDocument/didChange")
    );
    let (name, changed) = registry
        .did_change(&here(), "src/main.rs", "fn b() {}", &mut found, &everything)
        .expect("expected something to tell");
    assert_eq!(name, "rust");
    assert_eq!(
        changed.get("params"),
        Some(&protocol::did_change_params(
            "file:///home/dev/repo/src/main.rs",
            "fn b() {}"
        ))
    );
    let (_, saved) = registry
        .did_save(&here(), "src/main.rs", &mut found, &everything)
        .expect("expected something to tell");
    assert_eq!(
        saved.get("method").and_then(|method| method.as_str()),
        Some("textDocument/didSave")
    );
    let (_, closed) = registry
        .did_close(&here(), "src/main.rs", &mut found, &everything)
        .expect("expected something to tell");
    assert_eq!(
        closed.get("method").and_then(|method| method.as_str()),
        Some("textDocument/didClose")
    );
    registry
        .server("one window", "rust")
        .expect("expected a running server")
        .forget_document("src/main.rs");
    assert_eq!(
        registry.did_close(&here(), "src/main.rs", &mut found, &everything),
        None
    );
}

/// A file no server serves is quietly nothing to do.
#[test]
fn a_file_no_server_serves_is_nothing_to_do() {
    let mut found = Found::default();
    let mut registry = LspRegistry::new("/usr/bin".to_string());
    assert_eq!(
        registry.did_open(&here(), "README.md", "", &mut found, &everything),
        Opening::Nothing
    );
    assert_eq!(
        registry.did_open(&here(), "main.rs", "", &mut found, &nothing),
        Opening::Nothing
    );
    assert_eq!(
        registry.definition(
            &here(),
            "README.md",
            LspPosition { line: 0, column: 0 },
            &mut found,
            &everything
        ),
        Ok(None)
    );
    assert_eq!(
        registry.did_save(&here(), "README.md", &mut found, &everything),
        None
    );
}

/// A question about a file nobody opened is refused rather than asked.
#[test]
fn a_file_nobody_opened_is_not_asked_about() {
    let mut found = Found::default();
    let at = LspPosition { line: 0, column: 0 };
    let mut registry = LspRegistry::new("/usr/bin".to_string());
    let refused = registry
        .hover(&here(), "src/main.rs", at, &mut found, &everything)
        .expect_err("expected no server to be running");
    assert_eq!(
        refused,
        LspError::NotRunning {
            server: "rust".to_string()
        }
    );
    assert_eq!(
        refused.to_string(),
        "no rust server is running for this workspace"
    );

    assert!(registry.started("one window", rust()));
    let refused = registry
        .hover(&here(), "src/main.rs", at, &mut found, &everything)
        .expect_err("expected the file not to be open");
    assert_eq!(
        refused,
        LspError::NotOpen {
            file_path: "src/main.rs".to_string(),
            server: "rust".to_string()
        }
    );
    assert_eq!(
        refused.to_string(),
        "src/main.rs is not open in the rust server"
    );
}

/// Every question is about the document the server was told of, at the place in the units that
/// server agreed to.
#[test]
fn a_question_is_asked_in_the_units_the_server_agreed_to() {
    let mut found = Found::default();
    let text = "let é = greet();\n";
    let at = LspPosition { line: 0, column: 9 };

    let mut bytes = registry_with(text);
    let request = bytes
        .definition(&here(), "src/main.rs", at, &mut found, &everything)
        .expect("expected a question")
        .expect("expected a question");
    assert_eq!(request.server, "rust");
    assert_eq!(request.method, "textDocument/definition");
    assert_eq!(
        uri(&request.params),
        Some("file:///home/dev/repo/src/main.rs")
    );
    assert_eq!(character(&request.params), Some(&Json::whole(9)));

    let mut units = LspRegistry::new("/usr/bin".to_string());
    assert!(units.started("one window", started("rust", r#"{ "capabilities": {} }"#)));
    units
        .server("one window", "rust")
        .expect("expected a running server")
        .remember_document("src/main.rs", text);
    let request = units
        .definition(&here(), "src/main.rs", at, &mut found, &everything)
        .expect("expected a question")
        .expect("expected a question");
    assert_eq!(character(&request.params), Some(&Json::whole(8)));

    assert_eq!(
        units.definition(
            &here(),
            "src/main.rs",
            LspPosition { line: 5, column: 0 },
            &mut found,
            &everything
        ),
        Err(LspError::LinePastFile { line: 5 })
    );
}

/// Each question goes out under its own method.
#[test]
fn each_question_is_its_own_request() {
    let mut found = Found::default();
    let at = LspPosition { line: 0, column: 1 };
    let mut registry = registry_with("greet();\n");
    let request = registry
        .places(
            &here(),
            "src/main.rs",
            at,
            LspPlaces::References,
            &mut found,
            &everything,
        )
        .expect("expected a question")
        .expect("expected a question");
    assert_eq!(request.method, "textDocument/references");
    assert!(request.params.get("context").is_some());
    let request = registry
        .hover(&here(), "src/main.rs", at, &mut found, &everything)
        .expect("expected a question")
        .expect("expected a question");
    assert_eq!(request.method, "textDocument/hover");
    let request = registry
        .signature_help(&here(), "src/main.rs", at, &mut found, &everything)
        .expect("expected a question")
        .expect("expected a question");
    assert_eq!(request.method, "textDocument/signatureHelp");
    let request = registry
        .prepare_rename(&here(), "src/main.rs", at, &mut found, &everything)
        .expect("expected a question")
        .expect("expected a question");
    assert_eq!(request.method, "textDocument/prepareRename");
    let request = registry
        .rename(&here(), "src/main.rs", at, "tea", &mut found, &everything)
        .expect("expected a question")
        .expect("expected a question");
    assert_eq!(request.method, "textDocument/rename");
    assert_eq!(
        request
            .params
            .get("newName")
            .and_then(|name| name.as_str()),
        Some("tea")
    );
    let question = registry
        .ask(&here(), "src/main.rs", &at, &mut found, &everything)
        .expect("expected a question")
        .expect("expected a question");
    assert_eq!(question.character, 1);
    assert_eq!(question.uri, "file:///home/dev/repo/src/main.rs");
}

/// A completion says which trigger it is asked behind, where it is behind one of the server's.
#[test]
fn a_completion_behind_a_trigger_says_so() {
    let mut found = Found::default();
    let mut registry = registry_with("thing.\nthing(\n");
    let mut asked = |line: usize, column: usize| {
        let request = registry
            .completion(
                &here(),
                "src/main.rs",
                LspPosition { line, column },
                &mut found,
                &everything,
            )
            .expect("expected a question")
            .expect("expected a question");
        assert_eq!(request.method, "textDocument/completion");
        request
            .params
            .get("context")
            .expect("expected a context")
            .copy()
    };
    assert_eq!(
        asked(0, 6),
        Json::object()
            .with("triggerKind", Json::whole(2))
            .with("triggerCharacter", Json::text("."))
    );
    let typing = Json::object().with("triggerKind", Json::whole(1));
    assert_eq!(asked(0, 5), typing);
    assert_eq!(asked(1, 6), typing, "the server named no parenthesis");
}

/// A file is formatted by a server that said it formats, and refused by one that did not.
#[test]
fn only_a_server_that_says_it_formats_is_asked_to() {
    let mut found = Found::default();
    let options = LspFormatting {
        tab_size: 2,
        insert_spaces: false,
    };
    let mut registry = registry_with("fn a(){}\n");
    let request = registry
        .format(&here(), "src/main.rs", options, &mut found, &everything)
        .expect("expected a question")
        .expect("expected a question");
    assert_eq!(request.method, "textDocument/formatting");
    assert_eq!(
        request.params,
        protocol::formatting_params("file:///home/dev/repo/src/main.rs", options)
    );

    let mut registry = LspRegistry::new("/usr/bin".to_string());
    assert!(registry.started("one window", started("rust", r#"{ "capabilities": {} }"#)));
    registry
        .server("one window", "rust")
        .expect("expected a running server")
        .remember_document("src/main.rs", "");
    let refused = registry
        .format(&here(), "src/main.rs", options, &mut found, &everything)
        .expect_err("expected a server that does not format to be refused");
    assert_eq!(
        refused,
        LspError::DoesNotFormat {
            server: "rust".to_string()
        }
    );
    assert_eq!(refused.to_string(), "the rust server never said it formats");
}

/// What a server publishes is kept as it arrives, read in the editor's bytes when it is asked for,
/// and sent back with the question of what could be done about it.
#[test]
fn what_a_server_published_is_kept_and_asked_about() {
    let mut found = Found::default();
    let mut registry = registry_with("let é = x;\n");
    assert_eq!(registry.diagnostics(&here(), "src/main.rs"), vec![]);
    let (path, published) = protocol::published_diagnostics(
        r#"{ "params": { "uri": "file:///home/dev/repo/src/main.rs", "diagnostics": [
            { "range": { "start": { "line": 0, "character": 9 }, "end": { "line": 0, "character": 10 } },
              "severity": 1, "message": "cannot find `x`" }
        ] } }"#,
    )
    .expect("expected a readable notification");
    registry
        .server("one window", "rust")
        .expect("expected a running server")
        .publish(&path, published);

    let diagnostics = registry.diagnostics(&here(), "src/main.rs");
    assert_eq!(diagnostics.len(), 1);
    assert_eq!(diagnostics[0].start, LspPosition { line: 0, column: 9 });
    assert_eq!(diagnostics[0].severity, LspSeverity::Error);
    assert_eq!(registry.diagnostics(&here(), "src/other.rs"), vec![]);
    // A document is the same one however its path is written.
    let elsewhere = Workspace {
        key: "one window",
        root: "/home//dev/./repo/",
    };
    assert_eq!(registry.diagnostics(&elsewhere, "src/main.rs").len(), 1);
    let server = registry
        .server("one window", "rust")
        .expect("expected a running server");
    let before = server.published("/home/dev/repo/src/main.rs");
    server.publish("/home/dev/repo/src/./main.rs", vec![]);
    assert_eq!(server.published("/home/dev/repo/src/main.rs"), vec![]);
    server.publish("/home/dev/repo/src//main.rs", before);
    assert_eq!(server.published("/home/dev/repo/src/main.rs").len(), 1);

    let mut carried = |column: usize| {
        let request = registry
            .code_actions(
                &here(),
                "src/main.rs",
                LspPosition { line: 0, column },
                &mut found,
                &everything,
            )
            .expect("expected a question")
            .expect("expected a question");
        assert_eq!(request.method, "textDocument/codeAction");
        match request.params.get("context").and_then(|it| it.get("diagnostics")) {
            Some(Json::List(diagnostics)) => diagnostics.len(),
            _ => panic!("expected a list of diagnostics"),
        }
    };
    assert_eq!(carried(9), 1);
    assert_eq!(carried(0), 0);
}

/// What every server of a workspace is doing, in the order of their names.
#[test]
fn what_servers_are_doing_is_told_in_the_order_of_their_names() {
    let begin = |title: &str| {
        Json::object()
            .with("method", Json::text("$/progress"))
            .with(
                "params",
                Json::object().with("token", Json::text("t")).with(
                    "value",
                    Json::object()
                        .with("kind", Json::text("begin"))
                        .with("title", Json::text(title)),
                ),
            )
    };
    let mut registry = LspRegistry::new(String::new());
    for name in ["typescript", "rust", "python"] {
        assert!(registry.started("one window", started(name, r#"{ "capabilities": {} }"#)));
    }
    assert!(registry.started("another window", rust()));
    assert_eq!(registry.working("one window"), vec![]);
    for (name, title) in [("typescript", "Loading"), ("rust", "Indexing")] {
        registry
            .server("one window", name)
            .expect("expected a running server")
            .handle_message(&begin(title), NOW);
    }
    let doing = |server: &str, title: &str| LspWork {
        server: server.to_string(),
        title: title.to_string(),
        detail: None,
        percentage: None,
    };
    assert_eq!(
        registry.working("one window"),
        vec![doing("rust", "Indexing"), doing("typescript", "Loading")]
    );
    assert_eq!(registry.working("another window"), vec![]);
}

// -------------------------------------------------------------------------------------------------
// One server
// -------------------------------------------------------------------------------------------------

fn reply(id: i128, member: &str, value: Json) -> Json {
    Json::object()
        .with("jsonrpc", Json::text("2.0"))
        .with("id", Json::whole(id))
        .with(member, value)
}

/// A question goes out under its own id, and the answer under that id is handed to it once.
#[test]
fn a_question_and_its_answer_meet_once() {
    let mut server = rust();
    let (first, message) = server.ask("shutdown", Json::Null);
    assert_eq!(
        message,
        Json::object()
            .with("jsonrpc", Json::text("2.0"))
            .with("id", Json::whole(first as i128))
            .with("method", Json::text("shutdown"))
            .with("params", Json::Null)
    );
    let (second, _) = server.ask("shutdown", Json::Null);
    assert_ne!(first, second);

    let answer = reply(second as i128, "result", Json::Bool(true));
    assert_eq!(
        server.handle_message(&answer, NOW),
        Incoming::Answered {
            id: second,
            answer: Ok(Json::Bool(true))
        }
    );
    assert_eq!(server.handle_message(&answer, NOW), Incoming::Nothing);

    let refused = reply(
        first as i128,
        "error",
        Json::object().with("code", Json::whole(-32601)),
    );
    assert_eq!(
        server.handle_message(&refused, NOW),
        Incoming::Answered {
            id: first,
            answer: Err(Json::object().with("code", Json::whole(-32601)))
        }
    );
}

/// A server's own request is always replied to, under the id it was asked with.
#[test]
fn a_request_of_the_server_is_replied_to() {
    let mut server = rust();
    let asked = Json::object()
        .with("jsonrpc", Json::text("2.0"))
        .with("id", Json::text("seven"))
        .with("method", Json::text("client/registerCapability"));
    assert_eq!(
        server.handle_message(&asked, NOW),
        Incoming::Reply(
            Json::object()
                .with("jsonrpc", Json::text("2.0"))
                .with("id", Json::text("seven"))
                .with("result", Json::Null)
        )
    );
    assert_eq!(server.handle_message(&Json::Null, NOW), Incoming::Nothing);
}

/// What a question came to is told in a sentence, and a question that was never answered waits no
/// longer.
#[test]
fn what_a_question_came_to_is_told_to_whoever_asked() {
    let mut server = rust();
    let (id, _) = server.ask("textDocument/hover", Json::Null);
    assert_eq!(
        server.settle(
            id,
            "textDocument/hover",
            Outcome::Answered(Json::Null),
            REQUEST_TIMEOUT
        ),
        Ok(Json::Null)
    );
    let (id, _) = server.ask("textDocument/hover", Json::Null);
    let silent = server
        .settle(id, "textDocument/hover", Outcome::NoAnswer, REQUEST_TIMEOUT)
        .expect_err("expected no answer to be an error");
    assert_eq!(
        silent.said,
        "rust did not answer textDocument/hover within 10 seconds"
    );
    assert_eq!(
        server.handle_message(&reply(id as i128, "result", Json::Null), NOW),
        Incoming::Nothing,
        "nobody waits for it any more"
    );
    let (id, _) = server.ask("textDocument/hover", Json::Null);
    let refused = server
        .settle(
            id,
            "textDocument/hover",
            Outcome::Refused(Refusal {
                said: "{}".to_string(),
                code: Some(-32601),
            }),
            REQUEST_TIMEOUT,
        )
        .expect_err("expected a refusal");
    assert_eq!(refused.said, "rust refused textDocument/hover: {}");
    assert_eq!(refused.code, Some(-32601));
    let (id, _) = server.ask("textDocument/hover", Json::Null);
    let unsent = server
        .settle(
            id,
            "textDocument/hover",
            Outcome::NotSent("the pipe is gone".to_string()),
            REQUEST_TIMEOUT,
        )
        .expect_err("expected the question not to have been sent");
    assert_eq!(unsent.said, "the pipe is gone");
    let (id, _) = server.ask("textDocument/hover", Json::Null);
    assert_eq!(server.exited().said, "the language server exited");
    assert_eq!(
        server.handle_message(&reply(id as i128, "result", Json::Null), NOW),
        Incoming::Nothing
    );
}

/// A request the document moved under is asked once more, and once only.
#[test]
fn a_request_is_asked_again_once() {
    let moved = || {
        Err(Refusal {
            said: "moved".to_string(),
            code: Some(CONTENT_MODIFIED),
        })
    };
    assert_eq!(LanguageServer::request(moved(), false), Asked::AskAgain);
    assert_eq!(
        LanguageServer::request(moved(), true),
        Asked::Done(Err(LspError::Told {
            said: "moved".to_string()
        }))
    );
    assert_eq!(
        LanguageServer::request(Ok(Json::Null), false),
        Asked::Done(Ok(Json::Null))
    );
    assert_eq!(
        LspError::Told {
            said: "moved".to_string()
        }
        .to_string(),
        "moved"
    );
    assert_eq!(
        LspError::NotInstalled {
            command: "pyright".to_string()
        }
        .to_string(),
        "pyright is not installed"
    );
}

/// What a server agreed to is what its reply says, a reply in no shape of the protocol agrees to
/// nothing, and starting is counted from the reply.
#[test]
fn what_a_server_agreed_to_is_read_off_its_reply() {
    let mut server = LanguageServer::new("rust", 0);
    assert!(!server.has_agreed());
    assert!(server.initialized("7", NOW).is_err());
    assert!(!server.has_agreed());
    assert_eq!(
        server.initialized(r#"{ "capabilities": { "positionEncoding": "utf-8" } }"#, NOW),
        Ok(Json::object()
            .with("jsonrpc", Json::text("2.0"))
            .with("method", Json::text("initialized"))
            .with("params", Json::object()))
    );
    assert!(server.has_agreed());
    assert_eq!(server.encoding(), PositionEncoding::Utf8);
    assert!(!server.formats());
    assert!(!server.is_ready(NOW));
    assert!(server.is_ready(NOW + STARTING_CEILING));
}

/// The edits of an answer are counted against the copy the server was sent, and against the file on
/// disk where it was sent none.
#[test]
fn edits_are_counted_against_what_the_server_was_sent() {
    let on_disk = |path: &str| -> Result<String, LspError> { Ok(format!("{path} on disk")) };
    let mut server = rust();
    assert_eq!(
        server.text_of("a.rs", &on_disk),
        Ok("a.rs on disk".to_string())
    );
    server.remember_document("a.rs", "a.rs as told");
    assert_eq!(
        server.text_of("a.rs", &on_disk),
        Ok("a.rs as told".to_string())
    );
    assert_eq!(server.document_text("a.rs").as_deref(), Some("a.rs as told"));
    assert!(server.has_document("a.rs"));
    server.forget_document("a.rs");
    assert!(!server.has_document("a.rs"));
}

/// A server is started with where its command is, and asked first who it is.
#[test]
fn a_server_is_started_where_it_is_installed_or_not_at_all() {
    let spec = languages::typescript();
    let client = ClientIdentity::default();
    let starting = LanguageServer::start(
        &spec,
        Some("/usr/bin/typescript-language-server".to_string()),
        "/home/dev/repo",
        &client,
        7,
        NOW,
    )
    .expect("expected an installed server to be started");
    assert_eq!(starting.program, "/usr/bin/typescript-language-server");
    assert_eq!(
        starting.message,
        Json::object()
            .with("jsonrpc", Json::text("2.0"))
            .with("id", Json::whole(starting.id as i128))
            .with("method", Json::text("initialize"))
            .with(
                "params",
                protocol::initialize_params("/home/dev/repo", &client, 7)
            )
    );
    let mut server = starting.server;
    assert_eq!(
        server.handle_message(&reply(starting.id as i128, "result", Json::object()), NOW),
        Incoming::Answered {
            id: starting.id,
            answer: Ok(Json::object())
        }
    );

    let refused = LanguageServer::start(&spec, None, "/home/dev/repo", &client, 7, NOW).err();
    assert_eq!(
        refused,
        Some(LspError::NotInstalled {
            command: "typescript-language-server".to_string()
        })
    );
}

#[test]
fn only_a_notification_of_that_name_publishes_anything() {
    let said = |method: &str| Json::object().with("method", Json::text(method));
    assert!(LanguageServer::publishes(&said("textDocument/publishDiagnostics")));
    assert!(!LanguageServer::publishes(&said("window/logMessage")));
    assert!(!LanguageServer::publishes(
        &said("textDocument/publishDiagnostics").with("id", Json::whole(1))
    ));
}
