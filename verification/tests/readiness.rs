//! Whether a server has finished starting, and what it says it is doing meanwhile.

use moon_lsp::json::Json;
use moon_lsp::process::{
    follow_progress, is_background_work, refusal_from, Readiness, Working, SETTLING,
    STARTING_CEILING,
};
use moon_lsp::protocol;

/// Whenever these tests take place: long enough after the clock began for it to be turned back.
const NOW: u64 = 1_000_000_000_000;

/// One second, as the clock counts.
const SECOND: u64 = 1_000_000_000;

/// An object of texts.
fn texts(members: &[(&str, &str)]) -> Json {
    let mut object = Json::object();
    for (name, text) in members {
        object = object.with(name, Json::text(text));
    }
    object
}

/// One `$/progress` notification, as a server puts it on the wire.
fn progress(token: &str, value: Json) -> Json {
    Json::object()
        .with("jsonrpc", Json::text("2.0"))
        .with("method", Json::text("$/progress"))
        .with(
            "params",
            Json::object()
                .with("token", Json::text(token))
                .with("value", value),
        )
}

/// The reported bug, in the notifications rust-analyzer really sends on a large workspace:
/// it primes its cache, starts checking the project with `cargo check` before that has
/// finished, and then goes on checking - on every edit, for as long as the workspace is open.
#[test]
fn a_server_that_keeps_checking_the_project_after_it_has_started_becomes_and_stays_ready() {
    let mut readiness = Readiness::new(NOW);

    readiness.follow(
        &progress(
            "rustAnalyzer/cachePriming",
            texts(&[("kind", "begin"), ("title", "Indexing")]),
        ),
        NOW,
    );
    readiness.follow(
        &progress(
            "rust-analyzer/flycheck/0",
            texts(&[("kind", "begin"), ("title", "cargo check")]),
        ),
        NOW,
    );
    readiness.rewind(SETTLING);
    assert!(
        !readiness.is_ready(NOW),
        "the cache is still being primed, which is the server starting up"
    );

    readiness.follow(
        &progress("rustAnalyzer/cachePriming", texts(&[("kind", "end")])),
        NOW,
    );
    readiness.rewind(SETTLING);
    assert!(
        readiness.is_ready(NOW),
        "starting up has finished, and a check running in the background is not starting up"
    );

    // And now the checking goes on, the way it does while a person edits: a run every few
    // seconds, each one reporting as it goes.
    for run in 0..5 {
        let token = format!("rust-analyzer/flycheck/{run}");
        readiness.follow(
            &progress(&token, texts(&[("kind", "begin"), ("title", "cargo check")])),
            NOW,
        );
        readiness.follow(
            &progress(
                &token,
                texts(&[("kind", "report"), ("message", "checking moon_lsp")]),
            ),
            NOW,
        );
        readiness.follow(&progress(&token, texts(&[("kind", "end")])), NOW);
        assert!(
            readiness.is_ready(NOW),
            "run {run} of a background check must not put a started server back to starting"
        );
    }
}

/// The other way round, and the bug the quiet was added for: rust-analyzer announces the
/// pieces of starting up one after another - fetch, scan the roots, load the proc-macros,
/// prime the cache - and the outstanding work passes through empty in the gaps between them.
///
/// A request let through in one of those gaps comes back `content modified` or empty, which
/// reads as "no definition found" for a symbol that has one.
#[test]
fn a_server_announcing_its_startup_work_in_a_row_is_not_ready_in_the_gap_between_two_pieces() {
    let mut readiness = Readiness::new(NOW);
    let pieces = [
        ("rustAnalyzer/Fetching", "Fetching"),
        ("rustAnalyzer/Building CrateGraph", "Building CrateGraph"),
        ("rustAnalyzer/Roots Scanned", "Roots Scanned"),
        ("rustAnalyzer/cachePriming", "Indexing"),
    ];

    for (token, title) in pieces {
        readiness.follow(
            &progress(token, texts(&[("kind", "begin"), ("title", title)])),
            NOW,
        );
        assert!(!readiness.is_ready(NOW), "{title} has not finished");
        readiness.follow(&progress(token, texts(&[("kind", "end")])), NOW);
        assert!(
            !readiness.is_ready(NOW),
            "nothing is outstanding after {title}, but the next piece of starting up is a \
             moment away and a request sent now lands mid-startup"
        );
    }

    readiness.rewind(SETTLING);
    assert!(
        readiness.is_ready(NOW),
        "the quiet after the last piece is what says starting up is over"
    );
}

/// Nothing the server says afterwards can take a pane that was answering questions and stop
/// it: readiness latches. A server that begins a piece of work this client cannot place - a
/// server not among the background work it knows, or one whose own re-indexing looks like
/// starting up - is a server that has already started.
#[test]
fn work_a_server_begins_after_it_has_started_never_puts_it_back_to_starting() {
    let mut readiness = Readiness::new(NOW);
    readiness.rewind(SETTLING);
    assert!(
        readiness.is_ready(NOW),
        "a server that announced nothing at all"
    );

    readiness.follow(
        &progress(
            "some/unfamiliar/work",
            texts(&[("kind", "begin"), ("title", "Re-indexing")]),
        ),
        NOW,
    );
    readiness.follow(
        &progress(
            "some/unfamiliar/work",
            texts(&[("kind", "report"), ("message", "half way")]),
        ),
        NOW,
    );

    assert!(
        readiness.is_ready(NOW),
        "a started server that picked up more work is still a started server"
    );
}

/// Whatever else is true, a misread of readiness has to cost a request that comes back empty
/// rather than a session that never asks. A server whose starting-up work never ends is let
/// through once the ceiling has passed.
#[test]
fn a_server_whose_startup_work_never_ends_is_let_through_once_the_ceiling_has_passed() {
    let mut readiness = Readiness::new(NOW);
    readiness.follow(
        &progress(
            "rustAnalyzer/Roots Scanned",
            texts(&[("kind", "begin"), ("title", "Roots Scanned")]),
        ),
        NOW,
    );

    readiness.rewind(STARTING_CEILING - SECOND);
    assert!(
        !readiness.is_ready(NOW),
        "the scan is still outstanding and there is still time for it"
    );

    readiness.rewind(2 * SECOND);
    assert!(
        readiness.is_ready(NOW),
        "past the ceiling the question is asked anyway rather than waited on forever"
    );
}

/// The quiet is exactly as long as it is: a moment less is not enough.
#[test]
fn a_server_is_ready_when_the_quiet_is_over_and_not_a_moment_sooner() {
    let mut readiness = Readiness::new(NOW);
    assert!(!readiness.is_ready(NOW + SETTLING - 1));
    assert!(readiness.is_ready(NOW + SETTLING));
    // And it is then ready at any time, the past included.
    assert!(readiness.is_ready(0));
}

/// A report of starting up restarts the quiet; one of background work does not.
#[test]
fn only_a_report_of_starting_up_restarts_the_quiet() {
    let report = texts(&[("kind", "report")]);
    let mut readiness = Readiness::new(NOW);
    readiness.follow(&progress("loading", report.copy()), NOW + SECOND);
    assert!(!readiness.is_ready(NOW + SETTLING));
    assert!(readiness.is_ready(NOW + SETTLING + SECOND));

    let mut readiness = Readiness::new(NOW);
    readiness.follow(
        &progress("checks", texts(&[("kind", "begin"), ("title", "Cargo Check")])),
        NOW,
    );
    readiness.follow(&progress("checks", report), NOW + SECOND);
    assert!(readiness.is_ready(NOW + SETTLING));
}

/// Over a whole start: two pieces of work begun and ended, one in the background that never ends,
/// an end of something never begun, and time that is moved along, none of it making the server ready
/// before its work is done and it has been quiet.
#[test]
fn a_server_is_ready_once_its_work_is_done_and_it_has_been_quiet_and_not_before() {
    let said = |kind: &str| texts(&[("kind", kind), ("title", "Indexing")]);
    let mut readiness = Readiness::new(NOW);
    readiness.follow(&progress("fetch", said("begin")), NOW);
    readiness.follow(&progress("rust-analyzer/flycheck/0", said("begin")), NOW);
    readiness.follow(&progress("prime", said("begin")), NOW + SECOND);
    readiness.follow(&progress("fetch", said("end")), NOW + 2 * SECOND);
    readiness.rewind(SETTLING);
    // One piece of work has ended, and the other has not.
    assert!(!readiness.is_ready(NOW + 2 * SECOND));
    readiness.follow(&progress("prime", said("end")), NOW + 3 * SECOND);
    assert!(!readiness.is_ready(NOW + 4 * SECOND));
    // The end of something never begun is not of background work, and restarts the quiet.
    readiness.follow(&progress("other", said("end")), NOW + 4 * SECOND);
    assert!(!readiness.is_ready(NOW + 3 * SECOND + SETTLING));
    // A report of background work is, and does not.
    readiness.follow(
        &progress("rust-analyzer/flycheck/0", said("report")),
        NOW + 5 * SECOND,
    );
    readiness.rewind(SECOND);
    assert!(!readiness.is_ready(NOW + 4 * SECOND + SETTLING - SECOND - 1));
    assert!(readiness.is_ready(NOW + 4 * SECOND + SETTLING - SECOND));
    // And from then on, whatever is begun.
    readiness.follow(&progress("again", said("begin")), NOW + 6 * SECOND);
    assert!(readiness.is_ready(NOW + 6 * SECOND));
}

/// A notification that names no work is left out of the reckoning.
#[test]
fn a_notification_with_no_token_says_nothing_about_starting_up() {
    let mut readiness = Readiness::new(NOW);
    readiness.follow(
        &Json::object().with(
            "params",
            Json::object().with("value", texts(&[("kind", "begin"), ("title", "Indexing")])),
        ),
        NOW + SECOND,
    );
    assert!(readiness.is_ready(NOW + SETTLING));
}

/// Background work is told by its token or by its title, whatever the case of either.
#[test]
fn background_work_is_told_by_its_token_or_its_title() {
    assert!(is_background_work("rust-analyzer/flycheck/3", None));
    assert!(is_background_work("7", Some("CARGO CHECK (moon_lsp)")));
    assert!(!is_background_work("7", Some("cargo metadata")));
    assert!(!is_background_work("rustAnalyzer/cachePriming", None));
}

/// `content modified` is the one refusal worth asking twice about: the protocol defines it as
/// the document having changed under the request, so the question was never answered. Every
/// other refusal is the server's answer.
#[test]
fn a_request_the_document_moved_under_is_worth_asking_again_and_no_other_refusal_is() {
    assert!(
        refusal_from(r#"{"code":-32801,"message":"content modified"}"#).worth_asking_again()
    );
    assert!(
        !refusal_from(r#"{"code":-32601,"message":"method not found"}"#).worth_asking_again(),
        "a method the server does not have will not appear on a second ask"
    );
    assert!(
        !refusal_from(r#"{"message":"no code at all"}"#).worth_asking_again(),
        "a refusal with no code is nothing this client can act on"
    );
}

/// What a refusal says is the error it came as, and its code is the whole number in it.
#[test]
fn a_refusal_says_the_error_it_came_as_with_the_code_in_it() {
    let refusal = refusal_from(r#"{"code":-32601,"message":"no"}"#);
    assert_eq!(refusal.said, r#"{"code":-32601,"message":"no"}"#);
    assert_eq!(refusal.code, Some(-32601));
    assert_eq!(refusal_from(r#"{"code":"-32801"}"#).code, None);
    assert_eq!(refusal_from(r#"{"code":-32801.5}"#).code, None);
    assert_eq!(refusal_from(r#"{"code":9223372036854775808}"#).code, None);
    assert_eq!(refusal_from("[-32801]").code, None);
}

/// A `$/progress` as rust-analyzer really sends one: the token names the work, and what is
/// worth reading is inside `value`.
#[test]
fn a_progress_notification_says_what_the_server_is_doing_and_how_far_through_it_is() {
    let note = protocol::progress_note(&progress(
        "rustAnalyzer/Indexing",
        texts(&[("kind", "report"), ("message", "12/57 (serde)")])
            .with("percentage", Json::whole(21)),
    ));

    assert_eq!(note.title, None, "only a begin carries a title");
    assert_eq!(note.message.as_deref(), Some("12/57 (serde)"));
    assert_eq!(note.percentage, Some(21));
}

/// The ordinary case, and the one the status bar has to read well: a server that says what
/// it is doing and nothing at all about how long it will take.
#[test]
fn a_piece_of_work_that_reports_no_percentage_still_says_what_it_is_doing() {
    let note = protocol::progress_note(&progress(
        "rustAnalyzer/Fetching",
        texts(&[("kind", "begin"), ("title", "Fetching")]).with("cancellable", Json::Bool(true)),
    ));

    assert_eq!(note.title.as_deref(), Some("Fetching"));
    assert_eq!(note.message, None);
    assert_eq!(note.percentage, None, "nothing said is not nought per cent");
}

/// The title only ever comes with the `begin`, so the reports that follow have to be read
/// against the work already in hand rather than on their own.
#[test]
fn a_report_keeps_the_title_its_begin_gave_it_and_an_end_leaves_the_server_doing_nothing() {
    let mut working: Option<Working> = None;

    let begun = progress(
        "t",
        texts(&[("kind", "begin"), ("title", "Indexing")]).with("percentage", Json::whole(0)),
    );
    follow_progress(
        &mut working,
        protocol::progress_kind(&begun),
        protocol::progress_note(&begun),
    );
    assert_eq!(
        working,
        Some(Working {
            title: "Indexing".to_string(),
            detail: None,
            percentage: Some(0),
        })
    );

    let reported = progress(
        "t",
        texts(&[("kind", "report"), ("message", "12/57")]).with("percentage", Json::whole(21)),
    );
    follow_progress(
        &mut working,
        protocol::progress_kind(&reported),
        protocol::progress_note(&reported),
    );
    assert_eq!(
        working,
        Some(Working {
            title: "Indexing".to_string(),
            detail: Some("12/57".to_string()),
            percentage: Some(21),
        })
    );

    let ended = progress("t", texts(&[("kind", "end"), ("message", "57/57")]));
    follow_progress(
        &mut working,
        protocol::progress_kind(&ended),
        protocol::progress_note(&ended),
    );
    assert_eq!(working, None, "work that has ended is not work");
}

/// A report with no begin behind it is a piece of work this client never saw start, and
/// making a nameless line out of it would be the window inventing what a server is doing.
#[test]
fn a_report_with_no_work_behind_it_is_left_alone() {
    let reported = progress("t", texts(&[("kind", "report"), ("message", "12/57")]));
    let mut working: Option<Working> = None;

    follow_progress(
        &mut working,
        protocol::progress_kind(&reported),
        protocol::progress_note(&reported),
    );

    assert_eq!(working, None);
}

/// A report that says nothing new leaves what was said before it, and a begin with no title is
/// still work.
#[test]
fn a_report_takes_only_what_it_carries() {
    let mut working = Some(Working {
        title: "Indexing".to_string(),
        detail: Some("1/2".to_string()),
        percentage: Some(50),
    });
    let silent = progress("t", texts(&[("kind", "report")]));
    follow_progress(
        &mut working,
        protocol::progress_kind(&silent),
        protocol::progress_note(&silent),
    );
    assert_eq!(
        working,
        Some(Working {
            title: "Indexing".to_string(),
            detail: Some("1/2".to_string()),
            percentage: Some(50),
        })
    );

    let nameless = progress("t", texts(&[("kind", "begin")]));
    follow_progress(
        &mut working,
        protocol::progress_kind(&nameless),
        protocol::progress_note(&nameless),
    );
    assert_eq!(
        working,
        Some(Working {
            title: "working".to_string(),
            detail: None,
            percentage: None,
        })
    );
}

/// A token may be a number as well as a text, and a percentage is held to what one can be.
#[test]
fn what_a_notification_carries_is_read_in_the_shapes_it_may_come_in() {
    let numbered = Json::object().with("params", Json::object().with("token", Json::whole(7)));
    assert_eq!(protocol::progress_token(&numbered).as_deref(), Some("7"));
    assert_eq!(protocol::progress_token(&Json::Null), None);
    assert_eq!(protocol::progress_kind(&numbered), None);

    let beyond = progress("t", Json::object().with("percentage", Json::whole(250)));
    assert_eq!(protocol::progress_note(&beyond).percentage, Some(100));
    let below = progress("t", Json::object().with("percentage", Json::whole(-5)));
    assert_eq!(protocol::progress_note(&below).percentage, Some(0));
}

#[test]
fn a_server_asking_for_its_configuration_is_answered_one_entry_per_item() {
    let asked = Json::object()
        .with("id", Json::whole(3))
        .with("method", Json::text("workspace/configuration"))
        .with(
            "params",
            Json::object().with(
                "items",
                Json::list()
                    .and(texts(&[("section", "typescript")]))
                    .and(texts(&[("section", "javascript")])),
            ),
        );
    let reply = protocol::reply_to_server_request("workspace/configuration", &asked);
    assert_eq!(
        reply,
        Json::List(vec![Json::Null, Json::Null]),
        "a server handed the wrong number of settings stops asking"
    );
    assert_eq!(
        protocol::reply_to_server_request("client/registerCapability", &asked),
        Json::Null
    );
}
