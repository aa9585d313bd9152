//! One language server, and the JSON-RPC that goes over its stdio.
//!
//! What is here is what a client knows of a server and decides about it: which requests are
//! waiting, whether it has finished starting, what it is doing, what is open in it, and what is
//! made of each message it sends. The pipes and the threads belong to whoever runs the process;
//! they hand in what arrived and the time it arrived at, and send on what they are handed back.

use std::collections::HashSet;

use vstd::hash_map::StringHashMap;
use vstd::hash_set::StringHashSet;
use vstd::prelude::*;
use vstd::string::*;

use crate::error::{Answer, Fault, LspError};
use crate::json;
use crate::json::{Json, JsonModel};
use crate::languages::ServerSpec;
use crate::paths;
use crate::protocol::answers;
use crate::protocol::params;
use crate::protocol::params::ClientIdentity;
use crate::protocol::progress;
use crate::protocol::progress::{NoteModel, ProgressNote};
use crate::protocol::wire;
use crate::protocol::wire::{Diagnostic, DiagnosticModel};
use crate::text;

verus! {

broadcast use vstd::string::group_string_axioms;

/// How long a request waits for its answer, in seconds. A server that has stopped answering must
/// not take the thread that asked with it: the window's worker threads are few, and a stuck one
/// is a pane that never draws again.
pub const REQUEST_TIMEOUT: u64 = 10;

/// Starting up is allowed longer, in seconds: a server reads the project's manifest before it
/// replies, and on a cold cache that is not instant.
pub const INITIALIZE_TIMEOUT: u64 = 60;

/// How long `shutdown` is given before the process is killed anyway, in milliseconds. Being polite
/// is worth a moment; waiting on it is not.
pub const SHUTDOWN_GRACE: u64 = 300;

/// How long a server has to stay quiet about starting up before it is taken to have
/// finished, in nanoseconds - see [`Readiness`].
pub const SETTLING: u64 = 2_000_000_000;

/// How long a server is allowed to be starting before readiness stops saying so, however
/// little it has finished, in nanoseconds.
///
/// Being wrong about readiness has to degrade into "ask anyway and see", never into a pane
/// that says "try again in a moment" for the rest of the session. Five minutes is longer
/// than a cold rust-analyzer takes on a large workspace - measured at just under three on
/// this one - so a server that has passed it is a server whose progress this client has
/// misread, and the honest thing left is to let the question through.
pub const STARTING_CEILING: u64 = 300_000_000_000;

/// How long a request that came back `content modified` waits before it is asked again, in
/// milliseconds - see [`CONTENT_MODIFIED`].
pub const RETRY_PAUSE: u64 = 250;

/// What a server answers when the document moved under a request: JSON-RPC's
/// `ContentModified`.
///
/// The protocol says this one is transient by definition - the question was about a document
/// that has since changed, so the same question asked again is a different question and may
/// well have an answer. It is retried once rather than shown, which is what makes readiness
/// a hint rather than a gate.
pub const CONTENT_MODIFIED: i64 = -32801;

/// How much is read off a server's stdout at once, in bytes.
pub const READ_CHUNK: usize = 16 * 1024;

/// Which units the server counts a column in - see [`crate::protocol::lsp_character`].
#[derive(Clone, Copy, PartialEq, Eq, Debug, Structural)]
pub enum PositionEncoding {
    /// Bytes, which is what the editor already has: nothing to convert.
    Utf8,
    /// UTF-16 code units, the protocol's default and the only one a server must support.
    Utf16,
}

// ---------------------------------------------------------------------------------------------
// Readiness
// ---------------------------------------------------------------------------------------------

/// Whether the server has finished starting, told from its progress notifications.
///
/// This is the honest answer and the initialize reply is not: rust-analyzer answers
/// `initialize` in milliseconds and then reads, loads and indexes the project for minutes,
/// and a request in between comes back empty or refused - which reads in a pane as "no
/// definition found" rather than as "not yet".
///
/// The rule is in three parts, and each part is there for a failure that was actually seen:
///
/// - **Starting up is not the same as working.** Only work this client takes to be part of
///   starting up counts, by its token - see [`marks_background`]. rust-analyzer runs
///   `cargo check` over a workspace for as long as the workspace is open, re-running it on
///   every edit, and counting that as starting up is how a large project stays "still
///   indexing" for the whole session.
/// - **Quiet, not just an empty count.** A server announces the pieces of starting up one
///   after another - fetch, scan the roots, load the proc-macros, prime the cache - and the
///   outstanding work passes through empty in the gaps between them. So readiness also wants
///   [`SETTLING`] of quiet, or a request lands in one of those gaps and comes back
///   [`CONTENT_MODIFIED`].
/// - **Once finished, finished.** Readiness latches. A server that has started does not go
///   back to starting because it picked up some background work, and nothing a server says
///   later can take a pane that was answering questions and stop it.
///
/// And over all three, [`STARTING_CEILING`]: past it the server is called ready whatever its
/// progress said, because a misread of readiness must cost a request that comes back empty,
/// not a session that never asks.
///
/// Times are nanoseconds on a clock that never runs backwards, whichever one the caller has.
pub struct Readiness {
    /// When `initialized` went out, which is when starting up begins as far as this client
    /// can see. What [`STARTING_CEILING`] is measured from.
    initialized: u64,
    /// When the server last said anything about *starting up*. The clock the quiet is
    /// measured on, and untouched by background work so that a project being checked in the
    /// background can still fall quiet.
    last_spoke: u64,
    /// The starting-up work the server began and has not ended, by its progress token.
    starting_work: StringHashSet,
    /// The background work the server began and has not ended, by its progress token. Kept
    /// because only a `begin` carries a title, so the reports and the end of a piece of work
    /// can only be placed by remembering what its token was taken to be.
    background_work: StringHashSet,
    /// Whether the server has finished starting. The latch: written once, and true from
    /// then on.
    finished_starting: bool,
}

/// A [`Readiness`] as a contract speaks of it.
pub struct ReadinessModel {
    /// When starting up began.
    pub initialized: u64,
    /// When the server last spoke of starting up.
    pub last_spoke: u64,
    /// The starting-up work begun and not ended.
    pub starting: Set<Seq<char>>,
    /// The background work begun and not ended.
    pub background: Set<Seq<char>>,
    /// Whether the server has finished starting.
    pub finished: bool,
}

/// Progress work whose token or title holds one of these is the server keeping a project it
/// has already loaded up to date, not the server starting up.
///
/// Matched on rather than named exactly, because the tokens carry an index or a run number:
/// rust-analyzer's checks arrive under `rust-analyzer/flycheck/0`, `.../1` and so on, under the
/// title `cargo check`. The title is matched as well as the token, since the protocol lets a token
/// be a bare number that says nothing about what it is.
///
/// Only what has actually been seen on the wire is listed - the two names are one server's, and
/// typescript-language-server announces no work at all. Anything unlisted counts as starting up,
/// which is the safe way round: unknown work delays readiness rather than declaring it early, and
/// [`STARTING_CEILING`] is what stops that delay being forever.
pub open spec fn marks_background(words: Seq<char>) -> bool {
    text::contains(text::lowered(words), "flycheck"@) || text::contains(
        text::lowered(words),
        "cargo check"@,
    )
}

/// Whether a piece of announced work is background work, by its token or its title.
pub open spec fn is_background(token: Seq<char>, title: Option<Seq<char>>) -> bool {
    marks_background(token) || (title matches Some(title) && marks_background(title))
}

/// How long ago something was.
pub open spec fn elapsed(now: u64, then: u64) -> int {
    if now >= then {
        now - then
    } else {
        0
    }
}

impl ReadinessModel {
    /// A server that has just been told `initialized`.
    pub open spec fn fresh(now: u64) -> ReadinessModel {
        ReadinessModel {
            initialized: now,
            last_spoke: now,
            starting: Set::empty(),
            background: Set::empty(),
            finished: false,
        }
    }

    /// What is known once one `$/progress` notification has been folded in.
    pub open spec fn followed(self, message: JsonModel, now: u64) -> ReadinessModel {
        let kind = progress::kind_of(message);
        let title = progress::note_of(message).title;
        match progress::token_of(message) {
            None => self,
            Some(token) => if kind == Some("begin"@) {
                if is_background(token, title) {
                    ReadinessModel { background: self.background.insert(token), ..self }
                } else {
                    ReadinessModel {
                        starting: self.starting.insert(token),
                        last_spoke: now,
                        ..self
                    }
                }
            } else if kind == Some("report"@) {
                if self.background.contains(token) {
                    self
                } else {
                    ReadinessModel { last_spoke: now, ..self }
                }
            } else if kind == Some("end"@) {
                if self.background.contains(token) {
                    ReadinessModel { background: self.background.remove(token), ..self }
                } else {
                    ReadinessModel {
                        starting: self.starting.remove(token),
                        last_spoke: now,
                        ..self
                    }
                }
            } else {
                self
            },
        }
    }

    /// Whether nothing of starting up is outstanding and it has been quiet for long enough.
    pub open spec fn settled(self, now: u64) -> bool {
        self.starting == Set::<Seq<char>>::empty() && elapsed(now, self.last_spoke) >= SETTLING
    }

    /// Whether the server has finished starting.
    pub open spec fn ready(self, now: u64) -> bool {
        self.finished || self.settled(now) || elapsed(now, self.initialized) >= STARTING_CEILING
    }

    /// What is known once it has been asked whether the server is ready.
    pub open spec fn asked(self, now: u64) -> ReadinessModel {
        ReadinessModel { finished: self.ready(now), ..self }
    }

    /// What is known once the clocks have been moved back, each of them that can go back so far.
    pub open spec fn rewound(self, by: u64) -> ReadinessModel {
        ReadinessModel {
            initialized: moved_back(self.initialized, by),
            last_spoke: moved_back(self.last_spoke, by),
            ..self
        }
    }

    /// What is known once several things have happened, one after another.
    pub open spec fn after(self, history: Seq<Event>) -> ReadinessModel
        decreases history.len(),
    {
        if history.len() == 0 {
            self
        } else {
            let before = self.after(history.drop_last());
            match history.last() {
                Event::Followed { message, at } => before.followed(message, at),
                Event::Asked { at } => before.asked(at),
                Event::Rewound { by } => before.rewound(by),
            }
        }
    }
}

/// A clock moved back, where it can go back so far.
pub open spec fn moved_back(clock: u64, by: u64) -> u64 {
    if by <= clock {
        (clock - by) as u64
    } else {
        clock
    }
}

/// One thing that happens to what is known of a server's starting up.
pub enum Event {
    /// A notification is folded in.
    Followed { message: JsonModel, at: u64 },
    /// It is asked whether the server is ready.
    Asked { at: u64 },
    /// The clocks are moved back.
    Rewound { by: u64 },
}

impl View for Readiness {
    type V = ReadinessModel;

    closed spec fn view(&self) -> ReadinessModel {
        ReadinessModel {
            initialized: self.initialized,
            last_spoke: self.last_spoke,
            starting: self.starting_work@,
            background: self.background_work@,
            finished: self.finished_starting,
        }
    }
}

impl Readiness {
    /// A server that has just been told `initialized` and has announced nothing yet.
    pub fn new(now: u64) -> (readiness: Self)
        ensures
            readiness@ == ReadinessModel::fresh(now),
    {
        Readiness {
            initialized: now,
            last_spoke: now,
            starting_work: StringHashSet::new(),
            background_work: StringHashSet::new(),
            finished_starting: false,
        }
    }

    /// Fold one `$/progress` notification into what is known about starting up.
    ///
    /// A notification with no token names no piece of work, and there is nothing honest to
    /// do with it: it cannot be paired with the `begin` that would say what it is, so it is
    /// left out of the reckoning rather than made into work with no identity.
    pub fn follow(&mut self, message: &Json, now: u64)
        ensures
            final(self)@ == old(self)@.followed(message@, now),
    {
        let token = match progress::progress_token(message) {
            Some(token) => token,
            None => {
                return ;
            },
        };
        let title = progress::progress_note(message).title;
        let kind = match progress::progress_kind(message) {
            Some(kind) => kind,
            None => {
                return ;
            },
        };
        if text::same(kind, "begin") {
            let background: bool = match &title {
                Some(title) => is_background_work(token.as_str(), Some(title.as_str())),
                None => is_background_work(token.as_str(), None),
            };
            if background {
                self.background_work.insert(token);
            } else {
                self.starting_work.insert(token);
                self.last_spoke = now;
            }
        } else if text::same(kind, "report") {
            if !self.background_work.contains(token.as_str()) {
                // Part way through starting up is not finished starting up, so a report
                // restarts the quiet just as a begin does.
                self.last_spoke = now;
            }
        } else if text::same(kind, "end") {
            if self.background_work.contains(token.as_str()) {
                self.background_work.remove(token.as_str());
            } else {
                self.starting_work.remove(token.as_str());
                self.last_spoke = now;
            }
        }
    }

    /// Whether the server has finished starting, latching the answer the first time it has.
    pub fn is_ready(&mut self, now: u64) -> (ready: bool)
        ensures
            ready == old(self)@.ready(now),
            final(self)@ == old(self)@.asked(now),
    {
        if self.finished_starting {
            return true;
        }
        let settled: bool = self.starting_work.is_empty() && now.saturating_sub(self.last_spoke)
            >= SETTLING;
        self.finished_starting = settled || now.saturating_sub(self.initialized)
            >= STARTING_CEILING;
        self.finished_starting
    }

    /// Move this server's clocks back, so that [`SETTLING`] or [`STARTING_CEILING`] can be
    /// reached without being spent. A clock that cannot go back so far stays where it is.
    pub fn rewind(&mut self, by: u64)
        ensures
            final(self)@ == old(self)@.rewound(by),
    {
        if by <= self.initialized {
            self.initialized = self.initialized - by;
        }
        if by <= self.last_spoke {
            self.last_spoke = self.last_spoke - by;
        }
    }
}

/// Whether a piece of announced work is the server keeping a loaded project up to date
/// rather than starting up - see [`marks_background`].
pub fn is_background_work(token: &str, title: Option<&str>) -> (background: bool)
    ensures
        background == is_background(
            token@,
            match title {
                Some(title) => Some(title@),
                None => None,
            },
        ),
{
    if holds_a_marker(token) {
        return true;
    }
    match title {
        Some(title) => holds_a_marker(title),
        None => false,
    }
}

/// Whether words mark background work - see [`marks_background`].
fn holds_a_marker(words: &str) -> (holds: bool)
    ensures
        holds == marks_background(words@),
{
    let words = text::lowercase_text(words);
    text::has_text(words.as_str(), "flycheck") || text::has_text(words.as_str(), "cargo check")
}

// ---------------------------------------------------------------------------------------------
// What a server is doing
// ---------------------------------------------------------------------------------------------

/// What one server is doing right now, as it last said in a `$/progress` notification.
///
/// One per server rather than a list: a server that begins a second piece of work before it
/// has ended the first has moved on to it, and a bar that named both would be a bar nobody
/// reads. The title is carried forward from the `begin`, because a `report` does not repeat
/// it - see [`ProgressNote`].
#[derive(PartialEq, Eq, Debug)]
pub struct Working {
    /// What the server called this piece of work: "Indexing", "Fetching metadata".
    pub title: String,
    /// The line it is writing under that title, where it writes one.
    pub detail: Option<String>,
    /// How far through, where the server says. Most work does not.
    pub percentage: Option<u8>,
}

/// A [`Working`] as a contract speaks of it.
pub struct WorkModel {
    /// See [`Working::title`].
    pub title: Seq<char>,
    /// See [`Working::detail`].
    pub detail: Option<Seq<char>>,
    /// See [`Working::percentage`].
    pub percentage: Option<u8>,
}

impl View for Working {
    type V = WorkModel;

    open spec fn view(&self) -> WorkModel {
        WorkModel {
            title: self.title@,
            detail: text::maybe(self.detail),
            percentage: self.percentage,
        }
    }
}

impl Clone for Working {
    fn clone(&self) -> (copy: Self)
        ensures
            copy@ == self@,
    {
        Working {
            title: self.title.clone(),
            detail: match &self.detail {
                Some(detail) => Some(detail.clone()),
                None => None,
            },
            percentage: self.percentage,
        }
    }
}

/// What may be being done, as a contract speaks of it.
pub open spec fn doing(working: Option<Working>) -> Option<WorkModel> {
    match working {
        Some(working) => Some(working@),
        None => None,
    }
}

/// What a server is doing once one `$/progress` notification has been folded in.
pub open spec fn followed_on(
    working: Option<WorkModel>,
    kind: Option<Seq<char>>,
    note: NoteModel,
) -> Option<WorkModel> {
    if kind == Some("begin"@) {
        Some(
            WorkModel {
                title: match note.title {
                    Some(title) => title,
                    None => "working"@,
                },
                detail: note.message,
                percentage: note.percentage,
            },
        )
    } else if kind == Some("report"@) {
        match working {
            Some(work) => Some(
                WorkModel {
                    title: work.title,
                    detail: if note.message is Some {
                        note.message
                    } else {
                        work.detail
                    },
                    percentage: if note.percentage is Some {
                        note.percentage
                    } else {
                        work.percentage
                    },
                },
            ),
            None => None,
        }
    } else if kind == Some("end"@) {
        None
    } else {
        working
    }
}

/// Fold one `$/progress` notification into what the server is doing.
///
/// A `begin` is a new piece of work, a `report` moves the one already there along, and an
/// `end` leaves the server doing nothing. A `report` with no work behind it is a server
/// whose `begin` this client never saw, and it is left alone rather than made into work
/// with no name.
pub fn follow_progress(working: &mut Option<Working>, kind: Option<&str>, note: ProgressNote)
    ensures
        doing(*final(working)) == followed_on(
            doing(*old(working)),
            match kind {
                Some(kind) => Some(kind@),
                None => None,
            },
            note@,
        ),
{
    let kind = match kind {
        Some(kind) => kind,
        None => {
            return ;
        },
    };
    if text::same(kind, "begin") {
        let title = match note.title {
            Some(title) => title,
            // The protocol makes the title of a `begin` mandatory; a server that leaves
            // it out is still doing something, and "working" is what the bar says then.
            None => "working".to_owned(),
        };
        *working = Some(Working { title, detail: note.message, percentage: note.percentage });
    } else if text::same(kind, "report") {
        let before = working.take();
        if let Some(before) = before {
            // Only what the report actually carried is taken: a report that says nothing
            // but a percentage leaves the line under the title as it was.
            *working = Some(
                Working {
                    title: before.title,
                    detail: if note.message.is_some() {
                        note.message
                    } else {
                        before.detail
                    },
                    percentage: if note.percentage.is_some() {
                        note.percentage
                    } else {
                        before.percentage
                    },
                },
            );
        }
    } else if text::same(kind, "end") {
        *working = None;
    }
}

// ---------------------------------------------------------------------------------------------
// Refusals
// ---------------------------------------------------------------------------------------------

/// Why a server would not answer: what to tell the caller, and the JSON-RPC code where
/// there was one.
///
/// The code is kept apart from the sentence because one of them is worth acting on:
/// [`CONTENT_MODIFIED`] is a request the document moved under, and asking again is the
/// answer. A timeout or a server that exited has no code, and nothing to retry.
#[derive(Debug, PartialEq, Eq)]
pub struct Refusal {
    /// What the caller is told, already written as the sentence it will read as.
    pub said: String,
    /// The JSON-RPC error code, where the refusal came from the server rather than from
    /// this side of the pipe.
    pub code: Option<i64>,
}

/// A [`Refusal`] as a contract speaks of it.
pub struct RefusalModel {
    /// See [`Refusal::said`].
    pub said: Seq<char>,
    /// See [`Refusal::code`].
    pub code: Option<i64>,
}

impl View for Refusal {
    type V = RefusalModel;

    open spec fn view(&self) -> RefusalModel {
        RefusalModel { said: self.said@, code: self.code }
    }
}

impl Refusal {
    /// Whether asking the same thing again is worth it.
    ///
    /// Only [`CONTENT_MODIFIED`] is: the protocol defines it as the document having changed
    /// under the request, so the question was never really answered. Every other refusal is
    /// the server's considered answer - a method it does not have, a position it will not
    /// read - and asking twice would only be slower.
    pub fn worth_asking_again(&self) -> (worth: bool)
        ensures
            worth == (self@.code == Some(CONTENT_MODIFIED)),
            worth == (self@.code == Some(-32801i64)),
    {
        match self.code {
            Some(code) => code == CONTENT_MODIFIED,
            None => false,
        }
    }
}

/// What the error object of an answer means, kept whole - see [`Refusal`]. `error` is the object as
/// JSON, which is what the caller is told, and its code is the one in it.
pub fn refusal_from(error: &str) -> (refusal: Refusal)
    ensures
        refusal@ == (RefusalModel { said: error@, code: wire::whole_in(error@, "code"@) }),
{
    Refusal { said: error.to_owned(), code: wire::whole_of(error, "code") }
}

// ---------------------------------------------------------------------------------------------
// One server
// ---------------------------------------------------------------------------------------------

/// One running language server, as this side of the pipe knows it.
pub struct LanguageServer {
    /// The name the language table knows this server by - see
    /// [`ServerSpec::name`](crate::languages::ServerSpec::name).
    pub name: &'static str,
    /// What the server agreed to count columns in, out of its `initialize` reply. Written
    /// once, by [`LanguageServer::initialized`], before anybody else has the server at all.
    encoding: Option<PositionEncoding>,
    /// The characters the server said should open a completion list, out of the same reply.
    triggers: Vec<char>,
    /// Whether the server said it formats whole files, out of the same reply.
    formats: bool,
    /// The id the next request goes out with.
    next_id: i64,
    /// The requests waiting for their answers, by the id they went out with.
    pending: HashSet<i64>,
    readiness: Readiness,
    /// What the server last said it is doing. Kept beside readiness rather than folded into
    /// it: readiness is a rule about quiet that the window must not second-guess, and this
    /// is the server's own account of the wait, which is what the status bar reads out.
    working: Option<Working>,
    /// The text of every document open in this server, by its path relative to the repo.
    ///
    /// Kept because a position has to be turned into the server's units against the line it
    /// falls on, and because full-text sync means the server is told the whole text anyway.
    documents: StringHashMap<String>,
    /// What the server last published about each document, by its path on disk, as it arrived.
    diagnostics: Vec<(String, Vec<Diagnostic>)>,
}

/// A [`LanguageServer`] as a contract speaks of it.
pub struct ServerModel {
    /// What it is called.
    pub name: Seq<char>,
    /// What it counts columns in, once it has agreed to anything.
    pub encoding: Option<PositionEncoding>,
    /// The characters it completes after.
    pub triggers: Seq<char>,
    /// Whether it formats.
    pub formats: bool,
    /// The id its next request goes out with.
    pub next_id: i64,
    /// The requests waiting for their answers.
    pub pending: Set<i64>,
    /// Whether it has finished starting.
    pub readiness: ReadinessModel,
    /// What it is doing.
    pub working: Option<WorkModel>,
    /// The text of every document open in it.
    pub documents: Map<Seq<char>, Seq<char>>,
    /// What it last published about each document, by the components of its path on disk.
    pub diagnostics: Map<Seq<Seq<char>>, Seq<DiagnosticModel>>,
}

/// What was published about documents, one behind another, as a contract speaks of it: by the
/// components of a document's path, so that a document is the same one however its path is written.
pub open spec fn complaints_of(published: Seq<(String, Vec<Diagnostic>)>) -> Map<
    Seq<Seq<char>>,
    Seq<DiagnosticModel>,
>
    decreases published.len(),
{
    if published.len() == 0 {
        Map::empty()
    } else {
        let last = published.last();
        complaints_of(published.drop_last()).insert(
            paths::components(last.0@),
            wire::views(last.1@),
        )
    }
}

/// What was published about a document makes no difference once more has been published about it.
proof fn lemma_published_again(
    published: Seq<(String, Vec<Diagnostic>)>,
    at: int,
    diagnostics: Seq<DiagnosticModel>,
)
    requires
        0 <= at < published.len(),
    ensures
        complaints_of(published.remove(at)).insert(
            paths::components(published[at].0@),
            diagnostics,
        ) == complaints_of(published).insert(
            paths::components(published[at].0@),
            diagnostics,
        ),
    decreases published.len(),
{
    let key = paths::components(published[at].0@);
    let fewer = published.drop_last();
    if at == published.len() - 1 {
        assert(published.remove(at) =~= fewer);
        assert(complaints_of(fewer).insert(key, diagnostics) =~= complaints_of(published).insert(
            key,
            diagnostics,
        ));
    } else {
        lemma_published_again(fewer, at, diagnostics);
        let rest = published.remove(at);
        let last = published.last();
        assert(rest.drop_last() =~= fewer.remove(at));
        assert(rest.last() == last);
        let with = complaints_of(fewer.remove(at));
        let without = complaints_of(fewer);
        assert(with.insert(key, diagnostics) == without.insert(key, diagnostics));
        let there = paths::components(last.0@);
        let found = wire::views(last.1@);
        if there == key {
            assert(with.insert(there, found).insert(key, diagnostics) =~= with.insert(
                key,
                diagnostics,
            ));
            assert(without.insert(there, found).insert(key, diagnostics) =~= without.insert(
                key,
                diagnostics,
            ));
        } else {
            assert(with.insert(there, found).insert(key, diagnostics) =~= with.insert(
                key,
                diagnostics,
            ).insert(there, found));
            assert(without.insert(there, found).insert(key, diagnostics) =~= without.insert(
                key,
                diagnostics,
            ).insert(there, found));
        }
    }
}

/// The texts of documents as a contract speaks of them.
pub open spec fn texts_of(documents: Map<Seq<char>, String>) -> Map<Seq<char>, Seq<char>> {
    Map::new(|path: Seq<char>| documents.contains_key(path), |path: Seq<char>| documents[path]@)
}

/// The same diagnostics again.
fn same_diagnostics(kept: &Vec<Diagnostic>) -> (diagnostics: Vec<Diagnostic>)
    ensures
        wire::views(diagnostics@) == wire::views(kept@),
{
    let mut diagnostics: Vec<Diagnostic> = Vec::new();
    let mut at: usize = 0;
    while at < kept.len()
        invariant
            at <= kept@.len(),
            diagnostics@.len() == at,
            forall|i: int| 0 <= i < at ==> (#[trigger] diagnostics@[i])@ == kept@[i]@,
        decreases kept@.len() - at,
    {
        diagnostics.push(answers::same_diagnostic(&kept[at]));
        at += 1;
    }
    assert(wire::views(diagnostics@) =~= wire::views(kept@));
    diagnostics
}

/// What a round trip to a server came to.
#[derive(Debug, PartialEq, Eq)]
pub enum Outcome {
    /// The server answered with this.
    Answered(Json),
    /// The server refused.
    Refused(Refusal),
    /// The question could not be sent, for this reason.
    NotSent(String),
    /// No answer came in time.
    NoAnswer,
}

/// An [`Outcome`] as a contract speaks of it.
pub enum OutcomeModel {
    /// See [`Outcome::Answered`].
    Answered(JsonModel),
    /// See [`Outcome::Refused`].
    Refused(RefusalModel),
    /// See [`Outcome::NotSent`].
    NotSent(Seq<char>),
    /// See [`Outcome::NoAnswer`].
    NoAnswer,
}

impl View for Outcome {
    type V = OutcomeModel;

    open spec fn view(&self) -> OutcomeModel {
        match self {
            Outcome::Answered(answer) => OutcomeModel::Answered(answer@),
            Outcome::Refused(refusal) => OutcomeModel::Refused(refusal@),
            Outcome::NotSent(reason) => OutcomeModel::NotSent(reason@),
            Outcome::NoAnswer => OutcomeModel::NoAnswer,
        }
    }
}

/// What is to be done once one round trip of a request is over.
#[derive(Debug, PartialEq, Eq)]
pub enum Asked {
    /// Wait [`RETRY_PAUSE`], and ask the same again.
    AskAgain,
    /// Hand this back.
    Done(Result<Json, LspError>),
}

/// What is to be done about a message a server sent.
#[derive(Debug, PartialEq, Eq)]
pub enum Incoming {
    /// Nothing.
    Nothing,
    /// Send this back.
    Reply(Json),
    /// Hand the request of this id its answer: what it asked for, or the error it was refused
    /// with.
    Answered {
        /// The id the request went out with.
        id: i64,
        /// The answer, or the error.
        answer: Result<Json, Json>,
    },
}

/// An [`Incoming`] as a contract speaks of it.
pub enum IncomingModel {
    /// See [`Incoming::Nothing`].
    Nothing,
    /// See [`Incoming::Reply`].
    Reply(JsonModel),
    /// See [`Incoming::Answered`].
    Answered { id: i64, answer: Result<JsonModel, JsonModel> },
}

impl View for Incoming {
    type V = IncomingModel;

    open spec fn view(&self) -> IncomingModel {
        match self {
            Incoming::Nothing => IncomingModel::Nothing,
            Incoming::Reply(reply) => IncomingModel::Reply(reply@),
            Incoming::Answered { id, answer } => IncomingModel::Answered {
                id: *id,
                answer: match answer {
                    Ok(answer) => Ok(answer@),
                    Err(error) => Err(error@),
                },
            },
        }
    }
}

/// A message to a server, as JSON-RPC has one.
pub open spec fn envelope() -> JsonModel {
    JsonModel::object().with("jsonrpc"@, JsonModel::Text("2.0"@))
}

/// A request as it goes out.
pub open spec fn request_message(id: i64, method: Seq<char>, params: JsonModel) -> JsonModel {
    envelope().with("id"@, JsonModel::whole(id as int)).with(
        "method"@,
        JsonModel::Text(method),
    ).with("params"@, params)
}

/// A notification as it goes out.
pub open spec fn notification(method: Seq<char>, params: JsonModel) -> JsonModel {
    envelope().with("method"@, JsonModel::Text(method)).with("params"@, params)
}

/// A reply to a server's own request as it goes out.
pub open spec fn reply_message(id: JsonModel, result: JsonModel) -> JsonModel {
    envelope().with("id"@, id).with("result"@, result)
}

/// The method of a message, where it has one.
pub open spec fn method_of(message: JsonModel) -> Option<Seq<char>> {
    match message.member("method"@) {
        Some(method) => method.as_text(),
        None => None,
    }
}

/// What an answer says: the error it was refused with, or what it asked for, which is nothing
/// where it says nothing.
pub open spec fn answer_in(message: JsonModel) -> Result<JsonModel, JsonModel> {
    match message.member("error"@) {
        Some(error) => Err(error),
        None => match message.member("result"@) {
            Some(result) => Ok(result),
            None => Ok(JsonModel::Null),
        },
    }
}

impl ServerModel {
    /// A server that has been started and has said nothing yet.
    pub open spec fn started(name: Seq<char>, now: u64) -> ServerModel {
        ServerModel {
            name,
            encoding: None,
            triggers: Seq::empty(),
            formats: false,
            next_id: 1,
            pending: Set::empty(),
            readiness: ReadinessModel::fresh(now),
            working: None,
            documents: Map::empty(),
            diagnostics: Map::empty(),
        }
    }

    /// The server once it has replied to `initialize` so.
    pub open spec fn agreed(self, reply: wire::InitializeModel, now: u64) -> ServerModel {
        ServerModel {
            encoding: Some(answers::encoding_in(reply)),
            triggers: answers::triggers_in(reply),
            formats: answers::formats_in(reply),
            readiness: ReadinessModel::fresh(now),
            working: None,
            ..self
        }
    }

    /// The server once one more request is waiting.
    pub open spec fn asked(self) -> ServerModel {
        ServerModel {
            next_id: if self.next_id == i64::MAX {
                i64::MIN
            } else {
                (self.next_id + 1) as i64
            },
            pending: self.pending.insert(self.next_id),
            ..self
        }
    }

    /// The server once a request has come to this: no longer waiting for what never came.
    pub open spec fn settled(self, id: i64, outcome: OutcomeModel) -> ServerModel {
        match outcome {
            OutcomeModel::NotSent(_) | OutcomeModel::NoAnswer => ServerModel {
                pending: self.pending.remove(id),
                ..self
            },
            _ => self,
        }
    }

    /// What whoever asked is told a request has come to.
    pub open spec fn told(
        self,
        method: Seq<char>,
        outcome: OutcomeModel,
        seconds: u64,
    ) -> Result<JsonModel, RefusalModel> {
        match outcome {
            OutcomeModel::Answered(answer) => Ok(answer),
            OutcomeModel::Refused(refusal) => Err(
                RefusalModel {
                    said: self.name + " refused "@ + method + ": "@ + refusal.said,
                    code: refusal.code,
                },
            ),
            OutcomeModel::NotSent(reason) => Err(RefusalModel { said: reason, code: None }),
            OutcomeModel::NoAnswer => Err(
                RefusalModel {
                    said: self.name + " did not answer "@ + method + " within "@ + text::decimal(
                        seconds as nat,
                    ) + " seconds"@,
                    code: None,
                },
            ),
        }
    }

    /// The server once a message of its has been taken, and what is to be done about the message.
    pub open spec fn received(self, message: JsonModel, now: u64) -> (ServerModel, IncomingModel) {
        match (method_of(message), message.member("id"@)) {
            (Some(method), Some(id)) => (
                self,
                IncomingModel::Reply(reply_message(id, progress::reply_to(method, message))),
            ),
            (Some(method), None) => if method == "$/progress"@ {
                (
                    ServerModel {
                        readiness: self.readiness.followed(message, now),
                        working: followed_on(
                            self.working,
                            progress::kind_of(message),
                            progress::note_of(message),
                        ),
                        ..self
                    },
                    IncomingModel::Nothing,
                )
            } else {
                (self, IncomingModel::Nothing)
            },
            (None, Some(JsonModel::Number(number))) => match number.integer {
                Some(id) => if self.pending.contains(id) {
                    (
                        ServerModel { pending: self.pending.remove(id), ..self },
                        IncomingModel::Answered { id, answer: answer_in(message) },
                    )
                } else {
                    (self, IncomingModel::Nothing)
                },
                None => (self, IncomingModel::Nothing),
            },
            _ => (self, IncomingModel::Nothing),
        }
    }

    /// The server with a document in it that reads so.
    pub open spec fn remembering(self, file_path: Seq<char>, text: Seq<char>) -> ServerModel {
        ServerModel { documents: self.documents.insert(file_path, text), ..self }
    }

    /// The server with a document no longer in it.
    pub open spec fn forgetting(self, file_path: Seq<char>) -> ServerModel {
        ServerModel { documents: self.documents.remove(file_path), ..self }
    }

    /// The server with this published about a document.
    pub open spec fn publishing(self, path: Seq<char>, diagnostics: Seq<DiagnosticModel>) -> ServerModel {
        ServerModel {
            diagnostics: self.diagnostics.insert(paths::components(path), diagnostics),
            ..self
        }
    }

    /// What it last published about a document.
    pub open spec fn published(self, path: Seq<char>) -> Seq<DiagnosticModel> {
        if self.diagnostics.contains_key(paths::components(path)) {
            self.diagnostics[paths::components(path)]
        } else {
            Seq::empty()
        }
    }

    /// What a document in it reads, if it is in it.
    pub open spec fn document(self, file_path: Seq<char>) -> Option<Seq<char>> {
        if self.documents.contains_key(file_path) {
            Some(self.documents[file_path])
        } else {
            None
        }
    }
}

impl View for LanguageServer {
    type V = ServerModel;

    closed spec fn view(&self) -> ServerModel {
        ServerModel {
            name: self.name@,
            encoding: self.encoding,
            triggers: self.triggers@,
            formats: self.formats,
            next_id: self.next_id,
            pending: self.pending@,
            readiness: self.readiness@,
            working: doing(self.working),
            documents: texts_of(self.documents@),
            diagnostics: complaints_of(self.diagnostics@),
        }
    }
}

/// A server that is to be started, and the question it is to be asked first.
pub struct Starting {
    /// Where its command is.
    pub program: String,
    /// The server, with the question waiting in it.
    pub server: LanguageServer,
    /// The id the question waits under.
    pub id: i64,
    /// The message that asks it.
    pub message: Json,
}

fn enveloped() -> (message: Json)
    ensures
        message is Object,
        message@ == envelope(),
{
    Json::object().with("jsonrpc", Json::text("2.0"))
}

impl LanguageServer {
    /// A server that has been started and has said nothing yet.
    pub fn new(name: &'static str, now: u64) -> (server: Self)
        ensures
            server@ == ServerModel::started(name@, now),
    {
        let server = LanguageServer {
            name,
            encoding: None,
            triggers: Vec::new(),
            formats: false,
            next_id: 1,
            pending: HashSet::new(),
            readiness: Readiness::new(now),
            working: None,
            documents: StringHashMap::new(),
            diagnostics: Vec::new(),
        };
        assert(server@.documents =~= Map::empty());
        assert(server@.diagnostics =~= Map::empty());
        server
    }

    /// Start a server on a repo: what is to be run, and the `initialize` it is to be sent first.
    /// The reply is taken with [`LanguageServer::initialized`].
    ///
    /// `installed_at` is where its command is on the caller's `PATH`, if it is anywhere - see
    /// [`crate::languages::installed_at`]. `client` is who the server is told it is talking to,
    /// which is the caller's for the same reason - see
    /// [`ClientIdentity`](crate::protocol::ClientIdentity) - and `process_id` is the process it is
    /// to watch for going away.
    pub fn start(
        spec: &ServerSpec,
        installed_at: Option<String>,
        repo_root: &str,
        client: &ClientIdentity,
        process_id: u32,
        now: u64,
    ) -> (starting: Result<Starting, LspError>)
        ensures
            match (installed_at, starting) {
                (Some(place), Ok(starting)) => {
                    &&& starting.program@ == place@
                    &&& starting.server@ == ServerModel::started(spec@.name, now).asked()
                    &&& starting.id == 1
                    &&& starting.message@ == request_message(
                        1,
                        "initialize"@,
                        params::initialize_with(repo_root@, client@, process_id),
                    )
                },
                (None, Err(error)) => error@ == (Fault::NotInstalled {
                    command: spec@.command,
                }),
                _ => false,
            },
    {
        let program = match installed_at {
            Some(program) => program,
            None => {
                return Err(LspError::NotInstalled { command: spec.command.to_owned() });
            },
        };
        let mut server = LanguageServer::new(spec.name, now);
        let (id, message) = server.ask(
            "initialize",
            params::initialize_params(repo_root, client, process_id),
        );
        Ok(Starting { program, server, id, message })
    }

    /// Take the server's reply to `initialize`, which is the only point at which what it agreed to
    /// is known, and answer with the `initialized` that is owed it.
    ///
    /// Readiness is counted from here rather than from the spawn: what came before is the server
    /// reading the project, and what comes after is what it announces.
    pub fn initialized(&mut self, reply: &str, now: u64) -> (message: Result<Json, LspError>)
        ensures
            match wire::initialize_in(reply@) {
                Some(said) => {
                    &&& message matches Ok(message)
                    &&& message@ == notification("initialized"@, JsonModel::object())
                    &&& final(self)@ == old(self)@.agreed(said, now)
                },
                None => {
                    &&& message matches Err(error)
                    &&& error@ == answers::unreadable(Answer::Initialize)
                    &&& final(self)@ == old(self)@
                },
            },
    {
        let said = match wire::read_initialize(reply) {
            Ok(said) => said,
            Err(_) => {
                return Err(LspError::Unreadable { answer: Answer::Initialize });
            },
        };
        self.encoding = Some(answers::encoding_of(&said));
        self.triggers = answers::triggers_of(&said);
        self.formats = answers::formats_with(&said);
        self.readiness = Readiness::new(now);
        self.working = None;
        Ok(self.notify("initialized", Json::object()))
    }

    /// What the server is called.
    pub fn called(&self) -> (name: &'static str)
        ensures
            name@ == self@.name,
    {
        self.name
    }

    /// What the server agreed to count columns in, out of its `initialize` reply.
    pub fn encoding(&self) -> (encoding: PositionEncoding)
        requires
            self@.encoding is Some,
        ensures
            self@.encoding == Some(encoding),
    {
        match self.encoding {
            Some(encoding) => encoding,
            None => PositionEncoding::Utf16,
        }
    }

    /// Whether the server has agreed to count columns in anything yet.
    pub fn has_agreed(&self) -> (agreed: bool)
        ensures
            agreed == (self@.encoding is Some),
    {
        self.encoding.is_some()
    }

    /// Whether a character is one of those the server said should open a completion list.
    pub fn triggers_on(&self, character: char) -> (triggers: bool)
        ensures
            triggers == self@.triggers.contains(character),
    {
        let mut at: usize = 0;
        while at < self.triggers.len()
            invariant
                at <= self.triggers@.len(),
                forall|i: int| 0 <= i < at ==> self.triggers@[i] != character,
            decreases self.triggers@.len() - at,
        {
            if self.triggers[at] == character {
                return true;
            }
            at += 1;
        }
        false
    }

    /// The characters the server said should open a completion list.
    pub fn trigger_characters(&self) -> (triggers: Vec<char>)
        ensures
            triggers@ == self@.triggers,
    {
        let mut triggers: Vec<char> = Vec::new();
        let mut at: usize = 0;
        while at < self.triggers.len()
            invariant
                at <= self.triggers@.len(),
                triggers@ == self.triggers@.take(at as int),
            decreases self.triggers@.len() - at,
        {
            triggers.push(self.triggers[at]);
            at += 1;
            assert(triggers@ =~= self.triggers@.take(at as int));
        }
        assert(triggers@ =~= self.triggers@);
        triggers
    }

    /// Whether the server said it formats whole files.
    pub fn formats(&self) -> (formats: bool)
        ensures
            formats == self@.formats,
    {
        self.formats
    }

    /// Whether a message is the server publishing what it found wrong with a document, which is read
    /// with [`crate::protocol::published_diagnostics`] and kept with [`LanguageServer::publish`].
    pub fn publishes(message: &Json) -> (publishes: bool)
        ensures
            publishes == (method_of(message@) == Some("textDocument/publishDiagnostics"@)
                && message@.member("id"@) is None),
    {
        if message.get("id").is_some() {
            return false;
        }
        match message.get("method") {
            Some(method) => match method.as_str() {
                Some(method) => text::same(method, "textDocument/publishDiagnostics"),
                None => false,
            },
            None => false,
        }
    }

    /// Where something published about a document is kept, if anything is.
    fn published_at(&self, path: &str) -> (at: Option<usize>)
        ensures
            match at {
                Some(at) => at < self.diagnostics@.len() && paths::components(
                    self.diagnostics@[at as int].0@,
                ) == paths::components(path@),
                None => forall|i: int|
                    0 <= i < self.diagnostics@.len() ==> paths::components(
                        (#[trigger] self.diagnostics@[i]).0@,
                    ) != paths::components(path@),
            },
    {
        let mut at: usize = 0;
        while at < self.diagnostics.len()
            invariant
                at <= self.diagnostics@.len(),
                forall|i: int|
                    0 <= i < at ==> paths::components((#[trigger] self.diagnostics@[i]).0@)
                        != paths::components(path@),
            decreases self.diagnostics@.len() - at,
        {
            if paths::same_path(self.diagnostics[at].0.as_str(), path) {
                return Some(at);
            }
            at += 1;
        }
        None
    }

    /// Keep what the server published about a document, by its path on disk, in place of what it
    /// published before.
    pub fn publish(&mut self, path: &str, diagnostics: Vec<Diagnostic>)
        ensures
            final(self)@ == old(self)@.publishing(path@, wire::views(diagnostics@)),
    {
        let ghost before = self.diagnostics@;
        if let Some(at) = self.published_at(path) {
            proof {
                lemma_published_again(before, at as int, wire::views(diagnostics@));
            }
            self.diagnostics.remove(at);
        }
        let ghost kept = self.diagnostics@;
        self.diagnostics.push((path.to_owned(), diagnostics));
        assert(self.diagnostics@.drop_last() =~= kept);
    }

    /// What the server last published about a document, by its path on disk: nothing at all where
    /// it published nothing.
    pub fn published(&self, path: &str) -> (diagnostics: Vec<Diagnostic>)
        ensures
            wire::views(diagnostics@) == self@.published(path@),
    {
        let ghost all = self.diagnostics@;
        let ghost key = paths::components(path@);
        let mut from: usize = self.diagnostics.len();
        assert(all.take(from as int) =~= all);
        while from > 0
            invariant
                from <= all.len(),
                all == self.diagnostics@,
                self@.diagnostics == complaints_of(all),
                key == paths::components(path@),
                complaints_of(all).contains_key(key) <==> complaints_of(
                    all.take(from as int),
                ).contains_key(key),
                complaints_of(all).contains_key(key) ==> complaints_of(all)[key] == complaints_of(
                    all.take(from as int),
                )[key],
            decreases from,
        {
            from -= 1;
            assert(all.take(from + 1).drop_last() =~= all.take(from as int));
            if paths::same_path(self.diagnostics[from].0.as_str(), path) {
                return same_diagnostics(&self.diagnostics[from].1);
            }
        }
        let diagnostics: Vec<Diagnostic> = Vec::new();
        assert(wire::views(diagnostics@) =~= Seq::<DiagnosticModel>::empty());
        diagnostics
    }

    /// Whether the server has finished starting - see [`Readiness`] for what that means and
    /// why background work does not unmake it.
    pub fn is_ready(&mut self, now: u64) -> (ready: bool)
        ensures
            ready == old(self)@.readiness.ready(now),
            final(self)@ == (ServerModel {
                readiness: ReadinessModel { finished: ready, ..old(self)@.readiness },
                ..old(self)@
            }),
    {
        self.readiness.is_ready(now)
    }

    /// What the server is doing right now, if it has said. `None` for one that is doing
    /// nothing it has announced, which is every server that has finished starting.
    pub fn working(&self) -> (working: Option<Working>)
        ensures
            doing(working) == self@.working,
    {
        match &self.working {
            Some(working) => Some(working.clone()),
            None => None,
        }
    }

    /// The text of one open document, as this side last told the server it stands. `None`
    /// for a document that is not open here, which is what makes a request on a file nobody
    /// opened an error rather than a question the server cannot answer.
    pub fn document_text(&self, file_path: &str) -> (text: Option<String>)
        ensures
            text::maybe(text) == self@.document(file_path@),
    {
        match self.documents.get(file_path) {
            Some(text) => Some(text.clone()),
            None => None,
        }
    }

    /// Keep the text this side last told the server a document holds.
    pub fn remember_document(&mut self, file_path: &str, text: &str)
        ensures
            final(self)@ == old(self)@.remembering(file_path@, text@),
    {
        self.documents.insert(file_path.to_owned(), text.to_owned());
        assert(self@.documents =~= old(self)@.documents.insert(file_path@, text@));
    }

    /// Drop a document this side has told the server is closed.
    pub fn forget_document(&mut self, file_path: &str)
        ensures
            final(self)@ == old(self)@.forgetting(file_path@),
    {
        self.documents.remove(file_path);
        assert(self@.documents =~= old(self)@.documents.remove(file_path@));
    }

    /// Whether this file has already been announced to the server, which is the difference
    /// between `didOpen` and `didChange`.
    pub fn has_document(&self, file_path: &str) -> (has: bool)
        ensures
            has == (self@.document(file_path@) is Some),
    {
        self.documents.contains_key(file_path)
    }

    /// The text of a file that an answer is about: the copy the server was sent for a file that is
    /// open in it, and the file on disk for any other.
    pub fn text_of<F: Fn(&str) -> Result<String, LspError>>(
        &self,
        file_path: &str,
        on_disk: &F,
    ) -> (text: Result<String, LspError>)
        requires
            call_requires(*on_disk, (file_path,)),
        ensures
            match self@.document(file_path@) {
                Some(open) => text matches Ok(text) && text@ == open,
                None => call_ensures(*on_disk, (file_path,), text),
            },
    {
        match self.documents.get(file_path) {
            Some(text) => Ok(text.clone()),
            None => on_disk(file_path),
        }
    }

    /// Set a question going: the id it waits under, and the message that asks it.
    pub fn ask(&mut self, method: &str, params: Json) -> (question: (i64, Json))
        ensures
            question.0 == old(self)@.next_id,
            question.1@ == request_message(old(self)@.next_id, method@, params@),
            final(self)@ == old(self)@.asked(),
    {
        broadcast use vstd::std_specs::hash::group_hash_axioms;

        let id: i64 = self.next_id;
        self.next_id = if id == i64::MAX {
            i64::MIN
        } else {
            id + 1
        };
        self.pending.insert(id);
        let message = enveloped().with("id", Json::whole(id as i128)).with(
            "method",
            Json::text(method),
        ).with("params", params);
        (id, message)
    }

    /// Take what a question came to. A server that has stopped answering gives an error rather than
    /// the calling thread, and the server's own refusal is kept whole so the caller can tell a
    /// transient one from a real one. `seconds` is how long was waited.
    pub fn settle(&mut self, id: i64, method: &str, outcome: Outcome, seconds: u64) -> (answer: Result<
        Json,
        Refusal,
    >)
        ensures
            final(self)@ == old(self)@.settled(id, outcome@),
            match answer {
                Ok(answer) => old(self)@.told(method@, outcome@, seconds) == Ok::<
                    JsonModel,
                    RefusalModel,
                >(answer@),
                Err(refusal) => old(self)@.told(method@, outcome@, seconds) == Err::<
                    JsonModel,
                    RefusalModel,
                >(refusal@),
            },
    {
        broadcast use vstd::std_specs::hash::group_hash_axioms;

        match outcome {
            Outcome::Answered(answer) => Ok(answer),
            Outcome::Refused(refusal) => {
                let mut said = text::around(self.name, " refused ", method);
                said.append(": ");
                said.append(refusal.said.as_str());
                Err(Refusal { said, code: refusal.code })
            },
            Outcome::NotSent(reason) => {
                self.pending.remove(&id);
                Err(Refusal { said: reason, code: None })
            },
            Outcome::NoAnswer => {
                self.pending.remove(&id);
                let mut said = text::around(self.name, " did not answer ", method);
                said.append(" within ");
                text::push_decimal(&mut said, seconds as u128);
                said.append(" seconds");
                Err(Refusal { said, code: None })
            },
        }
    }

    /// What is to be done once one round trip of a request is over.
    ///
    /// One answer is not taken at face value: [`CONTENT_MODIFIED`] means the document moved
    /// while the question was in flight, so it is asked once more after [`RETRY_PAUSE`]
    /// rather than handed back as "no answer". That is what makes readiness a hint - a
    /// question let through a moment too early costs a retry, not a wrong answer in a pane.
    pub fn request(answer: Result<Json, Refusal>, asked_again: bool) -> (next: Asked)
        ensures
            next is AskAgain <==> !asked_again && (answer matches Err(refusal) && refusal@.code
                == Some(CONTENT_MODIFIED)),
            next matches Asked::Done(done) ==> match (answer, done) {
                (Ok(answer), Ok(done)) => done@ == answer@,
                (Err(refusal), Err(error)) => error matches LspError::Told { said } && said@
                    == refusal@.said,
                _ => false,
            },
    {
        match answer {
            Ok(answer) => Asked::Done(Ok(answer)),
            Err(refusal) => {
                if !asked_again && refusal.worth_asking_again() {
                    Asked::AskAgain
                } else {
                    Asked::Done(Err(LspError::Told { said: refusal.said }))
                }
            },
        }
    }

    /// Tell the server something. Notifications have no answer to wait for, so the message is the
    /// whole of it.
    pub fn notify(&self, method: &str, params: Json) -> (message: Json)
        ensures
            message@ == notification(method@, params@),
    {
        enveloped().with("method", Json::text(method)).with("params", params)
    }

    /// Take one message the server sent: an answer goes to whoever is waiting for it, progress
    /// moves readiness along, and the server's own requests are answered so it does not sit
    /// waiting on us.
    pub fn handle_message(&mut self, message: &Json, now: u64) -> (incoming: Incoming)
        ensures
            (final(self)@, incoming@) == old(self)@.received(message@, now),
    {
        broadcast use vstd::std_specs::hash::group_hash_axioms;

        let method = match message.get("method") {
            Some(method) => method.as_str(),
            None => None,
        };
        match (method, message.get("id")) {
            // The server asking us something. Every one of these is answered, because a server
            // waiting on a reply that never comes stops making progress.
            (Some(method), Some(id)) => {
                let result = progress::reply_to_server_request(method, message);
                Incoming::Reply(enveloped().with("id", id.copy()).with("result", result))
            },
            (Some(method), None) => {
                if text::same(method, "$/progress") {
                    self.readiness.follow(message, now);
                    // What the status bar reads out takes every piece of work, background or not: a
                    // person watching a `cargo check` run wants to see it, even though it says
                    // nothing about whether the server has finished starting.
                    follow_progress(
                        &mut self.working,
                        progress::progress_kind(message),
                        progress::progress_note(message),
                    );
                }
                // Any other notification - a log message - is not this client's business, but for
                // what is published about a document: see [`LanguageServer::publish`].
                Incoming::Nothing
            },
            // An answer to something we asked.
            (None, Some(id)) => {
                let id: i64 = match id {
                    Json::Number(number) => match number.integer {
                        Some(id) => id,
                        None => {
                            return Incoming::Nothing;
                        },
                    },
                    _ => {
                        return Incoming::Nothing;
                    },
                };
                if !self.pending.remove(&id) {
                    assert(self.pending@ =~= old(self).pending@);
                    return Incoming::Nothing;
                }
                let answer = match message.get("error") {
                    Some(error) => Err(error.copy()),
                    None => match message.get("result") {
                        Some(result) => Ok(result.copy()),
                        None => Ok(Json::Null),
                    },
                };
                Incoming::Answered { id, answer }
            },
            (None, None) => Incoming::Nothing,
        }
    }

    /// Take that the server is gone. Everyone waiting on it is told this now rather than sitting
    /// out their whole timeout.
    pub fn exited(&mut self) -> (refusal: Refusal)
        ensures
            refusal@ == (RefusalModel { said: "the language server exited"@, code: None }),
            final(self)@ == (ServerModel { pending: Set::empty(), ..old(self)@ }),
    {
        self.pending.clear();
        Refusal { said: "the language server exited".to_owned(), code: None }
    }
}

// ---------------------------------------------------------------------------------------------
// What readiness and progress promise
// ---------------------------------------------------------------------------------------------

/// Readiness latches: a server that has finished starting is a server that has finished starting,
/// whatever it says and however late it is asked again.
pub proof fn law_once_finished_always_finished(
    readiness: ReadinessModel,
    message: JsonModel,
    said_at: u64,
    asked_at: u64,
)
    requires
        readiness.finished,
    ensures
        readiness.followed(message, said_at).finished,
        readiness.followed(message, said_at).ready(asked_at),
{
}

/// Past the ceiling a server is ready, whatever its progress said.
pub proof fn law_nothing_waits_past_the_ceiling(
    readiness: ReadinessModel,
    message: JsonModel,
    said_at: u64,
    asked_at: u64,
)
    requires
        asked_at >= readiness.initialized + STARTING_CEILING,
    ensures
        readiness.ready(asked_at),
        readiness.followed(message, said_at).ready(asked_at),
{
}

/// A server that has work of starting up outstanding is not ready before the ceiling, unless it
/// has finished once already.
pub proof fn law_outstanding_work_holds_readiness_back(readiness: ReadinessModel, now: u64)
    requires
        !readiness.finished,
        readiness.starting != Set::<Seq<char>>::empty(),
        now < readiness.initialized + STARTING_CEILING,
    ensures
        !readiness.ready(now),
{
}

/// A server that has just spoken of starting up is not ready in the gap behind it: it has to be
/// quiet first.
pub proof fn law_a_gap_is_not_the_end(readiness: ReadinessModel, now: u64)
    requires
        !readiness.finished,
        now < readiness.last_spoke + SETTLING,
        now < readiness.initialized + STARTING_CEILING,
    ensures
        !readiness.ready(now),
{
}

/// Background work neither holds readiness back nor restarts the quiet, from its begin through
/// its reports to its end.
pub proof fn law_background_work_disturbs_nothing(
    readiness: ReadinessModel,
    message: JsonModel,
    said_at: u64,
    asked_at: u64,
)
    requires
        progress::token_of(message) matches Some(token) && if progress::kind_of(message) == Some(
            "begin"@,
        ) {
            is_background(token, progress::note_of(message).title)
        } else {
            readiness.background.contains(token)
        },
    ensures
        readiness.followed(message, said_at).starting == readiness.starting,
        readiness.followed(message, said_at).last_spoke == readiness.last_spoke,
        readiness.followed(message, said_at).ready(asked_at) == readiness.ready(asked_at),
{
}

/// A notification that names no work says nothing about starting up.
pub proof fn law_work_with_no_name_is_left_out(
    readiness: ReadinessModel,
    message: JsonModel,
    said_at: u64,
)
    requires
        progress::token_of(message) is None,
    ensures
        readiness.followed(message, said_at) == readiness,
{
}

/// When something happened, for what happens at a time.
pub open spec fn at_of(event: Event) -> Option<u64> {
    match event {
        Event::Followed { at, .. } => Some(at),
        Event::Asked { at } => Some(at),
        Event::Rewound { .. } => None,
    }
}

/// Whether things happened one after another, from when starting up began up to now.
pub open spec fn in_time(start: u64, history: Seq<Event>, now: u64) -> bool {
    &&& start <= now
    &&& forall|i: int|
        0 <= i < history.len() ==> (at_of(#[trigger] history[i]) matches Some(at) ==> start <= at
            <= now)
    &&& forall|i: int, j: int|
        0 <= i < j < history.len() ==> (at_of(#[trigger] history[i]) matches Some(earlier) ==> (
        at_of(#[trigger] history[j]) matches Some(later) ==> earlier <= later))
}

/// How far the clocks have been moved back altogether.
pub open spec fn rewinds(history: Seq<Event>) -> nat
    decreases history.len(),
{
    if history.len() == 0 {
        0
    } else {
        rewinds(history.drop_last()) + match history.last() {
            Event::Rewound { by } => by as nat,
            _ => 0,
        }
    }
}

/// Whether work of one or the other sort is begun under a token.
pub open spec fn begins(event: Event, token: Seq<char>, background: bool) -> bool {
    &&& event matches Event::Followed { message, .. }
    &&& progress::token_of(message) == Some(token)
    &&& progress::kind_of(message) == Some("begin"@)
    &&& is_background(token, progress::note_of(message).title) == background
}

/// Whether the work of a token is ended.
pub open spec fn ends(event: Event, token: Seq<char>) -> bool {
    &&& event matches Event::Followed { message, .. }
    &&& progress::token_of(message) == Some(token)
    &&& progress::kind_of(message) == Some("end"@)
}

/// Whether work of one or the other sort was begun under a token and has not ended since.
pub open spec fn is_outstanding(history: Seq<Event>, token: Seq<char>, background: bool) -> bool {
    exists|i: int|
        0 <= i < history.len() && begins(#[trigger] history[i], token, background) && forall|j: int|
            i < j < history.len() ==> !ends(#[trigger] history[j], token)
}

/// Whether something that happened is a begin, a report or an end of work, and not of background
/// work.
pub open spec fn is_of_starting(history: Seq<Event>, at: int) -> bool {
    &&& 0 <= at < history.len()
    &&& history[at] matches Event::Followed { message, .. }
    &&& progress::token_of(message) matches Some(token)
    &&& if progress::kind_of(message) == Some("begin"@) {
        !is_background(token, progress::note_of(message).title)
    } else {
        &&& progress::kind_of(message) == Some("report"@) || progress::kind_of(message) == Some(
            "end"@,
        )
        &&& !is_outstanding(history.take(at), token, true)
    }
}

/// Whether no token names background work at one time and the work of starting up at another.
pub open spec fn tokens_are_kept_apart(history: Seq<Event>) -> bool {
    forall|i: int, j: int, token: Seq<char>|
        0 <= i < history.len() && 0 <= j < history.len() ==> !(#[trigger] begins(
            history[i],
            token,
            true,
        ) && #[trigger] begins(history[j], token, false))
}

/// Whether all the work of starting up that was begun has ended.
pub open spec fn all_has_ended(history: Seq<Event>) -> bool {
    forall|token: Seq<char>| !#[trigger] is_outstanding(history, token, false)
}

/// Whether it has been quiet about starting up for so long: since starting up began, and since
/// anything was said of it. Clocks moved back are so much time gone by.
pub open spec fn been_quiet(start: u64, history: Seq<Event>, now: u64, wanted: int) -> bool {
    &&& now - start + rewinds(history) >= wanted
    &&& forall|i: int| #[trigger]
        is_of_starting(history, i) ==> now - at_of(history[i])->0 + rewinds(history.skip(i + 1))
            >= wanted
}

/// Whether it was asked then whether the server is ready, and the answer was that it is.
pub open spec fn was_ready(start: u64, history: Seq<Event>, at: int) -> bool {
    &&& 0 <= at < history.len()
    &&& history[at] matches Event::Asked { at: asked }
    &&& ReadinessModel::fresh(start).after(history.take(at)).ready(asked)
}

/// When starting up was last spoken of, with every clock moved back since.
spec fn last_word(start: u64, history: Seq<Event>) -> int
    decreases history.len(),
{
    if history.len() == 0 {
        start as int
    } else if is_of_starting(history, history.len() - 1) {
        at_of(history.last())->0 as int
    } else {
        last_word(start, history.drop_last()) - match history.last() {
            Event::Rewound { by } => by as int,
            _ => 0,
        }
    }
}

/// What is outstanding once one more thing has happened.
proof fn lemma_outstanding(history: Seq<Event>, token: Seq<char>, background: bool)
    requires
        history.len() > 0,
    ensures
        is_outstanding(history, token, background) <==> begins(history.last(), token, background)
            || (is_outstanding(history.drop_last(), token, background) && !ends(
            history.last(),
            token,
        )),
{
    let before = history.drop_last();
    let last = history.len() - 1;
    assert(forall|i: int| 0 <= i < last ==> before[i] == history[i]);
    assert(history[last] == history.last());
    if begins(history.last(), token, background) {
        assert(begins(history[last], token, background));
    } else if is_outstanding(before, token, background) && !ends(history.last(), token) {
        let i = choose|i: int|
            0 <= i < before.len() && begins(#[trigger] before[i], token, background)
                && forall|j: int| i < j < before.len() ==> !ends(#[trigger] before[j], token);
        assert(begins(history[i], token, background));
        assert forall|j: int| i < j < history.len() implies !ends(
            #[trigger] history[j],
            token,
        ) by {
            if j < last {
                assert(before[j] == history[j]);
            }
        }
    }
    if is_outstanding(history, token, background) && !begins(history.last(), token, background) {
        let i = choose|i: int|
            0 <= i < history.len() && begins(#[trigger] history[i], token, background)
                && forall|j: int| i < j < history.len() ==> !ends(#[trigger] history[j], token);
        assert(i < last);
        assert(begins(before[i], token, background));
        assert forall|j: int| i < j < before.len() implies !ends(#[trigger] before[j], token) by {
            assert(before[j] == history[j]);
        }
    }
}

/// What one more thing happening leaves of the ones ahead of it.
proof fn lemma_earlier_words(start: u64, history: Seq<Event>)
    requires
        history.len() > 0,
    ensures
        forall|i: int|
            i < history.len() - 1 ==> #[trigger] is_of_starting(history, i) == is_of_starting(
                history.drop_last(),
                i,
            ),
        forall|i: int|
            i < history.len() - 1 ==> #[trigger] was_ready(start, history, i) == was_ready(
                start,
                history.drop_last(),
                i,
            ),
        forall|i: int|
            0 <= i < history.len() - 1 ==> rewinds(#[trigger] history.skip(i + 1)) == rewinds(
                history.drop_last().skip(i + 1),
            ) + (rewinds(history) - rewinds(history.drop_last())),
{
    let before = history.drop_last();
    assert forall|i: int| i < history.len() - 1 implies #[trigger] is_of_starting(history, i)
        == is_of_starting(before, i) by {
        if 0 <= i {
            assert(before.take(i) =~= history.take(i));
        }
    }
    assert forall|i: int| i < history.len() - 1 implies #[trigger] was_ready(start, history, i)
        == was_ready(start, before, i) by {
        if 0 <= i {
            assert(before.take(i) =~= history.take(i));
        }
    }
    assert forall|i: int| 0 <= i < history.len() - 1 implies rewinds(
        #[trigger] history.skip(i + 1),
    ) == rewinds(before.skip(i + 1)) + (rewinds(history) - rewinds(before)) by {
        assert(history.skip(i + 1).drop_last() =~= before.skip(i + 1));
        assert(history.skip(i + 1).last() == history.last());
    }
}

/// It has been quiet for as long as the last word is past.
proof fn lemma_quiet_is_since_the_last_word(
    start: u64,
    history: Seq<Event>,
    now: u64,
    wanted: int,
)
    requires
        in_time(start, history, now),
    ensures
        been_quiet(start, history, now, wanted) <==> now - last_word(start, history) >= wanted,
        last_word(start, history) >= start - rewinds(history),
    decreases history.len(),
{
    if history.len() > 0 {
        let before = history.drop_last();
        let last = history.len() - 1;
        let by = rewinds(history) - rewinds(before);
        assert(forall|i: int| 0 <= i < last ==> before[i] == history[i]);
        lemma_earlier_words(start, history);
        lemma_quiet_is_since_the_last_word(start, before, now, wanted - by);
        if is_of_starting(history, last) {
            assert(history.skip(last + 1).len() == 0);
            if now - last_word(start, history) >= wanted {
                assert forall|i: int| #[trigger] is_of_starting(history, i) implies now - at_of(
                    history[i],
                )->0 + rewinds(history.skip(i + 1)) >= wanted by {
                    if i < last {
                        assert(at_of(history[i]) is Some && at_of(history[last]) is Some);
                    }
                }
            }
        } else {
            if been_quiet(start, history, now, wanted) {
                assert forall|i: int| #[trigger] is_of_starting(before, i) implies now - at_of(
                    before[i],
                )->0 + rewinds(before.skip(i + 1)) >= wanted - by by {
                    assert(is_of_starting(history, i));
                    assert(rewinds(history.skip(i + 1)) == rewinds(before.skip(i + 1)) + by);
                }
            }
            if been_quiet(start, before, now, wanted - by) {
                assert forall|i: int| #[trigger] is_of_starting(history, i) implies now - at_of(
                    history[i],
                )->0 + rewinds(history.skip(i + 1)) >= wanted by {
                    assert(i < last);
                    assert(is_of_starting(before, i));
                    assert(rewinds(history.skip(i + 1)) == rewinds(before.skip(i + 1)) + by);
                }
            }
        }
    }
}

/// What is known of a server once several things have happened, told from what happened.
proof fn lemma_what_is_known(start: u64, history: Seq<Event>, now: u64)
    requires
        in_time(start, history, now),
        tokens_are_kept_apart(history),
        rewinds(history) <= start,
    ensures
        ({
            let known = ReadinessModel::fresh(start).after(history);
            &&& known.initialized == start - rewinds(history)
            &&& known.last_spoke == last_word(start, history)
            &&& forall|token: Seq<char>| #[trigger]
                known.starting.contains(token) <==> is_outstanding(history, token, false)
            &&& forall|token: Seq<char>| #[trigger]
                known.background.contains(token) <==> is_outstanding(history, token, true)
            &&& known.finished <==> exists|i: int| #[trigger] was_ready(start, history, i)
        }),
    decreases history.len(),
{
    if history.len() > 0 {
        let before = history.drop_last();
        let last = history.len() - 1;
        let event = history.last();
        assert(forall|i: int| 0 <= i < last ==> before[i] == history[i]);
        assert(tokens_are_kept_apart(before)) by {
            assert forall|i: int, j: int, token: Seq<char>|
                0 <= i < before.len() && 0 <= j < before.len() implies !(#[trigger] begins(
                before[i],
                token,
                true,
            ) && #[trigger] begins(before[j], token, false)) by {
                assert(!(begins(history[i], token, true) && begins(history[j], token, false)));
            }
        }
        lemma_what_is_known(start, before, now);
        lemma_earlier_words(start, history);
        lemma_quiet_is_since_the_last_word(start, before, now, 0);
        assert(history.take(last) =~= before);
        let known = ReadinessModel::fresh(start).after(before);
        let then = ReadinessModel::fresh(start).after(history);
        assert forall|token: Seq<char>| #[trigger]
            then.starting.contains(token) <==> is_outstanding(history, token, false) by {
            lemma_outstanding(history, token, false);
            lemma_outstanding(history, token, true);
            if ends(event, token) && known.background.contains(token) {
                lemma_one_sort_of_work(history, token);
            }
            lemma_kinds_are_different();
        }
        assert forall|token: Seq<char>| #[trigger]
            then.background.contains(token) <==> is_outstanding(history, token, true) by {
            lemma_outstanding(history, token, true);
            lemma_kinds_are_different();
        }
        assert(then.finished <==> exists|i: int| #[trigger] was_ready(start, history, i)) by {
            if known.finished {
                let i = choose|i: int| #[trigger] was_ready(start, before, i);
                assert(was_ready(start, history, i));
            }
            if event is Asked && known.ready(event->Asked_at) {
                assert(was_ready(start, history, last));
            }
            if exists|i: int| #[trigger] was_ready(start, history, i) {
                let i = choose|i: int| #[trigger] was_ready(start, history, i);
                if i < last {
                    assert(was_ready(start, before, i));
                }
            }
        }
        lemma_kinds_are_different();
    }
}

/// Work outstanding in the background is not the work of starting up.
proof fn lemma_one_sort_of_work(history: Seq<Event>, token: Seq<char>)
    requires
        history.len() > 0,
        tokens_are_kept_apart(history),
        is_outstanding(history.drop_last(), token, true),
    ensures
        !is_outstanding(history.drop_last(), token, false),
{
    let before = history.drop_last();
    if is_outstanding(before, token, false) {
        let i = choose|i: int|
            0 <= i < before.len() && begins(#[trigger] before[i], token, true) && forall|j: int|
                i < j < before.len() ==> !ends(#[trigger] before[j], token);
        let k = choose|i: int|
            0 <= i < before.len() && begins(#[trigger] before[i], token, false) && forall|j: int|
                i < j < before.len() ==> !ends(#[trigger] before[j], token);
        assert(begins(history[i], token, true));
        assert(begins(history[k], token, false));
    }
}

/// A begin, a report and an end are three different things.
proof fn lemma_kinds_are_different()
    ensures
        "begin"@ != "report"@,
        "begin"@ != "end"@,
        "report"@ != "end"@,
{
    reveal_strlit("begin");
    reveal_strlit("report");
    reveal_strlit("end");
    assert("begin"@.len() != "report"@.len());
    assert("begin"@.len() != "end"@.len());
    assert("report"@.len() != "end"@.len());
}

/// When a server is ready, whatever has happened since it was told `initialized`: when it was
/// answered to be ready once before, or when [`STARTING_CEILING`] has gone by, or when all the work
/// of starting up that it began has ended and it has been quiet about starting up for [`SETTLING`].
/// And at no other time.
///
/// That is of a server none of whose tokens names background work at one time and the work of
/// starting up at another, and of clocks that are moved back no further than they go.
pub proof fn law_a_server_is_ready_once_it_has_started(
    start: u64,
    history: Seq<Event>,
    now: u64,
)
    requires
        in_time(start, history, now),
        tokens_are_kept_apart(history),
        rewinds(history) <= start,
    ensures
        ReadinessModel::fresh(start).after(history).ready(now) <==> {
            ||| exists|i: int| #[trigger] was_ready(start, history, i)
            ||| now - start + rewinds(history) >= STARTING_CEILING
            ||| all_has_ended(history) && been_quiet(start, history, now, SETTLING as int)
        },
{
    let known = ReadinessModel::fresh(start).after(history);
    lemma_what_is_known(start, history, now);
    lemma_quiet_is_since_the_last_word(start, history, now, SETTLING as int);
    if all_has_ended(history) {
        assert(known.starting =~= Set::<Seq<char>>::empty());
    } else {
        let token = choose|token: Seq<char>| #[trigger] is_outstanding(history, token, false);
        assert(known.starting.contains(token));
    }
}

/// Work that has ended is not work, whatever was said before it.
pub proof fn law_an_end_leaves_nothing_being_done(working: Option<WorkModel>, note: NoteModel)
    ensures
        followed_on(working, Some("end"@), note) is None,
{
    reveal_strlit("begin");
    reveal_strlit("report");
    reveal_strlit("end");
    assert("end"@.len() != "begin"@.len());
    assert("end"@.len() != "report"@.len());
}

/// A report keeps the title its begin gave, and makes no work out of nothing.
pub proof fn law_a_report_keeps_the_title(working: Option<WorkModel>, note: NoteModel)
    ensures
        followed_on(working, Some("report"@), note) is Some <==> working is Some,
        working matches Some(before) ==> (followed_on(
            working,
            Some("report"@),
            note,
        ) matches Some(after) && after.title == before.title),
{
    reveal_strlit("begin");
    reveal_strlit("report");
    assert("report"@.len() != "begin"@.len());
}

/// A document reads as it was last told to the server, whatever is told of any other, and a closed
/// one reads as nothing.
pub proof fn law_a_document_reads_as_it_was_last_told(
    server: ServerModel,
    file_path: Seq<char>,
    text: Seq<char>,
    other: Seq<char>,
)
    ensures
        server.remembering(file_path, text).document(file_path) == Some(text),
        server.forgetting(file_path).document(file_path) is None,
        other != file_path ==> server.remembering(file_path, text).document(other)
            == server.document(other),
        other != file_path ==> server.forgetting(file_path).document(other) == server.document(
            other,
        ),
{
}

/// Every request of the server's own is replied to, under the id it was asked with, so that the
/// server does not sit waiting on a reply that never comes.
pub proof fn law_every_request_of_the_server_is_replied_to(
    server: ServerModel,
    message: JsonModel,
    now: u64,
)
    requires
        method_of(message) is Some,
        message.member("id"@) is Some,
    ensures
        server.received(message, now).0 == server,
        server.received(message, now).1 matches IncomingModel::Reply(reply) && reply.member("id"@)
            == message.member("id"@) && reply.member("result"@) is Some,
{
    reveal_strlit("jsonrpc");
    reveal_strlit("id");
    reveal_strlit("result");
    assert("jsonrpc"@.len() != "id"@.len());
    assert("jsonrpc"@.len() != "result"@.len());
    assert("id"@.len() != "result"@.len());
    let id = message.member("id"@)->0;
    let result = progress::reply_to(method_of(message)->0, message);
    let members = reply_message(id, result)->Object_0;
    assert(members =~= seq![
        ("jsonrpc"@, JsonModel::Text("2.0"@)),
        ("id"@, id),
        ("result"@, result),
    ]);
    reveal_with_fuel(json::named, 4);
    assert(members.drop_first()[0] == ("id"@, id));
    assert(members.drop_first().drop_first()[0] == ("result"@, result));
}

/// A question and the answer to it meet: an answer under the id a question went out with is handed
/// to that question, and to no other, and only once.
pub proof fn law_a_question_and_its_answer_meet(server: ServerModel, answer: JsonModel, now: u64)
    requires
        method_of(answer) is None,
        answer.member("id"@) == Some(JsonModel::whole(server.next_id as int)),
    ensures
        server.asked().received(answer, now).1 == (IncomingModel::Answered {
            id: server.next_id,
            answer: answer_in(answer),
        }),
        !server.asked().received(answer, now).0.pending.contains(server.next_id),
        server.asked().received(answer, now).0.received(answer, now).1 == IncomingModel::Nothing,
{
}

/// Two questions in a row go out under two ids.
pub proof fn law_questions_go_out_under_their_own_ids(server: ServerModel)
    ensures
        server.asked().next_id != server.next_id,
        server.asked().pending.contains(server.next_id),
{
}

/// Nothing that happens to a server once it has agreed to something changes what it is called or
/// what it counts columns in.
pub proof fn law_a_server_keeps_its_name_and_its_units(
    server: ServerModel,
    message: JsonModel,
    now: u64,
    id: i64,
    outcome: OutcomeModel,
    path: Seq<char>,
    text: Seq<char>,
    diagnostics: Seq<DiagnosticModel>,
)
    ensures
        forall|after: ServerModel|
            (after == server.asked() || after == server.settled(id, outcome) || after
                == server.received(message, now).0 || after == server.remembering(path, text)
                || after == server.forgetting(path) || after == server.publishing(
                path,
                diagnostics,
            )) ==> (#[trigger] after.name) == server.name && after.encoding == server.encoding,
{
}

/// Nothing a server sends changes what is open in it, what was agreed with it, or what it is
/// called.
pub proof fn law_a_message_leaves_the_documents_alone(
    server: ServerModel,
    message: JsonModel,
    now: u64,
)
    ensures
        server.received(message, now).0.documents == server.documents,
        server.received(message, now).0.encoding == server.encoding,
        server.received(message, now).0.name == server.name,
        server.received(message, now).0.next_id == server.next_id,
{
}

/// What was last published about a document is what is read about it, however its path is written,
/// and it is about no other document.
pub proof fn law_what_was_last_published_is_what_is_read(
    server: ServerModel,
    path: Seq<char>,
    diagnostics: Seq<DiagnosticModel>,
    other: Seq<char>,
)
    ensures
        paths::components(other) == paths::components(path) ==> server.publishing(
            path,
            diagnostics,
        ).published(other) == diagnostics,
        paths::components(other) != paths::components(path) ==> server.publishing(
            path,
            diagnostics,
        ).published(other) == server.published(other),
{
}

/// Whether words hold others somewhere in them.
pub open spec fn reads(words: Seq<char>, sought: Seq<char>) -> bool {
    exists|at: int| 0 <= at <= words.len() && sought.is_prefix_of(#[trigger] words.skip(at))
}

proof fn lemma_contains_reads(words: Seq<char>, sought: Seq<char>)
    ensures
        text::contains(words, sought) <==> reads(words, sought),
{
    if text::contains(words, sought) {
        let at = choose|at: int| #[trigger] text::occurs_at(words, sought, at);
        assert(sought.is_prefix_of(words.skip(at))) by {
            assert(words.skip(at).subrange(0, sought.len() as int) =~= words.subrange(
                at,
                at + sought.len(),
            ));
        }
    }
    if reads(words, sought) {
        let at = choose|at: int|
            0 <= at <= words.len() && sought.is_prefix_of(#[trigger] words.skip(at));
        assert(words.subrange(at, at + sought.len()) =~= words.skip(at).subrange(
            0,
            sought.len() as int,
        ));
        assert(text::occurs_at(words, sought, at));
    }
}

/// Work is background work exactly when its token or its title, made lower case, holds `flycheck` or
/// `cargo check`. No other word makes it background work, and neither of these leaves it out.
pub proof fn law_background_work_is_named_so(token: Seq<char>, title: Option<Seq<char>>)
    ensures
        is_background(token, title) <==> {
            ||| reads(text::lowered(token), "flycheck"@)
            ||| reads(text::lowered(token), "cargo check"@)
            ||| title matches Some(title) && reads(text::lowered(title), "flycheck"@)
            ||| title matches Some(title) && reads(text::lowered(title), "cargo check"@)
        },
{
    lemma_contains_reads(text::lowered(token), "flycheck"@);
    lemma_contains_reads(text::lowered(token), "cargo check"@);
    if let Some(title) = title {
        lemma_contains_reads(text::lowered(title), "flycheck"@);
        lemma_contains_reads(text::lowered(title), "cargo check"@);
    }
}

/// Work that begins with neither `flycheck` nor `cargo check` in its token or its title, made lower
/// case, is work of starting up: it is outstanding from then on, whatever else is announced, and the
/// server is not ready until it ends or five minutes have passed since starting up began.
pub proof fn law_work_under_any_other_name_holds_readiness_back(
    before: ReadinessModel,
    message: JsonModel,
    token: Seq<char>,
    at: u64,
    history: Seq<Event>,
    now: u64,
)
    requires
        progress::token_of(message) == Some(token),
        progress::kind_of(message) == Some("begin"@),
        !reads(text::lowered(token), "flycheck"@),
        !reads(text::lowered(token), "cargo check"@),
        progress::note_of(message).title matches Some(title) ==> !reads(
            text::lowered(title),
            "flycheck"@,
        ) && !reads(text::lowered(title), "cargo check"@),
        !before.finished,
        now < before.initialized + 300_000_000_000,
        forall|i: int|
            0 <= i < history.len() ==> match #[trigger] history[i] {
                Event::Followed { message, .. } => !(progress::token_of(message) == Some(token)
                    && progress::kind_of(message) == Some("end"@)),
                Event::Asked { at } => at < before.initialized + 300_000_000_000,
                Event::Rewound { .. } => false,
            },
    ensures
        before.followed(message, at).after(history).starting.contains(token),
        !before.followed(message, at).after(history).finished,
        !before.followed(message, at).after(history).ready(now),
    decreases history.len(),
{
    law_background_work_is_named_so(token, progress::note_of(message).title);
    let started = before.followed(message, at);
    lemma_outstanding_is_not_ready(started, token, started.initialized, history);
    let known = started.after(history);
    if known.starting == Set::<Seq<char>>::empty() {
        assert(known.starting.contains(token));
    }
}

proof fn lemma_outstanding_is_not_ready(
    before: ReadinessModel,
    token: Seq<char>,
    initialized: u64,
    history: Seq<Event>,
)
    requires
        before.starting.contains(token),
        before.initialized == initialized,
        !before.finished,
        forall|i: int|
            0 <= i < history.len() ==> match #[trigger] history[i] {
                Event::Followed { message, .. } => !(progress::token_of(message) == Some(token)
                    && progress::kind_of(message) == Some("end"@)),
                Event::Asked { at } => at < initialized + 300_000_000_000,
                Event::Rewound { .. } => false,
            },
    ensures
        before.after(history).starting.contains(token),
        before.after(history).initialized == initialized,
        !before.after(history).finished,
    decreases history.len(),
{
    if history.len() > 0 {
        let fewer = history.drop_last();
        assert(forall|i: int| 0 <= i < fewer.len() ==> fewer[i] == history[i]);
        lemma_outstanding_is_not_ready(before, token, initialized, fewer);
        let known = before.after(fewer);
        assert(history[history.len() - 1] == history.last());
        reveal_strlit("begin");
        reveal_strlit("report");
        reveal_strlit("end");
        if known.starting == Set::<Seq<char>>::empty() {
            assert(known.starting.contains(token));
        }
    }
}

/// Work that begins with `flycheck` or `cargo check` in its token or its title, made lower case, says
/// nothing of starting up: what is outstanding of that, when the server last spoke of it and whether
/// it is ready are as they were.
pub proof fn law_checking_is_no_part_of_starting_up(
    before: ReadinessModel,
    message: JsonModel,
    token: Seq<char>,
    at: u64,
    now: u64,
)
    requires
        progress::token_of(message) == Some(token),
        progress::kind_of(message) == Some("begin"@),
        reads(text::lowered(token), "flycheck"@) || reads(text::lowered(token), "cargo check"@) || (
        progress::note_of(message).title matches Some(title) && (reads(
            text::lowered(title),
            "flycheck"@,
        ) || reads(text::lowered(title), "cargo check"@))),
    ensures
        before.followed(message, at).starting == before.starting,
        before.followed(message, at).last_spoke == before.last_spoke,
        before.followed(message, at).ready(now) == before.ready(now),
{
    law_background_work_is_named_so(token, progress::note_of(message).title);
}

/// A server with nothing of starting up outstanding is ready once it has been quiet for two seconds,
/// and any server is once five minutes have passed since starting up began. Short of both, one that
/// had not finished before is not.
pub proof fn law_two_seconds_of_quiet_or_five_minutes(known: ReadinessModel, now: u64)
    ensures
        now >= known.initialized + 300_000_000_000 ==> known.ready(now),
        known.starting == Set::<Seq<char>>::empty() && now >= known.last_spoke + 2_000_000_000
            ==> known.ready(now),
        !known.finished && now < known.initialized + 300_000_000_000 && now < known.last_spoke
            + 2_000_000_000 ==> !known.ready(now),
        known.asked(now).finished == known.ready(now),
        known.asked(now).starting == known.starting,
        known.asked(now).background == known.background,
        known.asked(now).last_spoke == known.last_spoke,
        known.asked(now).initialized == known.initialized,
{
}

/// A piece of work is told as it was begun: under its title, or `working` where it has none, with what
/// was said of it and how far through it is.
pub proof fn law_a_begin_is_told_as_it_was_said(working: Option<WorkModel>, note: NoteModel)
    ensures
        followed_on(working, Some("begin"@), note) matches Some(work) && {
            &&& note.title matches Some(title) ==> work.title == title
            &&& note.title is None ==> work.title == "working"@
            &&& work.detail == note.message
            &&& work.percentage == note.percentage
        },
{
}

/// A report changes of a piece of work what it says and nothing else; and what is neither a begin, a
/// report nor an end changes nothing at all.
pub proof fn law_a_report_changes_only_what_it_says(
    work: WorkModel,
    note: NoteModel,
    working: Option<WorkModel>,
    kind: Option<Seq<char>>,
)
    ensures
        followed_on(Some(work), Some("report"@), note) matches Some(after) && {
            &&& after.title == work.title
            &&& note.message is Some ==> after.detail == note.message
            &&& note.message is None ==> after.detail == work.detail
            &&& note.percentage is Some ==> after.percentage == note.percentage
            &&& note.percentage is None ==> after.percentage == work.percentage
        },
        kind != Some("begin"@) && kind != Some("report"@) && kind != Some("end"@) ==> followed_on(
            working,
            kind,
            note,
        ) == working,
{
    lemma_kinds_are_different();
}

/// A report of work of starting up, and the end of it, are the server speaking of starting up; the end
/// leaves that work outstanding no longer, and all other work as it was.
pub proof fn law_an_end_leaves_the_rest_outstanding(
    known: ReadinessModel,
    message: JsonModel,
    token: Seq<char>,
    other: Seq<char>,
    now: u64,
)
    requires
        progress::token_of(message) == Some(token),
        !known.background.contains(token),
    ensures
        progress::kind_of(message) == Some("report"@) ==> known.followed(message, now)
            == (ReadinessModel { last_spoke: now, ..known }),
        progress::kind_of(message) == Some("end"@) ==> {
            &&& known.followed(message, now).last_spoke == now
            &&& !known.followed(message, now).starting.contains(token)
            &&& other != token ==> (known.followed(message, now).starting.contains(other)
                <==> known.starting.contains(other))
            &&& known.followed(message, now).background == known.background
            &&& known.followed(message, now).finished == known.finished
            &&& known.followed(message, now).initialized == known.initialized
        },
{
    lemma_kinds_are_different();
}

/// The end of background work leaves it outstanding no longer, and starting up as it was.
pub proof fn law_background_work_ends_too(
    known: ReadinessModel,
    message: JsonModel,
    token: Seq<char>,
    other: Seq<char>,
    now: u64,
)
    requires
        progress::token_of(message) == Some(token),
        known.background.contains(token),
        progress::kind_of(message) == Some("end"@),
    ensures
        !known.followed(message, now).background.contains(token),
        other != token ==> (known.followed(message, now).background.contains(other)
            <==> known.background.contains(other)),
        known.followed(message, now).starting == known.starting,
        known.followed(message, now).last_spoke == known.last_spoke,
{
    lemma_kinds_are_different();
}

/// A message that names a method and no id is a notification, and only `$/progress` makes a
/// difference: to whether the server has started and to what it is doing, and to nothing else. None
/// of them is replied to.
pub proof fn law_only_progress_makes_a_difference(
    server: ServerModel,
    message: JsonModel,
    method: Seq<char>,
    now: u64,
)
    requires
        message.member("method"@) == Some(JsonModel::Text(method)),
        message.member("id"@) is None,
    ensures
        server.received(message, now).1 == IncomingModel::Nothing,
        method != "$/progress"@ ==> server.received(message, now).0 == server,
        method == "$/progress"@ ==> server.received(message, now).0 == (ServerModel {
            readiness: server.readiness.followed(message, now),
            working: followed_on(
                server.working,
                progress::kind_of(message),
                progress::note_of(message),
            ),
            ..server
        }),
{
}

/// A message with an id and no method is the answer to the request of that id where one is waiting:
/// its error where it has one, and otherwise its result, or nothing where it has neither. That request
/// waits no longer and every other still does; where none is waiting nothing happens.
pub proof fn law_an_answer_settles_its_own_request(
    server: ServerModel,
    message: JsonModel,
    id: i64,
    other: i64,
    now: u64,
)
    requires
        message.member("method"@) is None,
        message.member("id"@) matches Some(JsonModel::Number(number)) && number.integer == Some(id),
    ensures
        !server.pending.contains(id) ==> server.received(message, now) == (
            server,
            IncomingModel::Nothing,
        ),
        server.pending.contains(id) ==> {
            let (after, incoming) = server.received(message, now);
            &&& !after.pending.contains(id)
            &&& other != id ==> (after.pending.contains(other) <==> server.pending.contains(other))
            &&& after.readiness == server.readiness
            &&& after.working == server.working
            &&& incoming matches IncomingModel::Answered { id: answered, answer } && answered == id
                && {
                &&& message.member("error"@) matches Some(error) ==> answer == Err::<
                    JsonModel,
                    JsonModel,
                >(error)
                &&& message.member("error"@) is None ==> answer == Ok::<JsonModel, JsonModel>(
                    match message.member("result"@) {
                        Some(result) => result,
                        None => JsonModel::Null,
                    },
                )
            }
        },
{
}

/// A round trip comes to the answer where there is one. A refusal keeps its code, and is told by whom
/// and of what; one that was never sent, or never answered, has none and waits no longer.
pub proof fn law_a_round_trip_comes_to_its_answer(
    server: ServerModel,
    method: Seq<char>,
    answer: JsonModel,
    refusal: RefusalModel,
    reason: Seq<char>,
    seconds: u64,
    id: i64,
    other: i64,
)
    ensures
        server.told(method, OutcomeModel::Answered(answer), seconds) == Ok::<
            JsonModel,
            RefusalModel,
        >(answer),
        server.told(method, OutcomeModel::Refused(refusal), seconds) matches Err(told) && told.code
            == refusal.code && server.name.is_prefix_of(told.said) && refusal.said.is_suffix_of(
            told.said,
        ) && text::contains(told.said, method),
        server.told(method, OutcomeModel::NotSent(reason), seconds) == Err::<
            JsonModel,
            RefusalModel,
        >(RefusalModel { said: reason, code: None }),
        server.told(method, OutcomeModel::NoAnswer, seconds) matches Err(told) && told.code is None
            && server.name.is_prefix_of(told.said) && text::contains(told.said, method)
            && text::contains(told.said, text::decimal(seconds as nat)),
        server.settled(id, OutcomeModel::Answered(answer)) == server,
        server.settled(id, OutcomeModel::Refused(refusal)) == server,
        !server.settled(id, OutcomeModel::NotSent(reason)).pending.contains(id),
        !server.settled(id, OutcomeModel::NoAnswer).pending.contains(id),
        other != id ==> (server.settled(id, OutcomeModel::NoAnswer).pending.contains(other)
            <==> server.pending.contains(other)),
        other != id ==> (server.settled(id, OutcomeModel::NotSent(reason)).pending.contains(other)
            <==> server.pending.contains(other)),
{
    let told = server.told(method, OutcomeModel::Refused(refusal), seconds)->Err_0;
    assert(told.said.subrange(0, server.name.len() as int) =~= server.name);
    assert(told.said.subrange(
        told.said.len() - refusal.said.len(),
        told.said.len() as int,
    ) =~= refusal.said);
    let late = server.told(method, OutcomeModel::NoAnswer, seconds)->Err_0;
    assert(late.said.subrange(0, server.name.len() as int) =~= server.name);
    text::lemma_is_held(server.name + " refused "@, method, ": "@ + refusal.said);
    assert(server.name + " refused "@ + method + (": "@ + refusal.said) =~= told.said);
    let waited = text::decimal(seconds as nat);
    text::lemma_is_held(
        server.name + " did not answer "@,
        method,
        " within "@ + waited + " seconds"@,
    );
    assert(server.name + " did not answer "@ + method + (" within "@ + waited + " seconds"@)
        =~= late.said);
    text::lemma_is_held(
        server.name + " did not answer "@ + method + " within "@,
        waited,
        " seconds"@,
    );
}

/// What goes out to a server says what it is: a request has its id, its method and what it asks with,
/// a notification its method and what it tells but no id, and a reply the id and the result but no
/// method.
pub proof fn law_a_message_says_what_it_is(
    id: i64,
    method: Seq<char>,
    params: JsonModel,
    asked: JsonModel,
    result: JsonModel,
)
    ensures
        ({
            let request = request_message(id, method, params);
            &&& request.member("jsonrpc"@) == Some(JsonModel::Text("2.0"@))
            &&& request.member("id"@) == Some(JsonModel::whole(id as int))
            &&& request.member("method"@) == Some(JsonModel::Text(method))
            &&& request.member("params"@) == Some(params)
        }),
        ({
            let told = notification(method, params);
            &&& told.member("jsonrpc"@) == Some(JsonModel::Text("2.0"@))
            &&& told.member("id"@) is None
            &&& told.member("method"@) == Some(JsonModel::Text(method))
            &&& told.member("params"@) == Some(params)
        }),
        ({
            let reply = reply_message(asked, result);
            &&& reply.member("jsonrpc"@) == Some(JsonModel::Text("2.0"@))
            &&& reply.member("id"@) == Some(asked)
            &&& reply.member("method"@) is None
            &&& reply.member("result"@) == Some(result)
        }),
{
    broadcast use json::law_a_member_reads_back;

    reveal_strlit("jsonrpc");
    reveal_strlit("id");
    reveal_strlit("method");
    reveal_strlit("params");
    reveal_strlit("result");
    assert("id"@.len() == 2);
    assert("method"@.len() == 6 && "params"@.len() == 6 && "result"@.len() == 6);
    assert("method"@[0] != "params"@[0]);
    assert("method"@[0] != "result"@[0]);
    assert("params"@[0] != "result"@[0]);
    assert("jsonrpc"@.len() == 7);
    json::law_values_read_back(Seq::empty(), JsonModel::Null, "id"@, 0);
    json::law_values_read_back(Seq::empty(), JsonModel::Null, "jsonrpc"@, 0);
    json::law_values_read_back(Seq::empty(), JsonModel::Null, "method"@, 0);
    json::law_values_read_back(Seq::empty(), JsonModel::Null, "params"@, 0);
    json::law_values_read_back(Seq::empty(), JsonModel::Null, "result"@, 0);
}

/// A server starts with nothing open, nothing asked and nothing agreed. What it agrees to is what its
/// reply says, and that leaves what is open, what is asked and what it is called as it was.
pub proof fn law_a_server_agrees_to_what_it_replies(
    server: ServerModel,
    name: Seq<char>,
    reply: wire::InitializeModel,
    now: u64,
    file_path: Seq<char>,
    path: Seq<char>,
    id: i64,
)
    ensures
        ({
            let fresh = ServerModel::started(name, now);
            &&& fresh.name == name
            &&& fresh.encoding is None
            &&& fresh.document(file_path) is None
            &&& fresh.published(path).len() == 0
            &&& !fresh.pending.contains(id)
            &&& fresh.working is None
            &&& fresh.triggers.len() == 0
            &&& !fresh.formats
            &&& !fresh.readiness.finished
        }),
        ({
            let agreed = server.agreed(reply, now);
            &&& agreed.encoding == Some(answers::encoding_in(reply))
            &&& agreed.triggers == answers::triggers_in(reply)
            &&& agreed.formats == answers::formats_in(reply)
            &&& agreed.name == server.name
            &&& agreed.next_id == server.next_id
            &&& agreed.pending == server.pending
            &&& agreed.document(file_path) == server.document(file_path)
            &&& agreed.published(path) == server.published(path)
            &&& agreed.working is None
            &&& agreed.readiness.initialized == now
            &&& agreed.readiness.last_spoke == now
            &&& !agreed.readiness.finished
        }),
{
}

/// Questions are numbered one after another.
pub proof fn law_questions_are_numbered_in_turn(server: ServerModel, other: i64)
    ensures
        server.next_id < i64::MAX ==> server.asked().next_id == server.next_id + 1,
        server.next_id == i64::MAX ==> server.asked().next_id == i64::MIN,
        other != server.next_id ==> (server.asked().pending.contains(other)
            <==> server.pending.contains(other)),
        ServerModel::started(server.name, 0).next_id == 1,
{
}

/// Moving the clocks back by some time is letting that time pass, where both of them can go back so
/// far: the server is ready as early by as much. A clock that cannot go back so far stays where it is.
pub proof fn law_moving_the_clocks_back_is_letting_time_pass(
    known: ReadinessModel,
    by: u64,
    now: u64,
)
    ensures
        by <= known.initialized && by <= known.last_spoke && now >= known.initialized && now
            >= known.last_spoke && now + by <= u64::MAX ==> known.rewound(by).ready(now)
            == known.ready((now + by) as u64),
        by > known.initialized ==> known.rewound(by).initialized == known.initialized,
        by > known.last_spoke ==> known.rewound(by).last_spoke == known.last_spoke,
        by <= known.initialized ==> known.rewound(by).initialized + by == known.initialized,
        by <= known.last_spoke ==> known.rewound(by).last_spoke + by == known.last_spoke,
        known.rewound(by).starting == known.starting,
        known.rewound(by).background == known.background,
        known.rewound(by).finished == known.finished,
{
}

/// A request of the server is replied to under its own id with what its method and its params ask for.
pub proof fn law_a_request_is_replied_to_with_what_it_asks_for(
    server: ServerModel,
    message: JsonModel,
    method: Seq<char>,
    id: JsonModel,
    now: u64,
)
    requires
        message.member("method"@) == Some(JsonModel::Text(method)),
        message.member("id"@) == Some(id),
    ensures
        server.received(message, now).1 matches IncomingModel::Reply(reply) && {
            &&& reply.member("id"@) == Some(id)
            &&& reply.member("result"@) == Some(progress::reply_to(method, message))
            &&& reply.member("method"@) is None
            &&& reply.member("error"@) is None
        },
{
    broadcast use json::law_a_member_reads_back;

    law_a_message_says_what_it_is(
        0,
        method,
        JsonModel::Null,
        id,
        progress::reply_to(method, message),
    );
    reveal_strlit("error");
    reveal_strlit("jsonrpc");
    reveal_strlit("id");
    reveal_strlit("result");
    assert("error"@.len() == 5 && "jsonrpc"@.len() == 7 && "id"@.len() == 2 && "result"@.len() == 6);
    json::law_values_read_back(Seq::empty(), JsonModel::Null, "error"@, 0);
}

/// A begin makes its own token outstanding, as background work or as work of starting up, and leaves
/// every other token of either sort as it was. Only the latter is the server speaking of starting up.
pub proof fn law_a_begin_makes_its_own_token_outstanding(
    known: ReadinessModel,
    message: JsonModel,
    token: Seq<char>,
    other: Seq<char>,
    now: u64,
)
    requires
        progress::token_of(message) == Some(token),
        progress::kind_of(message) == Some("begin"@),
    ensures
        ({
            let after = known.followed(message, now);
            let background = is_background(token, progress::note_of(message).title);
            &&& after.starting.contains(other) <==> known.starting.contains(other) || (!background
                && other == token)
            &&& after.background.contains(other) <==> known.background.contains(other) || (background
                && other == token)
            &&& after.last_spoke == if background {
                known.last_spoke
            } else {
                now
            }
            &&& after.initialized == known.initialized
            &&& after.finished == known.finished
        }),
{
}

/// A notification of no known kind says nothing of starting up.
pub proof fn law_only_begin_report_and_end_are_followed(
    known: ReadinessModel,
    message: JsonModel,
    now: u64,
)
    requires
        progress::kind_of(message) != Some("begin"@),
        progress::kind_of(message) != Some("report"@),
        progress::kind_of(message) != Some("end"@),
    ensures
        known.followed(message, now) == known,
{
}

/// Asking, giving up on an answer, opening, closing and publishing each change what they are about and
/// leave everything else that is known of a server as it was.
pub proof fn law_each_change_leaves_the_rest(
    server: ServerModel,
    path: Seq<char>,
    text: Seq<char>,
    diagnostics: Seq<DiagnosticModel>,
    id: i64,
    outcome: OutcomeModel,
)
    ensures
        server.remembering(path, text) == (ServerModel {
            documents: server.remembering(path, text).documents,
            ..server
        }),
        server.forgetting(path) == (ServerModel {
            documents: server.forgetting(path).documents,
            ..server
        }),
        server.publishing(path, diagnostics) == (ServerModel {
            diagnostics: server.publishing(path, diagnostics).diagnostics,
            ..server
        }),
        server.settled(id, outcome) == (ServerModel {
            pending: server.settled(id, outcome).pending,
            ..server
        }),
        server.asked() == (ServerModel {
            pending: server.asked().pending,
            next_id: server.asked().next_id,
            ..server
        }),
{
}

} // verus!
