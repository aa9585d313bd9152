//! The servers this machine is running, and the questions asked of them.
//!
//! A server is started per workspace and per language, and lives as long as the caller
//! keeps the registry. Everything a caller needs is here: whether a file has a server
//! behind it, what those servers are doing, the document notifications, and the questions that
//! can be asked of them.
//!
//! Nothing here waits on a server. What is to be started, told or asked is handed back, and what
//! came of it is handed in.

use vstd::prelude::*;
use vstd::string::*;

use crate::error::{Fault, LspError};
use crate::json::{Json, JsonModel};
use crate::languages;
use crate::languages::{ExtensionSpec, Found, ServerSpec};
use crate::order;
use crate::paths;
use crate::payload::{
    ComplaintModel, LspDiagnostic, LspFormatting, LspPlaces, LspPosition, LspStatus, LspWork,
    LspWorkModel,
};
use crate::process::{LanguageServer, PositionEncoding, ServerModel};
use crate::protocol::answers;
use crate::protocol::params;
use crate::protocol::params::{AskedBecause, ClientIdentity, ClientModel};
use crate::protocol::positions;
use crate::protocol::uris;
use crate::protocol::wire;
use crate::protocol::wire::Diagnostic;
use crate::text;

pub mod laws;
pub mod model;

use model::{OpeningModel, QuestionModel, RegistryModel, RequestModel};

verus! {

broadcast use vstd::string::group_string_axioms;

/// The repo a question is about: where its files are, and what its servers are held under.
///
/// The two are separate because the caller decides how much its servers are shared. A key
/// of the repo path is one set of servers per repo; a key of whatever the caller calls one
/// window's work is a set each, so closing that window takes its servers with it rather
/// than leaving another one's indexing half done. This crate never looks inside the key.
pub struct Workspace<'a> {
    /// What the servers for these files are held under.
    pub key: &'a str,
    /// The repo itself, which is what a server is started in and what its answers are read
    /// against.
    pub root: &'a str,
}

/// The language servers running for one host application.
pub struct LspRegistry {
    /// The `PATH` servers are looked for and started on. The caller's, because where a user
    /// installs their servers is the host application's business - see
    /// [`languages::installed_at`].
    search_path: String,
    /// Who every server started here is told it is talking to. The caller's for the same
    /// reason the search path is: a library has no host application's name to give, so
    /// unless one is said with [`LspRegistry::identifying_as`] this is the crate itself -
    /// see [`ClientIdentity`].
    client: ClientIdentity,
    /// The servers that are running, each with the key of the workspace it is held under.
    servers: Vec<(String, LanguageServer)>,
    /// The servers that are on PATH and would not start, which is not the same as not being
    /// installed at all: a `rust-analyzer` on PATH that is really a rustup shim for a
    /// component nobody added exits the moment it is spoken to, which is how this was found.
    /// The first attempt says why; after it, the file reads as having no server rather than
    /// as one that is forever starting.
    would_not_start: Vec<(String, String)>,
}

/// What keys, one behind another, come to.
pub open spec fn keys_of(keys: Seq<(String, String)>) -> Set<(Seq<char>, Seq<char>)>
    decreases keys.len(),
{
    if keys.len() == 0 {
        Set::empty()
    } else {
        keys_of(keys.drop_last()).insert((keys.last().0@, keys.last().1@))
    }
}

/// Servers as a contract speaks of them.
pub open spec fn servers_of(servers: Seq<(String, LanguageServer)>) -> Seq<
    (Seq<char>, ServerModel),
> {
    servers.map_values(|entry: (String, LanguageServer)| (entry.0@, entry.1@))
}

impl View for LspRegistry {
    type V = RegistryModel;

    closed spec fn view(&self) -> RegistryModel {
        RegistryModel {
            search_path: self.search_path@,
            client: self.client@,
            servers: servers_of(self.servers@),
            gave_up: keys_of(self.would_not_start@),
        }
    }
}

// ---------------------------------------------------------------------------------------------
// What a registry hands back
// ---------------------------------------------------------------------------------------------

/// What opening a file comes to.
#[derive(Debug, PartialEq, Eq)]
pub enum Opening {
    /// Nothing: no server serves the file, or the one that would is not to be had.
    Nothing,
    /// This server is to be started, and the file opened again once it has been handed in with
    /// [`LspRegistry::started`] - or given up on with [`LspRegistry::give_up_on`].
    Start(ServerSpec),
    /// This is to be told to the server of this name, and the text kept with
    /// [`LanguageServer::remember_document`] once it has been.
    Tell(&'static str, Json),
}

impl View for Opening {
    type V = OpeningModel;

    open spec fn view(&self) -> OpeningModel {
        match self {
            Opening::Nothing => OpeningModel::Nothing,
            Opening::Start(server) => OpeningModel::Start(server@),
            Opening::Tell(name, message) => OpeningModel::Tell(name@, message@),
        }
    }
}

/// What a question about a place in a file needs: the server to ask, the document's URI,
/// and the position in the units that server agreed to.
#[derive(Debug, PartialEq, Eq)]
pub struct Question {
    /// The server, by its name.
    pub server: &'static str,
    /// The document.
    pub uri: String,
    /// The line.
    pub line: usize,
    /// The column, already converted - see [`crate::protocol::lsp_character`].
    pub character: u32,
}

impl View for Question {
    type V = QuestionModel;

    open spec fn view(&self) -> QuestionModel {
        QuestionModel {
            server: self.server@,
            uri: self.uri@,
            line: self.line,
            character: self.character,
        }
    }
}

/// A request to put to a server.
#[derive(Debug, PartialEq, Eq)]
pub struct Request {
    /// The server, by its name.
    pub server: &'static str,
    /// What is asked.
    pub method: &'static str,
    /// About what.
    pub params: Json,
}

impl View for Request {
    type V = RequestModel;

    open spec fn view(&self) -> RequestModel {
        RequestModel { server: self.server@, method: self.method@, params: self.params@ }
    }
}

/// What is to be asked, or a refusal, as a contract speaks of it.
pub open spec fn asking(request: Result<Option<Request>, LspError>) -> Result<
    Option<RequestModel>,
    Fault,
> {
    match request {
        Ok(Some(request)) => Ok(Some(request@)),
        Ok(None) => Ok(None),
        Err(error) => Err(error@),
    }
}

/// What a file's server is to be told, as a contract speaks of it.
pub open spec fn told(message: Option<(&'static str, Json)>) -> Option<(Seq<char>, JsonModel)> {
    match message {
        Some((server, message)) => Some((server@, message@)),
        None => None,
    }
}

// ---------------------------------------------------------------------------------------------
// The registry
// ---------------------------------------------------------------------------------------------

/// What to say about a file before any running server is looked at.
///
/// Every way of having no server reads the same to the person: an extension nothing in the
/// table serves, a server that is in the table but is not installed on this machine, and
/// one that is installed and would not start. Anything else has a server behind it, which
/// has at the least started.
pub fn status_without_a_server(
    language: Option<&ExtensionSpec>,
    has_a_server_to_start: bool,
) -> (status: LspStatus)
    ensures
        status == if language is Some && has_a_server_to_start {
            LspStatus::Starting
        } else {
            LspStatus::Unavailable
        },
{
    match (language, has_a_server_to_start) {
        (Some(_), true) => LspStatus::Starting,
        _ => LspStatus::Unavailable,
    }
}

/// A server put in the place of another is one server put in the place of another.
proof fn lemma_one_in_place_of_another(servers: Seq<(String, LanguageServer)>, at: int)
    requires
        0 <= at < servers.len(),
    ensures
        forall|entry: (String, LanguageServer)| #[trigger]
            servers_of(servers.update(at, entry)) == servers_of(servers).update(
                at,
                (entry.0@, entry.1@),
            ),
{
    assert forall|entry: (String, LanguageServer)| #[trigger]
        servers_of(servers.update(at, entry)) == servers_of(servers).update(
            at,
            (entry.0@, entry.1@),
        ) by {
        assert(servers_of(servers.update(at, entry)) =~= servers_of(servers).update(
            at,
            (entry.0@, entry.1@),
        ));
    }
}

impl LspRegistry {
    /// A registry that looks for its servers on `search_path`, which is a `PATH`.
    ///
    /// Every server it starts is told it is talking to `moon_lsp`, of this crate's version,
    /// until a caller says otherwise with [`LspRegistry::identifying_as`].
    pub fn new(search_path: String) -> (registry: Self)
        ensures
            registry@.wf(),
            registry@ == RegistryModel::fresh(
                search_path@,
                ClientModel {
                    name: params::CRATE_NAME@,
                    version: Some(params::CRATE_VERSION@),
                },
            ),
    {
        let registry = LspRegistry {
            search_path,
            client: ClientIdentity::default(),
            servers: Vec::new(),
            would_not_start: Vec::new(),
        };
        assert(registry@.servers =~= Seq::empty());
        registry
    }

    /// Say who the host application is, so that is what its servers are told rather than the
    /// name of the library they are being spoken to through.
    ///
    /// Worth saying: a server writes `clientInfo` into its log, which is where a report about
    /// one of these servers is eventually read, and a few of them offer different things to
    /// different editors. It is a separate call rather than an argument to
    /// [`LspRegistry::new`] because a caller that has nothing to say about itself is already
    /// answered truthfully - see [`ClientIdentity`].
    pub fn identifying_as(self, client: ClientIdentity) -> (registry: Self)
        ensures
            registry@ == (RegistryModel { client: client@, ..self@ }),
    {
        let mut registry = self;
        registry.client = client;
        registry
    }

    /// Where the server of a name for a workspace is among those running.
    fn position(&self, workspace_key: &str, name: &str) -> (found: Option<usize>)
        ensures
            match found {
                Some(at) => model::running_at(self@.servers, workspace_key@, name@, 0) == Some(at as int)
                    && at < self.servers@.len() && self@.servers[at as int].0 == workspace_key@
                    && self@.servers[at as int].1 == self.servers@[at as int].1@
                    && self@.servers[at as int].1.name == name@,
                None => model::running_at(self@.servers, workspace_key@, name@, 0) is None,
            },
    {
        let ghost all = servers_of(self.servers@);
        let mut at: usize = 0;
        while at < self.servers.len()
            invariant
                all == servers_of(self.servers@),
                at <= self.servers@.len(),
                model::running_at(all, workspace_key@, name@, 0) == model::running_at(
                    all,
                    workspace_key@,
                    name@,
                    at as int,
                ),
            decreases self.servers@.len() - at,
        {
            assert(all[at as int] == (self.servers@[at as int].0@, self.servers@[at as int].1@));
            if text::same(self.servers[at].0.as_str(), workspace_key) && text::same(
                self.servers[at].1.called(),
                name,
            ) {
                return Some(at);
            }
            at += 1;
        }
        None
    }

    /// What one running server agreed to count columns in. `None` when no server of that
    /// name is running for this key.
    pub fn agreed_encoding(&self, workspace_key: &str, server_name: &str) -> (encoding: Option<
        PositionEncoding,
    >)
        requires
            self@.wf(),
        ensures
            encoding == (match self@.running(workspace_key@, server_name@) {
                Some(server) => server.encoding,
                None => None,
            }),
    {
        match self.position(workspace_key, server_name) {
            Some(at) => Some(self.servers[at].1.encoding()),
            None => None,
        }
    }

    /// Whether this server has already been tried and would not start.
    pub fn gave_up_on(&self, key: &(String, &'static str)) -> (gave_up: bool)
        ensures
            gave_up == self@.gave_up.contains((key.0@, key.1@)),
    {
        self.gave_up(key.0.as_str(), key.1)
    }

    /// The same, by its two parts.
    fn gave_up(&self, workspace_key: &str, name: &str) -> (gave_up: bool)
        ensures
            gave_up == self@.gave_up.contains((workspace_key@, name@)),
    {
        let ghost all = self.would_not_start@;
        let ghost key = (workspace_key@, name@);
        let mut at: usize = self.would_not_start.len();
        assert(all.take(at as int) =~= all);
        while at > 0
            invariant
                all == self.would_not_start@,
                at <= all.len(),
                key == (workspace_key@, name@),
                keys_of(all).contains(key) == keys_of(all.take(at as int)).contains(key),
            decreases at,
        {
            at -= 1;
            assert(all.take(at + 1).drop_last() =~= all.take(at as int));
            let entry = &self.would_not_start[at];
            if text::same(entry.0.as_str(), workspace_key) && text::same(entry.1.as_str(), name) {
                return true;
            }
        }
        false
    }

    /// Take that a server would not start. Said once, and then the file is one with no server
    /// behind it.
    pub fn give_up_on(&mut self, key: &(String, &'static str))
        ensures
            final(self)@ == old(self)@.giving_up(key.0@, key.1@),
    {
        let ghost before = self.would_not_start@;
        self.would_not_start.push((key.0.clone(), key.1.to_owned()));
        assert(self.would_not_start@.drop_last() =~= before);
    }

    /// The row for a file whose server is installed here. `None` covers both of the
    /// [`LspStatus::Unavailable`] cases.
    fn served_language<F: Fn(&str) -> bool>(
        &self,
        file_path: &str,
        found: &mut Found,
        runnable: &F,
    ) -> (row: Option<ExtensionSpec>)
        requires
            forall|path: &str| call_requires(*runnable, (path,)),
        ensures
            model::looks_for(*runnable, old(found)@, final(found)@, self@.search_path, file_path@),
            languages::maybe_row(row) == self@.served(final(found)@, file_path@),
    {
        let row = match languages::for_file(file_path) {
            Some(row) => row,
            None => {
                return None;
            },
        };
        let ghost before = found@;
        let place = languages::installed_at(
            found,
            row.server.command,
            self.search_path.as_str(),
            runnable,
        );
        proof {
            let key = (self.search_path@, row.server.command@);
            if !before.contains_key(key) {
                assert(found@ == before.insert(key, text::maybe(place)));
            }
        }
        if place.is_none() {
            return None;
        }
        Some(row)
    }

    /// Who every server started here is told it is talking to.
    pub fn client(&self) -> (client: &ClientIdentity)
        ensures
            client@ == self@.client,
    {
        &self.client
    }

    /// Hold a server that has been started and has agreed to something. Starting one waits on
    /// nobody, so two callers may start the same server at once: the first to be handed in is the
    /// one that is held, and the other is not.
    pub fn started(&mut self, workspace_key: &str, server: LanguageServer) -> (held: bool)
        requires
            old(self)@.wf(),
            server@.encoding is Some,
        ensures
            final(self)@.wf(),
            held == (old(self)@.running(workspace_key@, server@.name) is None),
            held ==> final(self)@ == old(self)@.holding(workspace_key@, server@),
            !held ==> final(self)@ == old(self)@,
    {
        proof {
            model::lemma_running_at(self@.servers, workspace_key@, server@.name, 0);
        }
        if self.position(workspace_key, server.called()).is_some() {
            return false;
        }
        let ghost before = self@.servers;
        self.servers.push((workspace_key.to_owned(), server));
        assert(self@.servers =~= before.push((workspace_key@, server@)));
        true
    }

    /// The server of a name for a workspace, to hand what it sent and take what it is to be sent.
    /// `None` when no such server is running.
    pub fn server(&mut self, workspace_key: &str, server_name: &str) -> (found: Option<
        &mut LanguageServer,
    >)
        ensures
            match found {
                Some(server) => {
                    &&& old(self)@.running(workspace_key@, server_name@) == Some(server@)
                    &&& final(self)@ == old(self)@.with_server(
                        workspace_key@,
                        server_name@,
                        final(server)@,
                    )
                    &&& old(self)@.wf() && final(server)@.name == server_name@
                        && final(server)@.encoding is Some ==> final(self)@.wf()
                },
                None => {
                    &&& old(self)@.running(workspace_key@, server_name@) is None
                    &&& final(self)@ == old(self)@
                },
            },
    {
        match self.position(workspace_key, server_name) {
            Some(at) => {
                proof {
                    lemma_one_in_place_of_another(self.servers@, at as int);
                    if self@.wf() {
                        model::lemma_in_place(self@, workspace_key@, server_name@);
                    }
                }
                Some(&mut self.servers[at].1)
            },
            None => None,
        }
    }

    /// Whether a language server is behind this file, and whether it has finished starting.
    ///
    /// Answered without the repo root: nothing has to be read off disk to say whether a
    /// server exists, is installed, and has settled.
    pub fn status<F: Fn(&str) -> bool>(
        &mut self,
        workspace_key: &str,
        file_path: &str,
        found: &mut Found,
        runnable: &F,
        now: u64,
    ) -> (status: LspStatus)
        requires
            old(self)@.wf(),
            forall|path: &str| call_requires(*runnable, (path,)),
        ensures
            final(self)@.wf(),
            model::looks_for(
                *runnable,
                old(found)@,
                final(found)@,
                old(self)@.search_path,
                file_path@,
            ),
            status == old(self)@.status(final(found)@, workspace_key@, file_path@, now),
            final(self)@ == old(self)@.after_status(
                final(found)@,
                workspace_key@,
                file_path@,
                now,
            ),
    {
        let language = match self.served_language(file_path, found, runnable) {
            Some(language) => language,
            None => {
                return status_without_a_server(None, false);
            },
        };
        if self.gave_up(workspace_key, language.server.name) {
            return status_without_a_server(Some(&language), false);
        }
        let ghost before = self@;
        let name = language.server.name;
        match self.server(workspace_key, name) {
            // Nothing started yet, and something to start: the file has a server behind it
            // and it is not answering questions about this file yet, which is what starting
            // is.
            None => status_without_a_server(Some(&language), true),
            Some(server) => {
                proof {
                    model::lemma_in_place(before, workspace_key@, name@);
                }
                if server.is_ready(now) {
                    LspStatus::Ready
                } else {
                    LspStatus::Starting
                }
            },
        }
    }

    /// What every language server running for this workspace is doing right now.
    ///
    /// Empty means nothing is working: either no server has started for this workspace, or
    /// every one of them has finished what it announced. That is the ordinary state, and it
    /// reads as "nothing to wait for" rather than as an answer that could not be got.
    ///
    /// A server that is starting but has announced nothing yet is not in here either. It has
    /// said nothing about itself, and inventing a line for it would be a guess at what a
    /// server is doing - which is the whole thing this exists not to do.
    pub fn working(&self, workspace_key: &str) -> (working: Vec<LspWork>)
        ensures
            order::models(working@) == self@.working(workspace_key@),
    {
        let ghost all = self@.servers;
        let mut working: Vec<LspWork> = Vec::new();
        let mut at: usize = 0;
        assert(all.take(0).len() == 0);
        assert(order::models(working@) =~= Seq::<LspWorkModel>::empty());
        while at < self.servers.len()
            invariant
                all == servers_of(self.servers@),
                at <= self.servers@.len(),
                order::models(working@) == model::works_in(all.take(at as int), workspace_key@),
            decreases self.servers@.len() - at,
        {
            let ghost before = order::models(working@);
            let (key, server) = &self.servers[at];
            proof {
                assert(all.take(at + 1).drop_last() =~= all.take(at as int));
                assert(all.take(at + 1).last() == (key@, server@));
            }
            if text::same(key.as_str(), workspace_key) {
                if let Some(doing) = server.working() {
                    let work = LspWork {
                        server: server.called().to_owned(),
                        title: doing.title,
                        detail: doing.detail,
                        percentage: doing.percentage,
                    };
                    working.push(work);
                    assert(order::models(working@) =~= before.push(work@));
                }
            }
            at += 1;
        }
        assert(all.take(at as int) =~= all);
        // By server name, so a caller with two of them running does not have its line
        // swapping between them as servers come and go.
        order::sort(working)
    }

    /// The characters the server behind a file said should open a completion list. None at all
    /// for a file with no server running.
    pub fn trigger_characters(&self, workspace_key: &str, file_path: &str) -> (triggers: Vec<char>)
        ensures
            triggers@ == self@.triggers(workspace_key@, file_path@),
    {
        let language = match languages::for_file(file_path) {
            Some(language) => language,
            None => {
                return Vec::new();
            },
        };
        match self.position(workspace_key, language.server.name) {
            Some(at) => self.servers[at].1.trigger_characters(),
            None => Vec::new(),
        }
    }

    // -----------------------------------------------------------------------------------------
    // What servers are told
    // -----------------------------------------------------------------------------------------

    /// Tell the server a file is open and what is in it, starting the server if this is the
    /// first file of its language. A file no server serves is quietly nothing to do.
    pub fn did_open<F: Fn(&str) -> bool>(
        &self,
        workspace: &Workspace<'_>,
        file_path: &str,
        text: &str,
        found: &mut Found,
        runnable: &F,
    ) -> (opening: Opening)
        requires
            forall|path: &str| call_requires(*runnable, (path,)),
        ensures
            model::looks_for(*runnable, old(found)@, final(found)@, self@.search_path, file_path@),
            opening@ == self@.opening(final(found)@, workspace.key@, workspace.root@, file_path@, text@),
    {
        let language = match self.served_language(file_path, found, runnable) {
            Some(language) => language,
            None => {
                return Opening::Nothing;
            },
        };
        if self.gave_up(workspace.key, language.server.name) {
            return Opening::Nothing;
        }
        let at: usize = match self.position(workspace.key, language.server.name) {
            Some(at) => at,
            None => {
                return Opening::Start(language.server);
            },
        };
        let server = &self.servers[at].1;
        let uri = uris::file_uri(paths::join(workspace.root, file_path).as_str());
        let message = if server.has_document(file_path) {
            // Opening the same file twice is a second pane on it, not a new document.
            server.notify("textDocument/didChange", params::did_change_params(uri.as_str(), text))
        } else {
            server.notify(
                "textDocument/didOpen",
                params::did_open_params(uri.as_str(), language.language_id, text),
            )
        };
        Opening::Tell(language.server.name, message)
    }

    /// The server a file is open in, and where it is among those running.
    fn open_at<F: Fn(&str) -> bool>(
        &self,
        workspace_key: &str,
        file_path: &str,
        found: &mut Found,
        runnable: &F,
    ) -> (open: Option<(usize, &'static str)>)
        requires
            forall|path: &str| call_requires(*runnable, (path,)),
        ensures
            model::looks_for(*runnable, old(found)@, final(found)@, self@.search_path, file_path@),
            match open {
                Some((at, name)) => self@.open_in(final(found)@, workspace_key@, file_path@) == Some(name@)
                    && at < self.servers@.len(),
                None => self@.open_in(final(found)@, workspace_key@, file_path@) is None,
            },
    {
        let language = match self.served_language(file_path, found, runnable) {
            Some(language) => language,
            None => {
                return None;
            },
        };
        match self.position(workspace_key, language.server.name) {
            // Nothing has this file open, so there is nothing to tell about it.
            None => None,
            Some(at) => if self.servers[at].1.has_document(file_path) {
                Some((at, language.server.name))
            } else {
                None
            },
        }
    }

    /// The whole text again, as it stands: what is to be told to which server, and the text kept
    /// with [`LanguageServer::remember_document`] once it has been.
    ///
    /// **The caller debounces.** Where this is reached over a network it is a round trip,
    /// and one per keystroke would flood it - send it after the typing has paused, not while
    /// it is going on.
    pub fn did_change<F: Fn(&str) -> bool>(
        &self,
        workspace: &Workspace<'_>,
        file_path: &str,
        text: &str,
        found: &mut Found,
        runnable: &F,
    ) -> (message: Option<(&'static str, Json)>)
        requires
            forall|path: &str| call_requires(*runnable, (path,)),
        ensures
            model::looks_for(*runnable, old(found)@, final(found)@, self@.search_path, file_path@),
            told(message) == self@.telling(
                final(found)@,
                workspace.key@,
                file_path@,
                "textDocument/didChange"@,
                params::changed(model::document_uri(workspace.root@, file_path@), text@),
            ),
    {
        match self.open_at(workspace.key, file_path, found, runnable) {
            None => None,
            Some((at, name)) => {
                let uri = uris::file_uri(paths::join(workspace.root, file_path).as_str());
                let params = params::did_change_params(uri.as_str(), text);
                Some((name, self.servers[at].1.notify("textDocument/didChange", params)))
            },
        }
    }

    /// Tell the server a file was written, which is what rust-analyzer runs `cargo check` on.
    pub fn did_save<F: Fn(&str) -> bool>(
        &self,
        workspace: &Workspace<'_>,
        file_path: &str,
        found: &mut Found,
        runnable: &F,
    ) -> (message: Option<(&'static str, Json)>)
        requires
            forall|path: &str| call_requires(*runnable, (path,)),
        ensures
            model::looks_for(*runnable, old(found)@, final(found)@, self@.search_path, file_path@),
            told(message) == self@.telling(
                final(found)@,
                workspace.key@,
                file_path@,
                "textDocument/didSave"@,
                params::closed_document(model::document_uri(workspace.root@, file_path@)),
            ),
    {
        match self.open_at(workspace.key, file_path, found, runnable) {
            None => None,
            Some((at, name)) => {
                let uri = uris::file_uri(paths::join(workspace.root, file_path).as_str());
                let params = params::did_close_params(uri.as_str());
                Some((name, self.servers[at].1.notify("textDocument/didSave", params)))
            },
        }
    }

    /// Tell the server this side is done with a file: what is to be told to which server, and the
    /// text dropped with [`LanguageServer::forget_document`] once it has been.
    pub fn did_close<F: Fn(&str) -> bool>(
        &self,
        workspace: &Workspace<'_>,
        file_path: &str,
        found: &mut Found,
        runnable: &F,
    ) -> (message: Option<(&'static str, Json)>)
        requires
            forall|path: &str| call_requires(*runnable, (path,)),
        ensures
            model::looks_for(*runnable, old(found)@, final(found)@, self@.search_path, file_path@),
            told(message) == self@.telling(
                final(found)@,
                workspace.key@,
                file_path@,
                "textDocument/didClose"@,
                params::closed_document(model::document_uri(workspace.root@, file_path@)),
            ),
    {
        match self.open_at(workspace.key, file_path, found, runnable) {
            None => None,
            Some((at, name)) => {
                let uri = uris::file_uri(paths::join(workspace.root, file_path).as_str());
                let params = params::did_close_params(uri.as_str());
                Some((name, self.servers[at].1.notify("textDocument/didClose", params)))
            },
        }
    }

    // -----------------------------------------------------------------------------------------
    // What servers are asked
    // -----------------------------------------------------------------------------------------

    /// Where the server a question about a file goes to is among those running.
    ///
    /// `None` for a file no server serves. A file that is not open is an error rather than
    /// an empty answer: a question about a document the server has never been told about is
    /// a caller that skipped [`LspRegistry::did_open`], not a question with no answer.
    fn asked_at<F: Fn(&str) -> bool>(
        &self,
        workspace_key: &str,
        file_path: &str,
        found: &mut Found,
        runnable: &F,
    ) -> (asked: Result<Option<(usize, &'static str, String)>, LspError>)
        requires
            forall|path: &str| call_requires(*runnable, (path,)),
        ensures
            model::looks_for(*runnable, old(found)@, final(found)@, self@.search_path, file_path@),
            match asked {
                Err(error) => self@.to_ask(final(found)@, workspace_key@, file_path@) == Err::<
                    Option<Seq<char>>,
                    Fault,
                >(error@),
                Ok(None) => self@.to_ask(final(found)@, workspace_key@, file_path@) == Ok::<
                    Option<Seq<char>>,
                    Fault,
                >(None),
                Ok(Some((at, name, text))) => {
                    &&& self@.to_ask(final(found)@, workspace_key@, file_path@) == Ok::<
                        Option<Seq<char>>,
                        Fault,
                    >(Some(name@))
                    &&& at < self.servers@.len()
                    &&& self@.running(workspace_key@, name@) == Some(
                        self.servers@[at as int].1@,
                    )
                    &&& self.servers@[at as int].1@.document(file_path@) == Some(text@)
                },
            },
    {
        let language = match self.served_language(file_path, found, runnable) {
            Some(language) => language,
            None => {
                return Ok(None);
            },
        };
        let name = language.server.name;
        let at: usize = match self.position(workspace_key, name) {
            Some(at) => at,
            None => {
                return Err(LspError::NotRunning { server: name.to_owned() });
            },
        };
        match self.servers[at].1.document_text(file_path) {
            Some(text) => Ok(Some((at, name, text))),
            None => Err(
                LspError::NotOpen { file_path: file_path.to_owned(), server: name.to_owned() },
            ),
        }
    }

    /// Work out what a question about one place in one file needs.
    ///
    /// `None` for a file no server serves.
    pub fn ask<F: Fn(&str) -> bool>(
        &self,
        workspace: &Workspace<'_>,
        file_path: &str,
        at: &LspPosition,
        found: &mut Found,
        runnable: &F,
    ) -> (question: Result<Option<Question>, LspError>)
        requires
            self@.wf(),
            forall|path: &str| call_requires(*runnable, (path,)),
        ensures
            model::looks_for(*runnable, old(found)@, final(found)@, self@.search_path, file_path@),
            match question {
                Ok(Some(question)) => self@.question(
                    final(found)@,
                    workspace.key@,
                    workspace.root@,
                    file_path@,
                    *at,
                ) == Ok::<Option<QuestionModel>, Fault>(Some(question@)),
                Ok(None) => self@.question(
                    final(found)@,
                    workspace.key@,
                    workspace.root@,
                    file_path@,
                    *at,
                ) == Ok::<Option<QuestionModel>, Fault>(None),
                Err(error) => self@.question(
                    final(found)@,
                    workspace.key@,
                    workspace.root@,
                    file_path@,
                    *at,
                ) == Err::<Option<QuestionModel>, Fault>(error@),
            },
    {
        let (index, name, text) = match self.asked_at(workspace.key, file_path, found, runnable) {
            Err(error) => {
                return Err(error);
            },
            Ok(None) => {
                return Ok(None);
            },
            Ok(Some(asked)) => asked,
        };
        let uri = uris::file_uri(paths::join(workspace.root, file_path).as_str());
        let text = text.as_str();
        proof {
            model::lemma_running_at(self@.servers, workspace.key@, name@, 0);
            text::lemma_text_is_its_bytes(text);
        }
        match positions::position_in(text, at, self.servers[index].1.encoding()) {
            Err(error) => Err(error),
            Ok(character) => Ok(
                Some(Question { server: name, uri, line: at.line, character }),
            ),
        }
    }

    /// The places of the name at this place: where it is defined, where its type is, where it is
    /// implemented, or everywhere it is used. Nothing to ask for a file no server serves; what the
    /// server answers is read with [`crate::protocol::locations_from`].
    pub fn places<F: Fn(&str) -> bool>(
        &self,
        workspace: &Workspace<'_>,
        file_path: &str,
        at: LspPosition,
        which: LspPlaces,
        found: &mut Found,
        runnable: &F,
    ) -> (request: Result<Option<Request>, LspError>)
        requires
            self@.wf(),
            forall|path: &str| call_requires(*runnable, (path,)),
        ensures
            model::looks_for(*runnable, old(found)@, final(found)@, self@.search_path, file_path@),
            asking(request) == self@.about(
                final(found)@,
                (workspace.key@, workspace.root@),
                file_path@,
                at,
                params::method_for(which),
                |question: QuestionModel|
                    params::about_places(question.uri, question.line, question.character, which),
            ),
    {
        match self.ask(workspace, file_path, &at, found, runnable) {
            Err(error) => Err(error),
            Ok(None) => Ok(None),
            Ok(Some(question)) => {
                let params = params::places_params(
                    question.uri.as_str(),
                    question.line,
                    question.character,
                    which,
                );
                Ok(Some(Request { server: question.server, method: params::places_method(which), params }))
            },
        }
    }

    /// Where the name at this place is defined.
    pub fn definition<F: Fn(&str) -> bool>(
        &self,
        workspace: &Workspace<'_>,
        file_path: &str,
        at: LspPosition,
        found: &mut Found,
        runnable: &F,
    ) -> (request: Result<Option<Request>, LspError>)
        requires
            self@.wf(),
            forall|path: &str| call_requires(*runnable, (path,)),
        ensures
            model::looks_for(*runnable, old(found)@, final(found)@, self@.search_path, file_path@),
            asking(request) == self@.about(
                final(found)@,
                (workspace.key@, workspace.root@),
                file_path@,
                at,
                "textDocument/definition"@,
                |question: QuestionModel|
                    params::about_place(question.uri, question.line, question.character),
            ),
    {
        self.places(workspace, file_path, at, LspPlaces::Definition, found, runnable)
    }

    /// What could be typed at this place, and why it is asked: one of the server's triggers where
    /// that is what the place sits behind. What the server answers is read with
    /// [`crate::protocol::completions_from`].
    pub fn completion<F: Fn(&str) -> bool>(
        &self,
        workspace: &Workspace<'_>,
        file_path: &str,
        at: LspPosition,
        found: &mut Found,
        runnable: &F,
    ) -> (request: Result<Option<Request>, LspError>)
        requires
            self@.wf(),
            forall|path: &str| call_requires(*runnable, (path,)),
        ensures
            model::looks_for(*runnable, old(found)@, final(found)@, self@.search_path, file_path@),
            asking(request) == self@.about(
                final(found)@,
                (workspace.key@, workspace.root@),
                file_path@,
                at,
                "textDocument/completion"@,
                |question: QuestionModel|
                    params::about_place(question.uri, question.line, question.character).with(
                        "context"@,
                        self@.because(
                            workspace.key@,
                            question.server,
                            file_path@,
                            at,
                        ).context(),
                    ),
            ),
    {
        match self.ask(workspace, file_path, &at, found, runnable) {
            Err(error) => Err(error),
            Ok(None) => Ok(None),
            Ok(Some(question)) => {
                let because = self.asked_because(workspace.key, question.server, file_path, &at);
                let params = params::completion_params(
                    question.uri.as_str(),
                    question.line,
                    question.character,
                    because,
                );
                Ok(Some(Request { server: question.server, method: "textDocument/completion", params }))
            },
        }
    }

    /// Why what could be typed at a place is asked about - see [`RegistryModel::because`].
    fn asked_because(
        &self,
        workspace_key: &str,
        name: &str,
        file_path: &str,
        at: &LspPosition,
    ) -> (because: AskedBecause)
        requires
            self@.running(workspace_key@, name@) matches Some(server) && server.document(
                file_path@,
            ) is Some,
        ensures
            because == self@.because(workspace_key@, name@, file_path@, *at),
    {
        if let Some(index) = self.position(workspace_key, name) {
            let server = &self.servers[index].1;
            if let Some(text) = server.document_text(file_path) {
                let text = text.as_str();
                proof {
                    text::lemma_text_is_its_bytes(text);
                }
                if let Some(typed) = positions::character_before(text, at) {
                    if server.triggers_on(typed) {
                        return AskedBecause::OneOfItsTriggersWasTyped(typed);
                    }
                }
            }
        }
        AskedBecause::SomebodyIsTyping
    }

    /// What the server says about the name at this place. What it answers is read with
    /// [`crate::protocol::hover_markdown_from`].
    pub fn hover<F: Fn(&str) -> bool>(
        &self,
        workspace: &Workspace<'_>,
        file_path: &str,
        at: LspPosition,
        found: &mut Found,
        runnable: &F,
    ) -> (request: Result<Option<Request>, LspError>)
        requires
            self@.wf(),
            forall|path: &str| call_requires(*runnable, (path,)),
        ensures
            model::looks_for(*runnable, old(found)@, final(found)@, self@.search_path, file_path@),
            asking(request) == self@.about(
                final(found)@,
                (workspace.key@, workspace.root@),
                file_path@,
                at,
                "textDocument/hover"@,
                |question: QuestionModel|
                    params::about_place(question.uri, question.line, question.character),
            ),
    {
        match self.ask(workspace, file_path, &at, found, runnable) {
            Err(error) => Err(error),
            Ok(None) => Ok(None),
            Ok(Some(question)) => {
                let params = params::position_params(
                    question.uri.as_str(),
                    question.line,
                    question.character,
                );
                Ok(Some(Request { server: question.server, method: "textDocument/hover", params }))
            },
        }
    }

    /// The signature of the call around this place, with the parameter being typed. What the server
    /// answers is read with [`crate::protocol::signature_from`].
    pub fn signature_help<F: Fn(&str) -> bool>(
        &self,
        workspace: &Workspace<'_>,
        file_path: &str,
        at: LspPosition,
        found: &mut Found,
        runnable: &F,
    ) -> (request: Result<Option<Request>, LspError>)
        requires
            self@.wf(),
            forall|path: &str| call_requires(*runnable, (path,)),
        ensures
            model::looks_for(*runnable, old(found)@, final(found)@, self@.search_path, file_path@),
            asking(request) == self@.about(
                final(found)@,
                (workspace.key@, workspace.root@),
                file_path@,
                at,
                "textDocument/signatureHelp"@,
                |question: QuestionModel|
                    params::about_place(question.uri, question.line, question.character),
            ),
    {
        match self.ask(workspace, file_path, &at, found, runnable) {
            Err(error) => Err(error),
            Ok(None) => Ok(None),
            Ok(Some(question)) => {
                let params = params::position_params(
                    question.uri.as_str(),
                    question.line,
                    question.character,
                );
                Ok(Some(Request { server: question.server, method: "textDocument/signatureHelp", params }))
            },
        }
    }

    /// What the name at this place is called, as the server would rename it. What it answers is read
    /// with [`crate::protocol::renamable_name`].
    pub fn prepare_rename<F: Fn(&str) -> bool>(
        &self,
        workspace: &Workspace<'_>,
        file_path: &str,
        at: LspPosition,
        found: &mut Found,
        runnable: &F,
    ) -> (request: Result<Option<Request>, LspError>)
        requires
            self@.wf(),
            forall|path: &str| call_requires(*runnable, (path,)),
        ensures
            model::looks_for(*runnable, old(found)@, final(found)@, self@.search_path, file_path@),
            asking(request) == self@.about(
                final(found)@,
                (workspace.key@, workspace.root@),
                file_path@,
                at,
                "textDocument/prepareRename"@,
                |question: QuestionModel|
                    params::about_place(question.uri, question.line, question.character),
            ),
    {
        match self.ask(workspace, file_path, &at, found, runnable) {
            Err(error) => Err(error),
            Ok(None) => Ok(None),
            Ok(Some(question)) => {
                let params = params::position_params(
                    question.uri.as_str(),
                    question.line,
                    question.character,
                );
                Ok(Some(Request { server: question.server, method: "textDocument/prepareRename", params }))
            },
        }
    }

    /// Everything that calling the name at this place something else changes. Nothing is written:
    /// which files are open in a buffer is the caller's to know. What the server answers is read with
    /// [`crate::protocol::file_edits_from`].
    pub fn rename<F: Fn(&str) -> bool>(
        &self,
        workspace: &Workspace<'_>,
        file_path: &str,
        at: LspPosition,
        new_name: &str,
        found: &mut Found,
        runnable: &F,
    ) -> (request: Result<Option<Request>, LspError>)
        requires
            self@.wf(),
            forall|path: &str| call_requires(*runnable, (path,)),
        ensures
            model::looks_for(*runnable, old(found)@, final(found)@, self@.search_path, file_path@),
            asking(request) == self@.about(
                final(found)@,
                (workspace.key@, workspace.root@),
                file_path@,
                at,
                "textDocument/rename"@,
                |question: QuestionModel|
                    params::about_place(question.uri, question.line, question.character).with(
                        "newName"@,
                        JsonModel::Text(new_name@),
                    ),
            ),
    {
        match self.ask(workspace, file_path, &at, found, runnable) {
            Err(error) => Err(error),
            Ok(None) => Ok(None),
            Ok(Some(question)) => {
                let params = params::rename_params(
                    question.uri.as_str(),
                    question.line,
                    question.character,
                    new_name,
                );
                Ok(Some(Request { server: question.server, method: "textDocument/rename", params }))
            },
        }
    }

    /// What the server offers to do to the code at this place, asked with what it found wrong there.
    /// What it answers is read with [`crate::protocol::code_actions_from`].
    pub fn code_actions<F: Fn(&str) -> bool>(
        &self,
        workspace: &Workspace<'_>,
        file_path: &str,
        at: LspPosition,
        found: &mut Found,
        runnable: &F,
    ) -> (request: Result<Option<Request>, LspError>)
        requires
            self@.wf(),
            forall|path: &str| call_requires(*runnable, (path,)),
        ensures
            model::looks_for(*runnable, old(found)@, final(found)@, self@.search_path, file_path@),
            asking(request) == self@.about(
                final(found)@,
                (workspace.key@, workspace.root@),
                file_path@,
                at,
                "textDocument/codeAction"@,
                |question: QuestionModel|
                    params::about_actions(
                        question.uri,
                        question.line,
                        question.character,
                        self@.complaints_at(
                            (workspace.key@, workspace.root@),
                            file_path@,
                            question,
                        ),
                    ),
            ),
    {
        match self.ask(workspace, file_path, &at, found, runnable) {
            Err(error) => Err(error),
            Ok(None) => Ok(None),
            Ok(Some(question)) => {
                let complaints = self.published_about(workspace, question.server, file_path);
                let here = answers::diagnostics_at(
                    complaints.as_slice(),
                    question.line,
                    question.character,
                );
                let params = answers::code_action_params(
                    question.uri.as_str(),
                    question.line,
                    question.character,
                    here.as_slice(),
                );
                Ok(Some(Request { server: question.server, method: "textDocument/codeAction", params }))
            },
        }
    }

    /// What a running server last published about a file, as it arrived.
    fn published_about(&self, workspace: &Workspace<'_>, name: &str, file_path: &str) -> (
        diagnostics: Vec<Diagnostic>)
        requires
            self@.running(workspace.key@, name@) is Some,
        ensures
            wire::views(diagnostics@) == (self@.running(workspace.key@, name@)->0).published(
                paths::joined(workspace.root@, file_path@),
            ),
    {
        match self.position(workspace.key, name) {
            Some(index) => self.servers[index].1.published(
                paths::join(workspace.root, file_path).as_str(),
            ),
            None => Vec::new(),
        }
    }

    /// Format a whole file, indented the way the caller says. A file whose server never said it
    /// formats is refused, rather than answered as already formatted. What the server answers is
    /// read with [`crate::protocol::text_edits_from`].
    pub fn format<F: Fn(&str) -> bool>(
        &self,
        workspace: &Workspace<'_>,
        file_path: &str,
        options: LspFormatting,
        found: &mut Found,
        runnable: &F,
    ) -> (request: Result<Option<Request>, LspError>)
        requires
            forall|path: &str| call_requires(*runnable, (path,)),
        ensures
            model::looks_for(*runnable, old(found)@, final(found)@, self@.search_path, file_path@),
            asking(request) == self@.formatting(
                final(found)@,
                (workspace.key@, workspace.root@),
                file_path@,
                options,
            ),
    {
        let (index, name, _) = match self.asked_at(workspace.key, file_path, found, runnable) {
            Err(error) => {
                return Err(error);
            },
            Ok(None) => {
                return Ok(None);
            },
            Ok(Some(asked)) => asked,
        };
        if !self.servers[index].1.formats() {
            return Err(LspError::DoesNotFormat { server: name.to_owned() });
        }
        let uri = uris::file_uri(paths::join(workspace.root, file_path).as_str());
        let params = params::formatting_params(uri.as_str(), options);
        Ok(Some(Request { server: name, method: "textDocument/formatting", params }))
    }

    /// What the server behind a file last published about it, in the editor's units. Nothing at all
    /// for a file that is not open, since there is no text to count its places against.
    pub fn diagnostics(&self, workspace: &Workspace<'_>, file_path: &str) -> (complaints: Vec<
        LspDiagnostic,
    >)
        requires
            self@.wf(),
        ensures
            wire::views(complaints@) == self@.diagnostics(
                workspace.key@,
                workspace.root@,
                file_path@,
            ),
    {
        if let Some(language) = languages::for_file(file_path) {
            proof {
                model::lemma_running_at(self@.servers, workspace.key@, language.server.name@, 0);
            }
            if let Some(index) = self.position(workspace.key, language.server.name) {
                let server = &self.servers[index].1;
                if let Some(text) = server.document_text(file_path) {
                    let text = text.as_str();
                    proof {
                        text::lemma_text_is_its_bytes(text);
                    }
                    let kept = server.published(paths::join(workspace.root, file_path).as_str());
                    return answers::diagnostics_from(kept.as_slice(), text, server.encoding());
                }
            }
        }
        let complaints: Vec<LspDiagnostic> = Vec::new();
        assert(wire::views(complaints@) =~= Seq::<ComplaintModel>::empty());
        complaints
    }
}

} // verus!
