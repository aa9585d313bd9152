//! What a registry is, as contracts speak of it, and what each question of it comes to.

use vstd::prelude::*;
use vstd::utf8::*;

use crate::error::Fault;
use crate::json::JsonModel;
use crate::languages;
use crate::languages::{ExtensionRow, FoundModel, ServerRow};
use crate::order;
use crate::order::Ranked;
use crate::paths;
use crate::payload::{
    ComplaintModel, LspFormatting, LspPosition, LspStatus, LspWork, LspWorkModel,
};
use crate::process;
use crate::process::{ReadinessModel, ServerModel};
use crate::protocol::answers;
use crate::protocol::params;
use crate::protocol::params::{AskedBecause, ClientModel};
use crate::protocol::positions;
use crate::protocol::uris;
use crate::text;

verus! {

/// An [`LspRegistry`] as a contract speaks of it.
pub struct RegistryModel {
    /// The `PATH` servers are looked for on.
    pub search_path: Seq<char>,
    /// Who servers are told they are talking to.
    pub client: ClientModel,
    /// The servers that are running, each under the key of its workspace.
    pub servers: Seq<(Seq<char>, ServerModel)>,
    /// The servers that would not start, by workspace and name.
    pub gave_up: Set<(Seq<char>, Seq<char>)>,
}

/// Where the server of a name for a workspace is among those running, if it is.
pub open spec fn running_at(
    servers: Seq<(Seq<char>, ServerModel)>,
    workspace_key: Seq<char>,
    name: Seq<char>,
    from: int,
) -> Option<int>
    decreases servers.len() - from,
{
    if from >= servers.len() {
        None
    } else if servers[from].0 == workspace_key && servers[from].1.name == name {
        Some(from)
    } else {
        running_at(servers, workspace_key, name, from + 1)
    }
}

/// What a question about one place in one file needs: the server to ask, the document's URI,
/// and the position in the units that server agreed to.
pub struct QuestionModel {
    /// The server, by its name.
    pub server: Seq<char>,
    /// The document.
    pub uri: Seq<char>,
    /// The line.
    pub line: usize,
    /// The column, already converted.
    pub character: u32,
}

/// A request to put to a server.
pub struct RequestModel {
    /// The server, by its name.
    pub server: Seq<char>,
    /// What is asked.
    pub method: Seq<char>,
    /// About what.
    pub params: JsonModel,
}

/// What opening a file comes to.
pub enum OpeningModel {
    /// Nothing.
    Nothing,
    /// A server to start first.
    Start(ServerRow),
    /// Something to tell the server of a name.
    Tell(Seq<char>, JsonModel),
}

impl RegistryModel {
    /// Whether no server is held twice under one workspace, and each has agreed to count columns
    /// in something.
    pub open spec fn wf(self) -> bool {
        &&& forall|i: int, j: int|
            0 <= i < j < self.servers.len() ==> !((#[trigger] self.servers[i]).0 == (
            #[trigger] self.servers[j]).0 && self.servers[i].1.name == self.servers[j].1.name)
        &&& forall|i: int|
            0 <= i < self.servers.len() ==> (#[trigger] self.servers[i]).1.encoding is Some
    }

    /// A registry with nothing in it.
    pub open spec fn fresh(search_path: Seq<char>, client: ClientModel) -> RegistryModel {
        RegistryModel {
            search_path,
            client,
            servers: Seq::empty(),
            gave_up: Set::empty(),
        }
    }

    /// The server of a name for a workspace, if it is running.
    pub open spec fn running(self, workspace_key: Seq<char>, name: Seq<char>) -> Option<
        ServerModel,
    > {
        match running_at(self.servers, workspace_key, name, 0) {
            Some(at) => Some(self.servers[at].1),
            None => None,
        }
    }

    /// The registry with one more server held under a workspace.
    pub open spec fn holding(self, workspace_key: Seq<char>, server: ServerModel) -> RegistryModel {
        RegistryModel { servers: self.servers.push((workspace_key, server)), ..self }
    }

    /// The registry with one more server given up on.
    pub open spec fn giving_up(self, workspace_key: Seq<char>, name: Seq<char>) -> RegistryModel {
        RegistryModel { gave_up: self.gave_up.insert((workspace_key, name)), ..self }
    }

    /// The registry with the server of a name for a workspace, where it is running, become this.
    pub open spec fn with_server(
        self,
        workspace_key: Seq<char>,
        name: Seq<char>,
        server: ServerModel,
    ) -> RegistryModel {
        match running_at(self.servers, workspace_key, name, 0) {
            Some(at) => RegistryModel {
                servers: self.servers.update(at, (workspace_key, server)),
                ..self
            },
            None => self,
        }
    }

    /// Whether a command was found on the search path.
    pub open spec fn installed(self, found: FoundModel, command: Seq<char>) -> bool {
        found.contains_key((self.search_path, command)) && found[(
            self.search_path,
            command,
        )] is Some
    }

    /// The row for a file whose server is installed.
    pub open spec fn served(self, found: FoundModel, file_path: Seq<char>) -> Option<
        ExtensionRow,
    > {
        match languages::row_for(file_path) {
            Some(row) => if self.installed(found, row.server.command) {
                Some(row)
            } else {
                None
            },
            None => None,
        }
    }

    /// Whether a server is behind a file, and whether it has finished starting.
    pub open spec fn status(
        self,
        found: FoundModel,
        workspace_key: Seq<char>,
        file_path: Seq<char>,
        now: u64,
    ) -> LspStatus {
        match self.served(found, file_path) {
            None => LspStatus::Unavailable,
            Some(row) => if self.gave_up.contains((workspace_key, row.server.name)) {
                LspStatus::Unavailable
            } else {
                match self.running(workspace_key, row.server.name) {
                    None => LspStatus::Starting,
                    Some(server) => if server.readiness.ready(now) {
                        LspStatus::Ready
                    } else {
                        LspStatus::Starting
                    },
                }
            },
        }
    }

    /// The registry once that has been asked: a server found ready stays so.
    pub open spec fn after_status(
        self,
        found: FoundModel,
        workspace_key: Seq<char>,
        file_path: Seq<char>,
        now: u64,
    ) -> RegistryModel {
        match self.served(found, file_path) {
            None => self,
            Some(row) => if self.gave_up.contains((workspace_key, row.server.name)) {
                self
            } else {
                match self.running(workspace_key, row.server.name) {
                    None => self,
                    Some(server) => self.with_server(
                        workspace_key,
                        row.server.name,
                        ServerModel {
                            readiness: ReadinessModel {
                                finished: server.readiness.ready(now),
                                ..server.readiness
                            },
                            ..server
                        },
                    ),
                }
            },
        }
    }

    /// What opening a file comes to.
    pub open spec fn opening(
        self,
        found: FoundModel,
        workspace_key: Seq<char>,
        root: Seq<char>,
        file_path: Seq<char>,
        text: Seq<char>,
    ) -> OpeningModel {
        match self.served(found, file_path) {
            None => OpeningModel::Nothing,
            Some(row) => if self.gave_up.contains((workspace_key, row.server.name)) {
                OpeningModel::Nothing
            } else {
                match self.running(workspace_key, row.server.name) {
                    None => OpeningModel::Start(row.server),
                    Some(server) => OpeningModel::Tell(
                        row.server.name,
                        if server.document(file_path) is Some {
                            process::notification(
                                "textDocument/didChange"@,
                                params::changed(document_uri(root, file_path), text),
                            )
                        } else {
                            process::notification(
                                "textDocument/didOpen"@,
                                params::opened(
                                    document_uri(root, file_path),
                                    row.language_id,
                                    text,
                                ),
                            )
                        },
                    ),
                }
            },
        }
    }

    /// The server a file is open in, by its name, where it is open in one.
    pub open spec fn open_in(
        self,
        found: FoundModel,
        workspace_key: Seq<char>,
        file_path: Seq<char>,
    ) -> Option<
        Seq<char>,
    > {
        match self.served(found, file_path) {
            None => None,
            Some(row) => match self.running(workspace_key, row.server.name) {
                Some(server) => if server.document(file_path) is Some {
                    Some(row.server.name)
                } else {
                    None
                },
                None => None,
            },
        }
    }

    /// What an open file's server is told.
    pub open spec fn telling(
        self,
        found: FoundModel,
        workspace_key: Seq<char>,
        file_path: Seq<char>,
        method: Seq<char>,
        params: JsonModel,
    ) -> Option<(Seq<char>, JsonModel)> {
        match self.open_in(found, workspace_key, file_path) {
            Some(server) => Some((server, process::notification(method, params))),
            None => None,
        }
    }

    /// The server a question about a file goes to, by its name: none for a file no server serves,
    /// and a refusal for one whose server is not running or that is not open in it.
    pub open spec fn to_ask(
        self,
        found: FoundModel,
        workspace_key: Seq<char>,
        file_path: Seq<char>,
    ) -> Result<
        Option<Seq<char>>,
        Fault,
    > {
        match self.served(found, file_path) {
            None => Ok(None),
            Some(row) => match self.running(workspace_key, row.server.name) {
                None => Err(Fault::NotRunning { server: row.server.name }),
                Some(server) => if server.document(file_path) is Some {
                    Ok(Some(row.server.name))
                } else {
                    Err(Fault::NotOpen { file_path, server: row.server.name })
                },
            },
        }
    }

    /// What a question about one place in one file needs.
    pub open spec fn question(
        self,
        found: FoundModel,
        workspace_key: Seq<char>,
        root: Seq<char>,
        file_path: Seq<char>,
        at: LspPosition,
    ) -> Result<Option<QuestionModel>, Fault> {
        match self.to_ask(found, workspace_key, file_path) {
            Err(fault) => Err(fault),
            Ok(None) => Ok(None),
            Ok(Some(name)) => {
                let server = self.running(workspace_key, name)->0;
                match positions::asked_at(
                    encode_utf8(server.document(file_path)->0),
                    at,
                    server.encoding->0,
                ) {
                    Err(fault) => Err(fault),
                    Ok(character) => Ok(
                        Some(
                            QuestionModel {
                                server: name,
                                uri: document_uri(root, file_path),
                                line: at.line,
                                character,
                            },
                        ),
                    ),
                }
            },
        }
    }

    /// Why what could be typed at a place is asked about: one of the server's triggers, where that
    /// is what the place sits behind.
    pub open spec fn because(
        self,
        workspace_key: Seq<char>,
        name: Seq<char>,
        file_path: Seq<char>,
        at: LspPosition,
    ) -> AskedBecause {
        let server = self.running(workspace_key, name)->0;
        match positions::behind(encode_utf8(server.document(file_path)->0), at) {
            Some(typed) => if server.triggers.contains(typed) {
                AskedBecause::OneOfItsTriggersWasTyped(typed)
            } else {
                AskedBecause::SomebodyIsTyping
            },
            None => AskedBecause::SomebodyIsTyping,
        }
    }

    /// What the servers running for a workspace are doing, by the name of the server.
    pub open spec fn working(self, workspace_key: Seq<char>) -> Seq<LspWorkModel> {
        order::ranked::<LspWork>(works_in(self.servers, workspace_key))
    }

    /// The characters a file's server completes after.
    pub open spec fn triggers(self, workspace_key: Seq<char>, file_path: Seq<char>) -> Seq<char> {
        match languages::row_for(file_path) {
            None => Seq::empty(),
            Some(row) => match self.running(workspace_key, row.server.name) {
                None => Seq::empty(),
                Some(server) => server.triggers,
            },
        }
    }

    /// A request about one place in one file, with what is asked about it said over the server
    /// it goes to, the document, and the place in the units of that server.
    pub open spec fn about(
        self,
        found: FoundModel,
        workspace: (Seq<char>, Seq<char>),
        file_path: Seq<char>,
        at: LspPosition,
        method: Seq<char>,
        params: spec_fn(QuestionModel) -> JsonModel,
    ) -> Result<Option<RequestModel>, Fault> {
        match self.question(found, workspace.0, workspace.1, file_path, at) {
            Err(fault) => Err(fault),
            Ok(None) => Ok(None),
            Ok(Some(question)) => Ok(
                Some(
                    RequestModel { server: question.server, method, params: params(question) },
                ),
            ),
        }
    }

    /// A request to format a whole file.
    pub open spec fn formatting(
        self,
        found: FoundModel,
        workspace: (Seq<char>, Seq<char>),
        file_path: Seq<char>,
        options: LspFormatting,
    ) -> Result<Option<RequestModel>, Fault> {
        match self.to_ask(found, workspace.0, file_path) {
            Err(fault) => Err(fault),
            Ok(None) => Ok(None),
            Ok(Some(name)) => if (self.running(workspace.0, name)->0).formats {
                Ok(
                    Some(
                        RequestModel {
                            server: name,
                            method: "textDocument/formatting"@,
                            params: params::to_format(
                                document_uri(workspace.1, file_path),
                                options,
                            ),
                        },
                    ),
                )
            } else {
                Err(Fault::DoesNotFormat { server: name })
            },
        }
    }

    /// What the server a question goes to found wrong with a file at the place asked about.
    pub open spec fn complaints_at(
        self,
        workspace: (Seq<char>, Seq<char>),
        file_path: Seq<char>,
        question: QuestionModel,
    ) -> Seq<Seq<char>> {
        let server = self.running(workspace.0, question.server)->0;
        answers::as_written(
            answers::about(
                server.published(paths::joined(workspace.1, file_path)),
                question.line as int,
                question.character,
            ),
        )
    }

    /// What a file's server last published about it, in the editor's units against the text the
    /// server was last sent.
    pub open spec fn diagnostics(
        self,
        workspace_key: Seq<char>,
        root: Seq<char>,
        file_path: Seq<char>,
    ) -> Seq<ComplaintModel> {
        match languages::row_for(file_path) {
            None => Seq::empty(),
            Some(row) => match self.running(workspace_key, row.server.name) {
                None => Seq::empty(),
                Some(server) => match server.document(file_path) {
                    None => Seq::empty(),
                    Some(text) => answers::complaints_in(
                        encode_utf8(text),
                        server.published(paths::joined(root, file_path)),
                        server.encoding->0,
                    ),
                },
            },
        }
    }
}

/// What the servers running for a workspace are doing, in the order they were started.
pub open spec fn works_in(servers: Seq<(Seq<char>, ServerModel)>, workspace_key: Seq<char>) -> Seq<
    LspWorkModel,
>
    decreases servers.len(),
{
    if servers.len() == 0 {
        Seq::empty()
    } else {
        let before = works_in(servers.drop_last(), workspace_key);
        let (key, server) = servers.last();
        match server.working {
            Some(doing) => if key == workspace_key {
                before.push(
                    LspWorkModel {
                        server: server.name,
                        title: doing.title,
                        detail: doing.detail,
                        percentage: doing.percentage,
                    },
                )
            } else {
                before
            },
            None => before,
        }
    }
}

/// A document of a repo, by its URI.
pub open spec fn document_uri(root: Seq<char>, file_path: Seq<char>) -> Seq<char> {
    uris::uri_of(paths::joined(root, file_path))
}

/// Whether looking for a command on a search path leaves this known: what was known where it had
/// been looked for before, and where it was found where it had not.
pub open spec fn looks_up<F: Fn(&str) -> bool>(
    runnable: F,
    before: FoundModel,
    after: FoundModel,
    search_path: Seq<char>,
    command: Seq<char>,
) -> bool {
    if before.contains_key((search_path, command)) {
        after == before
    } else {
        exists|place: Option<Seq<char>>|
            languages::is_first(
                runnable,
                languages::candidates_on(search_path, command),
                place,
            ) && after == #[trigger] before.insert((search_path, command), place)
    }
}

/// Whether asking about a file leaves this known of where its server is installed.
pub open spec fn looks_for<F: Fn(&str) -> bool>(
    runnable: F,
    before: FoundModel,
    after: FoundModel,
    search_path: Seq<char>,
    file_path: Seq<char>,
) -> bool {
    match languages::row_for(file_path) {
        None => after == before,
        Some(row) => looks_up(runnable, before, after, search_path, row.server.command),
    }
}

impl Ranked for LspWork {
    type Model = LspWorkModel;

    open spec fn model(&self) -> LspWorkModel {
        self@
    }

    /// Work belongs in the order of the names of the servers doing it, byte for byte.
    open spec fn behind(left: LspWorkModel, right: LspWorkModel) -> bool {
        text::is_after(encode_utf8(left.server), encode_utf8(right.server))
    }

    proof fn lemma_ranks(first: LspWorkModel, second: LspWorkModel, third: LspWorkModel) {
        text::lemma_byte_order(
            encode_utf8(first.server),
            encode_utf8(second.server),
            encode_utf8(third.server),
        );
    }

    fn is_behind(&self, other: &Self) -> (behind: bool) {
        text::comes_after(self.server.as_str(), other.server.as_str())
    }
}

/// Where a server is running is where it is, and nowhere ahead of that.
pub proof fn lemma_running_at(
    servers: Seq<(Seq<char>, ServerModel)>,
    workspace_key: Seq<char>,
    name: Seq<char>,
    from: int,
)
    requires
        0 <= from <= servers.len(),
    ensures
        match running_at(servers, workspace_key, name, from) {
            Some(at) => from <= at < servers.len() && servers[at].0 == workspace_key
                && servers[at].1.name == name,
            None => forall|i: int|
                from <= i < servers.len() ==> !((#[trigger] servers[i]).0 == workspace_key
                    && servers[i].1.name == name),
        },
    decreases servers.len() - from,
{
    if from < servers.len() && !(servers[from].0 == workspace_key && servers[from].1.name
        == name) {
        lemma_running_at(servers, workspace_key, name, from + 1);
    }
}

/// Where a server is running is told by the keys and the names alone.
pub proof fn lemma_found_by_name(
    one: Seq<(Seq<char>, ServerModel)>,
    other: Seq<(Seq<char>, ServerModel)>,
    workspace_key: Seq<char>,
    name: Seq<char>,
    from: int,
)
    requires
        0 <= from,
        one.len() == other.len(),
        forall|i: int|
            0 <= i < one.len() ==> (#[trigger] one[i]).0 == other[i].0 && one[i].1.name
                == other[i].1.name,
    ensures
        running_at(one, workspace_key, name, from) == running_at(other, workspace_key, name, from),
    decreases one.len() - from,
{
    if from < one.len() {
        assert(one[from].0 == other[from].0);
        lemma_found_by_name(one, other, workspace_key, name, from + 1);
    }
}

/// A server that changes and keeps its name, and what it agreed to, leaves every other as it was.
pub proof fn lemma_in_place(registry: RegistryModel, workspace_key: Seq<char>, name: Seq<char>)
    requires
        registry.wf(),
    ensures
        registry.running(workspace_key, name) matches Some(server) ==> server.name == name
            && server.encoding is Some,
        forall|server: ServerModel|
            server.name == name && server.encoding is Some ==> (#[trigger] registry.with_server(
                workspace_key,
                name,
                server,
            )).wf(),
{
    lemma_running_at(registry.servers, workspace_key, name, 0);
}

} // verus!
