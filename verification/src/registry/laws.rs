//! What a registry promises.

use vstd::prelude::*;
use vstd::utf8::*;

use super::model;
use super::model::{OpeningModel, QuestionModel, RegistryModel, RequestModel};
use crate::error::Fault;
use crate::json::JsonModel;
use crate::languages;
use crate::languages::{ExtensionRow, FoundModel};
use crate::order;
use crate::paths;
use crate::payload::{LspFormatting, LspPosition, LspStatus, LspWork};
use crate::process;
use crate::process::{ReadinessModel, ServerModel};
use crate::protocol::answers;
use crate::protocol::params;
use crate::protocol::params::AskedBecause;
use crate::protocol::positions;
use crate::protocol::uris;
use crate::text;

verus! {

/// Whether two servers are told apart: held under two workspaces, or called two names.
pub open spec fn are_two(
    workspace_key: Seq<char>,
    name: Seq<char>,
    other_key: Seq<char>,
    other_name: Seq<char>,
) -> bool {
    workspace_key != other_key || name != other_name
}

/// What happens to one server happens to no other, of this workspace or of any other: the server
/// reads as it has become, and every other as it was.
pub proof fn law_servers_are_apart(
    registry: RegistryModel,
    workspace_key: Seq<char>,
    server: ServerModel,
    other_key: Seq<char>,
    other_name: Seq<char>,
)
    requires
        registry.wf(),
        registry.running(workspace_key, server.name) is Some,
        server.encoding is Some,
    ensures
        registry.with_server(workspace_key, server.name, server).wf(),
        registry.with_server(workspace_key, server.name, server).running(workspace_key, server.name)
            == Some(server),
        are_two(workspace_key, server.name, other_key, other_name) ==> registry.with_server(
            workspace_key,
            server.name,
            server,
        ).running(other_key, other_name) == registry.running(other_key, other_name),
{
    let changed = registry.with_server(workspace_key, server.name, server);
    model::lemma_in_place(registry, workspace_key, server.name);
    model::lemma_running_at(registry.servers, workspace_key, server.name, 0);
    model::lemma_running_at(registry.servers, other_key, other_name, 0);
    model::lemma_found_by_name(registry.servers, changed.servers, workspace_key, server.name, 0);
    model::lemma_found_by_name(registry.servers, changed.servers, other_key, other_name, 0);
}

/// Where a server was running, it still is with more behind it.
proof fn lemma_found_first(
    servers: Seq<(Seq<char>, ServerModel)>,
    more: (Seq<char>, ServerModel),
    workspace_key: Seq<char>,
    name: Seq<char>,
    from: int,
)
    requires
        0 <= from <= servers.len(),
    ensures
        model::running_at(servers.push(more), workspace_key, name, from) == match model::running_at(
            servers,
            workspace_key,
            name,
            from,
        ) {
            Some(at) => Some(at),
            None => if more.0 == workspace_key && more.1.name == name {
                Some(servers.len() as int)
            } else {
                None
            },
        },
    decreases servers.len() - from,
{
    if from < servers.len() {
        assert(servers.push(more)[from] == servers[from]);
        lemma_found_first(servers, more, workspace_key, name, from + 1);
    } else {
        reveal_with_fuel(model::running_at, 2);
        assert(servers.push(more)[from] == more);
    }
}

/// A server that has been started is running, and starting it disturbs no other.
pub proof fn law_a_started_server_is_running(
    registry: RegistryModel,
    workspace_key: Seq<char>,
    server: ServerModel,
    other_key: Seq<char>,
    other_name: Seq<char>,
)
    requires
        registry.running(workspace_key, server.name) is None,
    ensures
        registry.holding(workspace_key, server).running(workspace_key, server.name) == Some(server),
        are_two(workspace_key, server.name, other_key, other_name) ==> registry.holding(
            workspace_key,
            server,
        ).running(other_key, other_name) == registry.running(other_key, other_name),
{
    let more = (workspace_key, server);
    lemma_found_first(registry.servers, more, workspace_key, server.name, 0);
    lemma_found_first(registry.servers, more, other_key, other_name, 0);
    model::lemma_running_at(registry.servers, other_key, other_name, 0);
}

/// A server that would not start leaves its files with no server behind them: they read as
/// unavailable, and opening one comes to nothing. The same files of another workspace are not
/// touched by it.
pub proof fn law_a_server_given_up_on_is_not_there(
    registry: RegistryModel,
    found: FoundModel,
    workspace_key: Seq<char>,
    row: ExtensionRow,
    root: Seq<char>,
    file_path: Seq<char>,
    text: Seq<char>,
    now: u64,
    other_key: Seq<char>,
)
    requires
        languages::row_for(file_path) == Some(row),
    ensures
        registry.giving_up(workspace_key, row.server.name).status(found, workspace_key, file_path, now)
            == LspStatus::Unavailable,
        registry.giving_up(workspace_key, row.server.name).opening(
            found,
            workspace_key,
            root,
            file_path,
            text,
        ) == OpeningModel::Nothing,
        other_key != workspace_key ==> registry.giving_up(workspace_key, row.server.name).status(
            found,
            other_key,
            file_path,
            now,
        ) == registry.status(found, other_key, file_path, now),
{
}

/// A file no server serves is quietly nothing to do: it is unavailable, opening it comes to
/// nothing, nobody is told of it, and there is nobody to ask about it.
pub proof fn law_a_file_no_server_serves_is_nothing_to_do(
    registry: RegistryModel,
    found: FoundModel,
    workspace: (Seq<char>, Seq<char>),
    file_path: Seq<char>,
    text: Seq<char>,
    at: LspPosition,
    method: Seq<char>,
    params: JsonModel,
    asked: spec_fn(QuestionModel) -> JsonModel,
    now: u64,
)
    requires
        registry.served(found, file_path) is None,
    ensures
        registry.status(found, workspace.0, file_path, now) == LspStatus::Unavailable,
        registry.opening(found, workspace.0, workspace.1, file_path, text) == OpeningModel::Nothing,
        registry.telling(found, workspace.0, file_path, method, params) is None,
        registry.about(found, workspace, file_path, at, method, asked) == Ok::<
            Option<RequestModel>,
            Fault,
        >(None),
{
}

/// A question about a file nobody opened is refused rather than asked, and so is one about a file
/// whose server is not running.
pub proof fn law_a_file_nobody_opened_is_not_asked_about(
    registry: RegistryModel,
    found: FoundModel,
    workspace: (Seq<char>, Seq<char>),
    row: ExtensionRow,
    file_path: Seq<char>,
    at: LspPosition,
    method: Seq<char>,
    asked: spec_fn(QuestionModel) -> JsonModel,
)
    requires
        registry.served(found, file_path) == Some(row),
        registry.open_in(found, workspace.0, file_path) is None,
    ensures
        registry.about(found, workspace, file_path, at, method, asked) == Err::<
            Option<RequestModel>,
            Fault,
        >(
            if registry.running(workspace.0, row.server.name) is None {
                Fault::NotRunning { server: row.server.name }
            } else {
                Fault::NotOpen { file_path, server: row.server.name }
            },
        ),
{
}

/// A file opened twice is opened once and changed once: with its text kept, opening it again tells
/// the server of a change to the whole text.
pub proof fn law_opening_again_is_a_change(
    registry: RegistryModel,
    found: FoundModel,
    workspace: (Seq<char>, Seq<char>),
    row: ExtensionRow,
    file_path: Seq<char>,
    first: Seq<char>,
    second: Seq<char>,
)
    requires
        registry.wf(),
        registry.served(found, file_path) == Some(row),
        !registry.gave_up.contains((workspace.0, row.server.name)),
        registry.running(workspace.0, row.server.name) is Some,
    ensures
        registry.with_server(
            workspace.0,
            row.server.name,
            (registry.running(workspace.0, row.server.name)->0).remembering(file_path, first),
        ).opening(found, workspace.0, workspace.1, file_path, second) == OpeningModel::Tell(
            row.server.name,
            process::notification(
                "textDocument/didChange"@,
                params::changed(model::document_uri(workspace.1, file_path), second),
            ),
        ),
{
    let before = registry.running(workspace.0, row.server.name)->0;
    model::lemma_in_place(registry, workspace.0, row.server.name);
    law_servers_are_apart(
        registry,
        workspace.0,
        before.remembering(file_path, first),
        workspace.0,
        row.server.name,
    );
    process::law_a_document_reads_as_it_was_last_told(before, file_path, first, file_path);
}

/// A question is asked about the text the server was last told: a place is counted against that
/// text, in the units that server agreed to.
pub proof fn law_a_place_is_counted_against_what_the_server_was_told(
    registry: RegistryModel,
    found: FoundModel,
    workspace: (Seq<char>, Seq<char>),
    row: ExtensionRow,
    file_path: Seq<char>,
    text: Seq<char>,
    at: LspPosition,
)
    requires
        registry.wf(),
        registry.served(found, file_path) == Some(row),
        registry.running(workspace.0, row.server.name) is Some,
    ensures
        ({
            let before = registry.running(workspace.0, row.server.name)->0;
            let told = registry.with_server(
                workspace.0,
                row.server.name,
                before.remembering(file_path, text),
            );
            told.question(found, workspace.0, workspace.1, file_path, at)
                == match positions::asked_at(encode_utf8(text), at, before.encoding->0) {
                Ok(character) => Ok::<Option<QuestionModel>, Fault>(
                    Some(
                        QuestionModel {
                            server: row.server.name,
                            uri: model::document_uri(workspace.1, file_path),
                            line: at.line,
                            character,
                        },
                    ),
                ),
                Err(fault) => Err::<Option<QuestionModel>, Fault>(fault),
            }
        }),
{
    let before = registry.running(workspace.0, row.server.name)->0;
    model::lemma_in_place(registry, workspace.0, row.server.name);
    law_servers_are_apart(
        registry,
        workspace.0,
        before.remembering(file_path, text),
        workspace.0,
        row.server.name,
    );
    process::law_a_document_reads_as_it_was_last_told(before, file_path, text, file_path);
}

/// A server that has been found ready stays ready, whatever it goes on to say: however much it
/// checks the project, no file of it drops back to starting.
pub proof fn law_a_ready_server_stays_ready(
    registry: RegistryModel,
    found: FoundModel,
    workspace_key: Seq<char>,
    row: ExtensionRow,
    file_path: Seq<char>,
    asked_at: u64,
    message: JsonModel,
    said_at: u64,
    asked_again_at: u64,
)
    requires
        registry.wf(),
        languages::row_for(file_path) == Some(row),
        registry.status(found, workspace_key, file_path, asked_at) == LspStatus::Ready,
    ensures
        ({
            let ready = registry.after_status(found, workspace_key, file_path, asked_at);
            let server = ready.running(workspace_key, row.server.name)->0;
            let talked = ready.with_server(
                workspace_key,
                row.server.name,
                server.received(message, said_at).0,
            );
            &&& ready.status(found, workspace_key, file_path, asked_again_at) == LspStatus::Ready
            &&& talked.status(found, workspace_key, file_path, asked_again_at) == LspStatus::Ready
        }),
{
    let name = row.server.name;
    let before = registry.running(workspace_key, name)->0;
    let ready = registry.after_status(found, workspace_key, file_path, asked_at);
    model::lemma_in_place(registry, workspace_key, name);
    let started = ServerModel {
        readiness: ReadinessModel {
            finished: before.readiness.ready(asked_at),
            ..before.readiness
        },
        ..before
    };
    law_servers_are_apart(registry, workspace_key, started, workspace_key, name);
    assert(ready == registry.with_server(workspace_key, name, started));
    let said = started.received(message, said_at).0;
    process::law_a_message_leaves_the_documents_alone(started, message, said_at);
    process::law_once_finished_always_finished(
        started.readiness,
        message,
        said_at,
        asked_again_at,
    );
    assert(said.readiness == started.readiness || said.readiness == started.readiness.followed(
        message,
        said_at,
    ));
    law_servers_are_apart(ready, workspace_key, said, workspace_key, name);
}

/// What servers are doing is told in the order of their names, with nothing of it left out and
/// nothing made up.
pub proof fn law_work_is_told_in_the_order_of_names(
    registry: RegistryModel,
    workspace_key: Seq<char>,
)
    ensures
        order::in_order::<LspWork>(registry.working(workspace_key)),
        registry.working(workspace_key).to_multiset() == model::works_in(
            registry.servers,
            workspace_key,
        ).to_multiset(),
{
    order::law_order_is_kept::<LspWork>(model::works_in(registry.servers, workspace_key));
    order::law_order_keeps_everything::<LspWork>(model::works_in(registry.servers, workspace_key));
}

/// Where a server is installed is looked for once for the process: once one registry has asked
/// about a file, every registry on the same search path has its answer, and asking again changes
/// nothing of what is known.
pub proof fn law_what_one_registry_found_every_registry_knows<F: Fn(&str) -> bool>(
    one: RegistryModel,
    other: RegistryModel,
    runnable: F,
    before: FoundModel,
    found: FoundModel,
    after: FoundModel,
    file_path: Seq<char>,
)
    requires
        one.search_path == other.search_path,
        model::looks_for(runnable, before, found, one.search_path, file_path),
        model::looks_for(runnable, found, after, other.search_path, file_path),
    ensures
        after == found,
        other.served(after, file_path) == one.served(found, file_path),
{
}

/// A server is running under a workspace and a name exactly where one of that name is held under that
/// workspace, and it is that one.
pub proof fn law_a_running_server_is_one_that_is_held(
    registry: RegistryModel,
    workspace_key: Seq<char>,
    name: Seq<char>,
    at: int,
)
    requires
        registry.wf(),
    ensures
        0 <= at < registry.servers.len() && registry.servers[at].0 == workspace_key
            && registry.servers[at].1.name == name ==> registry.running(workspace_key, name) == Some(
            registry.servers[at].1,
        ),
        registry.running(workspace_key, name) matches Some(server) ==> server.name == name
            && registry.servers.contains((workspace_key, server)),
{
    model::lemma_running_at(registry.servers, workspace_key, name, 0);
    if let Some(there) = model::running_at(registry.servers, workspace_key, name, 0) {
        assert(registry.servers[there] == (workspace_key, registry.servers[there].1));
    }
}

/// A file is unavailable where no server serves it, where its server is not installed and where its
/// server has been given up on. Otherwise it is ready exactly where its server is running and ready,
/// and starting until then.
pub proof fn law_a_file_is_ready_when_its_server_is(
    registry: RegistryModel,
    found: FoundModel,
    workspace_key: Seq<char>,
    file_path: Seq<char>,
    now: u64,
)
    ensures
        languages::row_for(file_path) is None ==> registry.status(
            found,
            workspace_key,
            file_path,
            now,
        ) == LspStatus::Unavailable,
        languages::row_for(file_path) matches Some(row) ==> {
            let installed = found.contains_key((registry.search_path, row.server.command))
                && found[(registry.search_path, row.server.command)] is Some;
            let given_up = registry.gave_up.contains((workspace_key, row.server.name));
            let status = registry.status(found, workspace_key, file_path, now);
            &&& status == LspStatus::Unavailable <==> !installed || given_up
            &&& status == LspStatus::Ready <==> installed && !given_up && (registry.running(
                workspace_key,
                row.server.name,
            ) matches Some(server) && server.readiness.ready(now))
        },
{
}

/// Opening a file starts its server where that is not running yet, tells a running one of the change
/// where the file is open in it, and otherwise opens the file in it - by its URI, in its language and
/// with its text. Where the file has no server, or none to start, nothing is to be done.
pub proof fn law_opening_a_file_tells_its_server(
    registry: RegistryModel,
    found: FoundModel,
    workspace: (Seq<char>, Seq<char>),
    row: ExtensionRow,
    file_path: Seq<char>,
    text: Seq<char>,
)
    requires
        registry.served(found, file_path) == Some(row),
        !registry.gave_up.contains((workspace.0, row.server.name)),
    ensures
        ({
            let opening = registry.opening(found, workspace.0, workspace.1, file_path, text);
            let uri = uris::uri_of(paths::joined(workspace.1, file_path));
            match registry.running(workspace.0, row.server.name) {
                None => opening == OpeningModel::Start(row.server),
                Some(server) => opening matches OpeningModel::Tell(name, message) && name
                    == row.server.name && if server.documents.contains_key(file_path) {
                    &&& process::method_of(message) == Some("textDocument/didChange"@)
                    &&& message.member("params"@) == Some(params::changed(uri, text))
                    &&& message.member("id"@) is None
                } else {
                    &&& process::method_of(message) == Some("textDocument/didOpen"@)
                    &&& message.member("params"@) == Some(
                        params::opened(uri, row.language_id, text),
                    )
                    &&& message.member("id"@) is None
                },
            }
        }),
{
    let uri = model::document_uri(workspace.1, file_path);
    process::law_a_message_says_what_it_is(
        0,
        "textDocument/didChange"@,
        params::changed(uri, text),
        JsonModel::Null,
        JsonModel::Null,
    );
    process::law_a_message_says_what_it_is(
        0,
        "textDocument/didOpen"@,
        params::opened(uri, row.language_id, text),
        JsonModel::Null,
        JsonModel::Null,
    );
}

/// A file is asked about where its server is running and it is open there. It is refused where the
/// server is not running, by the name of the server, and where it is not open there, by its name and
/// the server's; a file with no server is asked of none. Only a file that is open is told of.
pub proof fn law_a_file_is_asked_about_where_it_is_open(
    registry: RegistryModel,
    found: FoundModel,
    workspace_key: Seq<char>,
    file_path: Seq<char>,
    method: Seq<char>,
    params: JsonModel,
)
    ensures
        registry.served(found, file_path) is None ==> registry.to_ask(
            found,
            workspace_key,
            file_path,
        ) == Ok::<Option<Seq<char>>, Fault>(None) && registry.telling(
            found,
            workspace_key,
            file_path,
            method,
            params,
        ) is None,
        registry.served(found, file_path) matches Some(row) ==> match registry.running(
            workspace_key,
            row.server.name,
        ) {
            None => registry.to_ask(found, workspace_key, file_path) == Err::<
                Option<Seq<char>>,
                Fault,
            >(Fault::NotRunning { server: row.server.name }) && registry.telling(
                found,
                workspace_key,
                file_path,
                method,
                params,
            ) is None,
            Some(server) => if server.documents.contains_key(file_path) {
                &&& registry.to_ask(found, workspace_key, file_path) == Ok::<
                    Option<Seq<char>>,
                    Fault,
                >(Some(row.server.name))
                &&& registry.telling(found, workspace_key, file_path, method, params) matches Some(
                    (name, message),
                ) && name == row.server.name && process::method_of(message) == Some(method)
                    && message.member("params"@) == Some(params)
            } else {
                &&& registry.to_ask(found, workspace_key, file_path) == Err::<
                    Option<Seq<char>>,
                    Fault,
                >(Fault::NotOpen { file_path, server: row.server.name })
                &&& registry.telling(found, workspace_key, file_path, method, params) is None
            },
        },
{
    process::law_a_message_says_what_it_is(0, method, params, JsonModel::Null, JsonModel::Null);
}

/// A file is formatted by a server that formats, as it is indented, and refused by name where its
/// server does not.
pub proof fn law_a_file_is_formatted_by_a_server_that_formats(
    registry: RegistryModel,
    found: FoundModel,
    workspace: (Seq<char>, Seq<char>),
    file_path: Seq<char>,
    options: LspFormatting,
    name: Seq<char>,
    server: ServerModel,
)
    requires
        registry.to_ask(found, workspace.0, file_path) == Ok::<Option<Seq<char>>, Fault>(
            Some(name),
        ),
        registry.running(workspace.0, name) == Some(server),
    ensures
        server.formats ==> (registry.formatting(
            found,
            workspace,
            file_path,
            options,
        ) matches Ok(Some(request)) && request.server == name && request.method
            == "textDocument/formatting"@ && request.params == params::to_format(
            uris::uri_of(paths::joined(workspace.1, file_path)),
            options,
        )),
        !server.formats ==> registry.formatting(found, workspace, file_path, options) == Err::<
            Option<RequestModel>,
            Fault,
        >(Fault::DoesNotFormat { server: name }),
{
}

/// A completion is asked for because of a trigger exactly where the caret sits behind one of the
/// characters its server named, and then because of that one.
pub proof fn law_a_trigger_is_what_the_caret_sits_behind(
    registry: RegistryModel,
    workspace_key: Seq<char>,
    name: Seq<char>,
    file_path: Seq<char>,
    at: LspPosition,
    server: ServerModel,
    text: Seq<char>,
)
    requires
        registry.running(workspace_key, name) == Some(server),
        server.document(file_path) == Some(text),
    ensures
        registry.because(workspace_key, name, file_path, at) == (match positions::behind(
            encode_utf8(text),
            at,
        ) {
            Some(typed) => if exists|i: int|
                0 <= i < server.triggers.len() && #[trigger] server.triggers[i] == typed {
                AskedBecause::OneOfItsTriggersWasTyped(typed)
            } else {
                AskedBecause::SomebodyIsTyping
            },
            None => AskedBecause::SomebodyIsTyping,
        }),
{
}

/// What is wrong with a file is what its server last published about that file on disk, counted
/// against the text the server was last told and in its units. There is nothing where the file has no
/// server, it is not running, or the file is not open in it.
pub proof fn law_what_is_wrong_with_a_file_is_what_its_server_published(
    registry: RegistryModel,
    workspace: (Seq<char>, Seq<char>),
    file_path: Seq<char>,
)
    ensures
        languages::row_for(file_path) is None ==> registry.diagnostics(
            workspace.0,
            workspace.1,
            file_path,
        ).len() == 0 && registry.triggers(workspace.0, file_path).len() == 0,
        languages::row_for(file_path) matches Some(row) ==> match registry.running(
            workspace.0,
            row.server.name,
        ) {
            None => registry.diagnostics(workspace.0, workspace.1, file_path).len() == 0
                && registry.triggers(workspace.0, file_path).len() == 0,
            Some(server) => {
                &&& registry.triggers(workspace.0, file_path) == server.triggers
                &&& server.document(file_path) is None ==> registry.diagnostics(
                    workspace.0,
                    workspace.1,
                    file_path,
                ).len() == 0
                &&& server.document(file_path) matches Some(text) ==> registry.diagnostics(
                    workspace.0,
                    workspace.1,
                    file_path,
                ) == answers::complaints_in(
                    encode_utf8(text),
                    server.published(paths::joined(workspace.1, file_path)),
                    server.encoding->0,
                )
            },
        },
{
}

/// What goes with a question about actions is, of what the server published about the file, what is
/// about the place, each as it was written.
pub proof fn law_what_is_wrong_at_a_place_goes_with_the_question(
    registry: RegistryModel,
    workspace: (Seq<char>, Seq<char>),
    file_path: Seq<char>,
    question: QuestionModel,
    server: ServerModel,
)
    requires
        registry.running(workspace.0, question.server) == Some(server),
    ensures
        ({
            let about = answers::about(
                server.published(paths::joined(workspace.1, file_path)),
                question.line as int,
                question.character,
            );
            let carried = registry.complaints_at(workspace, file_path, question);
            &&& carried.len() == about.len()
            &&& forall|i: int| 0 <= i < about.len() ==> #[trigger] carried[i] == about[i].written
        }),
{
}

proof fn lemma_works_are_of_servers(
    servers: Seq<(Seq<char>, ServerModel)>,
    workspace_key: Seq<char>,
)
    ensures
        model::works_in(servers, workspace_key).len() == servers.filter(
            |held: (Seq<char>, ServerModel)| held.0 == workspace_key && held.1.working is Some,
        ).len(),
        forall|i: int|
            0 <= i < model::works_in(servers, workspace_key).len() ==> {
                let server = servers.filter(
                    |held: (Seq<char>, ServerModel)|
                        held.0 == workspace_key && held.1.working is Some,
                )[i].1;
                let work = #[trigger] model::works_in(servers, workspace_key)[i];
                &&& work.server == server.name
                &&& server.working matches Some(doing) && doing.title == work.title && doing.detail
                    == work.detail && doing.percentage == work.percentage
            },
    decreases servers.len(),
{
    reveal(Seq::filter);
    if servers.len() > 0 {
        lemma_works_are_of_servers(servers.drop_last(), workspace_key);
    }
}

/// What is told of a workspace is one piece of work for each of its servers that is doing anything, by
/// the name of the server and as the server told it, in the order of the names.
pub proof fn law_every_server_at_work_is_told_of(
    registry: RegistryModel,
    workspace_key: Seq<char>,
    at: int,
)
    ensures
        registry.working(workspace_key).len() == registry.servers.filter(
            |held: (Seq<char>, ServerModel)| held.0 == workspace_key && held.1.working is Some,
        ).len(),
        0 <= at < registry.servers.len() && registry.servers[at].0 == workspace_key ==> (
        registry.servers[at].1.working matches Some(doing) ==> exists|i: int|
            0 <= i < registry.working(workspace_key).len() && {
                let work = #[trigger] registry.working(workspace_key)[i];
                &&& work.server == registry.servers[at].1.name
                &&& work.title == doing.title
                &&& work.detail == doing.detail
                &&& work.percentage == doing.percentage
            }),
        forall|i: int, j: int|
            0 <= i < j < registry.working(workspace_key).len() ==> !text::is_after(
                encode_utf8((#[trigger] registry.working(workspace_key)[i]).server),
                encode_utf8((#[trigger] registry.working(workspace_key)[j]).server),
            ),
{
    broadcast use vstd::seq_lib::group_to_multiset_ensures;

    let works = model::works_in(registry.servers, workspace_key);
    let told = registry.working(workspace_key);
    lemma_works_are_of_servers(registry.servers, workspace_key);
    order::law_order_keeps_everything::<LspWork>(works);
    order::law_order_is_kept::<LspWork>(works);
    assert forall|i: int, j: int| 0 <= i < j < told.len() implies !text::is_after(
        encode_utf8((#[trigger] told[i]).server),
        encode_utf8((#[trigger] told[j]).server),
    ) by {
        assert(!<LspWork as order::Ranked>::behind(told[i], told[j]));
    }
    if 0 <= at < registry.servers.len() && registry.servers[at].0 == workspace_key
        && registry.servers[at].1.working is Some {
        let held = registry.servers[at];
        let kept = registry.servers.filter(
            |held: (Seq<char>, ServerModel)| held.0 == workspace_key && held.1.working is Some,
        );
        registry.servers.lemma_filter_contains(
            |held: (Seq<char>, ServerModel)| held.0 == workspace_key && held.1.working is Some,
            at,
        );
        let there = choose|there: int| 0 <= there < kept.len() && kept[there] == held;
        let work = works[there];
        assert(works.contains(work));
        assert(told.to_multiset().count(work) > 0);
        let i = choose|i: int| 0 <= i < told.len() && told[i] == work;
        assert(told[i] == work);
    }
}

/// Looking for a command leaves what is known of every other as it was, and what is known of this one
/// where it is known already. Otherwise it is found at the first place on the search path that can be
/// run, where there is one.
pub proof fn law_a_command_is_looked_for_once<F: Fn(&str) -> bool>(
    runnable: F,
    before: FoundModel,
    after: FoundModel,
    search_path: Seq<char>,
    command: Seq<char>,
    other: (Seq<char>, Seq<char>),
)
    requires
        model::looks_up(runnable, before, after, search_path, command),
    ensures
        after.contains_key((search_path, command)),
        before.contains_key((search_path, command)) ==> after == before,
        other != (search_path, command) ==> (after.contains_key(other) <==> before.contains_key(
            other,
        )) && (before.contains_key(other) ==> after[other] == before[other]),
        !before.contains_key((search_path, command)) ==> match after[(search_path, command)] {
            Some(place) => languages::may_say(runnable, place, true) && exists|at: int|
                #![trigger languages::candidates_on(search_path, command)[at]]
                0 <= at < languages::candidates_on(search_path, command).len()
                    && languages::candidates_on(search_path, command)[at] == place && forall|i: int|
                    0 <= i < at ==> languages::may_say(
                        runnable,
                        #[trigger] languages::candidates_on(search_path, command)[i],
                        false,
                    ),
            None => forall|i: int|
                0 <= i < languages::candidates_on(search_path, command).len()
                    ==> languages::may_say(
                    runnable,
                    #[trigger] languages::candidates_on(search_path, command)[i],
                    false,
                ),
        },
{
}

/// A request is put to the server the question is for, and is refused where the question is, for the
/// same thing.
pub proof fn law_a_request_is_of_its_question(
    registry: RegistryModel,
    found: FoundModel,
    workspace: (Seq<char>, Seq<char>),
    file_path: Seq<char>,
    at: LspPosition,
    method: Seq<char>,
    params: spec_fn(QuestionModel) -> JsonModel,
)
    ensures
        match registry.question(found, workspace.0, workspace.1, file_path, at) {
            Err(fault) => registry.about(found, workspace, file_path, at, method, params) == Err::<
                Option<RequestModel>,
                Fault,
            >(fault),
            Ok(None) => registry.about(found, workspace, file_path, at, method, params) == Ok::<
                Option<RequestModel>,
                Fault,
            >(None),
            Ok(Some(question)) => registry.about(
                found,
                workspace,
                file_path,
                at,
                method,
                params,
            ) matches Ok(Some(request)) && request.server == question.server && request.method
                == method && request.params == params(question) && question.line == at.line
                && question.uri == uris::uri_of(paths::joined(workspace.1, file_path)),
        },
{
}

/// A registry starts with no server running and none given up on, on its search path and for its
/// client. A server started is the only thing that changes, and so is one given up on.
pub proof fn law_a_registry_starts_with_nothing(
    registry: RegistryModel,
    search_path: Seq<char>,
    client: params::ClientModel,
    workspace_key: Seq<char>,
    name: Seq<char>,
    server: ServerModel,
    other_key: Seq<char>,
    other_name: Seq<char>,
)
    ensures
        ({
            let fresh = RegistryModel::fresh(search_path, client);
            &&& fresh.running(workspace_key, name) is None
            &&& !fresh.gave_up.contains((workspace_key, name))
            &&& fresh.search_path == search_path
            &&& fresh.client == client
        }),
        registry.giving_up(workspace_key, name).gave_up.contains((workspace_key, name)),
        (other_key, other_name) != (workspace_key, name) ==> (registry.giving_up(
            workspace_key,
            name,
        ).gave_up.contains((other_key, other_name)) <==> registry.gave_up.contains(
            (other_key, other_name),
        )),
        registry.giving_up(workspace_key, name).running(other_key, other_name) == registry.running(
            other_key,
            other_name,
        ),
        registry.holding(workspace_key, server).servers == registry.servers.push(
            (workspace_key, server),
        ),
        registry.holding(workspace_key, server).gave_up == registry.gave_up,
{
}

/// What happens to a server changes neither what was given up on, nor where servers are looked for, nor
/// for whom; and asking whether it is ready changes nothing of it but that the answer is kept.
pub proof fn law_only_the_server_changes(
    registry: RegistryModel,
    found: FoundModel,
    workspace_key: Seq<char>,
    row: ExtensionRow,
    file_path: Seq<char>,
    server: ServerModel,
    now: u64,
)
    requires
        registry.wf(),
        registry.served(found, file_path) == Some(row),
        !registry.gave_up.contains((workspace_key, row.server.name)),
        registry.running(workspace_key, row.server.name) == Some(server),
    ensures
        registry.with_server(workspace_key, row.server.name, server).gave_up == registry.gave_up,
        registry.with_server(workspace_key, row.server.name, server).search_path
            == registry.search_path,
        registry.with_server(workspace_key, row.server.name, server).client == registry.client,
        ({
            let after = registry.after_status(found, workspace_key, file_path, now);
            &&& after.gave_up == registry.gave_up
            &&& after.search_path == registry.search_path
            &&& after.client == registry.client
            &&& after.running(workspace_key, row.server.name) == Some(
                ServerModel {
                    readiness: ReadinessModel {
                        finished: server.readiness.ready(now),
                        ..server.readiness
                    },
                    ..server
                },
            )
        }),
{
    let asked = ServerModel {
        readiness: ReadinessModel { finished: server.readiness.ready(now), ..server.readiness },
        ..server
    };
    model::lemma_in_place(registry, workspace_key, row.server.name);
    law_servers_are_apart(registry, workspace_key, asked, workspace_key, row.server.name);
}

} // verus!
