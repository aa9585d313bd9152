//! What is said to a server: the parameters of everything it is asked and told.

use vstd::prelude::*;
use vstd::string::*;

use crate::json;
use crate::json::{Json, JsonModel};
use crate::paths;
use crate::payload::{LspFormatting, LspPlaces};
use crate::protocol::uris;

verus! {

broadcast use vstd::string::group_string_axioms;

/// What this crate is called, to a server that was told of nobody else.
pub const CRATE_NAME: &'static str = "moon_lsp";

/// This crate's version.
pub const CRATE_VERSION: &'static str = "0.1.0";

// ---------------------------------------------------------------------------------------------
// Who is asking
// ---------------------------------------------------------------------------------------------

/// Who a server is told it is talking to: the `clientInfo` of `initialize`.
///
/// This is the caller's for the same reason the search path handed to
/// [`LspRegistry::new`](crate::LspRegistry::new) is - it is a thing the crate cannot know. A
/// library has no host application's name to give, and a server writes what it is told into
/// its log and in places changes what it offers by it, so what goes out has to be true of
/// whoever is really speaking. Said nothing about, that is this crate: [`Default`] is
/// `moon_lsp` and the version of the crate itself, which is the only honest answer about a
/// program it knows nothing about. A host application says its own name with
/// [`LspRegistry::identifying_as`](crate::LspRegistry::identifying_as).
#[derive(PartialEq, Eq, Debug)]
pub struct ClientIdentity {
    /// The name of the program talking to the server, as it should read in a server's log.
    pub name: String,
    /// Its version, which is worth sending: a server's log is where a bug in a client is
    /// eventually found, and a version is what tells one report from another. `None` for a
    /// caller with no version to give, and then nothing is sent rather than something made
    /// up.
    pub version: Option<String>,
}

/// A [`ClientIdentity`] as a contract speaks of it.
pub struct ClientModel {
    /// See [`ClientIdentity::name`].
    pub name: Seq<char>,
    /// See [`ClientIdentity::version`].
    pub version: Option<Seq<char>>,
}

impl View for ClientIdentity {
    type V = ClientModel;

    open spec fn view(&self) -> ClientModel {
        ClientModel { name: self.name@, version: crate::text::maybe(self.version) }
    }
}

impl Default for ClientIdentity {
    fn default() -> (client: Self)
        ensures
            client@ == (ClientModel { name: CRATE_NAME@, version: Some(CRATE_VERSION@) }),
    {
        ClientIdentity { name: CRATE_NAME.to_owned(), version: Some(CRATE_VERSION.to_owned()) }
    }
}

impl Clone for ClientIdentity {
    fn clone(&self) -> (client: Self)
        ensures
            client@ == self@,
    {
        ClientIdentity {
            name: self.name.clone(),
            version: match &self.version {
                Some(version) => Some(version.clone()),
                None => None,
            },
        }
    }
}

impl ClientModel {
    /// The `clientInfo` of `initialize`.
    pub open spec fn info(self) -> JsonModel {
        let named = JsonModel::object().with("name"@, JsonModel::Text(self.name));
        match self.version {
            Some(version) => named.with("version"@, JsonModel::Text(version)),
            None => named,
        }
    }
}

impl ClientIdentity {
    /// A program of this name and version. A caller with no version to give writes the two
    /// fields out itself with `version: None`.
    pub fn new(name: &str, version: &str) -> (client: Self)
        ensures
            client@ == (ClientModel { name: name@, version: Some(version@) }),
    {
        ClientIdentity { name: name.to_owned(), version: Some(version.to_owned()) }
    }

    /// The `clientInfo` of `initialize`, with the version left out where there is none - the
    /// field is optional in the protocol, and a server reading it back should see an absence
    /// rather than an empty string.
    pub fn as_client_info(&self) -> (info: Json)
        ensures
            info is Object,
            info@ == self@.info(),
    {
        let named = Json::object().with("name", Json::text(self.name.as_str()));
        match &self.version {
            Some(version) => named.with("version", Json::text(version.as_str())),
            None => named,
        }
    }
}

// ---------------------------------------------------------------------------------------------
// Starting up
// ---------------------------------------------------------------------------------------------

/// What the repo's folder is called: its name, and `workspace` where it has none.
pub open spec fn folder_name(repo_root: Seq<char>) -> Seq<char> {
    match paths::name_of(repo_root) {
        Some(name) => name,
        None => "workspace"@,
    }
}

/// A list of texts.
pub open spec fn texts(items: Seq<Seq<char>>) -> JsonModel
    decreases items.len(),
{
    if items.len() == 0 {
        JsonModel::list()
    } else {
        texts(items.drop_last()).and(JsonModel::Text(items.last()))
    }
}

/// The kinds of code action this client takes.
pub open spec fn action_kinds() -> Seq<Seq<char>> {
    seq![
        ""@,
        "quickfix"@,
        "refactor"@,
        "refactor.extract"@,
        "refactor.inline"@,
        "refactor.rewrite"@,
        "source"@,
        "source.organizeImports"@,
    ]
}

/// How text that is read by a person may come: as markdown, and plain where it must.
pub open spec fn text_formats() -> Seq<Seq<char>> {
    seq!["markdown"@, "plaintext"@]
}

/// What a client that takes several places as links says of a question about places.
pub open spec fn with_links() -> JsonModel {
    JsonModel::object().with("linkSupport"@, JsonModel::Bool(true))
}

/// What this client says it does with documents.
pub open spec fn document_capabilities() -> JsonModel {
    JsonModel::object().with(
        "synchronization"@,
        JsonModel::object().with("dynamicRegistration"@, JsonModel::Bool(false)).with(
            "didSave"@,
            JsonModel::Bool(true),
        ),
    ).with("publishDiagnostics"@, JsonModel::object()).with(
        "hover"@,
        JsonModel::object().with("contentFormat"@, texts(text_formats())),
    ).with(
        "codeAction"@,
        JsonModel::object().with(
            "codeActionLiteralSupport"@,
            JsonModel::object().with(
                "codeActionKind"@,
                JsonModel::object().with("valueSet"@, texts(action_kinds())),
            ),
        ).with("isPreferredSupport"@, JsonModel::Bool(true)),
    ).with(
        "signatureHelp"@,
        JsonModel::object().with(
            "signatureInformation"@,
            JsonModel::object().with("documentationFormat"@, texts(text_formats())).with(
                "parameterInformation"@,
                JsonModel::object().with("labelOffsetSupport"@, JsonModel::Bool(true)),
            ).with("activeParameterSupport"@, JsonModel::Bool(true)),
        ),
    ).with("definition"@, with_links()).with("typeDefinition"@, with_links()).with(
        "implementation"@,
        with_links(),
    ).with("references"@, JsonModel::object()).with("formatting"@, JsonModel::object()).with(
        "completion"@,
        JsonModel::object().with(
            "completionItem"@,
            JsonModel::object().with("snippetSupport"@, JsonModel::Bool(false)),
        ).with("contextSupport"@, JsonModel::Bool(true)),
    ).with("rename"@, JsonModel::object().with("prepareSupport"@, JsonModel::Bool(true)))
}

/// What this client says it can do: count columns in bytes or in UTF-16 units, show work being
/// done, and the rest of it with documents.
pub open spec fn capabilities() -> JsonModel {
    JsonModel::object().with(
        "general"@,
        JsonModel::object().with("positionEncodings"@, texts(seq!["utf-8"@, "utf-16"@])),
    ).with("window"@, JsonModel::object().with("workDoneProgress"@, JsonModel::Bool(true))).with(
        "textDocument"@,
        document_capabilities(),
    )
}

/// What is asked of a server as it starts.
pub open spec fn initialize_with(
    repo_root: Seq<char>,
    client: ClientModel,
    process_id: u32,
) -> JsonModel {
    let root_uri = JsonModel::Text(uris::uri_of(repo_root));
    JsonModel::object().with("processId"@, JsonModel::whole(process_id as int)).with(
        "clientInfo"@,
        client.info(),
    ).with("rootUri"@, root_uri).with(
        "workspaceFolders"@,
        JsonModel::list().and(
            JsonModel::object().with("uri"@, root_uri).with(
                "name"@,
                JsonModel::Text(folder_name(repo_root)),
            ),
        ),
    ).with("capabilities"@, capabilities())
}

/// A list of texts - see [`texts`].
fn list_of(items: &[&str]) -> (list: Json)
    ensures
        list is List,
        list@ == texts(items@.map_values(|item: &str| item@)),
{
    let ghost all = items@.map_values(|item: &str| item@);
    let mut list = Json::list();
    let mut at: usize = 0;
    assert(all.take(0).len() == 0);
    while at < items.len()
        invariant
            all == items@.map_values(|item: &str| item@),
            at <= items@.len(),
            list is List,
            list@ == texts(all.take(at as int)),
        decreases items@.len() - at,
    {
        list = list.and(Json::text(items[at]));
        at += 1;
        assert(all.take(at as int).drop_last() =~= all.take(at - 1));
    }
    assert(all.take(at as int) =~= all);
    list
}

fn format_list() -> (list: Json)
    ensures
        list@ == texts(text_formats()),
{
    let formats: Vec<&str> = vec!["markdown", "plaintext"];
    assert(formats@.map_values(|item: &str| item@) =~= text_formats());
    list_of(formats.as_slice())
}

fn action_kind_list() -> (list: Json)
    ensures
        list@ == texts(action_kinds()),
{
    let kinds: Vec<&str> = vec![
        "",
        "quickfix",
        "refactor",
        "refactor.extract",
        "refactor.inline",
        "refactor.rewrite",
        "source",
        "source.organizeImports",
    ];
    assert(kinds@.map_values(|item: &str| item@) =~= action_kinds());
    list_of(kinds.as_slice())
}

fn encoding_list() -> (list: Json)
    ensures
        list@ == texts(seq!["utf-8"@, "utf-16"@]),
{
    let encodings: Vec<&str> = vec!["utf-8", "utf-16"];
    assert(encodings@.map_values(|item: &str| item@) =~= seq!["utf-8"@, "utf-16"@]);
    list_of(encodings.as_slice())
}

fn links() -> (json: Json)
    ensures
        json@ == with_links(),
{
    Json::object().with("linkSupport", Json::Bool(true))
}

/// What this client says it does with documents - see [`document_capabilities`].
fn on_documents() -> (json: Json)
    ensures
        json@ == document_capabilities(),
{
    Json::object().with(
        "synchronization",
        Json::object().with("dynamicRegistration", Json::Bool(false)).with(
            "didSave",
            Json::Bool(true),
        ),
        // Read and put under the text - see [`crate::protocol::diagnostics_from`].
    ).with("publishDiagnostics", Json::object()).with(
        "hover",
        Json::object().with("contentFormat", format_list()),
        // Literal actions, with their edits in them: an action that is only a command
        // for the server to run is not offered - see [`crate::protocol::code_actions_from`].
    ).with(
        "codeAction",
        Json::object().with(
            "codeActionLiteralSupport",
            Json::object().with(
                "codeActionKind",
                Json::object().with("valueSet", action_kind_list()),
            ),
        ).with("isPreferredSupport", Json::Bool(true)),
    ).with(
        "signatureHelp",
        Json::object().with(
            "signatureInformation",
            Json::object().with("documentationFormat", format_list()).with(
                "parameterInformation",
                Json::object().with("labelOffsetSupport", Json::Bool(true)),
            ).with("activeParameterSupport", Json::Bool(true)),
        ),
    ).with("definition", links()).with("typeDefinition", links()).with(
        "implementation",
        links(),
    ).with("references", Json::object()).with("formatting", Json::object()).with(
        "completion",
        Json::object().with(
            "completionItem",
            Json::object().with("snippetSupport", Json::Bool(false)),
            // Every completion request says why it is being asked - see
            // [`AskedBecause`] - and a server only reads that from a client that
            // said it would send it.
        ).with("contextSupport", Json::Bool(true)),
        // A rename is asked about before it is made, so the name can be offered to be
        // typed over and a place with nothing to rename says so before anything is.
    ).with("rename", Json::object().with("prepareSupport", Json::Bool(true)))
}

/// What is asked of a server as it starts: the repo as the workspace, who is asking, and -
/// the point of this - a request to count columns in bytes.
///
/// Bytes are what the editor has. The protocol's default is UTF-16 code units, so without
/// this every position on a line holding anything outside ASCII is wrong by however many
/// bytes the multi-byte characters before it take. 3.17 lets a client ask for another
/// encoding, and what the server answers with is read back by
/// [`crate::protocol::agreed_encoding`] rather than assumed - a server free to ignore the
/// request is a server that will.
pub fn initialize_params(repo_root: &str, client: &ClientIdentity, process_id: u32) -> (params:
    Json)
    ensures
        params@ == initialize_with(repo_root@, client@, process_id),
{
    let root_uri = uris::file_uri(repo_root);
    let name = match paths::file_name(repo_root) {
        Some(name) => name,
        None => "workspace".to_owned(),
    };
    let folder = Json::object().with("uri", Json::text(root_uri.as_str())).with(
        "name",
        Json::text(name.as_str()),
    );
    let capabilities = Json::object().with(
        "general",
        Json::object().with("positionEncodings", encoding_list()),
    ).with("window", Json::object().with("workDoneProgress", Json::Bool(true))).with(
        "textDocument",
        on_documents(),
    );
    Json::object().with("processId", Json::whole(process_id as i128)).with(
        "clientInfo",
        client.as_client_info(),
    ).with("rootUri", Json::text(root_uri.as_str())).with(
        "workspaceFolders",
        Json::list().and(folder),
    ).with("capabilities", capabilities)
}

// ---------------------------------------------------------------------------------------------
// Documents
// ---------------------------------------------------------------------------------------------

/// One document, by its URI alone.
pub open spec fn document(uri: Seq<char>) -> JsonModel {
    JsonModel::object().with("uri"@, JsonModel::Text(uri))
}

/// See [`did_open_params`].
pub open spec fn opened(uri: Seq<char>, language_id: Seq<char>, text: Seq<char>) -> JsonModel {
    JsonModel::object().with(
        "textDocument"@,
        document(uri).with("languageId"@, JsonModel::Text(language_id)).with(
            "version"@,
            JsonModel::whole(1),
        ).with("text"@, JsonModel::Text(text)),
    )
}

/// See [`did_change_params`].
pub open spec fn changed(uri: Seq<char>, text: Seq<char>) -> JsonModel {
    JsonModel::object().with(
        "textDocument"@,
        document(uri).with("version"@, JsonModel::whole(2)),
    ).with(
        "contentChanges"@,
        JsonModel::list().and(JsonModel::object().with("text"@, JsonModel::Text(text))),
    )
}

/// See [`did_close_params`].
pub open spec fn closed_document(uri: Seq<char>) -> JsonModel {
    JsonModel::object().with("textDocument"@, document(uri))
}

/// A document the server is being told about for the first time, with the whole of its text.
pub fn did_open_params(uri: &str, language_id: &str, text: &str) -> (params: Json)
    ensures
        params@ == opened(uri@, language_id@, text@),
{
    Json::object().with(
        "textDocument",
        Json::object().with("uri", Json::text(uri)).with(
            "languageId",
            Json::text(language_id),
        ).with("version", Json::whole(1)).with("text", Json::text(text)),
    )
}

/// The whole text again. Full-text sync: the alternative is keeping a version number and a
/// list of edits in step with an editor that does not report them, and every server here
/// accepts the whole document.
pub fn did_change_params(uri: &str, text: &str) -> (params: Json)
    ensures
        params@ == changed(uri@, text@),
{
    Json::object().with(
        "textDocument",
        Json::object().with("uri", Json::text(uri)).with("version", Json::whole(2)),
    ).with(
        "contentChanges",
        Json::list().and(Json::object().with("text", Json::text(text))),
    )
}

/// A document the server is being told is no longer open here.
pub fn did_close_params(uri: &str) -> (params: Json)
    ensures
        params@ == closed_document(uri@),
{
    Json::object().with("textDocument", Json::object().with("uri", Json::text(uri)))
}

// ---------------------------------------------------------------------------------------------
// Questions about a place
// ---------------------------------------------------------------------------------------------

/// A place in a document, in the server's units.
pub open spec fn place(line: usize, character: u32) -> JsonModel {
    JsonModel::object().with("line"@, JsonModel::whole(line as int)).with(
        "character"@,
        JsonModel::whole(character as int),
    )
}

/// See [`position_params`].
pub open spec fn about_place(uri: Seq<char>, line: usize, character: u32) -> JsonModel {
    closed_document(uri).with("position"@, place(line, character))
}

fn place_params(line: usize, character: u32) -> (params: Json)
    ensures
        params@ == place(line, character),
{
    Json::object().with("line", Json::whole(line as i128)).with(
        "character",
        Json::whole(character as i128),
    )
}

/// A question about one place in one document, in the units the server agreed to.
pub fn position_params(uri: &str, line: usize, character: u32) -> (params: Json)
    ensures
        params is Object,
        params@ == about_place(uri@, line, character),
{
    Json::object().with("textDocument", Json::object().with("uri", Json::text(uri))).with(
        "position",
        place_params(line, character),
    )
}

/// Why a server is being asked what could be typed, which is the `context` of
/// `textDocument/completion`.
///
/// Worth sending, and the reason the request carries it: a server told that a `.` was just
/// typed answers with the members of what is to the left of it, and the same server asked
/// the same position with nothing said about why answers with everything in scope, in
/// another order. The protocol has a field for the difference because the answers really are
/// different.
#[derive(Clone, Copy, PartialEq, Eq, Debug, Structural)]
pub enum AskedBecause {
    /// One of the characters the server named in [`crate::protocol::trigger_characters`] has just
    /// been typed, and is what the caret is sitting behind.
    OneOfItsTriggersWasTyped(char),
    /// Anything else: a word is being typed, or somebody asked for the list outright.
    SomebodyIsTyping,
}

impl AskedBecause {
    /// The `context` of the request. The kinds are the protocol's own numbering: 1 is a
    /// client that asked, 2 is a trigger character.
    pub open spec fn context(self) -> JsonModel {
        match self {
            AskedBecause::OneOfItsTriggersWasTyped(typed) => JsonModel::object().with(
                "triggerKind"@,
                JsonModel::whole(2),
            ).with("triggerCharacter"@, JsonModel::Text(seq![typed])),
            AskedBecause::SomebodyIsTyping => JsonModel::object().with(
                "triggerKind"@,
                JsonModel::whole(1),
            ),
        }
    }

    /// The `context` of the request - see [`AskedBecause::context`].
    pub fn as_context(self) -> (context: Json)
        ensures
            context@ == self.context(),
    {
        match self {
            AskedBecause::OneOfItsTriggersWasTyped(typed) => {
                let mut character = String::new();
                character.push(typed);
                assert(character@ =~= seq![typed]);
                Json::object().with("triggerKind", Json::whole(2)).with(
                    "triggerCharacter",
                    Json::Text(character),
                )
            },
            AskedBecause::SomebodyIsTyping => Json::object().with("triggerKind", Json::whole(1)),
        }
    }
}

/// A question about what could be typed at one place, and why it is being asked.
pub fn completion_params(uri: &str, line: usize, character: u32, because: AskedBecause) -> (params:
    Json)
    ensures
        params@ == about_place(uri@, line, character).with("context"@, because.context()),
{
    position_params(uri, line, character).with("context", because.as_context())
}

/// A request to format a whole document.
pub open spec fn to_format(uri: Seq<char>, options: LspFormatting) -> JsonModel {
    closed_document(uri).with(
        "options"@,
        JsonModel::object().with("tabSize"@, JsonModel::whole(options.tab_size as int)).with(
            "insertSpaces"@,
            JsonModel::Bool(options.insert_spaces),
        ),
    )
}

/// A request to format a whole document, indented the way the caller says.
pub fn formatting_params(uri: &str, options: LspFormatting) -> (params: Json)
    ensures
        params@ == to_format(uri@, options),
{
    Json::object().with("textDocument", Json::object().with("uri", Json::text(uri))).with(
        "options",
        Json::object().with("tabSize", Json::whole(options.tab_size as i128)).with(
            "insertSpaces",
            Json::Bool(options.insert_spaces),
        ),
    )
}

/// A list of values carried as they are written.
pub open spec fn carried(written: Seq<Seq<char>>) -> JsonModel
    decreases written.len(),
{
    if written.len() == 0 {
        JsonModel::list()
    } else {
        carried(written.drop_last()).and(JsonModel::Verbatim(written.last()))
    }
}

/// A question about what could be done to the code at one place, with what the server found
/// wrong there.
pub open spec fn about_actions(
    uri: Seq<char>,
    line: usize,
    character: u32,
    diagnostics: Seq<Seq<char>>,
) -> JsonModel {
    closed_document(uri).with(
        "range"@,
        JsonModel::object().with("start"@, place(line, character)).with(
            "end"@,
            place(line, character),
        ),
    ).with(
        "context"@,
        JsonModel::object().with("diagnostics"@, carried(diagnostics)).with(
            "triggerKind"@,
            JsonModel::whole(1),
        ),
    )
}

/// The same question, with the diagnostics as a list already.
pub fn action_params(uri: &str, line: usize, character: u32, diagnostics: Json) -> (params: Json)
    ensures
        params@ == closed_document(uri@).with(
            "range"@,
            JsonModel::object().with("start"@, place(line, character)).with(
                "end"@,
                place(line, character),
            ),
        ).with(
            "context"@,
            JsonModel::object().with("diagnostics"@, diagnostics@).with(
                "triggerKind"@,
                JsonModel::whole(1),
            ),
        ),
{
    Json::object().with("textDocument", Json::object().with("uri", Json::text(uri))).with(
        "range",
        Json::object().with("start", place_params(line, character)).with(
            "end",
            place_params(line, character),
        ),
        // 1 is a person asking, rather than the editor asking on its own.
    ).with(
        "context",
        Json::object().with("diagnostics", diagnostics).with("triggerKind", Json::whole(1)),
    )
}

/// A question asking for the name at one place to be called `new_name` everywhere it is used.
pub fn rename_params(uri: &str, line: usize, character: u32, new_name: &str) -> (params: Json)
    ensures
        params@ == about_place(uri@, line, character).with("newName"@, JsonModel::Text(new_name@)),
{
    position_params(uri, line, character).with("newName", Json::text(new_name))
}

// ---------------------------------------------------------------------------------------------
// Questions about places
// ---------------------------------------------------------------------------------------------

/// The method each kind of place is asked for with, one for one.
pub open spec fn method_for(which: LspPlaces) -> Seq<char> {
    match which {
        LspPlaces::Definition => "textDocument/definition"@,
        LspPlaces::TypeDefinition => "textDocument/typeDefinition"@,
        LspPlaces::Implementation => "textDocument/implementation"@,
        LspPlaces::References => "textDocument/references"@,
    }
}

/// The request that asks for one kind of place.
pub fn places_method(which: LspPlaces) -> (method: &'static str)
    ensures
        method@ == method_for(which),
{
    match which {
        LspPlaces::Definition => "textDocument/definition",
        LspPlaces::TypeDefinition => "textDocument/typeDefinition",
        LspPlaces::Implementation => "textDocument/implementation",
        LspPlaces::References => "textDocument/references",
    }
}

/// A question about the places of the name at one place.
pub open spec fn about_places(
    uri: Seq<char>,
    line: usize,
    character: u32,
    which: LspPlaces,
) -> JsonModel {
    if which == LspPlaces::References {
        about_place(uri, line, character).with(
            "context"@,
            JsonModel::object().with("includeDeclaration"@, JsonModel::Bool(true)),
        )
    } else {
        about_place(uri, line, character)
    }
}

/// A question about the places of the name at one place.
///
/// References are asked for with the declaration among them: a list of the uses of a name
/// reads better with where it came from in it, and it is the one kind of place the protocol
/// wants told anything more than the position.
pub fn places_params(uri: &str, line: usize, character: u32, which: LspPlaces) -> (params: Json)
    ensures
        params@ == about_places(uri@, line, character, which),
{
    let params = position_params(uri, line, character);
    if which == LspPlaces::References {
        params.with(
            "context",
            Json::object().with("includeDeclaration", Json::Bool(true)),
        )
    } else {
        params
    }
}

/// Each kind of place is its own request.
pub proof fn law_each_kind_of_place_is_its_own_request(one: LspPlaces, other: LspPlaces)
    ensures
        method_for(one) == method_for(other) ==> one == other,
{
    reveal_strlit("textDocument/definition");
    reveal_strlit("textDocument/typeDefinition");
    reveal_strlit("textDocument/implementation");
    reveal_strlit("textDocument/references");
    assert("textDocument/definition"@.len() == 23);
    assert("textDocument/typeDefinition"@.len() == 27);
    assert("textDocument/implementation"@.len() == 27);
    assert("textDocument/references"@.len() == 23);
    assert("textDocument/definition"@[13] == 'd');
    assert("textDocument/references"@[13] == 'r');
    assert("textDocument/typeDefinition"@[13] == 't');
    assert("textDocument/implementation"@[13] == 'i');
}

proof fn lemma_texts_are(items: Seq<Seq<char>>)
    ensures
        texts(items) == JsonModel::List(items.map_values(|item: Seq<char>| JsonModel::Text(item))),
    decreases items.len(),
{
    if items.len() > 0 {
        lemma_texts_are(items.drop_last());
    }
    assert(texts(items)->List_0 =~= items.map_values(|item: Seq<char>| JsonModel::Text(item)));
}

proof fn lemma_carried_are(written: Seq<Seq<char>>)
    ensures
        carried(written) == JsonModel::List(
            written.map_values(|item: Seq<char>| JsonModel::Verbatim(item)),
        ),
    decreases written.len(),
{
    if written.len() > 0 {
        lemma_carried_are(written.drop_last());
    }
    assert(carried(written)->List_0 =~= written.map_values(
        |item: Seq<char>| JsonModel::Verbatim(item),
    ));
}

proof fn lemma_fresh_has_nothing(name: Seq<char>)
    ensures
        JsonModel::object().member(name) is None,
{
    json::law_values_read_back(Seq::empty(), JsonModel::Null, name, 0);
}

/// A question about a place names the document, the line and the column, and says nothing else; one
/// about the uses of a name asks for its declaration too, and no other does.
pub proof fn law_a_question_names_its_place(
    uri: Seq<char>,
    line: usize,
    character: u32,
    which: LspPlaces,
)
    ensures
        ({
            let asked = about_places(uri, line, character, which);
            &&& json::within(asked.member("textDocument"@), "uri"@) == Some(JsonModel::Text(uri))
            &&& json::within(asked.member("position"@), "line"@) == Some(
                JsonModel::whole(line as int),
            )
            &&& json::within(asked.member("position"@), "character"@) == Some(
                JsonModel::whole(character as int),
            )
            &&& which == LspPlaces::References ==> json::within(
                asked.member("context"@),
                "includeDeclaration"@,
            ) == Some(JsonModel::Bool(true))
            &&& which != LspPlaces::References ==> asked.member("context"@) is None
        }),
        json::within(about_place(uri, line, character).member("position"@), "line"@) == Some(
            JsonModel::whole(line as int),
        ),
        json::within(about_place(uri, line, character).member("position"@), "character"@) == Some(
            JsonModel::whole(character as int),
        ),
        json::within(about_place(uri, line, character).member("textDocument"@), "uri"@) == Some(
            JsonModel::Text(uri),
        ),
        about_place(uri, line, character).member("context"@) is None,
{
    broadcast use json::law_a_member_reads_back;

    reveal_strlit("textDocument");
    reveal_strlit("uri");
    reveal_strlit("position");
    reveal_strlit("line");
    reveal_strlit("character");
    reveal_strlit("context");
    reveal_strlit("includeDeclaration");
    assert("uri"@.len() == 3);
    assert("line"@.len() == 4);
    assert("context"@.len() == 7);
    assert("position"@.len() == 8);
    assert("character"@.len() == 9);
    assert("textDocument"@.len() == 12);
    assert("includeDeclaration"@.len() == 18);
    lemma_fresh_has_nothing("textDocument"@);
    lemma_fresh_has_nothing("uri"@);
    lemma_fresh_has_nothing("position"@);
    lemma_fresh_has_nothing("line"@);
    lemma_fresh_has_nothing("character"@);
    lemma_fresh_has_nothing("context"@);
    lemma_fresh_has_nothing("includeDeclaration"@);
}

/// Opening a document tells the server its language and its whole text; changing it tells the whole of
/// the new text, once; and closing it tells which it is.
pub proof fn law_a_document_is_told_whole(uri: Seq<char>, language_id: Seq<char>, text: Seq<char>)
    ensures
        ({
            let document = opened(uri, language_id, text).member("textDocument"@);
            &&& json::within(document, "uri"@) == Some(JsonModel::Text(uri))
            &&& json::within(document, "languageId"@) == Some(JsonModel::Text(language_id))
            &&& json::within(document, "text"@) == Some(JsonModel::Text(text))
            &&& json::within(document, "version"@) == Some(JsonModel::whole(1))
        }),
        ({
            let told = changed(uri, text);
            &&& json::within(told.member("textDocument"@), "uri"@) == Some(JsonModel::Text(uri))
            &&& json::within(told.member("textDocument"@), "version"@) == Some(JsonModel::whole(2))
            &&& told.member("contentChanges"@) matches Some(JsonModel::List(changes))
                && changes.len() == 1 && changes[0].member("text"@) == Some(JsonModel::Text(text))
                && changes[0].member("range"@) is None
        }),
        json::within(closed_document(uri).member("textDocument"@), "uri"@) == Some(
            JsonModel::Text(uri),
        ),
{
    broadcast use json::law_a_member_reads_back;

    reveal_strlit("textDocument");
    reveal_strlit("uri");
    reveal_strlit("languageId");
    reveal_strlit("version");
    reveal_strlit("text");
    reveal_strlit("contentChanges");
    reveal_strlit("range");
    assert("uri"@.len() == 3);
    assert("text"@.len() == 4);
    assert("range"@.len() == 5);
    assert("version"@.len() == 7);
    assert("languageId"@.len() == 10);
    assert("textDocument"@.len() == 12);
    assert("contentChanges"@.len() == 14);
    lemma_fresh_has_nothing("textDocument"@);
    lemma_fresh_has_nothing("uri"@);
    lemma_fresh_has_nothing("languageId"@);
    lemma_fresh_has_nothing("version"@);
    lemma_fresh_has_nothing("text"@);
    lemma_fresh_has_nothing("contentChanges"@);
    lemma_fresh_has_nothing("range"@);
}

/// A document is formatted as it is indented: by tabs this wide, or by spaces.
pub proof fn law_a_document_is_formatted_as_it_is_indented(
    uri: Seq<char>,
    options: LspFormatting,
)
    ensures
        json::within(to_format(uri, options).member("textDocument"@), "uri"@) == Some(
            JsonModel::Text(uri),
        ),
        json::within(to_format(uri, options).member("options"@), "tabSize"@) == Some(
            JsonModel::whole(options.tab_size as int),
        ),
        json::within(to_format(uri, options).member("options"@), "insertSpaces"@) == Some(
            JsonModel::Bool(options.insert_spaces),
        ),
{
    broadcast use json::law_a_member_reads_back;

    reveal_strlit("textDocument");
    reveal_strlit("uri");
    reveal_strlit("options");
    reveal_strlit("tabSize");
    reveal_strlit("insertSpaces");
    assert("uri"@.len() == 3);
    assert("options"@.len() == 7 && "tabSize"@.len() == 7);
    assert("options"@[0] != "tabSize"@[0]);
    assert("textDocument"@.len() == 12 && "insertSpaces"@.len() == 12);
    assert("textDocument"@[0] != "insertSpaces"@[0]);
    lemma_fresh_has_nothing("textDocument"@);
    lemma_fresh_has_nothing("uri"@);
    lemma_fresh_has_nothing("options"@);
    lemma_fresh_has_nothing("tabSize"@);
    lemma_fresh_has_nothing("insertSpaces"@);
}

/// What could be done at a place is asked of a stretch that starts and ends there, with every
/// diagnostic about it as it was written and in its order.
pub proof fn law_actions_are_asked_for_with_what_is_wrong_there(
    uri: Seq<char>,
    line: usize,
    character: u32,
    diagnostics: Seq<Seq<char>>,
)
    ensures
        ({
            let asked = about_actions(uri, line, character, diagnostics);
            let start = json::within(asked.member("range"@), "start"@);
            let end = json::within(asked.member("range"@), "end"@);
            &&& json::within(asked.member("textDocument"@), "uri"@) == Some(JsonModel::Text(uri))
            &&& json::within(start, "line"@) == Some(JsonModel::whole(line as int))
            &&& json::within(start, "character"@) == Some(JsonModel::whole(character as int))
            &&& json::within(end, "line"@) == Some(JsonModel::whole(line as int))
            &&& json::within(end, "character"@) == Some(JsonModel::whole(character as int))
            &&& json::within(asked.member("context"@), "diagnostics"@) == Some(
                JsonModel::List(
                    diagnostics.map_values(|item: Seq<char>| JsonModel::Verbatim(item)),
                ),
            )
            &&& json::within(asked.member("context"@), "triggerKind"@) == Some(JsonModel::whole(1))
        }),
{
    broadcast use json::law_a_member_reads_back;

    reveal_strlit("textDocument");
    reveal_strlit("uri");
    reveal_strlit("range");
    reveal_strlit("start");
    reveal_strlit("end");
    reveal_strlit("line");
    reveal_strlit("character");
    reveal_strlit("context");
    reveal_strlit("diagnostics");
    reveal_strlit("triggerKind");
    assert("uri"@.len() == 3 && "end"@.len() == 3);
    assert("uri"@[0] != "end"@[0]);
    assert("line"@.len() == 4);
    assert("range"@.len() == 5 && "start"@.len() == 5);
    assert("range"@[0] != "start"@[0]);
    assert("context"@.len() == 7);
    assert("character"@.len() == 9);
    assert("diagnostics"@.len() == 11 && "triggerKind"@.len() == 11);
    assert("diagnostics"@[0] != "triggerKind"@[0]);
    assert("textDocument"@.len() == 12);
    lemma_fresh_has_nothing("textDocument"@);
    lemma_fresh_has_nothing("uri"@);
    lemma_fresh_has_nothing("range"@);
    lemma_fresh_has_nothing("start"@);
    lemma_fresh_has_nothing("end"@);
    lemma_fresh_has_nothing("line"@);
    lemma_fresh_has_nothing("character"@);
    lemma_fresh_has_nothing("context"@);
    lemma_fresh_has_nothing("diagnostics"@);
    lemma_fresh_has_nothing("triggerKind"@);
    lemma_carried_are(diagnostics);
}

/// A completion is asked for with the character that was typed where it is one of the server's
/// triggers, and as a word being typed otherwise.
pub proof fn law_a_completion_says_what_was_typed(typed: char)
    ensures
        AskedBecause::OneOfItsTriggersWasTyped(typed).context().member("triggerKind"@) == Some(
            JsonModel::whole(2),
        ),
        AskedBecause::OneOfItsTriggersWasTyped(typed).context().member("triggerCharacter"@) == Some(
            JsonModel::Text(seq![typed]),
        ),
        AskedBecause::SomebodyIsTyping.context().member("triggerKind"@) == Some(
            JsonModel::whole(1),
        ),
        AskedBecause::SomebodyIsTyping.context().member("triggerCharacter"@) is None,
{
    broadcast use json::law_a_member_reads_back;

    reveal_strlit("triggerKind");
    reveal_strlit("triggerCharacter");
    assert("triggerKind"@.len() == 11);
    assert("triggerCharacter"@.len() == 16);
    lemma_fresh_has_nothing("triggerKind"@);
    lemma_fresh_has_nothing("triggerCharacter"@);
}

/// A server is started on the repo it is for: by its URI and the name of its folder, for the client it
/// is for, and offered both units with bytes first.
pub proof fn law_a_server_is_started_on_its_repo(
    repo_root: Seq<char>,
    client: ClientModel,
    process_id: u32,
)
    ensures
        ({
            let asked = initialize_with(repo_root, client, process_id);
            &&& asked.member("processId"@) == Some(JsonModel::whole(process_id as int))
            &&& asked.member("rootUri"@) == Some(JsonModel::Text(uris::uri_of(repo_root)))
            &&& json::within(asked.member("clientInfo"@), "name"@) == Some(
                JsonModel::Text(client.name),
            )
            &&& json::within(asked.member("clientInfo"@), "version"@) == match client.version {
                Some(version) => Some(JsonModel::Text(version)),
                None => None,
            }
            &&& asked.member("workspaceFolders"@) matches Some(JsonModel::List(folders))
                && folders.len() == 1 && folders[0].member("uri"@) == Some(
                JsonModel::Text(uris::uri_of(repo_root)),
            ) && folders[0].member("name"@) == Some(
                JsonModel::Text(
                    match paths::name_of(repo_root) {
                        Some(name) => name,
                        None => "workspace"@,
                    },
                ),
            )
            &&& json::within(
                json::within(asked.member("capabilities"@), "general"@),
                "positionEncodings"@,
            ) == Some(
                JsonModel::List(seq![JsonModel::Text("utf-8"@), JsonModel::Text("utf-16"@)]),
            )
        }),
{
    broadcast use json::law_a_member_reads_back;

    reveal_strlit("processId");
    reveal_strlit("clientInfo");
    reveal_strlit("rootUri");
    reveal_strlit("workspaceFolders");
    reveal_strlit("capabilities");
    reveal_strlit("uri");
    reveal_strlit("name");
    reveal_strlit("version");
    reveal_strlit("general");
    reveal_strlit("positionEncodings");
    reveal_strlit("window");
    assert("uri"@.len() == 3);
    assert("name"@.len() == 4);
    assert("window"@.len() == 6);
    assert("rootUri"@.len() == 7 && "version"@.len() == 7 && "general"@.len() == 7);
    assert("rootUri"@[0] != "version"@[0]);
    assert("rootUri"@[0] != "general"@[0]);
    assert("version"@[0] != "general"@[0]);
    assert("processId"@.len() == 9);
    assert("clientInfo"@.len() == 10);
    assert("capabilities"@.len() == 12);
    assert("workspaceFolders"@.len() == 16);
    assert("positionEncodings"@.len() == 17);
    lemma_fresh_has_nothing("processId"@);
    lemma_fresh_has_nothing("clientInfo"@);
    lemma_fresh_has_nothing("rootUri"@);
    lemma_fresh_has_nothing("workspaceFolders"@);
    lemma_fresh_has_nothing("capabilities"@);
    lemma_fresh_has_nothing("uri"@);
    lemma_fresh_has_nothing("name"@);
    lemma_fresh_has_nothing("version"@);
    lemma_fresh_has_nothing("general"@);
    lemma_fresh_has_nothing("positionEncodings"@);
    let units = seq!["utf-8"@, "utf-16"@];
    lemma_texts_are(units);
    assert(units.map_values(|item: Seq<char>| JsonModel::Text(item)) =~= seq![
        JsonModel::Text("utf-8"@),
        JsonModel::Text("utf-16"@),
    ]);
}

/// Each kind of place is asked for under the protocol's own name for it.
pub proof fn law_a_kind_of_place_is_asked_for_by_its_name(which: LspPlaces)
    ensures
        which == LspPlaces::Definition <==> method_for(which) == "textDocument/definition"@,
        which == LspPlaces::TypeDefinition <==> method_for(which) == "textDocument/typeDefinition"@,
        which == LspPlaces::Implementation <==> method_for(which) == "textDocument/implementation"@,
        which == LspPlaces::References <==> method_for(which) == "textDocument/references"@,
{
    law_each_kind_of_place_is_its_own_request(which, LspPlaces::Definition);
    law_each_kind_of_place_is_its_own_request(which, LspPlaces::TypeDefinition);
    law_each_kind_of_place_is_its_own_request(which, LspPlaces::Implementation);
    law_each_kind_of_place_is_its_own_request(which, LspPlaces::References);
}

/// What a client says it can do is what it does: it wants to hear of work under way and of saved files,
/// takes links for places, markdown or plain text, offsets into labels and fixes it need not ask about,
/// asks before it renames, and takes no snippets.
#[verifier::rlimit(60)]
pub proof fn law_a_client_says_what_it_can_do()
    ensures
        json::within(capabilities().member("window"@), "workDoneProgress"@) == Some(
            JsonModel::Bool(true),
        ),
        ({
            let document = capabilities().member("textDocument"@);
            let shown = json::within(
                json::within(document, "signatureHelp"@),
                "signatureInformation"@,
            );
            let formats = Some(
                JsonModel::List(seq![JsonModel::Text("markdown"@), JsonModel::Text("plaintext"@)]),
            );
            &&& json::within(json::within(document, "synchronization"@), "didSave"@) == Some(
                JsonModel::Bool(true),
            )
            &&& json::within(json::within(document, "definition"@), "linkSupport"@) == Some(
                JsonModel::Bool(true),
            )
            &&& json::within(json::within(document, "typeDefinition"@), "linkSupport"@) == Some(
                JsonModel::Bool(true),
            )
            &&& json::within(json::within(document, "implementation"@), "linkSupport"@) == Some(
                JsonModel::Bool(true),
            )
            &&& json::within(json::within(document, "hover"@), "contentFormat"@) == formats
            &&& json::within(shown, "documentationFormat"@) == formats
            &&& json::within(
                json::within(shown, "parameterInformation"@),
                "labelOffsetSupport"@,
            ) == Some(JsonModel::Bool(true))
            &&& json::within(shown, "activeParameterSupport"@) == Some(JsonModel::Bool(true))
            &&& json::within(json::within(document, "codeAction"@), "isPreferredSupport"@) == Some(
                JsonModel::Bool(true),
            )
            &&& json::within(
                json::within(
                    json::within(json::within(document, "codeAction"@), "codeActionLiteralSupport"@),
                    "codeActionKind"@,
                ),
                "valueSet"@,
            ) == Some(
                JsonModel::List(
                    seq![
                        JsonModel::Text(""@),
                        JsonModel::Text("quickfix"@),
                        JsonModel::Text("refactor"@),
                        JsonModel::Text("refactor.extract"@),
                        JsonModel::Text("refactor.inline"@),
                        JsonModel::Text("refactor.rewrite"@),
                        JsonModel::Text("source"@),
                        JsonModel::Text("source.organizeImports"@),
                    ],
                ),
            )
            &&& json::within(
                json::within(json::within(document, "completion"@), "completionItem"@),
                "snippetSupport"@,
            ) == Some(JsonModel::Bool(false))
            &&& json::within(json::within(document, "completion"@), "contextSupport"@) == Some(
                JsonModel::Bool(true),
            )
            &&& json::within(json::within(document, "rename"@), "prepareSupport"@) == Some(
                JsonModel::Bool(true),
            )
            &&& json::within(document, "references"@) is Some
            &&& json::within(document, "formatting"@) is Some
            &&& json::within(document, "publishDiagnostics"@) is Some
        }),
{
    broadcast use json::law_a_member_reads_back;

    reveal_strlit("general");
    reveal_strlit("window");
    reveal_strlit("textDocument");
    reveal_strlit("workDoneProgress");
    reveal_strlit("synchronization");
    reveal_strlit("didSave");
    reveal_strlit("dynamicRegistration");
    reveal_strlit("publishDiagnostics");
    reveal_strlit("hover");
    reveal_strlit("contentFormat");
    reveal_strlit("codeAction");
    reveal_strlit("codeActionLiteralSupport");
    reveal_strlit("codeActionKind");
    reveal_strlit("valueSet");
    reveal_strlit("isPreferredSupport");
    reveal_strlit("signatureHelp");
    reveal_strlit("signatureInformation");
    reveal_strlit("documentationFormat");
    reveal_strlit("parameterInformation");
    reveal_strlit("labelOffsetSupport");
    reveal_strlit("activeParameterSupport");
    reveal_strlit("definition");
    reveal_strlit("typeDefinition");
    reveal_strlit("implementation");
    reveal_strlit("references");
    reveal_strlit("formatting");
    reveal_strlit("completion");
    reveal_strlit("completionItem");
    reveal_strlit("snippetSupport");
    reveal_strlit("contextSupport");
    reveal_strlit("rename");
    reveal_strlit("prepareSupport");
    reveal_strlit("linkSupport");
    reveal_strlit("positionEncodings");
    assert("hover"@.len() == 5);
    assert("window"@.len() == 6 && "rename"@.len() == 6);
    assert("window"@[0] != "rename"@[0]);
    assert("general"@.len() == 7 && "didSave"@.len() == 7);
    assert("general"@[0] != "didSave"@[0]);
    assert("valueSet"@.len() == 8);
    assert("codeAction"@.len() == 10 && "definition"@.len() == 10 && "references"@.len() == 10 && "formatting"@.len() == 10 && "completion"@.len() == 10);
    assert("codeAction"@[0] != "definition"@[0]);
    assert("codeAction"@[0] != "references"@[0]);
    assert("codeAction"@[0] != "formatting"@[0]);
    assert("codeAction"@[2] != "completion"@[2]);
    assert("definition"@[0] != "references"@[0]);
    assert("definition"@[0] != "formatting"@[0]);
    assert("definition"@[0] != "completion"@[0]);
    assert("references"@[0] != "formatting"@[0]);
    assert("references"@[0] != "completion"@[0]);
    assert("formatting"@[0] != "completion"@[0]);
    assert("linkSupport"@.len() == 11);
    assert("textDocument"@.len() == 12);
    assert("contentFormat"@.len() == 13 && "signatureHelp"@.len() == 13);
    assert("contentFormat"@[0] != "signatureHelp"@[0]);
    assert("codeActionKind"@.len() == 14 && "typeDefinition"@.len() == 14 && "implementation"@.len() == 14 && "completionItem"@.len() == 14 && "snippetSupport"@.len() == 14 && "contextSupport"@.len() == 14 && "prepareSupport"@.len() == 14);
    assert("codeActionKind"@[0] != "typeDefinition"@[0]);
    assert("codeActionKind"@[0] != "implementation"@[0]);
    assert("codeActionKind"@[2] != "completionItem"@[2]);
    assert("codeActionKind"@[0] != "snippetSupport"@[0]);
    assert("codeActionKind"@[2] != "contextSupport"@[2]);
    assert("codeActionKind"@[0] != "prepareSupport"@[0]);
    assert("typeDefinition"@[0] != "implementation"@[0]);
    assert("typeDefinition"@[0] != "completionItem"@[0]);
    assert("typeDefinition"@[0] != "snippetSupport"@[0]);
    assert("typeDefinition"@[0] != "contextSupport"@[0]);
    assert("typeDefinition"@[0] != "prepareSupport"@[0]);
    assert("implementation"@[0] != "completionItem"@[0]);
    assert("implementation"@[0] != "snippetSupport"@[0]);
    assert("implementation"@[0] != "contextSupport"@[0]);
    assert("implementation"@[0] != "prepareSupport"@[0]);
    assert("completionItem"@[0] != "snippetSupport"@[0]);
    assert("completionItem"@[2] != "contextSupport"@[2]);
    assert("completionItem"@[0] != "prepareSupport"@[0]);
    assert("snippetSupport"@[0] != "contextSupport"@[0]);
    assert("snippetSupport"@[0] != "prepareSupport"@[0]);
    assert("contextSupport"@[0] != "prepareSupport"@[0]);
    assert("synchronization"@.len() == 15);
    assert("workDoneProgress"@.len() == 16);
    assert("positionEncodings"@.len() == 17);
    assert("publishDiagnostics"@.len() == 18 && "isPreferredSupport"@.len() == 18 && "labelOffsetSupport"@.len() == 18);
    assert("publishDiagnostics"@[0] != "isPreferredSupport"@[0]);
    assert("publishDiagnostics"@[0] != "labelOffsetSupport"@[0]);
    assert("isPreferredSupport"@[0] != "labelOffsetSupport"@[0]);
    assert("dynamicRegistration"@.len() == 19 && "documentationFormat"@.len() == 19);
    assert("dynamicRegistration"@[1] != "documentationFormat"@[1]);
    assert("signatureInformation"@.len() == 20 && "parameterInformation"@.len() == 20);
    assert("signatureInformation"@[0] != "parameterInformation"@[0]);
    assert("activeParameterSupport"@.len() == 22);
    assert("codeActionLiteralSupport"@.len() == 24);
    lemma_fresh_has_nothing("general"@);
    lemma_fresh_has_nothing("window"@);
    lemma_fresh_has_nothing("textDocument"@);
    lemma_fresh_has_nothing("workDoneProgress"@);
    lemma_fresh_has_nothing("synchronization"@);
    lemma_fresh_has_nothing("didSave"@);
    lemma_fresh_has_nothing("dynamicRegistration"@);
    lemma_fresh_has_nothing("publishDiagnostics"@);
    lemma_fresh_has_nothing("hover"@);
    lemma_fresh_has_nothing("contentFormat"@);
    lemma_fresh_has_nothing("codeAction"@);
    lemma_fresh_has_nothing("codeActionLiteralSupport"@);
    lemma_fresh_has_nothing("codeActionKind"@);
    lemma_fresh_has_nothing("valueSet"@);
    lemma_fresh_has_nothing("isPreferredSupport"@);
    lemma_fresh_has_nothing("signatureHelp"@);
    lemma_fresh_has_nothing("signatureInformation"@);
    lemma_fresh_has_nothing("documentationFormat"@);
    lemma_fresh_has_nothing("parameterInformation"@);
    lemma_fresh_has_nothing("labelOffsetSupport"@);
    lemma_fresh_has_nothing("activeParameterSupport"@);
    lemma_fresh_has_nothing("definition"@);
    lemma_fresh_has_nothing("typeDefinition"@);
    lemma_fresh_has_nothing("implementation"@);
    lemma_fresh_has_nothing("references"@);
    lemma_fresh_has_nothing("formatting"@);
    lemma_fresh_has_nothing("completion"@);
    lemma_fresh_has_nothing("completionItem"@);
    lemma_fresh_has_nothing("snippetSupport"@);
    lemma_fresh_has_nothing("contextSupport"@);
    lemma_fresh_has_nothing("rename"@);
    lemma_fresh_has_nothing("prepareSupport"@);
    lemma_fresh_has_nothing("linkSupport"@);
    lemma_fresh_has_nothing("positionEncodings"@);
    lemma_texts_are(action_kinds());
    assert(action_kinds().map_values(|item: Seq<char>| JsonModel::Text(item)) =~= seq![
        JsonModel::Text(""@),
        JsonModel::Text("quickfix"@),
        JsonModel::Text("refactor"@),
        JsonModel::Text("refactor.extract"@),
        JsonModel::Text("refactor.inline"@),
        JsonModel::Text("refactor.rewrite"@),
        JsonModel::Text("source"@),
        JsonModel::Text("source.organizeImports"@),
    ]);
    lemma_texts_are(text_formats());
    assert(text_formats().map_values(|item: Seq<char>| JsonModel::Text(item)) =~= seq![
        JsonModel::Text("markdown"@),
        JsonModel::Text("plaintext"@),
    ]);
}

} // verus!
