//! Which language server serves which file, as two constant tables.
//!
//! Adding a language is a row in [`extensions`], and a [`ServerSpec`] beside the others if
//! its server is a new one. Nothing else in this module knows the name of a language, so
//! that row is the whole of the change.
//!
//! The two tables are separate because the mapping is not one to one: `.ts`, `.tsx`, `.js`
//! and `.jsx` are four languages as far as the protocol is concerned - each has its own
//! `languageId` - and one server as far as the machine is concerned, so a project mixing
//! them is indexed once rather than four times.

use vstd::prelude::*;
use vstd::string::*;

use crate::paths;
use crate::text;

verus! {

broadcast use vstd::string::group_string_axioms;

/// One language server: what it is called here, and how it is started. The command speaks
/// the protocol on its stdin and stdout, which every server in the table below does.
#[derive(Debug, PartialEq, Eq)]
pub struct ServerSpec {
    /// What the server is held under in the registry, and what a message about it reads as.
    pub name: &'static str,
    /// The binary to run, looked for on the search path the caller supplies.
    pub command: &'static str,
    /// What it is started with. Most servers speak the protocol on stdio only once told to.
    pub args: Vec<&'static str>,
}

/// One file extension: what the protocol calls that language, and the server behind it.
#[derive(Debug, PartialEq, Eq)]
pub struct ExtensionSpec {
    /// The extension itself, without the dot, matched without regard for case.
    pub extension: &'static str,
    /// The protocol's `languageId` - `typescriptreact` rather than `typescript` for a
    /// `.tsx`, which is the difference between a server parsing JSX and choking on it.
    pub language_id: &'static str,
    /// The server that serves it. Several extensions share one.
    pub server: ServerSpec,
}

/// A [`ServerSpec`] as a contract speaks of it.
pub struct ServerRow {
    /// See [`ServerSpec::name`].
    pub name: Seq<char>,
    /// See [`ServerSpec::command`].
    pub command: Seq<char>,
    /// See [`ServerSpec::args`].
    pub args: Seq<Seq<char>>,
}

/// An [`ExtensionSpec`] as a contract speaks of it.
pub struct ExtensionRow {
    /// See [`ExtensionSpec::extension`].
    pub extension: Seq<char>,
    /// See [`ExtensionSpec::language_id`].
    pub language_id: Seq<char>,
    /// See [`ExtensionSpec::server`].
    pub server: ServerRow,
}

impl View for ServerSpec {
    type V = ServerRow;

    open spec fn view(&self) -> ServerRow {
        ServerRow {
            name: self.name@,
            command: self.command@,
            args: self.args@.map_values(|arg: &'static str| arg@),
        }
    }
}

impl View for ExtensionSpec {
    type V = ExtensionRow;

    open spec fn view(&self) -> ExtensionRow {
        ExtensionRow {
            extension: self.extension@,
            language_id: self.language_id@,
            server: self.server@,
        }
    }
}

// ---------------------------------------------------------------------------------------------
// The tables
// ---------------------------------------------------------------------------------------------

/// See [`rust_analyzer`].
pub open spec fn rust_row() -> ServerRow {
    ServerRow { name: "rust"@, command: "rust-analyzer"@, args: Seq::empty() }
}

/// See [`typescript`].
pub open spec fn typescript_row() -> ServerRow {
    ServerRow {
        name: "typescript"@,
        command: "typescript-language-server"@,
        args: seq!["--stdio"@],
    }
}

/// See [`pyright`].
pub open spec fn python_row() -> ServerRow {
    ServerRow { name: "python"@, command: "pyright-langserver"@, args: seq!["--stdio"@] }
}

/// rust-analyzer, which serves `.rs`.
pub fn rust_analyzer() -> (server: ServerSpec)
    ensures
        server@ == rust_row(),
{
    let server = ServerSpec { name: "rust", command: "rust-analyzer", args: Vec::new() };
    assert(server@.args =~= Seq::empty());
    server
}

/// typescript-language-server, which serves TypeScript, JavaScript and their React flavours.
pub fn typescript() -> (server: ServerSpec)
    ensures
        server@ == typescript_row(),
{
    let server = ServerSpec {
        name: "typescript",
        command: "typescript-language-server",
        args: vec!["--stdio"],
    };
    assert(server@.args =~= seq!["--stdio"@]);
    server
}

/// pyright's language server, which serves `.py`.
pub fn pyright() -> (server: ServerSpec)
    ensures
        server@ == python_row(),
{
    let server = ServerSpec {
        name: "python",
        command: "pyright-langserver",
        args: vec!["--stdio"],
    };
    assert(server@.args =~= seq!["--stdio"@]);
    server
}

/// See [`extensions`].
pub open spec fn table() -> Seq<ExtensionRow> {
    seq![
        ExtensionRow { extension: "rs"@, language_id: "rust"@, server: rust_row() },
        ExtensionRow { extension: "ts"@, language_id: "typescript"@, server: typescript_row() },
        ExtensionRow {
            extension: "tsx"@,
            language_id: "typescriptreact"@,
            server: typescript_row(),
        },
        ExtensionRow { extension: "js"@, language_id: "javascript"@, server: typescript_row() },
        ExtensionRow {
            extension: "jsx"@,
            language_id: "javascriptreact"@,
            server: typescript_row(),
        },
        ExtensionRow { extension: "mjs"@, language_id: "javascript"@, server: typescript_row() },
        ExtensionRow { extension: "py"@, language_id: "python"@, server: python_row() },
    ]
}

/// Every extension a server is offered for. An extension that is not here has no server
/// behind it, which is most of a repo - markdown, configuration, images.
pub fn extensions() -> (rows: Vec<ExtensionSpec>)
    ensures
        rows@.map_values(|row: ExtensionSpec| row@) == table(),
{
    let rows = vec![
        ExtensionSpec { extension: "rs", language_id: "rust", server: rust_analyzer() },
        ExtensionSpec { extension: "ts", language_id: "typescript", server: typescript() },
        ExtensionSpec { extension: "tsx", language_id: "typescriptreact", server: typescript() },
        ExtensionSpec { extension: "js", language_id: "javascript", server: typescript() },
        ExtensionSpec { extension: "jsx", language_id: "javascriptreact", server: typescript() },
        ExtensionSpec { extension: "mjs", language_id: "javascript", server: typescript() },
        ExtensionSpec { extension: "py", language_id: "python", server: pyright() },
    ];
    assert(rows@.map_values(|row: ExtensionSpec| row@) =~= table());
    rows
}

// ---------------------------------------------------------------------------------------------
// The row for a file
// ---------------------------------------------------------------------------------------------

/// The first of several rows for an extension, the case of its letters aside.
pub open spec fn row_of(rows: Seq<ExtensionRow>, extension: Seq<char>) -> Option<ExtensionRow>
    decreases rows.len(),
{
    if rows.len() == 0 {
        None
    } else if text::ascii_small(rows[0].extension) == text::ascii_small(extension) {
        Some(rows[0])
    } else {
        row_of(rows.drop_first(), extension)
    }
}

/// The row for a file, by its extension.
pub open spec fn row_for(file_path: Seq<char>) -> Option<ExtensionRow> {
    match paths::extension_of(file_path) {
        Some(extension) => row_of(table(), extension),
        None => None,
    }
}

/// What a row that may be there says.
pub open spec fn maybe_row(row: Option<ExtensionSpec>) -> Option<ExtensionRow> {
    match row {
        Some(row) => Some(row@),
        None => None,
    }
}

/// A text with its ASCII capitals made small.
fn small_text(s: &str) -> (small: String)
    ensures
        small@ == text::ascii_small(s@),
{
    let chars = text::chars_of(s);
    let mut small = String::new();
    let mut at: usize = 0;
    while at < chars.len()
        invariant
            chars@ == s@,
            at <= chars@.len(),
            small@ == text::ascii_small(s@.take(at as int)),
        decreases chars@.len() - at,
    {
        small.push(text::small_letter(chars[at]));
        at += 1;
        assert(small@ =~= text::ascii_small(s@.take(at as int)));
    }
    assert(s@.take(at as int) =~= s@);
    small
}

/// The row for a file, by its extension. `None` for a file no server in the table serves.
pub fn for_file(file_path: &str) -> (row: Option<ExtensionSpec>)
    ensures
        maybe_row(row) == row_for(file_path@),
{
    let extension = match paths::extension(file_path) {
        Some(extension) => extension,
        None => {
            return None;
        },
    };
    let wanted = small_text(extension.as_str());
    let rows = extensions();
    let ghost all = table();
    let ghost left = all;
    for row in it: rows
        invariant
            it.seq().map_values(|row: ExtensionSpec| row@) == all,
            all == table(),
            left == all.skip(it.index()),
            wanted@ == text::ascii_small(extension@),
            paths::extension_of(file_path@) == Some(extension@),
            row_of(all, extension@) == row_of(left, extension@),
    {
        proof {
            assert(all[it.index()] == row@);
            assert(left[0] == row@);
            left = left.drop_first();
            assert(left =~= all.skip(it.index() + 1));
        }
        if text::same(small_text(row.extension).as_str(), wanted.as_str()) {
            return Some(row);
        }
    }
    None
}

// ---------------------------------------------------------------------------------------------
// Where a server is installed
// ---------------------------------------------------------------------------------------------

/// Where a command may be on the rest of a search path, from `from` on: in each of the
/// directories between its colons.
pub open spec fn candidates_from(search_path: Seq<char>, command: Seq<char>, from: int) -> Seq<
    Seq<char>,
>
    decreases search_path.len() - from,
{
    let end = text::next_at(search_path, ':', from);
    let here = paths::joined(search_path.subrange(from, end), command);
    if from <= end < search_path.len() {
        seq![here] + candidates_from(search_path, command, end + 1)
    } else {
        seq![here]
    }
}

/// Where a command may be on a search path, in the order it is looked for.
pub open spec fn candidates_on(search_path: Seq<char>, command: Seq<char>) -> Seq<Seq<char>> {
    candidates_from(search_path, command, 0)
}

/// Where a command may be on a search path, in the order it is looked for.
pub fn candidates(command: &str, search_path: &str) -> (found: Vec<String>)
    ensures
        found@.map_values(|path: String| path@) == candidates_on(search_path@, command@),
{
    let chars = text::chars_of(search_path);
    let mut found: Vec<String> = Vec::new();
    let mut from: usize = 0;
    let ghost all = candidates_on(search_path@, command@);
    assert(found@.map_values(|path: String| path@) + candidates_from(search_path@, command@, 0)
        =~= all);
    loop
        invariant
            chars@ == search_path@,
            from <= chars@.len(),
            all == candidates_on(search_path@, command@),
            found@.map_values(|path: String| path@) + candidates_from(
                search_path@,
                command@,
                from as int,
            ) == all,
        decreases chars@.len() - from,
    {
        let ghost before = found@.map_values(|path: String| path@);
        let end: usize = text::next_char(chars.as_slice(), ':', from);
        let directory = text::string_of(chars.as_slice(), from, end);
        let here = paths::join(directory.as_str(), command);
        found.push(here);
        assert(found@.map_values(|path: String| path@) =~= before.push(here@));
        if end == chars.len() {
            assert(found@.map_values(|path: String| path@) =~= all);
            return found;
        }
        from = end + 1;
        assert(found@.map_values(|path: String| path@) + candidates_from(
            search_path@,
            command@,
            from as int,
        ) =~= all);
    }
}

/// A file on PATH that this user can actually run. The permission bits are the difference
/// between a server that is installed and a same-named file that happens to sit beside one.
pub fn is_runnable(is_file: bool, mode: u32) -> (runnable: bool)
    ensures
        runnable == (is_file && mode & 0o111 != 0),
{
    is_file && mode & 0o111 != 0
}

/// Whether a question about a path may be answered so.
pub open spec fn may_say<F: Fn(&str) -> bool>(question: F, path: Seq<char>, answer: bool) -> bool {
    exists|asked: &str| asked@ == path && call_ensures(question, (asked,), answer)
}

/// Whether a path is the first of several that a question is answered yes about - or, where
/// there is none, whether it was answered no about all of them.
pub open spec fn is_first<F: Fn(&str) -> bool>(
    question: F,
    paths: Seq<Seq<char>>,
    found: Option<Seq<char>>,
) -> bool {
    match found {
        Some(path) => exists|at: int|
            #![trigger paths[at]]
            0 <= at < paths.len() && paths[at] == path && may_say(question, path, true) && (
            forall|i: int| 0 <= i < at ==> may_say(question, #[trigger] paths[i], false)),
        None => forall|i: int|
            0 <= i < paths.len() ==> may_say(question, #[trigger] paths[i], false),
    }
}

/// Where a command is on a search path: the first place it may be that it can be run from.
pub fn look_up_on_path<F: Fn(&str) -> bool>(
    command: &str,
    search_path: &str,
    runnable: &F,
) -> (found: Option<String>)
    requires
        forall|path: &str| call_requires(*runnable, (path,)),
    ensures
        is_first(*runnable, candidates_on(search_path@, command@), text::maybe(found)),
{
    let places = candidates(command, search_path);
    let ghost all = candidates_on(search_path@, command@);
    let mut at: usize = 0;
    while at < places.len()
        invariant
            forall|path: &str| call_requires(*runnable, (path,)),
            places@.map_values(|path: String| path@) == all,
            at <= places@.len(),
            all == candidates_on(search_path@, command@),
            forall|i: int| 0 <= i < at ==> may_say(*runnable, #[trigger] all[i], false),
        decreases places@.len() - at,
    {
        let place = places[at].as_str();
        assert(all[at as int] == place@);
        if runnable(place) {
            assert(may_say(*runnable, all[at as int], true));
            return Some(places[at].clone());
        }
        assert(may_say(*runnable, all[at as int], false));
        at += 1;
    }
    assert(all.len() == places@.len());
    None
}

/// A [`Found`] as a contract speaks of it.
pub type FoundModel = Map<(Seq<char>, Seq<char>), Option<Seq<char>>>;

/// Where each command was found, by the search path it was looked for on and its name. One is held
/// for the life of the process, whatever registries come and go.
pub struct Found {
    answers: Vec<(String, String, Option<String>)>,
}

/// What answers, one behind another, come to.
pub open spec fn answered(answers: Seq<(String, String, Option<String>)>) -> FoundModel
    decreases answers.len(),
{
    if answers.len() == 0 {
        Map::empty()
    } else {
        let last = answers.last();
        answered(answers.drop_last()).insert((last.0@, last.1@), text::maybe(last.2))
    }
}

impl View for Found {
    type V = FoundModel;

    closed spec fn view(&self) -> FoundModel {
        answered(self.answers@)
    }
}

impl Default for Found {
    /// Nothing looked for yet.
    fn default() -> (found: Self)
        ensures
            found@ == Map::<(Seq<char>, Seq<char>), Option<Seq<char>>>::empty(),
    {
        Found { answers: Vec::new() }
    }
}

impl Found {
    /// What was found the last time a command was looked for on a search path, if it was.
    pub fn remembered(&self, search_path: &str, command: &str) -> (answer: Option<Option<String>>)
        ensures
            match answer {
                Some(answer) => self@.contains_key((search_path@, command@)) && self@[(
                    search_path@,
                    command@,
                )] == text::maybe(answer),
                None => !self@.contains_key((search_path@, command@)),
            },
    {
        let ghost key = (search_path@, command@);
        let ghost all = self.answers@;
        let mut at: usize = self.answers.len();
        assert(all.take(at as int) =~= all);
        while at > 0
            invariant
                at <= self.answers@.len(),
                all == self.answers@,
                key == (search_path@, command@),
                self@.contains_key(key) <==> answered(all.take(at as int)).contains_key(key),
                self@.contains_key(key) ==> self@[key] == answered(all.take(at as int))[key],
            decreases at,
        {
            at -= 1;
            assert(all.take(at + 1).drop_last() =~= all.take(at as int));
            let answer = &self.answers[at];
            if text::same(answer.0.as_str(), search_path) && text::same(
                answer.1.as_str(),
                command,
            ) {
                return match &answer.2 {
                    Some(path) => Some(Some(path.clone())),
                    None => Some(None),
                };
            }
        }
        None
    }

    /// Keep what was found.
    pub fn remember(&mut self, search_path: &str, command: &str, answer: Option<String>)
        ensures
            final(self)@ == old(self)@.insert((search_path@, command@), text::maybe(answer)),
    {
        let ghost before = self.answers@;
        self.answers.push((search_path.to_owned(), command.to_owned(), answer));
        assert(self.answers@.drop_last() =~= before);
    }
}

/// Where a server's command is on `search_path`, if it is installed at all.
///
/// The search path is the caller's to supply, in the form of a `PATH` - the directories a
/// server may be installed in are the host application's business, not this crate's. A
/// window started from a desktop launcher inherits neither homebrew nor `~/.local/bin`, so
/// the process's own `PATH` is usually the wrong answer and the caller passes the one its
/// user's login shell has. Whether what is at a place can be run is the caller's to say too.
///
/// The answer is remembered, per search path and command: a pane asks for a file's status as
/// it draws, and installing a language server while the window is open is not a thing that
/// happens mid-session.
pub fn installed_at<F: Fn(&str) -> bool>(
    found: &mut Found,
    command: &str,
    search_path: &str,
    runnable: &F,
) -> (place: Option<String>)
    requires
        forall|path: &str| call_requires(*runnable, (path,)),
    ensures
        old(found)@.contains_key((search_path@, command@)) ==> {
            &&& text::maybe(place) == old(found)@[(search_path@, command@)]
            &&& final(found)@ == old(found)@
        },
        !old(found)@.contains_key((search_path@, command@)) ==> {
            &&& is_first(*runnable, candidates_on(search_path@, command@), text::maybe(place))
            &&& final(found)@ == old(found)@.insert((search_path@, command@), text::maybe(place))
        },
        final(found)@.contains_key((search_path@, command@)),
        final(found)@[(search_path@, command@)] == text::maybe(place),
{
    if let Some(remembered) = found.remembered(search_path, command) {
        return remembered;
    }
    let place = look_up_on_path(command, search_path, runnable);
    let kept = match &place {
        Some(place) => Some(place.clone()),
        None => None,
    };
    found.remember(search_path, command, kept);
    place
}

// ---------------------------------------------------------------------------------------------
// What the tables promise
// ---------------------------------------------------------------------------------------------

proof fn lemma_row_is_in_the_table(rows: Seq<ExtensionRow>, extension: Seq<char>)
    ensures
        row_of(rows, extension) matches Some(row) ==> rows.contains(row) && text::ascii_small(
            row.extension,
        ) == text::ascii_small(extension),
        row_of(rows, extension) is None ==> forall|i: int|
            0 <= i < rows.len() ==> text::ascii_small((#[trigger] rows[i]).extension)
                != text::ascii_small(extension),
    decreases rows.len(),
{
    if rows.len() > 0 {
        let rest = rows.drop_first();
        lemma_row_is_in_the_table(rest, extension);
        if text::ascii_small(rows[0].extension) != text::ascii_small(extension) {
            if let Some(row) = row_of(rest, extension) {
                let at = choose|at: int| 0 <= at < rest.len() && rest[at] == row;
                assert(rows[at + 1] == row);
            } else {
                assert forall|i: int| 0 <= i < rows.len() implies text::ascii_small(
                    (#[trigger] rows[i]).extension,
                ) != text::ascii_small(extension) by {
                    if i > 0 {
                        assert(rows[i] == rest[i - 1]);
                    }
                }
            }
        } else {
            assert(rows[0] == row_of(rows, extension)->0);
        }
    }
}

/// A file is served exactly when its extension is in the table, whatever the case of its letters,
/// and by the row it is in.
pub proof fn law_a_file_is_served_by_its_extension(file_path: Seq<char>)
    ensures
        row_for(file_path) matches Some(row) ==> (table().contains(row) && (paths::extension_of(
            file_path,
        ) matches Some(extension) && text::ascii_small(extension) == text::ascii_small(
            row.extension,
        ))),
        row_for(file_path) is None ==> (paths::extension_of(file_path) matches Some(extension)
            ==> forall|i: int|
            0 <= i < table().len() ==> text::ascii_small((#[trigger] table()[i]).extension)
                != text::ascii_small(extension)),
{
    if let Some(extension) = paths::extension_of(file_path) {
        lemma_row_is_in_the_table(table(), extension);
    }
}

proof fn lemma_candidates_of_the_second(
    first: Seq<char>,
    second: Seq<char>,
    command: Seq<char>,
    from: int,
)
    requires
        0 <= from <= second.len(),
    ensures
        candidates_from(first + seq![':'] + second, command, first.len() + 1 + from)
            == candidates_from(second, command, from),
    decreases second.len() - from,
{
    let both = first + seq![':'] + second;
    let behind = first.len() + 1;
    text::lemma_next_at(second, ':', from);
    text::lemma_next_at_in_the_second(first, ':', second, from);
    let end = text::next_at(second, ':', from);
    assert(both.subrange(behind + from, behind + end) =~= second.subrange(from, end));
    if end < second.len() {
        lemma_candidates_of_the_second(first, second, command, end + 1);
    }
}

proof fn lemma_candidates_of_both(
    first: Seq<char>,
    second: Seq<char>,
    command: Seq<char>,
    from: int,
)
    requires
        0 <= from <= first.len(),
    ensures
        candidates_from(first + seq![':'] + second, command, from) == candidates_from(
            first,
            command,
            from,
        ) + candidates_from(second, command, 0),
    decreases first.len() - from,
{
    let both = first + seq![':'] + second;
    text::lemma_next_at(first, ':', from);
    text::lemma_next_at_in_the_first(first, ':', second, from);
    let end = text::next_at(first, ':', from);
    assert(both.subrange(from, end) =~= first.subrange(from, end));
    if end < first.len() {
        lemma_candidates_of_both(first, second, command, end + 1);
    } else {
        lemma_candidates_of_the_second(first, second, command, 0);
    }
    assert(candidates_from(both, command, from) =~= candidates_from(first, command, from)
        + candidates_from(second, command, 0));
}

/// A command is looked for in every folder of the search path, in its order: in those ahead of a colon
/// and then in those behind it, and in a folder under its own name.
pub proof fn law_every_folder_is_searched_in_order(
    first: Seq<char>,
    second: Seq<char>,
    folder: Seq<char>,
    command: Seq<char>,
)
    requires
        !folder.contains(':'),
    ensures
        candidates_on(first + seq![':'] + second, command) == candidates_on(first, command)
            + candidates_on(second, command),
        candidates_on(folder, command) == seq![paths::joined(folder, command)],
{
    lemma_candidates_of_both(first, second, command, 0);
    assert forall|i: int| 0 <= i < folder.len() implies folder[i] != ':' by {
        assert(folder.contains(folder[i]));
    }
    text::lemma_next_at_is(folder, ':', 0, folder.len() as int);
    assert(folder.subrange(0, folder.len() as int) =~= folder);
}

/// Which server a file is for goes by its extension, in capitals or not, and each of these has one.
pub proof fn law_each_extension_has_its_server(file_path: Seq<char>, extension: Seq<char>)
    requires
        paths::extension_of(file_path) == Some(extension),
    ensures
        text::ascii_small(extension) == "rs"@ ==> (row_for(file_path) matches Some(row)
            && row.language_id == "rust"@ && row.server.name == "rust"@ && row.server.command
            == "rust-analyzer"@ && row.server.args.len() == 0),
        text::ascii_small(extension) == "py"@ ==> (row_for(file_path) matches Some(row)
            && row.language_id == "python"@ && row.server.name == "python"@ && row.server.command
            == "pyright-langserver"@ && row.server.args == seq!["--stdio"@]),
        text::ascii_small(extension) == "ts"@ ==> (row_for(file_path) matches Some(row)
            && row.language_id == "typescript"@ && row.server == typescript_row()),
        text::ascii_small(extension) == "tsx"@ ==> (row_for(file_path) matches Some(row)
            && row.language_id == "typescriptreact"@ && row.server == typescript_row()),
        text::ascii_small(extension) == "js"@ || text::ascii_small(extension) == "mjs"@ ==> (row_for(
            file_path,
        ) matches Some(row) && row.language_id == "javascript"@ && row.server == typescript_row()),
        text::ascii_small(extension) == "jsx"@ ==> (row_for(file_path) matches Some(row)
            && row.language_id == "javascriptreact"@ && row.server == typescript_row()),
        typescript_row().command == "typescript-language-server"@,
        typescript_row().args == seq!["--stdio"@],
{
    reveal_strlit("rs");
    reveal_strlit("ts");
    reveal_strlit("tsx");
    reveal_strlit("js");
    reveal_strlit("jsx");
    reveal_strlit("mjs");
    reveal_strlit("py");
    law_a_file_is_served_by_its_extension(file_path);
    let rows = table();
    assert(text::ascii_small("rs"@) =~= "rs"@);
    assert(text::ascii_small("ts"@) =~= "ts"@);
    assert(text::ascii_small("tsx"@) =~= "tsx"@);
    assert(text::ascii_small("js"@) =~= "js"@);
    assert(text::ascii_small("jsx"@) =~= "jsx"@);
    assert(text::ascii_small("mjs"@) =~= "mjs"@);
    assert(text::ascii_small("py"@) =~= "py"@);
    assert("rs"@[0] != "ts"@[0] && "rs"@[0] != "js"@[0] && "rs"@[0] != "py"@[0]);
    assert("ts"@[0] != "js"@[0] && "ts"@[0] != "py"@[0] && "js"@[0] != "py"@[0]);
    assert("tsx"@[0] != "jsx"@[0] && "tsx"@[0] != "mjs"@[0] && "jsx"@[0] != "mjs"@[0]);
    assert(rows[0].extension == "rs"@ && rows[1].extension == "ts"@ && rows[2].extension == "tsx"@
        && rows[3].extension == "js"@ && rows[4].extension == "jsx"@ && rows[5].extension == "mjs"@
        && rows[6].extension == "py"@);
    if let Some(row) = row_for(file_path) {
        let at = choose|at: int| 0 <= at < rows.len() && rows[at] == row;
        assert(rows[at] == row);
    }
}

/// What is known of a command on a search path is the last that was found out about it.
pub proof fn law_the_last_answer_is_what_is_known(
    answers: Seq<(String, String, Option<String>)>,
    at: int,
)
    requires
        0 <= at < answers.len(),
        forall|i: int|
            at < i < answers.len() ==> ((#[trigger] answers[i]).0@ != answers[at].0@
                || answers[i].1@ != answers[at].1@),
    ensures
        answered(answers).contains_key((answers[at].0@, answers[at].1@)),
        answered(answers)[(answers[at].0@, answers[at].1@)] == text::maybe(answers[at].2),
    decreases answers.len(),
{
    if at < answers.len() - 1 {
        let fewer = answers.drop_last();
        assert(forall|i: int| 0 <= i < fewer.len() ==> fewer[i] == answers[i]);
        law_the_last_answer_is_what_is_known(fewer, at);
        assert(answers[answers.len() - 1] == answers.last());
    }
}

} // verus!
