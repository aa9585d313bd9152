//! Why a question could not be asked, or its answer not be taken.

use vstd::prelude::*;
use vstd::string::*;

use crate::text;

verus! {

broadcast use vstd::string::group_string_axioms;

/// An answer of a server's that has a shape it must be read in.
#[derive(Clone, Copy, PartialEq, Eq, Debug, Structural)]
pub enum Answer {
    /// The answer to `initialize`.
    Initialize,
    /// The answer to `textDocument/formatting`.
    Formatting,
    /// The answer to `textDocument/hover`.
    Hover,
    /// The answer to `textDocument/codeAction`.
    CodeAction,
    /// The answer to `textDocument/signatureHelp`.
    SignatureHelp,
    /// The answer to `textDocument/prepareRename`.
    PrepareRename,
    /// The edits of a rename or a code action.
    Edits,
    /// The answer to a question about places.
    Places,
    /// The answer to `textDocument/completion`.
    Completion,
}

/// Why something was refused.
#[derive(Debug, PartialEq, Eq)]
pub enum LspError {
    /// A line an edit names is not in the text, counted from zero.
    LinePastText { line: usize },
    /// A column an edit names is not a place in its line.
    NotAPlace { line: usize, column: usize },
    /// An edit ends before it starts.
    EditEndsBeforeItStarts,
    /// Two edits are over the same text.
    EditsOverlap,
    /// A line a question or an answer names is not in the file, counted from zero.
    LinePastFile { line: usize },
    /// An answer is in none of the shapes the protocol gives it.
    Unreadable { answer: Answer },
    /// The name a server would rename ends before it starts.
    NameEndsBeforeItStarts,
    /// A server answered with a behaviour this client never said it had.
    DefaultBehaviour,
    /// An edit is to something that is no file on disk.
    NoFileOnDisk { uri: String },
    /// An edit is to a file outside the repo.
    OutsideTheRepo { path: String },
    /// An edit would create, rename or delete a file.
    MovesFiles,
    /// The edits to a file name a line it does not have, counted from zero.
    DoesNotFit { file_path: String, line: usize },
    /// No server of this name is running for the workspace.
    NotRunning { server: String },
    /// The file is not open in the server it is asked about.
    NotOpen { file_path: String, server: String },
    /// The server never said it formats.
    DoesNotFormat { server: String },
    /// The server's command is nowhere on the search path.
    NotInstalled { command: String },
    /// What somebody else refused with, in their own words.
    Told { said: String },
}

/// An [`LspError`] as a contract speaks of it: the same, with its texts as characters.
pub enum Fault {
    /// See [`LspError::LinePastText`].
    LinePastText { line: usize },
    /// See [`LspError::NotAPlace`].
    NotAPlace { line: usize, column: usize },
    /// See [`LspError::EditEndsBeforeItStarts`].
    EditEndsBeforeItStarts,
    /// See [`LspError::EditsOverlap`].
    EditsOverlap,
    /// See [`LspError::LinePastFile`].
    LinePastFile { line: usize },
    /// See [`LspError::Unreadable`].
    Unreadable { answer: Answer },
    /// See [`LspError::NameEndsBeforeItStarts`].
    NameEndsBeforeItStarts,
    /// See [`LspError::DefaultBehaviour`].
    DefaultBehaviour,
    /// See [`LspError::NoFileOnDisk`].
    NoFileOnDisk { uri: Seq<char> },
    /// See [`LspError::OutsideTheRepo`].
    OutsideTheRepo { path: Seq<char> },
    /// See [`LspError::MovesFiles`].
    MovesFiles,
    /// See [`LspError::DoesNotFit`].
    DoesNotFit { file_path: Seq<char>, line: usize },
    /// See [`LspError::NotRunning`].
    NotRunning { server: Seq<char> },
    /// See [`LspError::NotOpen`].
    NotOpen { file_path: Seq<char>, server: Seq<char> },
    /// See [`LspError::DoesNotFormat`].
    DoesNotFormat { server: Seq<char> },
    /// See [`LspError::NotInstalled`].
    NotInstalled { command: Seq<char> },
    /// See [`LspError::Told`].
    Told { said: Seq<char> },
}

impl View for LspError {
    type V = Fault;

    open spec fn view(&self) -> Fault {
        match self {
            LspError::LinePastText { line } => Fault::LinePastText { line: *line },
            LspError::NotAPlace { line, column } => Fault::NotAPlace {
                line: *line,
                column: *column,
            },
            LspError::EditEndsBeforeItStarts => Fault::EditEndsBeforeItStarts,
            LspError::EditsOverlap => Fault::EditsOverlap,
            LspError::LinePastFile { line } => Fault::LinePastFile { line: *line },
            LspError::Unreadable { answer } => Fault::Unreadable { answer: *answer },
            LspError::NameEndsBeforeItStarts => Fault::NameEndsBeforeItStarts,
            LspError::DefaultBehaviour => Fault::DefaultBehaviour,
            LspError::NoFileOnDisk { uri } => Fault::NoFileOnDisk { uri: uri@ },
            LspError::OutsideTheRepo { path } => Fault::OutsideTheRepo { path: path@ },
            LspError::MovesFiles => Fault::MovesFiles,
            LspError::DoesNotFit { file_path, line } => Fault::DoesNotFit {
                file_path: file_path@,
                line: *line,
            },
            LspError::NotRunning { server } => Fault::NotRunning { server: server@ },
            LspError::NotOpen { file_path, server } => Fault::NotOpen {
                file_path: file_path@,
                server: server@,
            },
            LspError::DoesNotFormat { server } => Fault::DoesNotFormat { server: server@ },
            LspError::NotInstalled { command } => Fault::NotInstalled { command: command@ },
            LspError::Told { said } => Fault::Told { said: said@ },
        }
    }
}

impl Answer {
    /// What an answer that could not be read is called.
    pub open spec fn named(&self) -> Seq<char> {
        match self {
            Answer::Initialize => "the language server's initialize reply"@,
            Answer::Formatting => "the formatting answer"@,
            Answer::Hover => "the hover answer"@,
            Answer::CodeAction => "the code action answer"@,
            Answer::SignatureHelp => "the signature help answer"@,
            Answer::PrepareRename => "the prepareRename answer"@,
            Answer::Edits => "the answer's edits"@,
            Answer::Places => "the answer's places"@,
            Answer::Completion => "the completion answer"@,
        }
    }

    /// What an answer that could not be read is called.
    pub fn name(&self) -> (name: &'static str)
        ensures
            name@ == self.named(),
    {
        match self {
            Answer::Initialize => "the language server's initialize reply",
            Answer::Formatting => "the formatting answer",
            Answer::Hover => "the hover answer",
            Answer::CodeAction => "the code action answer",
            Answer::SignatureHelp => "the signature help answer",
            Answer::PrepareRename => "the prepareRename answer",
            Answer::Edits => "the answer's edits",
            Answer::Places => "the answer's places",
            Answer::Completion => "the completion answer",
        }
    }
}

impl Fault {
    /// The sentence a refusal is told in. Lines are counted from one in it.
    pub open spec fn said(&self) -> Seq<char> {
        match self {
            Fault::LinePastText { line } => "line "@ + text::decimal(*line as nat + 1)
                + " is past the end of the text"@,
            Fault::NotAPlace { line, column } => "column "@ + text::decimal(*column as nat)
                + " of line "@ + text::decimal(*line as nat + 1) + " is not a place in the text"@,
            Fault::EditEndsBeforeItStarts => "an edit ends before it starts"@,
            Fault::EditsOverlap => "two of the edits overlap"@,
            Fault::LinePastFile { line } => "line "@ + text::decimal(*line as nat + 1)
                + " is past the end of the file"@,
            Fault::Unreadable { answer } => answer.named() + " could not be read"@,
            Fault::NameEndsBeforeItStarts => "the name to rename ends before it starts"@,
            Fault::DefaultBehaviour =>
                "the server answered prepareRename with its default behaviour, which this client never said it understood"@,
            Fault::NoFileOnDisk { uri } => "the edit is to "@ + *uri
                + ", which is no file on disk"@,
            Fault::OutsideTheRepo { path } => "the edit is to "@ + *path
                + ", which is outside the repo"@,
            Fault::MovesFiles =>
                "the edit would create, rename or delete a file, which this client never said it could do"@,
            Fault::DoesNotFit { file_path, .. } => "the edits to "@ + *file_path
                + " do not fit it"@,
            Fault::NotRunning { server } => "no "@ + *server
                + " server is running for this workspace"@,
            Fault::NotOpen { file_path, server } => *file_path + " is not open in the "@ + *server
                + " server"@,
            Fault::DoesNotFormat { server } => "the "@ + *server
                + " server never said it formats"@,
            Fault::NotInstalled { command } => *command + " is not installed"@,
            Fault::Told { said } => *said,
        }
    }
}

impl LspError {
    /// The sentence a refusal is told in - see [`Fault::said`].
    pub fn to_string(&self) -> (text: String)
        ensures
            text@ == self@.said(),
    {
        match self {
            LspError::LinePastText { line } => {
                let mut text = "line ".to_owned();
                text::push_decimal(&mut text, *line as u128 + 1);
                text.append(" is past the end of the text");
                text
            },
            LspError::NotAPlace { line, column } => {
                let mut text = "column ".to_owned();
                text::push_decimal(&mut text, *column as u128);
                text.append(" of line ");
                text::push_decimal(&mut text, *line as u128 + 1);
                text.append(" is not a place in the text");
                text
            },
            LspError::EditEndsBeforeItStarts => "an edit ends before it starts".to_owned(),
            LspError::EditsOverlap => "two of the edits overlap".to_owned(),
            LspError::LinePastFile { line } => {
                let mut text = "line ".to_owned();
                text::push_decimal(&mut text, *line as u128 + 1);
                text.append(" is past the end of the file");
                text
            },
            LspError::Unreadable { answer } => {
                let mut text = answer.name().to_owned();
                text.append(" could not be read");
                text
            },
            LspError::NameEndsBeforeItStarts =>
                "the name to rename ends before it starts".to_owned(),
            LspError::DefaultBehaviour =>
                "the server answered prepareRename with its default behaviour, which this client never said it understood".to_owned(),
            LspError::NoFileOnDisk { uri } => text::around(
                "the edit is to ",
                uri.as_str(),
                ", which is no file on disk",
            ),
            LspError::OutsideTheRepo { path } => text::around(
                "the edit is to ",
                path.as_str(),
                ", which is outside the repo",
            ),
            LspError::MovesFiles =>
                "the edit would create, rename or delete a file, which this client never said it could do".to_owned(),
            LspError::DoesNotFit { file_path, .. } => text::around(
                "the edits to ",
                file_path.as_str(),
                " do not fit it",
            ),
            LspError::NotRunning { server } => text::around(
                "no ",
                server.as_str(),
                " server is running for this workspace",
            ),
            LspError::NotOpen { file_path, server } => {
                let mut text = text::around(
                    file_path.as_str(),
                    " is not open in the ",
                    server.as_str(),
                );
                text.append(" server");
                text
            },
            LspError::DoesNotFormat { server } => text::around(
                "the ",
                server.as_str(),
                " server never said it formats",
            ),
            LspError::NotInstalled { command } => {
                let mut text = command.as_str().to_owned();
                text.append(" is not installed");
                text
            },
            LspError::Told { said } => said.as_str().to_owned(),
        }
    }
}

// ---------------------------------------------------------------------------------------------
// What sentences promise
// ---------------------------------------------------------------------------------------------

/// A refusal for a line names the line, counted from one, and one for a column names the column as the
/// editor counts it.
pub proof fn law_a_line_is_told_counted_from_one(line: usize, column: usize)
    ensures
        text::contains((Fault::LinePastText { line }).said(), text::decimal(line as nat + 1)),
        text::contains((Fault::LinePastFile { line }).said(), text::decimal(line as nat + 1)),
        text::contains((Fault::NotAPlace { line, column }).said(), text::decimal(line as nat + 1)),
        text::contains((Fault::NotAPlace { line, column }).said(), text::decimal(column as nat)),
{
    let here = text::decimal(line as nat + 1);
    text::lemma_is_held("line "@, here, " is past the end of the text"@);
    text::lemma_is_held("line "@, here, " is past the end of the file"@);
    let across = text::decimal(column as nat);
    text::lemma_is_held(
        "column "@ + across + " of line "@,
        here,
        " is not a place in the text"@,
    );
    text::lemma_is_held(
        "column "@,
        across,
        " of line "@ + here + " is not a place in the text"@,
    );
    assert("column "@ + across + (" of line "@ + here + " is not a place in the text"@) =~= (
    Fault::NotAPlace { line, column }).said());
}

/// A refusal names what it is about: the document, the path, the file, the server or the command. What
/// somebody else said is told as they said it.
pub proof fn law_a_refusal_names_what_it_is_about(
    uri: Seq<char>,
    path: Seq<char>,
    server: Seq<char>,
    line: usize,
    answer: Answer,
)
    ensures
        text::contains((Fault::NoFileOnDisk { uri }).said(), uri),
        text::contains((Fault::OutsideTheRepo { path }).said(), path),
        text::contains((Fault::DoesNotFit { file_path: path, line }).said(), path),
        text::contains((Fault::NotRunning { server }).said(), server),
        text::contains((Fault::NotOpen { file_path: path, server }).said(), path),
        text::contains((Fault::NotOpen { file_path: path, server }).said(), server),
        text::contains((Fault::DoesNotFormat { server }).said(), server),
        text::contains((Fault::NotInstalled { command: server }).said(), server),
        text::contains((Fault::Unreadable { answer }).said(), answer.named()),
        (Fault::Told { said: path }).said() == path,
{
    let none = Seq::<char>::empty();
    text::lemma_is_held("the edit is to "@, uri, ", which is no file on disk"@);
    text::lemma_is_held("the edit is to "@, path, ", which is outside the repo"@);
    text::lemma_is_held("the edits to "@, path, " do not fit it"@);
    text::lemma_is_held("no "@, server, " server is running for this workspace"@);
    text::lemma_is_held(none, path, " is not open in the "@ + server + " server"@);
    assert(none + path + (" is not open in the "@ + server + " server"@) =~= (Fault::NotOpen {
        file_path: path,
        server,
    }).said());
    text::lemma_is_held(path + " is not open in the "@, server, " server"@);
    text::lemma_is_held("the "@, server, " server never said it formats"@);
    text::lemma_is_held(none, server, " is not installed"@);
    assert(none + server + " is not installed"@ =~= (Fault::NotInstalled {
        command: server,
    }).said());
    text::lemma_is_held(none, answer.named(), " could not be read"@);
    assert(none + answer.named() + " could not be read"@ =~= (Fault::Unreadable {
        answer,
    }).said());
}

} // verus!
