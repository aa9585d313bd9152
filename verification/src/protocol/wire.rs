//! A server's answers as they stand on the wire, read into plain values.
//!
//! The protocol's own shapes are [`lsp_types`]'s, and [`serde_json`] reads an answer into them.
//! What is kept of each here is what anything looks at, with nothing worked out yet: that is
//! [`crate::protocol::answers`]'s business. Each reading is given a name, which is all that is
//! said of what a given JSON text is read as.

use lsp_types::DocumentChangeOperation::{Edit, Op};
use lsp_types::DocumentChanges::{Edits, Operations};
use lsp_types::OneOf::{Left, Right};
use lsp_types::{
    CodeActionOrCommand, CompletionItem, CompletionResponse, Documentation, GotoDefinitionResponse,
    Hover, HoverContents, InitializeResult, Location, LocationLink, MarkedString, MarkupKind,
    ParameterInformation, PrepareRenameResponse, PublishDiagnosticsParams, Range, SignatureHelp,
    SignatureInformation, TextDocumentEdit, TextEdit, Uri, WorkspaceEdit,
};
use serde_json::from_str;
use vstd::prelude::*;
use vstd::string::*;
use vstd::utf8::*;

use crate::text;

verus! {

broadcast use vstd::string::group_string_axioms;

/// Why a JSON text is not what it was read as.
#[verifier::external_type_specification]
#[verifier::external_body]
pub struct ExJsonError(serde_json::Error);

/// Several things as a contract speaks of them.
pub open spec fn views<T: View>(items: Seq<T>) -> Seq<T::V> {
    items.map_values(|item: T| item@)
}

/// What may be there, as a contract speaks of it.
pub open spec fn view_of<T: View>(item: Option<T>) -> Option<T::V> {
    match item {
        Some(item) => Some(item@),
        None => None,
    }
}

/// What may be there several times, as a contract speaks of it.
pub open spec fn views_of<T: View>(items: Option<Vec<T>>) -> Option<Seq<T::V>> {
    match items {
        Some(items) => Some(views(items@)),
        None => None,
    }
}

/// How long a URI may be, in bytes. `lsp_types` keeps a URI in a `fluent_uri::Uri`, which gives up
/// on a longer one by panicking.
pub const LONGEST_URI: usize = 2_147_483_647;

/// What a place in a JSON text is in.
pub enum Within {
    /// No string.
    Nothing,
    /// A string, whose first byte is at `from`.
    Text { from: int },
    /// A string, right behind a backslash of it.
    Escape { from: int },
}

/// What a place in a JSON text is in, by the quotes and the backslashes ahead of it.
pub open spec fn within(bytes: Seq<u8>, at: int) -> Within
    decreases at,
{
    if at <= 0 {
        Within::Nothing
    } else {
        match within(bytes, at - 1) {
            Within::Nothing => if bytes[at - 1] == 34 {
                Within::Text { from: at }
            } else {
                Within::Nothing
            },
            Within::Text { from } => if bytes[at - 1] == 34 {
                Within::Nothing
            } else if bytes[at - 1] == 92 {
                Within::Escape { from }
            } else {
                Within::Text { from }
            },
            Within::Escape { from } => Within::Text { from },
        }
    }
}

/// How many bytes of the string a place is in are ahead of it.
pub open spec fn string_ahead(bytes: Seq<u8>, at: int) -> int {
    match within(bytes, at) {
        Within::Nothing => 0,
        Within::Text { from } => at - from,
        Within::Escape { from } => at - from,
    }
}

/// How many bytes the longest string of a JSON text is written in, as far as `to`.
pub open spec fn longest_to(bytes: Seq<u8>, to: int) -> int
    decreases to,
{
    if to <= 0 {
        0
    } else if string_ahead(bytes, to) > longest_to(bytes, to - 1) {
        string_ahead(bytes, to)
    } else {
        longest_to(bytes, to - 1)
    }
}

/// Whether a JSON text holds a string that is longer than a URI may be. A URI is never longer than
/// the string it is read out of is written, and which strings of a text are URIs is not known until
/// it has been read.
pub open spec fn is_too_long(text: Seq<char>) -> bool {
    longest_to(encode_utf8(text), encode_utf8(text).len() as int) > LONGEST_URI
}

/// A string is no longer than the text it is in.
proof fn lemma_strings_are_within(bytes: Seq<u8>, to: int)
    requires
        0 <= to,
    ensures
        match within(bytes, to) {
            Within::Nothing => true,
            Within::Text { from } => 0 < from <= to,
            Within::Escape { from } => 0 < from <= to,
        },
        0 <= string_ahead(bytes, to) <= to,
        0 <= longest_to(bytes, to) <= to,
    decreases to,
{
    if to > 0 {
        lemma_strings_are_within(bytes, to - 1);
    }
}

/// How many bytes the longest string of a JSON text is written in - see [`longest_to`].
pub fn longest_string(text: &str) -> (longest: usize)
    ensures
        longest == longest_to(text.spec_bytes(), text.spec_bytes().len() as int),
{
    let bytes = text.as_bytes();
    let mut inside: bool = false;
    let mut escaped: bool = false;
    let mut from: usize = 0;
    let mut longest: usize = 0;
    let mut at: usize = 0;
    while at < bytes.len()
        invariant
            bytes@ == text.spec_bytes(),
            at <= bytes@.len(),
            from <= at,
            within(bytes@, at as int) == if !inside {
                Within::Nothing
            } else if escaped {
                Within::Escape { from: from as int }
            } else {
                Within::Text { from: from as int }
            },
            longest == longest_to(bytes@, at as int),
        decreases bytes@.len() - at,
    {
        let byte: u8 = bytes[at];
        at += 1;
        if !inside {
            if byte == 34 {
                inside = true;
                escaped = false;
                from = at;
            }
        } else if escaped {
            escaped = false;
        } else if byte == 34 {
            inside = false;
        } else if byte == 92 {
            escaped = true;
        }
        if inside && at - from > longest {
            longest = at - from;
        }
        proof {
            lemma_strings_are_within(bytes@, at - 1);
        }
    }
    longest
}

/// Whether a JSON text holds a string that is longer than a URI may be - see [`is_too_long`].
pub fn too_long(text: &str) -> (long: bool)
    ensures
        long == is_too_long(text@),
{
    proof {
        lemma_strings_are_within(text.spec_bytes(), text.spec_bytes().len() as int);
    }
    text.as_bytes().len() > LONGEST_URI && longest_string(text) > LONGEST_URI
}

/// There is no string in `null`, let alone one that is too long.
pub proof fn lemma_nothing_is_short()
    ensures
        !is_too_long("null"@),
{
    reveal_strlit("null");
    text::lemma_bytes_are_few("null"@);
    lemma_strings_are_within(encode_utf8("null"@), encode_utf8("null"@).len() as int);
}

/// Whether an answer was read as what it is named to be: nothing that can be read, nothing at
/// all, or a value.
pub open spec fn is_read_as<T: View>(
    read: Result<Option<T>, serde_json::Error>,
    named: Option<Option<T::V>>,
) -> bool {
    match read {
        Ok(Some(value)) => named == Some(Some(value@)),
        Ok(None) => named == Some(None::<T::V>),
        Err(_) => named is None,
    }
}

/// Whether an answer was read as the list it is named to be.
pub open spec fn are_read_as<T: View>(
    read: Result<Option<Vec<T>>, serde_json::Error>,
    named: Option<Option<Seq<T::V>>>,
) -> bool {
    match read {
        Ok(Some(values)) => named == Some(Some(views(values@))),
        Ok(None) => named == Some(None::<Seq<T::V>>),
        Err(_) => named is None,
    }
}

// ---------------------------------------------------------------------------------------------
// Places and edits
// ---------------------------------------------------------------------------------------------

/// A place a server names, in its own units.
#[derive(Clone, Copy, PartialEq, Eq, Debug, Structural)]
pub struct Place {
    /// The line, counted from zero.
    pub line: u32,
    /// How far into that line.
    pub character: u32,
}

/// A stretch a server names, in its own units.
#[derive(Clone, Copy, PartialEq, Eq, Debug, Structural)]
pub struct Stretch {
    /// Where it starts.
    pub start: Place,
    /// Where it ends.
    pub end: Place,
}

/// A stretch from one place to another.
pub fn stretch(line: u32, character: u32, end_line: u32, end_character: u32) -> (stretch: Stretch)
    ensures
        stretch == (Stretch {
            start: Place { line, character },
            end: Place { line: end_line, character: end_character },
        }),
{
    Stretch {
        start: Place { line, character },
        end: Place { line: end_line, character: end_character },
    }
}

/// One stretch to replace, and what with.
#[derive(PartialEq, Eq, Debug)]
pub struct Replacement {
    /// The stretch.
    pub range: Stretch,
    /// What goes in its place.
    pub new_text: String,
}

/// A [`Replacement`] as a contract speaks of it.
pub struct ReplacementModel {
    /// See [`Replacement::range`].
    pub range: Stretch,
    /// See [`Replacement::new_text`].
    pub new_text: Seq<char>,
}

/// A stretch from one place to another, to replace with other text.
pub fn replacement(
    line: u32,
    character: u32,
    end_line: u32,
    end_character: u32,
    new_text: String,
) -> (replacement: Replacement)
    ensures
        replacement == (Replacement {
            range: Stretch {
                start: Place { line, character },
                end: Place { line: end_line, character: end_character },
            },
            new_text,
        }),
{
    Replacement { range: stretch(line, character, end_line, end_character), new_text }
}

impl View for Replacement {
    type V = ReplacementModel;

    open spec fn view(&self) -> ReplacementModel {
        ReplacementModel { range: self.range, new_text: self.new_text@ }
    }
}

/// What the answer to `textDocument/formatting` is read as.
pub uninterp spec fn edits_in(answer: Seq<char>) -> Option<Option<Seq<ReplacementModel>>>;

/// `serde_json::from_str` of a list of `lsp_types::TextEdit`, or of `null`: the edits in the order
/// they stand in, each with its range and its new text. What text is read as what is named, not
/// stated, but for `null`.
#[verifier::external_body]
pub(crate) fn read_edits(answer: &str) -> (read: Result<Option<Vec<Replacement>>, serde_json::Error>)
    ensures
        are_read_as(read, edits_in(answer@)),
        answer@ == "null"@ ==> read matches Ok(None),
{
    let said = |TextEdit { range: Range { start, end }, new_text }| {
        replacement(start.line, start.character, end.line, end.character, new_text)
    };
    let read = from_str::<Option<Vec<TextEdit>>>(answer)?;
    Ok(read.map(|edits| edits.into_iter().map(said).collect()))
}

/// One entry of the newer shape a change of several files comes in.
#[derive(PartialEq, Eq, Debug)]
pub enum Change {
    /// Edits to one document, by its URI.
    Edits(String, Vec<Replacement>),
    /// A file to create, rename or delete.
    MovesAFile,
}

/// A [`Change`] as a contract speaks of it.
pub enum ChangeModel {
    /// See [`Change::Edits`].
    Edits(Seq<char>, Seq<ReplacementModel>),
    /// See [`Change::MovesAFile`].
    MovesAFile,
}

impl View for Change {
    type V = ChangeModel;

    open spec fn view(&self) -> ChangeModel {
        match self {
            Change::Edits(uri, edits) => ChangeModel::Edits(uri@, views(edits@)),
            Change::MovesAFile => ChangeModel::MovesAFile,
        }
    }
}

/// Whether an answer was read as the entries it is named to have, where it has any.
pub open spec fn changes_are_read_as(
    read: Result<Option<Option<Vec<Change>>>, serde_json::Error>,
    named: Option<Option<Option<Seq<ChangeModel>>>>,
) -> bool {
    match read {
        Ok(Some(changes)) => named == Some(Some(views_of(changes))),
        Ok(None) => named == Some(None::<Option<Seq<ChangeModel>>>),
        Err(_) => named is None,
    }
}

/// What the `documentChanges` of a change of several files are read as.
pub uninterp spec fn documents_in(answer: Seq<char>) -> Option<Option<Option<Seq<ChangeModel>>>>;

/// `serde_json::from_str` of an `lsp_types::WorkspaceEdit`, or of `null`, and what its
/// `document_changes` hold: an entry for each document or operation, in the order they stand in,
/// with the document's URI and each of its edits, annotated or not. A text with a string too long
/// for a URI is not read - see [`is_too_long`]. What text is read as what is named, not
/// stated, but for `null`.
#[verifier::external_body]
pub(crate) fn read_documents(answer: &str) -> (read: Result<
    Option<Option<Vec<Change>>>,
    serde_json::Error,
>)
    requires
        !is_too_long(answer@),
    ensures
        changes_are_read_as(read, documents_in(answer@)),
        answer@ == "null"@ ==> read matches Ok(None),
{
    let change = |operation| match operation {
        Edit(TextDocumentEdit { text_document, edits }) => Change::Edits(
            text_document.uri.to_string(),
            edits.into_iter().map(|edit| {
                let TextEdit { range: Range { start, end }, new_text } = match edit {
                    Left(edit) => edit,
                    Right(annotated) => annotated.text_edit,
                };
                replacement(start.line, start.character, end.line, end.character, new_text)
            }).collect()),
        Op(_) => Change::MovesAFile,
    };
    Ok(from_str::<Option<WorkspaceEdit>>(answer)?.map(|edit| edit.document_changes.map(|changes| match changes {
        Edits(documents) => documents.into_iter().map(Edit).map(change).collect(),
        Operations(operations) => operations.into_iter().map(change).collect() })))
}

/// What the older shape of a change of several files holds, where the change has it: each
/// document's edits by its URI, in no order.
#[derive(PartialEq, Eq, Debug)]
pub struct Mapped {
    /// Its entries, no two of the same URI.
    pub changes: Option<Vec<(String, Vec<Replacement>)>>,
}

/// Entries by their URI.
pub open spec fn mapped(entries: Seq<(String, Vec<Replacement>)>) -> Map<
    Seq<char>,
    Seq<ReplacementModel>,
>
    decreases entries.len(),
{
    if entries.len() == 0 {
        Map::empty()
    } else {
        mapped(entries.drop_last()).insert(entries.last().0@, views(entries.last().1@))
    }
}

/// Whether no two entries are of the same URI.
pub open spec fn are_distinct(entries: Seq<(String, Vec<Replacement>)>) -> bool {
    forall|i: int, j: int|
        0 <= i < j < entries.len() ==> (#[trigger] entries[i]).0@ != (#[trigger] entries[j]).0@
}

impl View for Mapped {
    type V = Option<Map<Seq<char>, Seq<ReplacementModel>>>;

    open spec fn view(&self) -> Option<Map<Seq<char>, Seq<ReplacementModel>>> {
        match self.changes {
            Some(entries) => Some(mapped(entries@)),
            None => None,
        }
    }
}

/// What the `changes` of a change of several files are read as.
pub uninterp spec fn mapped_in(answer: Seq<char>) -> Option<
    Option<Option<Map<Seq<char>, Seq<ReplacementModel>>>>,
>;

/// `serde_json::from_str` of an `lsp_types::WorkspaceEdit`, or of `null`, and what its `changes`
/// hold: an entry for each URI that is a key of the map, with its edits in the order they stand in.
/// Nothing is stated of the order of the entries, which is a hash map's own. A text with a
/// string too long for a URI is not read - see [`is_too_long`]. What text is read as what is named,
/// not stated, but for `null`.
#[verifier::external_body]
pub(crate) fn read_mapped(answer: &str) -> (read: Result<Option<Mapped>, serde_json::Error>)
    requires
        !is_too_long(answer@),
    ensures
        is_read_as(read, mapped_in(answer@)),
        read matches Ok(Some(read)) ==> (read.changes matches Some(entries) ==> are_distinct(
            entries@,
        )),
        answer@ == "null"@ ==> read matches Ok(None),
{
    let said = |TextEdit { range: Range { start, end }, new_text }| {
        replacement(start.line, start.character, end.line, end.character, new_text)
    };
    let document = |(uri, edits): (Uri, Vec<TextEdit>)| {
        (uri.to_string(), edits.into_iter().map(said).collect())
    };
    let read = from_str::<Option<WorkspaceEdit>>(answer)?;
    Ok(read.map(|edit| Mapped {
        changes: edit.changes.map(|changes| changes.into_iter().map(document).collect()),
    }))
}

// ---------------------------------------------------------------------------------------------
// Starting up
// ---------------------------------------------------------------------------------------------

/// How a server says whether it formats.
#[derive(Clone, Copy, PartialEq, Eq, Debug, Structural)]
pub enum Formatting {
    /// In so many words.
    Said(bool),
    /// By describing how it does.
    Described,
}

/// What a server says about itself as it starts.
#[derive(PartialEq, Eq, Debug)]
pub struct InitializeReply {
    /// What it counts columns in, where it says.
    pub position_encoding: Option<String>,
    /// The characters it completes after, where it says any, where it completes at all.
    pub trigger_characters: Option<Option<Vec<String>>>,
    /// Whether it formats, where it says.
    pub formatting: Option<Formatting>,
}

/// An [`InitializeReply`] as a contract speaks of it.
pub struct InitializeModel {
    /// See [`InitializeReply::position_encoding`].
    pub position_encoding: Option<Seq<char>>,
    /// See [`InitializeReply::trigger_characters`].
    pub trigger_characters: Option<Option<Seq<Seq<char>>>>,
    /// See [`InitializeReply::formatting`].
    pub formatting: Option<Formatting>,
}

impl View for InitializeReply {
    type V = InitializeModel;

    open spec fn view(&self) -> InitializeModel {
        InitializeModel {
            position_encoding: view_of(self.position_encoding),
            trigger_characters: match self.trigger_characters {
                Some(characters) => Some(views_of(characters)),
                None => None,
            },
            formatting: self.formatting,
        }
    }
}

/// What the answer to `initialize` is read as.
pub uninterp spec fn initialize_in(reply: Seq<char>) -> Option<InitializeModel>;

/// `serde_json::from_str` of an `lsp_types::InitializeResult`: of its capabilities, the name of
/// the position encoding, the trigger characters of the completion provider, and the formatting
/// provider, each as it stands. What text is read as what is named, not stated.
#[verifier::external_body]
pub(crate) fn read_initialize(reply: &str) -> (read: Result<InitializeReply, serde_json::Error>)
    ensures
        match read {
            Ok(read) => initialize_in(reply@) == Some(read@),
            Err(_) => initialize_in(reply@) is None,
        },
{
    let read = from_str::<InitializeResult>(reply)?;
    let said = read.capabilities;
    Ok(InitializeReply {
        position_encoding: said.position_encoding.map(|kind| kind.as_str().to_string()),
        trigger_characters: said.completion_provider.map(|completion| completion.trigger_characters),
        formatting: said.document_formatting_provider.map(|provider| match provider {
            Left(formats) => Formatting::Said(formats),
            Right(_) => Formatting::Described,
        }),
    })
}

// ---------------------------------------------------------------------------------------------
// What is said about a name
// ---------------------------------------------------------------------------------------------

/// One piece of what a hover says, in the protocol's older shape.
#[derive(PartialEq, Eq, Debug)]
pub enum Marked {
    /// Markdown.
    Markdown(String),
    /// Code in a named language.
    Code {
        /// The language.
        language: String,
        /// The code.
        value: String,
    },
}

/// A [`Marked`] as a contract speaks of it.
pub enum MarkedModel {
    /// See [`Marked::Markdown`].
    Markdown(Seq<char>),
    /// See [`Marked::Code`].
    Code { language: Seq<char>, value: Seq<char> },
}

impl View for Marked {
    type V = MarkedModel;

    open spec fn view(&self) -> MarkedModel {
        match self {
            Marked::Markdown(text) => MarkedModel::Markdown(text@),
            Marked::Code { language, value } => MarkedModel::Code {
                language: language@,
                value: value@,
            },
        }
    }
}

/// What a hover says, in whichever of the protocol's shapes.
#[derive(PartialEq, Eq, Debug)]
pub enum HoverSaid {
    /// One piece.
    One(Marked),
    /// Several pieces.
    Several(Vec<Marked>),
    /// Markdown, in the newer shape.
    Markdown(String),
    /// Plain text, in the newer shape.
    Plain(String),
}

/// A [`HoverSaid`] as a contract speaks of it.
pub enum HoverModel {
    /// See [`HoverSaid::One`].
    One(MarkedModel),
    /// See [`HoverSaid::Several`].
    Several(Seq<MarkedModel>),
    /// See [`HoverSaid::Markdown`].
    Markdown(Seq<char>),
    /// See [`HoverSaid::Plain`].
    Plain(Seq<char>),
}

impl View for HoverSaid {
    type V = HoverModel;

    open spec fn view(&self) -> HoverModel {
        match self {
            HoverSaid::One(marked) => HoverModel::One(marked@),
            HoverSaid::Several(marked) => HoverModel::Several(views(marked@)),
            HoverSaid::Markdown(text) => HoverModel::Markdown(text@),
            HoverSaid::Plain(text) => HoverModel::Plain(text@),
        }
    }
}

/// What the answer to `textDocument/hover` is read as.
pub uninterp spec fn hover_in(answer: Seq<char>) -> Option<Option<HoverModel>>;

/// `serde_json::from_str` of an `lsp_types::Hover`, or of `null`: its contents in the shape they
/// stand in. What text is read as what is named, not stated, but for `null`.
#[verifier::external_body]
pub(crate) fn read_hover(answer: &str) -> (read: Result<Option<HoverSaid>, serde_json::Error>)
    ensures
        is_read_as(read, hover_in(answer@)),
        answer@ == "null"@ ==> read matches Ok(None),
{
    let marked = |marked| match marked {
        MarkedString::String(text) => Marked::Markdown(text),
        MarkedString::LanguageString(code) => Marked::Code { language: code.language, value: code.value },
    };
    let read = from_str::<Option<Hover>>(answer)?;
    Ok(read.map(|hover| match hover.contents {
        HoverContents::Scalar(one) => HoverSaid::One(marked(one)),
        HoverContents::Array(several) => HoverSaid::Several(several.into_iter().map(marked).collect()),
        HoverContents::Markup(markup) => match markup.kind {
            MarkupKind::Markdown => HoverSaid::Markdown(markup.value),
            MarkupKind::PlainText => HoverSaid::Plain(markup.value),
        },
    }))
}

/// How a signature names one of its parameters.
#[derive(PartialEq, Eq, Debug)]
pub enum ParameterLabel {
    /// By its text.
    Written(String),
    /// By where it is in the label, in UTF-16 code units.
    Between(u32, u32),
}

/// A [`ParameterLabel`] as a contract speaks of it.
pub enum ParameterModel {
    /// See [`ParameterLabel::Written`].
    Written(Seq<char>),
    /// See [`ParameterLabel::Between`].
    Between(u32, u32),
}

impl View for ParameterLabel {
    type V = ParameterModel;

    open spec fn view(&self) -> ParameterModel {
        match self {
            ParameterLabel::Written(text) => ParameterModel::Written(text@),
            ParameterLabel::Between(start, end) => ParameterModel::Between(*start, *end),
        }
    }
}

/// One signature a server shows.
#[derive(PartialEq, Eq, Debug)]
pub struct SignatureSaid {
    /// The whole of it.
    pub label: String,
    /// What the server says about the function, in either shape, where it says anything.
    pub documentation: Option<String>,
    /// Its parameters, where the server lists them.
    pub parameters: Option<Vec<ParameterLabel>>,
    /// Which of them the caret is at, where the server says so of this signature.
    pub active_parameter: Option<u32>,
}

/// A [`SignatureSaid`] as a contract speaks of it.
pub struct SignatureModel {
    /// See [`SignatureSaid::label`].
    pub label: Seq<char>,
    /// See [`SignatureSaid::documentation`].
    pub documentation: Option<Seq<char>>,
    /// See [`SignatureSaid::parameters`].
    pub parameters: Option<Seq<ParameterModel>>,
    /// See [`SignatureSaid::active_parameter`].
    pub active_parameter: Option<u32>,
}

impl View for SignatureSaid {
    type V = SignatureModel;

    open spec fn view(&self) -> SignatureModel {
        SignatureModel {
            label: self.label@,
            documentation: view_of(self.documentation),
            parameters: views_of(self.parameters),
            active_parameter: self.active_parameter,
        }
    }
}

/// The signatures a server shows for the call around a place.
#[derive(PartialEq, Eq, Debug)]
pub struct Signatures {
    /// All of them.
    pub signatures: Vec<SignatureSaid>,
    /// Which of them is the one being called, where the server says.
    pub active_signature: Option<u32>,
    /// Which parameter the caret is at, where the server says so of them all.
    pub active_parameter: Option<u32>,
}

/// [`Signatures`] as a contract speaks of them.
pub struct SignaturesModel {
    /// See [`Signatures::signatures`].
    pub signatures: Seq<SignatureModel>,
    /// See [`Signatures::active_signature`].
    pub active_signature: Option<u32>,
    /// See [`Signatures::active_parameter`].
    pub active_parameter: Option<u32>,
}

impl View for Signatures {
    type V = SignaturesModel;

    open spec fn view(&self) -> SignaturesModel {
        SignaturesModel {
            signatures: views(self.signatures@),
            active_signature: self.active_signature,
            active_parameter: self.active_parameter,
        }
    }
}

/// What the answer to `textDocument/signatureHelp` is read as.
pub uninterp spec fn signatures_in(answer: Seq<char>) -> Option<Option<SignaturesModel>>;

/// `serde_json::from_str` of an `lsp_types::SignatureHelp`, or of `null`: its signatures in the
/// order they stand in, the text of each one's documentation, and each parameter's label. What
/// text is read as what is named, not stated, but for `null`.
#[verifier::external_body]
pub(crate) fn read_signatures(answer: &str) -> (read: Result<Option<Signatures>, serde_json::Error>)
    ensures
        is_read_as(read, signatures_in(answer@)),
        answer@ == "null"@ ==> read matches Ok(None),
{
    let label = |parameter: ParameterInformation| match parameter.label {
        lsp_types::ParameterLabel::Simple(text) => ParameterLabel::Written(text),
        lsp_types::ParameterLabel::LabelOffsets([start, end]) => ParameterLabel::Between(start, end),
    };
    let said = |signature: SignatureInformation| SignatureSaid {
        label: signature.label,
        documentation: signature.documentation.map(|documentation| match documentation {
            Documentation::String(text) => text,
            Documentation::MarkupContent(markup) => markup.value,
        }),
        parameters: signature.parameters.map(|all| all.into_iter().map(label).collect()),
        active_parameter: signature.active_parameter,
    };
    Ok(from_str::<Option<SignatureHelp>>(answer)?.map(|SignatureHelp { signatures, active_signature, active_parameter }|
        Signatures { signatures: signatures.into_iter().map(said).collect(), active_signature, active_parameter }))
}

/// What a server says can be renamed at a place.
#[derive(PartialEq, Eq, Debug)]
pub enum Renamable {
    /// What is at this stretch.
    Range(Stretch),
    /// What reads so.
    Placeholder(String),
    /// Whatever the client would have taken it to be.
    DefaultBehaviour,
}

/// A [`Renamable`] as a contract speaks of it.
pub enum RenamableModel {
    /// See [`Renamable::Range`].
    Range(Stretch),
    /// See [`Renamable::Placeholder`].
    Placeholder(Seq<char>),
    /// See [`Renamable::DefaultBehaviour`].
    DefaultBehaviour,
}

impl View for Renamable {
    type V = RenamableModel;

    open spec fn view(&self) -> RenamableModel {
        match self {
            Renamable::Range(range) => RenamableModel::Range(*range),
            Renamable::Placeholder(text) => RenamableModel::Placeholder(text@),
            Renamable::DefaultBehaviour => RenamableModel::DefaultBehaviour,
        }
    }
}

/// What the answer to `textDocument/prepareRename` is read as.
pub uninterp spec fn renamable_in(answer: Seq<char>) -> Option<Option<RenamableModel>>;

/// `serde_json::from_str` of an `lsp_types::PrepareRenameResponse`, or of `null`: its range, its
/// placeholder where it has both, or neither. What text is read as what is named, not stated, but
/// for `null`.
#[verifier::external_body]
pub(crate) fn read_renamable(answer: &str) -> (read: Result<Option<Renamable>, serde_json::Error>)
    ensures
        is_read_as(read, renamable_in(answer@)),
        answer@ == "null"@ ==> read matches Ok(None),
{
    let read = from_str::<Option<PrepareRenameResponse>>(answer)?;
    Ok(read.map(|response| match response {
        PrepareRenameResponse::Range(Range { start, end }) => {
            Renamable::Range(stretch(start.line, start.character, end.line, end.character))
        },
        PrepareRenameResponse::RangeWithPlaceholder { placeholder, .. } => {
            Renamable::Placeholder(placeholder)
        },
        PrepareRenameResponse::DefaultBehavior { .. } => Renamable::DefaultBehaviour,
    }))
}

// ---------------------------------------------------------------------------------------------
// Places and completions
// ---------------------------------------------------------------------------------------------

/// A line of a document a server names.
#[derive(PartialEq, Eq, Debug)]
pub struct Spot {
    /// The document.
    pub uri: String,
    /// The line, counted from zero.
    pub line: u32,
}

/// A [`Spot`] as a contract speaks of it.
pub struct SpotModel {
    /// See [`Spot::uri`].
    pub uri: Seq<char>,
    /// See [`Spot::line`].
    pub line: u32,
}

impl View for Spot {
    type V = SpotModel;

    open spec fn view(&self) -> SpotModel {
        SpotModel { uri: self.uri@, line: self.line }
    }
}

/// Where a server says something is, in whichever of the protocol's shapes.
#[derive(PartialEq, Eq, Debug)]
pub enum PlacesSaid {
    /// One place.
    One(Spot),
    /// Several places.
    Several(Vec<Spot>),
    /// Several links, each to the start of what it selects.
    Links(Vec<Spot>),
}

/// A [`PlacesSaid`] as a contract speaks of it.
pub enum PlacesModel {
    /// See [`PlacesSaid::One`].
    One(SpotModel),
    /// See [`PlacesSaid::Several`].
    Several(Seq<SpotModel>),
    /// See [`PlacesSaid::Links`].
    Links(Seq<SpotModel>),
}

impl View for PlacesSaid {
    type V = PlacesModel;

    open spec fn view(&self) -> PlacesModel {
        match self {
            PlacesSaid::One(spot) => PlacesModel::One(spot@),
            PlacesSaid::Several(spots) => PlacesModel::Several(views(spots@)),
            PlacesSaid::Links(spots) => PlacesModel::Links(views(spots@)),
        }
    }
}

/// What the answer to a question about places is read as.
pub uninterp spec fn places_in(answer: Seq<char>) -> Option<Option<PlacesModel>>;

/// `serde_json::from_str` of an `lsp_types::GotoDefinitionResponse`, or of `null`: each location's
/// URI and the line its range starts on, or each link's target and the line its selection starts
/// on, in the order they stand in. A text with a string too long for a URI is not read - see
/// [`is_too_long`]. What text is read as what is named, not stated, but for `null`.
#[verifier::external_body]
pub(crate) fn read_places(answer: &str) -> (read: Result<Option<PlacesSaid>, serde_json::Error>)
    requires
        !is_too_long(answer@),
    ensures
        is_read_as(read, places_in(answer@)),
        answer@ == "null"@ ==> read matches Ok(None),
{
    let spot = |Location { uri, range }| Spot {
        uri: uri.to_string(),
        line: range.start.line,
    };
    let target = |link: LocationLink| Spot {
        uri: link.target_uri.to_string(),
        line: link.target_selection_range.start.line,
    };
    let read = from_str::<Option<GotoDefinitionResponse>>(answer)?;
    Ok(read.map(|response| match response {
        GotoDefinitionResponse::Scalar(one) => PlacesSaid::One(spot(one)),
        GotoDefinitionResponse::Array(several) => PlacesSaid::Several(several.into_iter().map(spot).collect()),
        GotoDefinitionResponse::Link(links) => PlacesSaid::Links(links.into_iter().map(target).collect()),
    }))
}

/// One thing a server offers to complete with.
#[derive(PartialEq, Eq, Debug)]
pub struct ItemSaid {
    /// What is read.
    pub label: String,
    /// What is typed, where that is something else.
    pub insert_text: Option<String>,
    /// The line beside it, where there is one.
    pub detail: Option<String>,
    /// The protocol's number for what sort of thing it is, where the server says.
    pub kind: Option<i64>,
}

/// An [`ItemSaid`] as a contract speaks of it.
pub struct ItemModel {
    /// See [`ItemSaid::label`].
    pub label: Seq<char>,
    /// See [`ItemSaid::insert_text`].
    pub insert_text: Option<Seq<char>>,
    /// See [`ItemSaid::detail`].
    pub detail: Option<Seq<char>>,
    /// See [`ItemSaid::kind`].
    pub kind: Option<i64>,
}

impl View for ItemSaid {
    type V = ItemModel;

    open spec fn view(&self) -> ItemModel {
        ItemModel {
            label: self.label@,
            insert_text: view_of(self.insert_text),
            detail: view_of(self.detail),
            kind: self.kind,
        }
    }
}

/// What a server offers to complete with, in whichever of the protocol's shapes.
#[derive(PartialEq, Eq, Debug)]
pub enum ItemsSaid {
    /// A bare list.
    Array(Vec<ItemSaid>),
    /// A list that says whether it is all there is.
    List(Vec<ItemSaid>),
}

/// An [`ItemsSaid`] as a contract speaks of it.
pub enum ItemsModel {
    /// See [`ItemsSaid::Array`].
    Array(Seq<ItemModel>),
    /// See [`ItemsSaid::List`].
    List(Seq<ItemModel>),
}

impl View for ItemsSaid {
    type V = ItemsModel;

    open spec fn view(&self) -> ItemsModel {
        match self {
            ItemsSaid::Array(items) => ItemsModel::Array(views(items@)),
            ItemsSaid::List(items) => ItemsModel::List(views(items@)),
        }
    }
}

/// What the answer to `textDocument/completion` is read as.
pub uninterp spec fn items_in(answer: Seq<char>) -> Option<Option<ItemsModel>>;

/// `serde_json::from_str` of an `lsp_types::CompletionResponse`, or of `null`: its items in the
/// order they stand in, each one's kind as the number `serde_json::to_value` makes of it. What
/// text is read as what is named, not stated, but for `null`.
#[verifier::external_body]
pub(crate) fn read_items(answer: &str) -> (read: Result<Option<ItemsSaid>, serde_json::Error>)
    ensures
        is_read_as(read, items_in(answer@)),
        answer@ == "null"@ ==> read matches Ok(None),
{
    let said = |item: CompletionItem| ItemSaid {
        label: item.label,
        insert_text: item.insert_text,
        detail: item.detail,
        kind: item.kind.and_then(|kind| serde_json::to_value(kind).ok()?.as_i64()),
    };
    let read = from_str::<Option<CompletionResponse>>(answer)?;
    Ok(read.map(|response| match response {
        CompletionResponse::Array(items) => ItemsSaid::Array(items.into_iter().map(said).collect()),
        CompletionResponse::List(list) => ItemsSaid::List(list.items.into_iter().map(said).collect()),
    }))
}

// ---------------------------------------------------------------------------------------------
// Code actions and diagnostics
// ---------------------------------------------------------------------------------------------

/// Something a server offers to do.
#[derive(PartialEq, Eq, Debug)]
pub enum Offered {
    /// A command for the server itself to run.
    Command,
    /// An action.
    Action {
        /// What the server calls it.
        title: String,
        /// The protocol's kind, where the server says.
        kind: Option<String>,
        /// Whether it is the one to take, where the server says.
        preferred: Option<bool>,
        /// Why it cannot be taken now, where it cannot.
        disabled: Option<String>,
        /// What it changes, as JSON, where it says.
        edit: Option<String>,
    },
}

/// An [`Offered`] as a contract speaks of it.
pub enum OfferedModel {
    /// See [`Offered::Command`].
    Command,
    /// See [`Offered::Action`].
    Action {
        title: Seq<char>,
        kind: Option<Seq<char>>,
        preferred: Option<bool>,
        disabled: Option<Seq<char>>,
        edit: Option<Seq<char>>,
    },
}

impl View for Offered {
    type V = OfferedModel;

    open spec fn view(&self) -> OfferedModel {
        match self {
            Offered::Command => OfferedModel::Command,
            Offered::Action { title, kind, preferred, disabled, edit } => OfferedModel::Action {
                title: title@,
                kind: view_of(*kind),
                preferred: *preferred,
                disabled: view_of(*disabled),
                edit: view_of(*edit),
            },
        }
    }
}

/// What the answer to `textDocument/codeAction` is read as.
pub uninterp spec fn offered_in(answer: Seq<char>) -> Option<Option<Seq<OfferedModel>>>;

/// `serde_json::from_str` of a list of `lsp_types::CodeActionOrCommand`, or of `null`, in the order
/// they stand in: each action's title, kind, preference, the reason it is disabled, and its edit
/// as the JSON `serde_json::to_value` makes of it. A text with a string too long for a URI is not
/// read - see [`is_too_long`]. What text is read as what is named, not stated, but for
/// `null`.
#[verifier::external_body]
pub(crate) fn read_offered(answer: &str) -> (read: Result<Option<Vec<Offered>>, serde_json::Error>)
    requires
        !is_too_long(answer@),
    ensures
        are_read_as(read, offered_in(answer@)),
        answer@ == "null"@ ==> read matches Ok(None),
{
    let said = |offered| Ok(match offered {
        CodeActionOrCommand::Command(_) => Offered::Command,
        CodeActionOrCommand::CodeAction(action) => Offered::Action {
            title: action.title,
            kind: action.kind.map(|kind| kind.as_str().to_string()),
            preferred: action.is_preferred,
            disabled: action.disabled.map(|disabled| disabled.reason),
            edit: action.edit.map(serde_json::to_value).transpose()?.map(|edit| edit.to_string()),
        },
    });
    let read = from_str::<Option<Vec<CodeActionOrCommand>>>(answer)?;
    read.map(|offered| offered.into_iter().map(said).collect()).transpose()
}

/// Something a server found wrong with a file, in its own units.
#[derive(PartialEq, Eq, Debug)]
pub struct Diagnostic {
    /// The stretch it is about.
    pub range: Stretch,
    /// The protocol's number for how bad it is, where the server says.
    pub severity: Option<i64>,
    /// What the server says about it.
    pub message: String,
    /// What found it, where the server says.
    pub source: Option<String>,
    /// The whole of it, as JSON - what a question about it is asked with.
    pub written: String,
}

/// A [`Diagnostic`] as a contract speaks of it.
pub struct DiagnosticModel {
    /// See [`Diagnostic::range`].
    pub range: Stretch,
    /// See [`Diagnostic::severity`].
    pub severity: Option<i64>,
    /// See [`Diagnostic::message`].
    pub message: Seq<char>,
    /// See [`Diagnostic::source`].
    pub source: Option<Seq<char>>,
    /// See [`Diagnostic::written`].
    pub written: Seq<char>,
}

impl View for Diagnostic {
    type V = DiagnosticModel;

    open spec fn view(&self) -> DiagnosticModel {
        DiagnosticModel {
            range: self.range,
            severity: self.severity,
            message: self.message@,
            source: view_of(self.source),
            written: self.written@,
        }
    }
}

/// What a server publishes about one document.
#[derive(PartialEq, Eq, Debug)]
pub struct Published {
    /// The document.
    pub uri: String,
    /// Everything it found wrong with it.
    pub diagnostics: Vec<Diagnostic>,
}

/// A [`Published`] as a contract speaks of it.
pub struct PublishedModel {
    /// See [`Published::uri`].
    pub uri: Seq<char>,
    /// See [`Published::diagnostics`].
    pub diagnostics: Seq<DiagnosticModel>,
}

impl View for Published {
    type V = PublishedModel;

    open spec fn view(&self) -> PublishedModel {
        PublishedModel { uri: self.uri@, diagnostics: views(self.diagnostics@) }
    }
}

/// What the parameters of `textDocument/publishDiagnostics` are read as.
pub uninterp spec fn published_in(params: Seq<char>) -> Option<PublishedModel>;

/// `serde_json::from_str` of an `lsp_types::PublishDiagnosticsParams`: its URI, and its diagnostics
/// in the order they stand in, each one's severity as the number and the whole of each as the JSON
/// that `serde_json::to_value` makes of them. A text with a string too long for a URI is not
/// read - see [`is_too_long`]. What text is read as what is named, not stated.
#[verifier::external_body]
pub(crate) fn read_published(params: &str) -> (read: Result<Published, serde_json::Error>)
    requires
        !is_too_long(params@),
    ensures
        match read {
            Ok(read) => published_in(params@) == Some(read@),
            Err(_) => published_in(params@) is None,
        },
{
    let said = |found: lsp_types::Diagnostic| Ok(Diagnostic {
        written: serde_json::to_value(&found)?.to_string(),
        range: stretch(
            found.range.start.line, found.range.start.character,
            found.range.end.line, found.range.end.character,
        ),
        severity: found.severity.and_then(|severity| serde_json::to_value(severity).ok()?.as_i64()),
        message: found.message,
        source: found.source,
    });
    let read = from_str::<PublishDiagnosticsParams>(params)?;
    let diagnostics: Result<_, serde_json::Error> = read.diagnostics.into_iter().map(said).collect();
    Ok(Published { uri: read.uri.to_string(), diagnostics: diagnostics? })
}

/// What a member of a JSON object is written as, where the text is one that has it.
pub uninterp spec fn member_in(text: Seq<char>, name: Seq<char>) -> Option<Seq<char>>;

/// `serde_json::Value::get` of what `serde_json::from_str` reads, as the JSON it is written in. What
/// text has which members is named, not stated.
#[verifier::external_body]
pub(crate) fn member_of(text: &str, name: &str) -> (member: Option<String>)
    ensures
        view_of(member) == member_in(text@, name@),
{
    let value = from_str::<serde_json::Value>(text).ok()?;
    value.get(name).map(|member| member.to_string())
}

/// The whole number a member of a JSON object is, where the text is one that has it and it is one.
pub uninterp spec fn whole_in(text: Seq<char>, name: Seq<char>) -> Option<i64>;

/// `serde_json::Value::as_i64` of what `serde_json::Value::get` finds in what
/// `serde_json::from_str` reads. What text has which members is named, not stated.
#[verifier::external_body]
pub(crate) fn whole_of(text: &str, name: &str) -> (whole: Option<i64>)
    ensures
        whole == whole_in(text@, name@),
{
    let value = from_str::<serde_json::Value>(text).ok()?;
    value.get(name)?.as_i64()
}

/// Whether bytes are one character of a JSON string as it is written: a byte that is no quote and no
/// backslash, or a backslash with a byte behind it.
pub open spec fn is_written_in_a_string(piece: Seq<u8>) -> bool {
    ||| piece.len() == 1 && piece[0] != 34 && piece[0] != 92
    ||| piece.len() == 2 && piece[0] == 92
}

/// Past where no string is, a string goes on for as long as what is written in it.
proof fn lemma_inside_a_string(front: Seq<u8>, pieces: Seq<Seq<u8>>, rest: Seq<u8>, at: int)
    requires
        0 <= at <= pieces.flatten().len(),
        forall|i: int| 0 <= i < front.len() ==> #[trigger] front[i] != 34,
        forall|i: int| 0 <= i < pieces.len() ==> is_written_in_a_string(#[trigger] pieces[i]),
    ensures
        string_ahead(front + seq![34u8] + pieces.flatten() + rest, front.len() + 1 + at) == at,
        within(
            front + seq![34u8] + pieces.flatten() + rest,
            front.len() as int + 1 + pieces.flatten().len(),
        ) == (Within::Text { from: front.len() as int + 1 }),
    decreases pieces.len(),
{
    let content = pieces.flatten();
    let bytes = front + seq![34u8] + content + rest;
    let from = front.len() as int + 1;
    if pieces.len() == 0 {
        lemma_no_string(front, seq![34u8] + content + rest, front.len() as int);
        assert(front + (seq![34u8] + content + rest) =~= bytes);
        assert(bytes[front.len() as int] == 34);
    } else {
        let fewer = pieces.drop_last();
        let last = pieces.last();
        assert(fewer.push(last) =~= pieces);
        fewer.lemma_flatten_push(last);
        assert(content == fewer.flatten() + last);
        assert(front + seq![34u8] + fewer.flatten() + (last + rest) =~= bytes);
        assert forall|i: int| 0 <= i < fewer.len() implies is_written_in_a_string(
            #[trigger] fewer[i],
        ) by {
            assert(fewer[i] == pieces[i]);
        }
        assert(is_written_in_a_string(pieces[pieces.len() - 1]));
        let so_far = fewer.flatten().len() as int;
        lemma_inside_a_string(
            front,
            fewer,
            last + rest,
            if at <= so_far {
                at
            } else {
                so_far
            },
        );
        assert(bytes[from + so_far] == last[0]);
        assert(within(bytes, from + so_far) == (Within::Text { from }));
        if last.len() == 2 {
            assert(within(bytes, from + so_far + 1) == (Within::Escape { from }));
            assert(within(bytes, from + so_far + 2) == (Within::Text { from }));
        } else {
            assert(within(bytes, from + so_far + 1) == (Within::Text { from }));
        }
    }
}

proof fn lemma_no_string(front: Seq<u8>, rest: Seq<u8>, at: int)
    requires
        0 <= at <= front.len(),
        forall|i: int| 0 <= i < front.len() ==> #[trigger] front[i] != 34,
    ensures
        within(front + rest, at) == Within::Nothing,
        longest_to(front + rest, at) == 0,
    decreases at,
{
    if at > 0 {
        lemma_no_string(front, rest, at - 1);
        assert((front + rest)[at - 1] == front[at - 1]);
    }
}

proof fn lemma_longest_only_grows(bytes: Seq<u8>, at: int, to: int)
    requires
        0 <= at <= to,
    ensures
        string_ahead(bytes, at) <= longest_to(bytes, to),
    decreases to,
{
    lemma_strings_are_within(bytes, to);
    if at < to {
        lemma_longest_only_grows(bytes, at, to - 1);
    }
}

/// The longest string of a text is at least as long as any that is written in it between quotes, as
/// long as the only one where there is only one, and none in a text with no quote in it. A quote
/// behind a backslash ends no string. A text is too long exactly where that is past 2147483647 bytes.
pub proof fn law_a_string_counts_for_what_is_written_in_it(
    front: Seq<u8>,
    pieces: Seq<Seq<u8>>,
    rest: Seq<u8>,
    text: Seq<char>,
)
    requires
        forall|i: int| 0 <= i < front.len() ==> #[trigger] front[i] != 34,
        forall|i: int| 0 <= i < pieces.len() ==> is_written_in_a_string(#[trigger] pieces[i]),
    ensures
        longest_to(
            front + seq![34u8] + pieces.flatten() + rest,
            (front + seq![34u8] + pieces.flatten() + rest).len() as int,
        ) >= pieces.flatten().len(),
        longest_to(front, front.len() as int) == 0,
        longest_to(
            front + seq![34u8] + pieces.flatten() + seq![34u8],
            (front + seq![34u8] + pieces.flatten() + seq![34u8]).len() as int,
        ) == pieces.flatten().len(),
        is_too_long(text) <==> longest_to(encode_utf8(text), encode_utf8(text).len() as int)
            > 2147483647,
{
    let content = pieces.flatten();
    let bytes = front + seq![34u8] + content + rest;
    lemma_inside_a_string(front, pieces, rest, content.len() as int);
    lemma_longest_only_grows(
        bytes,
        front.len() as int + 1 + content.len(),
        bytes.len() as int,
    );
    let none = Seq::<u8>::empty();
    assert(front + none =~= front);
    lemma_no_string(front, none, front.len() as int);
    let closed = front + seq![34u8] + content + seq![34u8];
    lemma_longest_up_to(front, pieces, content.len() as int);
    lemma_inside_a_string(front, pieces, seq![34u8], content.len() as int);
    assert(closed[closed.len() - 1] == 34);
}

proof fn lemma_longest_up_to(front: Seq<u8>, pieces: Seq<Seq<u8>>, at: int)
    requires
        0 <= at <= pieces.flatten().len(),
        forall|i: int| 0 <= i < front.len() ==> #[trigger] front[i] != 34,
        forall|i: int| 0 <= i < pieces.len() ==> is_written_in_a_string(#[trigger] pieces[i]),
    ensures
        longest_to(front + seq![34u8] + pieces.flatten() + seq![34u8], front.len() + 1 + at) == at,
    decreases at,
{
    let bytes = front + seq![34u8] + pieces.flatten() + seq![34u8];
    lemma_inside_a_string(front, pieces, seq![34u8], at);
    if at > 0 {
        lemma_longest_up_to(front, pieces, at - 1);
    } else {
        lemma_no_string(front, seq![34u8] + pieces.flatten() + seq![34u8], front.len() as int);
        assert(front + (seq![34u8] + pieces.flatten() + seq![34u8]) =~= bytes);
    }
}

} // verus!
