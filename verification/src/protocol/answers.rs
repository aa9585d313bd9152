//! What is made of a server's answers about one document or one place.
//!
//! Each answer is read off the wire - see [`crate::protocol::wire`] - and then turned into what a
//! caller asks for, by a function that takes what was read.

use vstd::prelude::*;
use vstd::string::*;
use vstd::utf8::*;

use crate::edits;
use crate::error::{Answer, Fault, LspError};
use crate::json::Json;
use crate::order;
use crate::order::Ranked;
use crate::payload::{
    ComplaintModel, CompletionModel, LspCompletion, LspCompletionKind, LspDiagnostic, LspSeverity,
    LspPosition, LspSignature, LspTextEdit, ShownModel, TextEditModel,
};
use crate::process::PositionEncoding;
use crate::protocol::params;
use crate::protocol::positions;
use crate::protocol::uris;
use crate::protocol::wire;
use crate::protocol::wire::{
    Diagnostic, DiagnosticModel, Formatting, HoverModel, HoverSaid, InitializeModel,
    InitializeReply, ItemModel, ItemSaid, ItemsModel, ItemsSaid, Marked, MarkedModel,
    ParameterLabel, ParameterModel, Renamable, RenamableModel, Replacement, ReplacementModel,
    SignatureModel, SignatureSaid, Signatures, SignaturesModel, Stretch,
};
use crate::text;

verus! {

broadcast use vstd::string::group_string_axioms;

/// Whether a list, or a refusal, is the one a contract says.
pub open spec fn comes_to<T: View>(
    outcome: Result<Vec<T>, LspError>,
    model: Result<Seq<T::V>, Fault>,
) -> bool {
    match outcome {
        Ok(items) => model == Ok::<Seq<T::V>, Fault>(wire::views(items@)),
        Err(error) => model == Err::<Seq<T::V>, Fault>(error@),
    }
}

/// Whether something that may not be there, or a refusal, is the one a contract says.
pub open spec fn comes_to_maybe<T: View>(
    outcome: Result<Option<T>, LspError>,
    model: Result<Option<T::V>, Fault>,
) -> bool {
    match outcome {
        Ok(item) => model == Ok::<Option<T::V>, Fault>(wire::view_of(item)),
        Err(error) => model == Err::<Option<T::V>, Fault>(error@),
    }
}

/// What an answer that cannot be read is refused with.
pub open spec fn unreadable(answer: Answer) -> Fault {
    Fault::Unreadable { answer }
}

// ---------------------------------------------------------------------------------------------
// What a server says of itself
// ---------------------------------------------------------------------------------------------

/// What a server counts columns in: bytes where it says so, and UTF-16 units where it says
/// anything else or nothing.
pub open spec fn encoding_in(reply: InitializeModel) -> PositionEncoding {
    if reply.position_encoding == Some("utf-8"@) {
        PositionEncoding::Utf8
    } else {
        PositionEncoding::Utf16
    }
}

/// The texts that are one character, as that character.
pub open spec fn single_characters(texts: Seq<Seq<char>>) -> Seq<char>
    decreases texts.len(),
{
    if texts.len() == 0 {
        Seq::empty()
    } else if texts.last().len() == 1 {
        single_characters(texts.drop_last()).push(texts.last()[0])
    } else {
        single_characters(texts.drop_last())
    }
}

/// The characters a server completes after.
pub open spec fn triggers_in(reply: InitializeModel) -> Seq<char> {
    match reply.trigger_characters {
        Some(Some(texts)) => single_characters(texts),
        _ => Seq::empty(),
    }
}

/// Whether a server formats.
pub open spec fn formats_in(reply: InitializeModel) -> bool {
    match reply.formatting {
        Some(Formatting::Said(formats)) => formats,
        Some(Formatting::Described) => true,
        None => false,
    }
}

/// What a server that replied so counts columns in - see [`encoding_in`].
pub fn encoding_of(reply: &InitializeReply) -> (encoding: PositionEncoding)
    ensures
        encoding == encoding_in(reply@),
{
    match &reply.position_encoding {
        Some(named) => if text::same(named.as_str(), "utf-8") {
            PositionEncoding::Utf8
        } else {
            PositionEncoding::Utf16
        },
        None => PositionEncoding::Utf16,
    }
}

/// The characters a server that replied so completes after - see [`triggers_in`].
pub fn triggers_of(reply: &InitializeReply) -> (triggers: Vec<char>)
    ensures
        triggers@ == triggers_in(reply@),
{
    let mut triggers: Vec<char> = Vec::new();
    if let Some(Some(named)) = &reply.trigger_characters {
        let ghost all = wire::views(named@);
        let mut at: usize = 0;
        assert(all.take(0).len() == 0);
        while at < named.len()
            invariant
                all == wire::views(named@),
                at <= named@.len(),
                triggers@ == single_characters(all.take(at as int)),
            decreases named@.len() - at,
        {
            let characters = text::chars_of(named[at].as_str());
            assert(all.take(at + 1).drop_last() =~= all.take(at as int));
            if characters.len() == 1 {
                triggers.push(characters[0]);
            }
            at += 1;
        }
        assert(all.take(at as int) =~= all);
    }
    triggers
}

/// What the server actually agreed to count columns in. A server that says nothing has
/// agreed to nothing, which the protocol says means UTF-16 - and then every position is
/// converted rather than passed through.
pub fn agreed_encoding(initialize_reply: &str) -> (encoding: Result<PositionEncoding, LspError>)
    ensures
        match wire::initialize_in(initialize_reply@) {
            Some(reply) => encoding == Ok::<PositionEncoding, LspError>(encoding_in(reply)),
            None => encoding matches Err(error) && error@ == unreadable(Answer::Initialize),
        },
{
    match wire::read_initialize(initialize_reply) {
        Ok(reply) => Ok(encoding_of(&reply)),
        Err(_) => Err(LspError::Unreadable { answer: Answer::Initialize }),
    }
}

/// The characters the server itself said should open a completion list, out of the
/// `completionProvider` of its `initialize` reply.
///
/// This is the answer to "when should a list pop up without a word being typed", and it is
/// the server's rather than anybody's guess: rust-analyzer names `.`, `:`, `'` and `(`,
/// typescript-language-server names `.`, `"`, `'`, `/`, `@` and `<`, and the two lists have
/// only one character in common. A table written here would be a table of one language's
/// punctuation applied to every language, which is exactly what the reply exists to save
/// anybody from.
///
/// Empty for a server that declared none, and empty for one that offers no completions at
/// all. Both mean the same thing to whoever is deciding whether to ask: nothing here opens a
/// list on its own, so only a word being typed does.
///
/// The protocol calls each of these a character and sends it as a string. A server that
/// declares a string of several is declaring something no keystroke can ever be, so it is
/// dropped rather than half-matched: a trigger is compared against the one character just
/// typed, and there is nothing here that could compare it against two.
pub fn trigger_characters(initialize_reply: &str) -> (triggers: Result<Vec<char>, LspError>)
    ensures
        match wire::initialize_in(initialize_reply@) {
            Some(reply) => triggers matches Ok(triggers) && triggers@ == triggers_in(reply),
            None => triggers matches Err(error) && error@ == unreadable(Answer::Initialize),
        },
{
    match wire::read_initialize(initialize_reply) {
        Ok(reply) => Ok(triggers_of(&reply)),
        Err(_) => Err(LspError::Unreadable { answer: Answer::Initialize }),
    }
}

/// Whether a server that replied so formats whole files - see [`formats_in`].
pub fn formats_with(reply: &InitializeReply) -> (formats: bool)
    ensures
        formats == formats_in(reply@),
{
    match reply.formatting {
        Some(Formatting::Said(formats)) => formats,
        Some(Formatting::Described) => true,
        None => false,
    }
}

/// Whether the server said, in its `initialize` reply, that it formats whole files.
///
/// Worth keeping rather than finding out by asking: pyright formats nothing, and a server
/// asked for something it never offered answers with a protocol error that reads as a fault
/// rather than as "this server does not do that".
pub fn formats(initialize_reply: &str) -> (formats: Result<bool, LspError>)
    ensures
        match wire::initialize_in(initialize_reply@) {
            Some(reply) => formats == Ok::<bool, LspError>(formats_in(reply)),
            None => formats matches Err(error) && error@ == unreadable(Answer::Initialize),
        },
{
    match wire::read_initialize(initialize_reply) {
        Ok(reply) => Ok(formats_with(&reply)),
        Err(_) => Err(LspError::Unreadable { answer: Answer::Initialize }),
    }
}

// ---------------------------------------------------------------------------------------------
// Edits to one document
// ---------------------------------------------------------------------------------------------

impl Ranked for LspTextEdit {
    type Model = TextEditModel;

    open spec fn model(&self) -> TextEditModel {
        self@
    }

    /// Edits belong in the order they start in.
    open spec fn behind(left: TextEditModel, right: TextEditModel) -> bool {
        left.start.line > right.start.line || (left.start.line == right.start.line
            && left.start.column > right.start.column)
    }

    proof fn lemma_ranks(first: TextEditModel, second: TextEditModel, third: TextEditModel) {
    }

    fn is_behind(&self, other: &Self) -> (behind: bool) {
        self.start.line > other.start.line || (self.start.line == other.start.line
            && self.start.column > other.start.column)
    }
}

/// One edit with its places in the editor's units, or why it has none.
pub open spec fn edit_named(
    bytes: Seq<u8>,
    edit: ReplacementModel,
    encoding: PositionEncoding,
) -> Result<TextEditModel, Fault> {
    let start = positions::named_at(
        bytes,
        edit.range.start.line,
        edit.range.start.character,
        encoding,
    );
    let end = positions::named_at(bytes, edit.range.end.line, edit.range.end.character, encoding);
    match (start, end) {
        (Err(fault), _) => Err(fault),
        (Ok(_), Err(fault)) => Err(fault),
        (Ok(start), Ok(end)) => Ok(TextEditModel { start, end, new_text: edit.new_text }),
    }
}

/// Several edits with their places in the editor's units, in the order of the answer, or what is
/// wrong with the first there is something wrong with.
pub open spec fn edits_named(
    bytes: Seq<u8>,
    edits: Seq<ReplacementModel>,
    encoding: PositionEncoding,
) -> Result<Seq<TextEditModel>, Fault>
    decreases edits.len(),
{
    if edits.len() == 0 {
        Ok(Seq::empty())
    } else {
        match (edits_named(bytes, edits.drop_last(), encoding), edit_named(
            bytes,
            edits.last(),
            encoding,
        )) {
            (Err(fault), _) => Err(fault),
            (Ok(_), Err(fault)) => Err(fault),
            (Ok(before), Ok(edit)) => Ok(before.push(edit)),
        }
    }
}

/// Several edits with their places in the editor's units, in the order they start in.
pub open spec fn edits_converted(
    bytes: Seq<u8>,
    edits: Seq<ReplacementModel>,
    encoding: PositionEncoding,
) -> Result<Seq<TextEditModel>, Fault> {
    match edits_named(bytes, edits, encoding) {
        Err(fault) => Err(fault),
        Ok(edits) => Ok(order::ranked::<LspTextEdit>(edits)),
    }
}

proof fn lemma_first_unnamed(
    bytes: Seq<u8>,
    edits: Seq<ReplacementModel>,
    encoding: PositionEncoding,
    shown: int,
    fault: Fault,
)
    requires
        0 <= shown < edits.len(),
        edits_named(bytes, edits.take(shown), encoding) is Ok,
        edit_named(bytes, edits[shown], encoding) == Err::<TextEditModel, Fault>(fault),
    ensures
        edits_named(bytes, edits, encoding) == Err::<Seq<TextEditModel>, Fault>(fault),
    decreases edits.len(),
{
    if shown + 1 == edits.len() {
        assert(edits.drop_last() =~= edits.take(shown));
    } else {
        assert(edits.drop_last().take(shown) =~= edits.take(shown));
        lemma_first_unnamed(bytes, edits.drop_last(), encoding, shown, fault);
    }
}

/// One edit with its places in the editor's units - see [`edit_named`].
fn edit_from(edit: &Replacement, text: &str, encoding: PositionEncoding) -> (converted: Result<
    LspTextEdit,
    LspError,
>)
    ensures
        match converted {
            Ok(converted) => edit_named(text.spec_bytes(), edit@, encoding) == Ok::<
                TextEditModel,
                Fault,
            >(converted@),
            Err(error) => edit_named(text.spec_bytes(), edit@, encoding) == Err::<
                TextEditModel,
                Fault,
            >(error@),
        },
{
    let start = match positions::position_from(
        text,
        edit.range.start.line,
        edit.range.start.character,
        encoding,
    ) {
        Ok(start) => start,
        Err(error) => {
            return Err(error);
        },
    };
    let end = match positions::position_from(
        text,
        edit.range.end.line,
        edit.range.end.character,
        encoding,
    ) {
        Ok(end) => end,
        Err(error) => {
            return Err(error);
        },
    };
    Ok(LspTextEdit { start, end, new_text: edit.new_text.clone() })
}

/// Edits with their places in the editor's units, counted against `text`, in the order of the
/// answer - see [`edits_named`].
pub fn edits_in_turn(edits: &[Replacement], text: &str, encoding: PositionEncoding) -> (converted:
    Result<Vec<LspTextEdit>, LspError>)
    ensures
        comes_to(converted, edits_named(text.spec_bytes(), wire::views(edits@), encoding)),
{
    let ghost bytes = text.spec_bytes();
    let ghost all = wire::views(edits@);
    let mut converted: Vec<LspTextEdit> = Vec::new();
    let mut at: usize = 0;
    assert(all.take(0).len() == 0);
    assert(order::models(converted@) =~= Seq::<TextEditModel>::empty());
    while at < edits.len()
        invariant
            bytes == text.spec_bytes(),
            all == wire::views(edits@),
            at <= edits@.len(),
            edits_named(bytes, all.take(at as int), encoding) == Ok::<Seq<TextEditModel>, Fault>(
                order::models(converted@),
            ),
        decreases edits@.len() - at,
    {
        let ghost before = order::models(converted@);
        match edit_from(&edits[at], text, encoding) {
            Ok(edit) => {
                converted.push(edit);
                assert(order::models(converted@) =~= before.push(edit@));
            },
            Err(error) => {
                proof {
                    lemma_first_unnamed(bytes, all, encoding, at as int, error@);
                }
                return Err(error);
            },
        }
        assert(all.take(at + 1).drop_last() =~= all.take(at as int));
        at += 1;
    }
    assert(all.take(at as int) =~= all);
    assert(order::models(converted@) =~= wire::views(converted@));
    Ok(converted)
}

/// Edits with their places in the editor's units, counted against `text`, in the order they start
/// in - see [`edits_converted`].
pub fn edits_from(edits: &[Replacement], text: &str, encoding: PositionEncoding) -> (converted:
    Result<Vec<LspTextEdit>, LspError>)
    ensures
        comes_to(converted, edits_converted(text.spec_bytes(), wire::views(edits@), encoding)),
{
    match edits_in_turn(edits, text, encoding) {
        Ok(converted) => {
            assert(order::models(converted@) =~= wire::views(converted@));
            let sorted = order::sort(converted);
            assert(order::models(sorted@) =~= wire::views(sorted@));
            Ok(sorted)
        },
        Err(error) => Err(error),
    }
}

/// The edits an answer about one document makes to it, every place in the editor's units -
/// counted against `text`, the copy of the document the server was sent. Nothing at all is an
/// answer of "already as it should be".
pub fn text_edits_from(answer: &str, text: &str, encoding: PositionEncoding) -> (converted: Result<
    Vec<LspTextEdit>,
    LspError,
>)
    ensures
        answer@ == "null"@ ==> (converted matches Ok(edits) && edits@.len() == 0),
        comes_to(
            converted,
            match wire::edits_in(answer@) {
                None => Err(unreadable(Answer::Formatting)),
                Some(None) => Ok(Seq::empty()),
                Some(Some(edits)) => edits_converted(text.spec_bytes(), edits, encoding),
            },
        ),
{
    match wire::read_edits(answer) {
        Ok(Some(edits)) => edits_from(edits.as_slice(), text, encoding),
        Ok(None) => {
            let none: Vec<LspTextEdit> = Vec::new();
            assert(wire::views(none@) =~= Seq::<TextEditModel>::empty());
            Ok(none)
        },
        Err(_) => Err(LspError::Unreadable { answer: Answer::Formatting }),
    }
}

// ---------------------------------------------------------------------------------------------
// What is said about a name
// ---------------------------------------------------------------------------------------------

/// Code as markdown has it: a fenced block, in a named language or none.
pub open spec fn fenced(language: Seq<char>, code: Seq<char>) -> Seq<char> {
    "```"@ + language + "\n"@ + code + "\n```"@
}

/// One piece of a hover as markdown.
pub open spec fn markdown_in(marked: MarkedModel) -> Seq<char> {
    match marked {
        MarkedModel::Markdown(markdown) => markdown,
        MarkedModel::Code { language, value } => fenced(language, value),
    }
}

/// Several pieces of a hover as one markdown text, a blank line between them.
pub open spec fn paragraphs(pieces: Seq<MarkedModel>) -> Seq<char>
    decreases pieces.len(),
{
    if pieces.len() == 0 {
        Seq::empty()
    } else if pieces.len() == 1 {
        markdown_in(pieces[0])
    } else {
        paragraphs(pieces.drop_last()) + "\n\n"@ + markdown_in(pieces.last())
    }
}

/// A whole hover as markdown.
pub open spec fn hover_markdown(hover: HoverModel) -> Seq<char> {
    match hover {
        HoverModel::One(marked) => markdown_in(marked),
        HoverModel::Several(pieces) => paragraphs(pieces),
        HoverModel::Markdown(markdown) => markdown,
        HoverModel::Plain(text) => fenced(Seq::empty(), text),
    }
}

/// Whether a text is nothing but white space.
pub open spec fn is_blank(said: Seq<char>) -> bool {
    text::trimmed(said).len() == 0
}

/// What one piece of a hover says, without the fence code is put in.
pub open spec fn content_of(marked: MarkedModel) -> Seq<char> {
    match marked {
        MarkedModel::Markdown(markdown) => markdown,
        MarkedModel::Code { value, .. } => value,
    }
}

/// Whether there is nothing but white space in any of several pieces of a hover.
pub open spec fn are_blank(pieces: Seq<MarkedModel>) -> bool {
    forall|i: int| 0 <= i < pieces.len() ==> is_blank(content_of(#[trigger] pieces[i]))
}

/// Whether a hover says nothing: there is nothing but white space in any piece of it. A fence put
/// round nothing is still nothing said.
pub open spec fn says_nothing(hover: HoverModel) -> bool {
    match hover {
        HoverModel::One(marked) => is_blank(content_of(marked)),
        HoverModel::Several(pieces) => are_blank(pieces),
        HoverModel::Markdown(markdown) => is_blank(markdown),
        HoverModel::Plain(text) => is_blank(text),
    }
}

/// What a hover says, where it says anything.
pub open spec fn hover_said(hover: HoverModel) -> Option<Seq<char>> {
    if says_nothing(hover) {
        None
    } else {
        Some(hover_markdown(hover))
    }
}

/// Code as a fenced block - see [`fenced`].
fn fence(language: &str, code: &str) -> (markdown: String)
    ensures
        markdown@ == fenced(language@, code@),
{
    let mut markdown = text::around("```", language, "\n");
    markdown.append(code);
    markdown.append("\n```");
    markdown
}

/// One piece of a hover as markdown - see [`markdown_in`].
pub fn markdown_of(marked: &Marked) -> (markdown: String)
    ensures
        markdown@ == markdown_in(marked@),
{
    match marked {
        Marked::Markdown(markdown) => markdown.clone(),
        Marked::Code { language, value } => fence(language.as_str(), value.as_str()),
    }
}

/// Whether a text is nothing but white space - see [`is_blank`].
fn nothing_in(said: &str) -> (blank: bool)
    ensures
        blank == is_blank(said@),
{
    text::trim_text(said).as_str().is_empty()
}

/// Whether one piece of a hover says nothing.
fn nothing_marked(marked: &Marked) -> (blank: bool)
    ensures
        blank == is_blank(content_of(marked@)),
{
    match marked {
        Marked::Markdown(markdown) => nothing_in(markdown.as_str()),
        Marked::Code { value, .. } => nothing_in(value.as_str()),
    }
}

/// Whether a hover says nothing - see [`says_nothing`].
fn nothing_said(hover: &HoverSaid) -> (nothing: bool)
    ensures
        nothing == says_nothing(hover@),
{
    match hover {
        HoverSaid::One(marked) => nothing_marked(marked),
        HoverSaid::Several(pieces) => {
            let ghost all = wire::views(pieces@);
            let mut blank = true;
            let mut at: usize = 0;
            while at < pieces.len()
                invariant
                    all == wire::views(pieces@),
                    at <= pieces@.len(),
                    blank == are_blank(all.take(at as int)),
                decreases pieces@.len() - at,
            {
                let ghost shown = all.take(at + 1);
                assert(forall|i: int| 0 <= i < at ==> shown[i] == all.take(at as int)[i]);
                assert(shown[at as int] == pieces@[at as int]@);
                blank = blank && nothing_marked(&pieces[at]);
                at += 1;
            }
            assert(all.take(at as int) =~= all);
            blank
        },
        HoverSaid::Markdown(markdown) => nothing_in(markdown.as_str()),
        HoverSaid::Plain(text) => nothing_in(text.as_str()),
    }
}

/// What a hover says, as one markdown text - see [`hover_said`].
pub fn hover_text(hover: &HoverSaid) -> (said: Option<String>)
    ensures
        wire::view_of(said) == hover_said(hover@),
{
    if nothing_said(hover) {
        return None;
    }
    let markdown = match hover {
        HoverSaid::One(marked) => markdown_of(marked),
        HoverSaid::Several(pieces) => {
            let ghost all = wire::views(pieces@);
            let mut joined = String::new();
            let mut at: usize = 0;
            assert(all.take(0).len() == 0);
            while at < pieces.len()
                invariant
                    all == wire::views(pieces@),
                    at <= pieces@.len(),
                    joined@ == paragraphs(all.take(at as int)),
                decreases pieces@.len() - at,
            {
                let ghost shown = all.take(at + 1);
                assert(shown.drop_last() =~= all.take(at as int));
                let piece = markdown_of(&pieces[at]);
                if at > 0 {
                    joined.append("\n\n");
                }
                joined.append(piece.as_str());
                proof {
                    if at == 0 {
                        assert(joined@ =~= piece@);
                        assert(shown[0] == pieces@[0]@);
                    }
                }
                at += 1;
            }
            assert(all.take(at as int) =~= all);
            joined
        },
        HoverSaid::Markdown(markdown) => markdown.clone(),
        HoverSaid::Plain(text) => {
            let plain = fence("", text.as_str());
            proof {
                reveal_strlit("");
                assert(""@ =~= Seq::<char>::empty());
            }
            plain
        },
    };
    assert(markdown@ == hover_markdown(hover@));
    Some(markdown)
}

/// What a hover answer says about the name, as one markdown text - which is how servers write
/// it. `None` for nothing to say.
///
/// The protocol has three shapes for this, two of them old: markdown in a `MarkupContent`,
/// and one or several "marked strings" - markdown, or code in a named language, which is a
/// fenced block here. Plain text is put in a fenced block of its own, since read as markdown
/// its underscores and asterisks would turn into emphasis. A block with nothing in it is nothing
/// to say.
pub fn hover_markdown_from(answer: &str) -> (said: Result<Option<String>, LspError>)
    ensures
        answer@ == "null"@ ==> said matches Ok(None),
        comes_to_maybe(
            said,
            match wire::hover_in(answer@) {
                None => Err(unreadable(Answer::Hover)),
                Some(None) => Ok(None),
                Some(Some(hover)) => Ok(hover_said(hover)),
            },
        ),
{
    match wire::read_hover(answer) {
        Ok(Some(hover)) => Ok(hover_text(&hover)),
        Ok(None) => Ok(None),
        Err(_) => Err(LspError::Unreadable { answer: Answer::Hover }),
    }
}

// ---------------------------------------------------------------------------------------------
// Diagnostics
// ---------------------------------------------------------------------------------------------

/// The protocol's grades of severity as this crate's own, one for one. One the protocol does not
/// have, and none at all, is the worst there is.
pub open spec fn severity_for(severity: Option<i64>) -> LspSeverity {
    match severity {
        Some(2) => LspSeverity::Warning,
        Some(3) => LspSeverity::Information,
        Some(4) => LspSeverity::Hint,
        _ => LspSeverity::Error,
    }
}

/// One diagnostic in the editor's units, where it still fits the text.
pub open spec fn complaint_in(
    bytes: Seq<u8>,
    diagnostic: DiagnosticModel,
    encoding: PositionEncoding,
) -> Option<ComplaintModel> {
    let range = diagnostic.range;
    match (
        positions::named_at(bytes, range.start.line, range.start.character, encoding),
        positions::named_at(bytes, range.end.line, range.end.character, encoding),
    ) {
        (Ok(start), Ok(end)) => Some(
            ComplaintModel {
                start,
                end,
                severity: severity_for(diagnostic.severity),
                message: diagnostic.message,
                source: diagnostic.source,
            },
        ),
        _ => None,
    }
}

/// Several diagnostics in the editor's units, those left out that no longer fit the text.
pub open spec fn complaints_in(
    bytes: Seq<u8>,
    diagnostics: Seq<DiagnosticModel>,
    encoding: PositionEncoding,
) -> Seq<ComplaintModel>
    decreases diagnostics.len(),
{
    if diagnostics.len() == 0 {
        Seq::empty()
    } else {
        let before = complaints_in(bytes, diagnostics.drop_last(), encoding);
        match complaint_in(bytes, diagnostics.last(), encoding) {
            Some(complaint) => before.push(complaint),
            None => before,
        }
    }
}

/// How bad a diagnostic is - see [`severity_for`].
fn severity_of(severity: Option<i64>) -> (ours: LspSeverity)
    ensures
        ours == severity_for(severity),
{
    match severity {
        Some(2) => LspSeverity::Warning,
        Some(3) => LspSeverity::Information,
        Some(4) => LspSeverity::Hint,
        _ => LspSeverity::Error,
    }
}

/// A text that may be there, again.
fn copy_of(text: &Option<String>) -> (copy: Option<String>)
    ensures
        wire::view_of(copy) == wire::view_of(*text),
        text::maybe(copy) == wire::view_of(*text),
{
    match text {
        Some(text) => Some(text.clone()),
        None => None,
    }
}

/// One diagnostic in the editor's units - see [`complaint_in`].
fn complaint_from(diagnostic: &Diagnostic, text: &str, encoding: PositionEncoding) -> (complaint:
    Option<LspDiagnostic>)
    ensures
        wire::view_of(complaint) == complaint_in(text.spec_bytes(), diagnostic@, encoding),
{
    let range = diagnostic.range;
    let start = match positions::position_from(
        text,
        range.start.line,
        range.start.character,
        encoding,
    ) {
        Ok(start) => start,
        Err(_) => {
            return None;
        },
    };
    let end = match positions::position_from(text, range.end.line, range.end.character, encoding) {
        Ok(end) => end,
        Err(_) => {
            return None;
        },
    };
    Some(
        LspDiagnostic {
            start,
            end,
            severity: severity_of(diagnostic.severity),
            message: diagnostic.message.clone(),
            source: copy_of(&diagnostic.source),
        },
    )
}

/// A server's diagnostics for one document, every place in the editor's units, counted against
/// `text` - the copy of the document the server was last sent.
///
/// A diagnostic with no severity is read as an error: the protocol leaves it to the client,
/// and one that reads a server's complaint as the worst it could be is the one that does not
/// hide it. A diagnostic that no longer fits the text - one about a line the text has since
/// lost, published a moment before the change reached the server - is left out rather than
/// put somewhere it was not about; the server publishes again once it has the change.
pub fn diagnostics_from(diagnostics: &[Diagnostic], text: &str, encoding: PositionEncoding) -> (
    complaints: Vec<LspDiagnostic>)
    ensures
        wire::views(complaints@) == complaints_in(
            text.spec_bytes(),
            wire::views(diagnostics@),
            encoding,
        ),
{
    let ghost bytes = text.spec_bytes();
    let ghost all = wire::views(diagnostics@);
    let mut complaints: Vec<LspDiagnostic> = Vec::new();
    let mut at: usize = 0;
    assert(all.take(0).len() == 0);
    assert(wire::views(complaints@) =~= Seq::<ComplaintModel>::empty());
    while at < diagnostics.len()
        invariant
            bytes == text.spec_bytes(),
            all == wire::views(diagnostics@),
            at <= diagnostics@.len(),
            wire::views(complaints@) == complaints_in(bytes, all.take(at as int), encoding),
        decreases diagnostics@.len() - at,
    {
        let ghost before = wire::views(complaints@);
        assert(all.take(at + 1).drop_last() =~= all.take(at as int));
        if let Some(complaint) = complaint_from(&diagnostics[at], text, encoding) {
            complaints.push(complaint);
            assert(wire::views(complaints@) =~= before.push(complaint@));
        }
        at += 1;
    }
    assert(all.take(at as int) =~= all);
    complaints
}

/// The document a published notification is about, as a path on disk, and the diagnostics it now
/// has. One with a string too long for a URI is one that cannot be read.
pub open spec fn published(message: Seq<char>) -> Option<(Seq<char>, Seq<DiagnosticModel>)> {
    match wire::member_in(message, "params"@) {
        None => None,
        Some(params) => if wire::is_too_long(params) {
            None
        } else {
            match wire::published_in(params) {
                None => None,
                Some(read) => match uris::path_named(encode_utf8(read.uri)) {
                    Some(path) => Some((path, read.diagnostics)),
                    None => None,
                },
            }
        },
    }
}

/// The document a `textDocument/publishDiagnostics` notification is about, as a path on disk,
/// and the diagnostics it now has. `None` for a notification that cannot be read or is about
/// something that is not a file.
pub fn published_diagnostics(message: &str) -> (found: Option<(String, Vec<Diagnostic>)>)
    ensures
        match found {
            Some((path, diagnostics)) => published(message@) == Some(
                (path@, wire::views(diagnostics@)),
            ),
            None => published(message@) is None,
        },
{
    let params = match wire::member_of(message, "params") {
        Some(params) => params,
        None => {
            return None;
        },
    };
    if wire::too_long(params.as_str()) {
        return None;
    }
    match wire::read_published(params.as_str()) {
        Ok(read) => match uris::path_from_file_uri(read.uri.as_str()) {
            Some(path) => Some((path, read.diagnostics)),
            None => None,
        },
        Err(_) => None,
    }
}

/// Whether one place is at or behind another.
pub open spec fn at_or_behind(line: int, character: int, other_line: int, other: int) -> bool {
    line > other_line || (line == other_line && character >= other)
}

/// Whether a stretch holds a place, its ends counting as in it.
pub open spec fn holds(range: Stretch, line: int, character: u32) -> bool {
    at_or_behind(
        line,
        character as int,
        range.start.line as int,
        range.start.character as int,
    ) && at_or_behind(
        range.end.line as int,
        range.end.character as int,
        line,
        character as int,
    )
}

/// The diagnostics about one place.
pub open spec fn about(diagnostics: Seq<DiagnosticModel>, line: int, character: u32) -> Seq<
    DiagnosticModel,
>
    decreases diagnostics.len(),
{
    if diagnostics.len() == 0 {
        Seq::empty()
    } else if holds(diagnostics.last().range, line, character) {
        about(diagnostics.drop_last(), line, character).push(diagnostics.last())
    } else {
        about(diagnostics.drop_last(), line, character)
    }
}

/// The same diagnostic again.
pub fn same_diagnostic(diagnostic: &Diagnostic) -> (copy: Diagnostic)
    ensures
        copy@ == diagnostic@,
{
    Diagnostic {
        range: diagnostic.range,
        severity: diagnostic.severity,
        message: diagnostic.message.clone(),
        source: copy_of(&diagnostic.source),
        written: diagnostic.written.clone(),
    }
}

/// The server's diagnostics about one place, in its own units: the ones whose stretch holds
/// it. What a code action question carries, so the fixes for them come back.
pub fn diagnostics_at(diagnostics: &[Diagnostic], line: usize, character: u32) -> (found: Vec<
    Diagnostic,
>)
    ensures
        wire::views(found@) == about(wire::views(diagnostics@), line as int, character),
{
    let ghost all = wire::views(diagnostics@);
    let mut found: Vec<Diagnostic> = Vec::new();
    let mut at: usize = 0;
    assert(all.take(0).len() == 0);
    assert(wire::views(found@) =~= Seq::<DiagnosticModel>::empty());
    while at < diagnostics.len()
        invariant
            all == wire::views(diagnostics@),
            at <= diagnostics@.len(),
            wire::views(found@) == about(all.take(at as int), line as int, character),
        decreases diagnostics@.len() - at,
    {
        let range = diagnostics[at].range;
        let ghost before = wire::views(found@);
        assert(all.take(at + 1).drop_last() =~= all.take(at as int));
        let start_line: usize = range.start.line as usize;
        let end_line: usize = range.end.line as usize;
        let behind_start: bool = line > start_line || (line == start_line && character
            >= range.start.character);
        let ahead_of_end: bool = end_line > line || (end_line == line && range.end.character
            >= character);
        if behind_start && ahead_of_end {
            found.push(same_diagnostic(&diagnostics[at]));
            assert(wire::views(found@) =~= before.push(diagnostics@[at as int]@));
        }
        at += 1;
    }
    assert(all.take(at as int) =~= all);
    found
}

/// Diagnostics as they are written.
pub open spec fn as_written(diagnostics: Seq<DiagnosticModel>) -> Seq<Seq<char>> {
    diagnostics.map_values(|diagnostic: DiagnosticModel| diagnostic.written)
}

/// A question about what could be done to the code at one place, with what the server found
/// wrong there - which is what a server's fixes are offered for.
pub fn code_action_params(uri: &str, line: usize, character: u32, diagnostics: &[Diagnostic]) -> (
    params: Json)
    ensures
        params@ == params::about_actions(
            uri@,
            line,
            character,
            as_written(wire::views(diagnostics@)),
        ),
{
    let ghost all = as_written(wire::views(diagnostics@));
    let mut list = Json::list();
    let mut at: usize = 0;
    assert(all.take(0).len() == 0);
    while at < diagnostics.len()
        invariant
            all == as_written(wire::views(diagnostics@)),
            at <= diagnostics@.len(),
            list is List,
            list@ == params::carried(all.take(at as int)),
        decreases diagnostics@.len() - at,
    {
        assert(all.take(at + 1).drop_last() =~= all.take(at as int));
        assert(all[at as int] == diagnostics@[at as int].written@);
        list = list.and(Json::Verbatim(diagnostics[at].written.clone()));
        at += 1;
    }
    assert(all.take(at as int) =~= all);
    params::action_params(uri, line, character, list)
}

// ---------------------------------------------------------------------------------------------
// Signatures
// ---------------------------------------------------------------------------------------------

/// The signature being called: the one the server says, or the first where it says none or one
/// that is not there.
pub open spec fn chosen_signature(help: SignaturesModel) -> Option<SignatureModel> {
    let chosen = match help.active_signature {
        Some(chosen) => chosen as int,
        None => 0,
    };
    if chosen < help.signatures.len() {
        Some(help.signatures[chosen])
    } else if help.signatures.len() > 0 {
        Some(help.signatures[0])
    } else {
        None
    }
}

/// Which parameter the caret is at: what is said of the signature, or else of them all, or else
/// the first.
pub open spec fn chosen_parameter(help: SignaturesModel, signature: SignatureModel) -> int {
    match (signature.active_parameter, help.active_parameter) {
        (Some(active), _) => active as int,
        (None, Some(active)) => active as int,
        (None, None) => 0,
    }
}

/// Where in a label one of its parameters is, in bytes.
pub open spec fn parameter_in(label: Seq<u8>, parameter: ParameterModel) -> Option<(int, int)> {
    match parameter {
        ParameterModel::Written(text) => match text::first_in(label, encode_utf8(text)) {
            Some(start) => Some((start, start + encode_utf8(text).len())),
            None => None,
        },
        ParameterModel::Between(start, end) => {
            let start = positions::counted_back(label, start, PositionEncoding::Utf16);
            let end = positions::counted_back(label, end, PositionEncoding::Utf16);
            if start <= end {
                Some((start, end))
            } else {
                None
            }
        },
    }
}

/// Where in the label of a signature the parameter being typed is: the first of them where there is
/// none of that number.
pub open spec fn parameter_shown(signature: SignatureModel, active: int) -> Option<(int, int)> {
    match signature.parameters {
        None => None,
        Some(parameters) => if active < parameters.len() {
            parameter_in(encode_utf8(signature.label), parameters[active])
        } else if parameters.len() > 0 {
            parameter_in(encode_utf8(signature.label), parameters[0])
        } else {
            None
        },
    }
}

/// What is said, where that is anything but white space.
pub open spec fn unless_blank(text: Option<Seq<char>>) -> Option<Seq<char>> {
    match text {
        Some(text) => if is_blank(text) {
            None
        } else {
            Some(text)
        },
        None => None,
    }
}

/// The signature a signature help answer shows.
pub open spec fn signature_shown(help: SignaturesModel) -> Option<ShownModel> {
    match chosen_signature(help) {
        None => None,
        Some(signature) => {
            let active = chosen_parameter(help, signature);
            Some(
                ShownModel {
                    label: signature.label,
                    active_parameter: parameter_shown(signature, active),
                    documentation: unless_blank(signature.documentation),
                },
            )
        },
    }
}

/// Where in a label one of its parameters is - see [`parameter_in`].
fn parameter_range(label: &str, parameter: &ParameterLabel) -> (range: Option<
    std::ops::Range<usize>,
>)
    ensures
        match range {
            Some(range) => parameter_in(label.spec_bytes(), parameter@) == Some(
                (range.start as int, range.end as int),
            ),
            None => parameter_in(label.spec_bytes(), parameter@) is None,
        },
{
    match parameter {
        ParameterLabel::Written(written) => {
            let sought = written.as_str().as_bytes();
            let haystack = label.as_bytes();
            let length: usize = haystack.len();
            match text::find(haystack, sought) {
                Some(start) => {
                    proof {
                        text::lemma_first_in(haystack@, sought@, start as int);
                    }
                    assert(start + sought@.len() <= length);
                    Some(start..start + sought.len())
                },
                None => None,
            }
        },
        ParameterLabel::Between(start, end) => {
            let start: usize = positions::byte_column(label, *start, PositionEncoding::Utf16);
            let end: usize = positions::byte_column(label, *end, PositionEncoding::Utf16);
            if start <= end {
                Some(start..end)
            } else {
                None
            }
        },
    }
}

/// What one signature of several shows - see [`signature_shown`].
fn show(signature: &SignatureSaid, active: usize) -> (shown: LspSignature)
    ensures
        shown@ == (ShownModel {
            label: signature@.label,
            active_parameter: parameter_shown(signature@, active as int),
            documentation: unless_blank(signature@.documentation),
        }),
{
    let active_parameter = match &signature.parameters {
        Some(parameters) => if active < parameters.len() {
            parameter_range(signature.label.as_str(), &parameters[active])
        } else if parameters.len() > 0 {
            parameter_range(signature.label.as_str(), &parameters[0])
        } else {
            None
        },
        None => None,
    };
    let documentation = match &signature.documentation {
        Some(said) => if nothing_in(said.as_str()) {
            None
        } else {
            Some(said.clone())
        },
        None => None,
    };
    LspSignature { label: signature.label.clone(), active_parameter, documentation }
}

/// The signature a signature help answer shows, and which parameter the caret is at - see
/// [`signature_shown`].
pub fn signature_of(help: &Signatures) -> (shown: Option<LspSignature>)
    ensures
        wire::view_of(shown) == signature_shown(help@),
{
    let chosen: usize = match help.active_signature {
        Some(chosen) => chosen as usize,
        None => 0,
    };
    let signature = if chosen < help.signatures.len() {
        &help.signatures[chosen]
    } else if help.signatures.len() > 0 {
        &help.signatures[0]
    } else {
        return None;
    };
    let active: usize = match signature.active_parameter {
        Some(active) => active as usize,
        None => match help.active_parameter {
            Some(active) => active as usize,
            None => 0,
        },
    };
    Some(show(signature, active))
}

/// The signature a signature help answer shows, and which parameter the caret is at. `None`
/// for no signature at all, which is a caret no call is around.
///
/// The active signature and parameter default the way the protocol says: the first signature,
/// and the first parameter of one that has any, where the server names none or one there is not.
/// A parameter is named in the label either by
/// its text or by where it is, in UTF-16 units of the label - both come out as bytes here.
pub fn signature_from(answer: &str) -> (shown: Result<Option<LspSignature>, LspError>)
    ensures
        answer@ == "null"@ ==> shown matches Ok(None),
        comes_to_maybe(
            shown,
            match wire::signatures_in(answer@) {
                None => Err(unreadable(Answer::SignatureHelp)),
                Some(None) => Ok(None),
                Some(Some(help)) => Ok(signature_shown(help)),
            },
        ),
{
    match wire::read_signatures(answer) {
        Ok(Some(help)) => Ok(signature_of(&help)),
        Ok(None) => Ok(None),
        Err(_) => Err(LspError::Unreadable { answer: Answer::SignatureHelp }),
    }
}

// ---------------------------------------------------------------------------------------------
// Names to rename
// ---------------------------------------------------------------------------------------------

/// How far into a text a place a server names is, or why it is no place in it.
pub open spec fn place_named(
    bytes: Seq<u8>,
    line: u32,
    character: u32,
    encoding: PositionEncoding,
) -> Result<int, Fault> {
    match positions::named_at(bytes, line, character, encoding) {
        Err(fault) => Err(fault),
        Ok(at) => edits::place_in(bytes, at),
    }
}

/// The name at a stretch, in bytes, or why there is none.
pub open spec fn name_in(bytes: Seq<u8>, range: Stretch, encoding: PositionEncoding) -> Result<
    Seq<u8>,
    Fault,
> {
    match (
        place_named(bytes, range.start.line, range.start.character, encoding),
        place_named(bytes, range.end.line, range.end.character, encoding),
    ) {
        (Err(fault), _) => Err(fault),
        (Ok(_), Err(fault)) => Err(fault),
        (Ok(start), Ok(end)) => if end < start {
            Err(Fault::NameEndsBeforeItStarts)
        } else {
            Ok(bytes.subrange(start, end))
        },
    }
}

/// What the name at a place is called, in bytes, or why it cannot be said.
pub open spec fn name_offered(
    renamable: RenamableModel,
    bytes: Seq<u8>,
    encoding: PositionEncoding,
) -> Result<Seq<u8>, Fault> {
    match renamable {
        RenamableModel::Placeholder(placeholder) => Ok(encode_utf8(placeholder)),
        RenamableModel::Range(range) => name_in(bytes, range, encoding),
        RenamableModel::DefaultBehaviour => Err(Fault::DefaultBehaviour),
    }
}

/// How far into `text` a place a server names is - see [`place_named`].
fn offset_named(text: &str, line: u32, character: u32, encoding: PositionEncoding) -> (offset:
    Result<usize, LspError>)
    ensures
        match offset {
            Ok(offset) => place_named(text.spec_bytes(), line, character, encoding) == Ok::<
                int,
                Fault,
            >(offset as int) && offset <= text.spec_bytes().len() && is_char_boundary(
                text.spec_bytes(),
                offset as int,
            ),
            Err(error) => place_named(text.spec_bytes(), line, character, encoding) == Err::<
                int,
                Fault,
            >(error@),
        },
{
    match positions::position_from(text, line, character, encoding) {
        Ok(at) => edits::offset_of(text, &at),
        Err(error) => Err(error),
    }
}

/// What the name at a place is called - see [`name_offered`].
pub fn name_from(renamable: &Renamable, text: &str, encoding: PositionEncoding) -> (name: Result<
    String,
    LspError,
>)
    ensures
        match name {
            Ok(name) => name_offered(renamable@, text.spec_bytes(), encoding) == Ok::<
                Seq<u8>,
                Fault,
            >(encode_utf8(name@)),
            Err(error) => name_offered(renamable@, text.spec_bytes(), encoding) == Err::<
                Seq<u8>,
                Fault,
            >(error@),
        },
{
    match renamable {
        Renamable::Placeholder(placeholder) => Ok(placeholder.clone()),
        Renamable::Range(range) => {
            let start: usize = match offset_named(
                text,
                range.start.line,
                range.start.character,
                encoding,
            ) {
                Ok(start) => start,
                Err(error) => {
                    return Err(error);
                },
            };
            let end: usize = match offset_named(
                text,
                range.end.line,
                range.end.character,
                encoding,
            ) {
                Ok(end) => end,
                Err(error) => {
                    return Err(error);
                },
            };
            if end < start {
                return Err(LspError::NameEndsBeforeItStarts);
            }
            Ok(text::slice(text, start, end).to_owned())
        },
        Renamable::DefaultBehaviour => Err(LspError::DefaultBehaviour),
    }
}

/// What the name at a place is called, out of a `textDocument/prepareRename` answer - the
/// text a caller offers to be typed over. `None` is the server saying there is nothing at
/// that place it can rename.
///
/// A server answers with the range of the name, or with that range and the text to offer,
/// which is not always the text in it: TypeScript offers `greet` for a caret on
/// `this.greet`. The third shape - "do what you would have done without asking" - is refused,
/// because this client never said it understood it and so a server that sends it is a server
/// not reading what it was told.
pub fn renamable_name(answer: &str, text: &str, encoding: PositionEncoding) -> (name: Result<
    Option<String>,
    LspError,
>)
    ensures
        answer@ == "null"@ ==> name matches Ok(None),
        match wire::renamable_in(answer@) {
            None => name matches Err(error) && error@ == unreadable(Answer::PrepareRename),
            Some(None) => name matches Ok(None),
            Some(Some(renamable)) => match name_offered(
                renamable,
                text.spec_bytes(),
                encoding,
            ) {
                Ok(bytes) => name matches Ok(Some(name)) && encode_utf8(name@) == bytes,
                Err(fault) => name matches Err(error) && error@ == fault,
            },
        },
{
    match wire::read_renamable(answer) {
        Ok(Some(renamable)) => match name_from(&renamable, text, encoding) {
            Ok(name) => Ok(Some(name)),
            Err(error) => Err(error),
        },
        Ok(None) => Ok(None),
        Err(_) => Err(LspError::Unreadable { answer: Answer::PrepareRename }),
    }
}

// ---------------------------------------------------------------------------------------------
// Completions
// ---------------------------------------------------------------------------------------------

/// What sort of thing the protocol's number stands for, one for one. A number the protocol has
/// none for, and no number at all, is no known sort.
pub open spec fn kind_for(kind: Option<i64>) -> Option<LspCompletionKind> {
    match kind {
        Some(1) => Some(LspCompletionKind::Text),
        Some(2) => Some(LspCompletionKind::Method),
        Some(3) => Some(LspCompletionKind::Function),
        Some(4) => Some(LspCompletionKind::Constructor),
        Some(5) => Some(LspCompletionKind::Field),
        Some(6) => Some(LspCompletionKind::Variable),
        Some(7) => Some(LspCompletionKind::Class),
        Some(8) => Some(LspCompletionKind::Interface),
        Some(9) => Some(LspCompletionKind::Module),
        Some(10) => Some(LspCompletionKind::Property),
        Some(11) => Some(LspCompletionKind::Unit),
        Some(12) => Some(LspCompletionKind::Value),
        Some(13) => Some(LspCompletionKind::Enum),
        Some(14) => Some(LspCompletionKind::Keyword),
        Some(15) => Some(LspCompletionKind::Snippet),
        Some(16) => Some(LspCompletionKind::Color),
        Some(17) => Some(LspCompletionKind::File),
        Some(18) => Some(LspCompletionKind::Reference),
        Some(19) => Some(LspCompletionKind::Folder),
        Some(20) => Some(LspCompletionKind::EnumMember),
        Some(21) => Some(LspCompletionKind::Constant),
        Some(22) => Some(LspCompletionKind::Struct),
        Some(23) => Some(LspCompletionKind::Event),
        Some(24) => Some(LspCompletionKind::Operator),
        Some(25) => Some(LspCompletionKind::TypeParameter),
        _ => None,
    }
}

/// One thing a server offers, as a caller is offered it.
pub open spec fn completion_in(item: ItemModel) -> CompletionModel {
    CompletionModel {
        label: item.label,
        detail: item.detail,
        insert: match item.insert_text {
            Some(text) => text,
            None => item.label,
        },
        kind: kind_for(item.kind),
    }
}

/// Everything a server offers, as a caller is offered it.
pub open spec fn completions_in(items: ItemsModel) -> Seq<CompletionModel> {
    match items {
        ItemsModel::Array(items) => items.map_values(|item: ItemModel| completion_in(item)),
        ItemsModel::List(items) => items.map_values(|item: ItemModel| completion_in(item)),
    }
}

/// What sort of thing the server said an item is, as this crate's own name for it.
///
/// `None` twice over, and both mean the same thing to whoever is asked to act on it: an item
/// the server sent no kind for, and one it sent a number this table has no row for - the
/// protocol's kinds are a bare integer on the wire, so a server is free to send a kind newer
/// than this list. Neither is guessed at.
pub fn kind_of(kind: Option<i64>) -> (ours: Option<LspCompletionKind>)
    ensures
        ours == kind_for(kind),
{
    match kind {
        Some(1) => Some(LspCompletionKind::Text),
        Some(2) => Some(LspCompletionKind::Method),
        Some(3) => Some(LspCompletionKind::Function),
        Some(4) => Some(LspCompletionKind::Constructor),
        Some(5) => Some(LspCompletionKind::Field),
        Some(6) => Some(LspCompletionKind::Variable),
        Some(7) => Some(LspCompletionKind::Class),
        Some(8) => Some(LspCompletionKind::Interface),
        Some(9) => Some(LspCompletionKind::Module),
        Some(10) => Some(LspCompletionKind::Property),
        Some(11) => Some(LspCompletionKind::Unit),
        Some(12) => Some(LspCompletionKind::Value),
        Some(13) => Some(LspCompletionKind::Enum),
        Some(14) => Some(LspCompletionKind::Keyword),
        Some(15) => Some(LspCompletionKind::Snippet),
        Some(16) => Some(LspCompletionKind::Color),
        Some(17) => Some(LspCompletionKind::File),
        Some(18) => Some(LspCompletionKind::Reference),
        Some(19) => Some(LspCompletionKind::Folder),
        Some(20) => Some(LspCompletionKind::EnumMember),
        Some(21) => Some(LspCompletionKind::Constant),
        Some(22) => Some(LspCompletionKind::Struct),
        Some(23) => Some(LspCompletionKind::Event),
        Some(24) => Some(LspCompletionKind::Operator),
        Some(25) => Some(LspCompletionKind::TypeParameter),
        _ => None,
    }
}

/// One thing a server offers, as a caller is offered it - see [`completion_in`].
pub fn completion_of(item: &ItemSaid) -> (completion: LspCompletion)
    ensures
        completion@ == completion_in(item@),
{
    LspCompletion {
        label: item.label.clone(),
        detail: copy_of(&item.detail),
        insert: match &item.insert_text {
            Some(text) => text.clone(),
            None => item.label.clone(),
        },
        kind: kind_of(item.kind),
    }
}

/// Everything a server offers, as a caller is offered it - see [`completions_in`].
pub fn completions_of(said: &ItemsSaid) -> (completions: Vec<LspCompletion>)
    ensures
        wire::views(completions@) == completions_in(said@),
{
    let items = match said {
        ItemsSaid::Array(items) => items,
        ItemsSaid::List(items) => items,
    };
    let mut completions: Vec<LspCompletion> = Vec::new();
    let mut at: usize = 0;
    while at < items.len()
        invariant
            at <= items@.len(),
            completions@.len() == at,
            forall|i: int|
                0 <= i < at ==> (#[trigger] completions@[i])@ == completion_in(items@[i]@),
        decreases items@.len() - at,
    {
        completions.push(completion_of(&items[at]));
        at += 1;
    }
    assert(wire::views(completions@) =~= completions_in(said@));
    completions
}

/// What a completion answer offers. `insertText` is what a server means to be typed and the
/// label is what it means to be read; where there is no insert text the two are the same.
pub fn completions_from(answer: &str) -> (completions: Result<Vec<LspCompletion>, LspError>)
    ensures
        answer@ == "null"@ ==> (completions matches Ok(offered) && offered@.len() == 0),
        comes_to(
            completions,
            match wire::items_in(answer@) {
                None => Err(unreadable(Answer::Completion)),
                Some(None) => Ok(Seq::empty()),
                Some(Some(items)) => Ok(completions_in(items)),
            },
        ),
{
    match wire::read_items(answer) {
        Ok(Some(items)) => Ok(completions_of(&items)),
        Ok(None) => {
            let none: Vec<LspCompletion> = Vec::new();
            assert(wire::views(none@) =~= Seq::<CompletionModel>::empty());
            Ok(none)
        },
        Err(_) => Err(LspError::Unreadable { answer: Answer::Completion }),
    }
}

// ---------------------------------------------------------------------------------------------
// What answers promise
// ---------------------------------------------------------------------------------------------

proof fn lemma_named_edits_fit(
    bytes: Seq<u8>,
    edits: Seq<ReplacementModel>,
    encoding: PositionEncoding,
)
    requires
        valid_utf8(bytes),
        bytes.len() <= usize::MAX,
    ensures
        edits_named(bytes, edits, encoding) matches Ok(named) ==> forall|i: int|
            0 <= i < named.len() ==> edits::place_in(bytes, (#[trigger] named[i]).start) is Ok
                && edits::place_in(bytes, named[i].end) is Ok,
    decreases edits.len(),
{
    if edits.len() > 0 {
        lemma_named_edits_fit(bytes, edits.drop_last(), encoding);
        let range = edits.last().range;
        positions::law_a_named_place_is_in_the_text(
            bytes,
            range.start.line,
            range.start.character,
            encoding,
        );
        positions::law_a_named_place_is_in_the_text(
            bytes,
            range.end.line,
            range.end.character,
            encoding,
        );
    }
}

/// Edits counted against a text are edits of that text: every place they name is a place in it,
/// and they come in the order they start in.
pub proof fn law_converted_edits_are_places_in_the_text(
    bytes: Seq<u8>,
    edits: Seq<ReplacementModel>,
    encoding: PositionEncoding,
)
    requires
        valid_utf8(bytes),
        bytes.len() <= usize::MAX,
    ensures
        edits_converted(bytes, edits, encoding) matches Ok(converted) ==> {
            &&& forall|i: int|
                0 <= i < converted.len() ==> edits::place_in(
                    bytes,
                    (#[trigger] converted[i]).start,
                ) is Ok && edits::place_in(bytes, converted[i].end) is Ok
            &&& order::in_order::<LspTextEdit>(converted)
            &&& converted.len() == edits.len()
        },
{
    lemma_named_edits_fit(bytes, edits, encoding);
    if let Ok(named) = edits_named(bytes, edits, encoding) {
        lemma_as_many_named(bytes, edits, encoding);
        order::law_order_keeps_everything::<LspTextEdit>(named);
        order::law_order_is_kept::<LspTextEdit>(named);
        let converted = order::ranked::<LspTextEdit>(named);
        assert forall|i: int| 0 <= i < converted.len() implies edits::place_in(
            bytes,
            (#[trigger] converted[i]).start,
        ) is Ok && edits::place_in(bytes, converted[i].end) is Ok by {
            assert(named.contains(converted[i]));
            let at = choose|at: int| 0 <= at < named.len() && named[at] == converted[i];
            assert(edits::place_in(bytes, named[at].start) is Ok);
        }
    }
}

/// Edits counted against a text go straight into it: the only things that can still be wrong with
/// them are that one ends before it starts, or that two of them overlap.
pub proof fn law_converted_edits_go_into_the_text(
    bytes: Seq<u8>,
    edits: Seq<ReplacementModel>,
    encoding: PositionEncoding,
)
    requires
        valid_utf8(bytes),
        bytes.len() <= usize::MAX,
    ensures
        edits_converted(bytes, edits, encoding) matches Ok(converted) ==> (edits::ordered_spans(
            bytes,
            converted,
        ) matches Err(fault) ==> fault == Fault::EditEndsBeforeItStarts || fault
            == Fault::EditsOverlap),
{
    law_converted_edits_are_places_in_the_text(bytes, edits, encoding);
    if let Ok(converted) = edits_converted(bytes, edits, encoding) {
        lemma_places_go_in(bytes, converted);
    }
}

proof fn lemma_places_go_in(bytes: Seq<u8>, edits: Seq<TextEditModel>)
    requires
        forall|i: int|
            0 <= i < edits.len() ==> edits::place_in(bytes, (#[trigger] edits[i]).start) is Ok
                && edits::place_in(bytes, edits[i].end) is Ok,
    ensures
        edits::spans_of(bytes, edits) matches Err(fault) ==> fault
            == Fault::EditEndsBeforeItStarts,
    decreases edits.len(),
{
    if edits.len() > 0 {
        let fewer = edits.drop_last();
        assert(forall|i: int| 0 <= i < fewer.len() ==> fewer[i] == edits[i]);
        lemma_places_go_in(bytes, fewer);
        assert(edits::place_in(bytes, edits[edits.len() - 1].start) is Ok);
    }
}

proof fn lemma_as_many_named(
    bytes: Seq<u8>,
    edits: Seq<ReplacementModel>,
    encoding: PositionEncoding,
)
    ensures
        edits_named(bytes, edits, encoding) matches Ok(named) ==> named.len() == edits.len(),
    decreases edits.len(),
{
    if edits.len() > 0 {
        lemma_as_many_named(bytes, edits.drop_last(), encoding);
    }
}

/// A name a server would rename is read off its stretch whatever the units: the only thing that
/// can be wrong with a stretch of lines the text has is that it ends before it starts.
pub proof fn law_a_stretch_of_the_text_has_a_name(
    bytes: Seq<u8>,
    range: Stretch,
    encoding: PositionEncoding,
)
    requires
        valid_utf8(bytes),
        bytes.len() <= usize::MAX,
    ensures
        name_in(bytes, range, encoding) matches Err(fault) ==> fault
            == Fault::NameEndsBeforeItStarts || fault is LinePastFile,
{
    positions::law_a_named_place_is_in_the_text(
        bytes,
        range.start.line,
        range.start.character,
        encoding,
    );
    positions::law_a_named_place_is_in_the_text(
        bytes,
        range.end.line,
        range.end.character,
        encoding,
    );
}

proof fn lemma_parameter_is_a_stretch(label: Seq<u8>, parameter: ParameterModel)
    requires
        valid_utf8(label),
    ensures
        parameter_in(label, parameter) matches Some((start, end)) ==> {
            &&& 0 <= start <= end <= label.len()
            &&& is_char_boundary(label, start)
            &&& is_char_boundary(label, end)
        },
{
    is_char_boundary_start_end_of_seq(label);
    match parameter {
        ParameterModel::Written(text) => {
            if let Some(start) = text::first_in(label, encode_utf8(text)) {
                let somewhere = choose|at: int| #[trigger]
                    text::occurs_at(label, encode_utf8(text), at);
                text::lemma_there_is_a_first(label, encode_utf8(text), somewhere);
                assert(text::first_at(label, encode_utf8(text), start));
                if text.len() > 0 {
                    text::lemma_text_within_is_on_boundaries(label, text, start);
                } else {
                    assert(encode_utf8(text).len() == 0);
                    assert(text::occurs_at(label, encode_utf8(text), 0)) by {
                        assert(label.subrange(0, 0) =~= encode_utf8(text));
                    }
                    assert(start == 0);
                }
            }
        },
        ParameterModel::Between(start, end) => {
            positions::lemma_counted_back_is_a_place(label, start, PositionEncoding::Utf16);
            positions::lemma_counted_back_is_a_place(label, end, PositionEncoding::Utf16);
        },
    }
}

/// The parameter being typed is a stretch of the label it is shown in: it can be cut out of the
/// label, in whichever way the server named it.
pub proof fn law_the_parameter_being_typed_is_a_stretch_of_its_label(help: SignaturesModel)
    ensures
        signature_shown(help) matches Some(shown) ==> (shown.active_parameter matches Some(
            (start, end),
        ) ==> {
            &&& 0 <= start <= end <= encode_utf8(shown.label).len()
            &&& is_char_boundary(encode_utf8(shown.label), start)
            &&& is_char_boundary(encode_utf8(shown.label), end)
        }),
{
    if let Some(signature) = chosen_signature(help) {
        let label = encode_utf8(signature.label);
        encode_utf8_valid_utf8(signature.label);
        if let Some(parameters) = signature.parameters {
            lemma_parameter_is_a_stretch(label, parameters[chosen_parameter(help, signature)]);
            lemma_parameter_is_a_stretch(label, parameters[0]);
        }
    }
}

/// Every trigger is one the server named, and nothing that is more or less than one character is.
pub proof fn law_a_trigger_is_one_character_the_server_named(texts: Seq<Seq<char>>, c: char)
    ensures
        single_characters(texts).contains(c) <==> texts.contains(seq![c]),
    decreases texts.len(),
{
    if texts.len() > 0 {
        let fewer = texts.drop_last();
        law_a_trigger_is_one_character_the_server_named(fewer, c);
        let last = texts.last();
        assert(texts =~= fewer.push(last));
        if texts.contains(seq![c]) {
            let at = choose|at: int| 0 <= at < texts.len() && texts[at] == seq![c];
            if at < fewer.len() {
                assert(fewer[at] == seq![c]);
                assert(fewer.contains(seq![c]));
            } else {
                assert(last[0] == c);
                assert(single_characters(texts).last() == c);
            }
            if fewer.contains(seq![c]) {
                let there = choose|i: int|
                    0 <= i < single_characters(fewer).len() && single_characters(fewer)[i] == c;
                assert(single_characters(texts)[there] == c);
            }
        }
        if single_characters(texts).contains(c) {
            let at = choose|at: int|
                0 <= at < single_characters(texts).len() && single_characters(texts)[at] == c;
            if at < single_characters(fewer).len() {
                assert(single_characters(fewer)[at] == c);
                assert(single_characters(fewer).contains(c));
                let there = choose|i: int| 0 <= i < fewer.len() && fewer[i] == seq![c];
                assert(texts[there] == seq![c]);
            } else {
                assert(last =~= seq![c]);
                assert(texts[texts.len() - 1] == seq![c]);
            }
        }
    }
}

/// Edits counted against a text are the edits of the answer, one for one and in its order: each with
/// the text the answer puts in, from the place its start names to the place its end names. They are
/// refused exactly where one of those places is on no line of the text, for the first that is.
pub proof fn law_edits_are_named_one_for_one(
    bytes: Seq<u8>,
    edits: Seq<ReplacementModel>,
    encoding: PositionEncoding,
)
    ensures
        edits_named(bytes, edits, encoding) is Ok <==> forall|i: int|
            0 <= i < edits.len() ==> positions::named_at(
                bytes,
                (#[trigger] edits[i]).range.start.line,
                edits[i].range.start.character,
                encoding,
            ) is Ok && positions::named_at(
                bytes,
                edits[i].range.end.line,
                edits[i].range.end.character,
                encoding,
            ) is Ok,
        edits_named(bytes, edits, encoding) matches Ok(named) ==> {
            &&& named.len() == edits.len()
            &&& forall|i: int|
                0 <= i < edits.len() ==> {
                    &&& (#[trigger] named[i]).new_text == edits[i].new_text
                    &&& positions::named_at(
                        bytes,
                        edits[i].range.start.line,
                        edits[i].range.start.character,
                        encoding,
                    ) == Ok::<LspPosition, Fault>(named[i].start)
                    &&& positions::named_at(
                        bytes,
                        edits[i].range.end.line,
                        edits[i].range.end.character,
                        encoding,
                    ) == Ok::<LspPosition, Fault>(named[i].end)
                }
        },
    decreases edits.len(),
{
    if edits.len() > 0 {
        let fewer = edits.drop_last();
        law_edits_are_named_one_for_one(bytes, fewer, encoding);
        assert(edits[edits.len() - 1] == edits.last());
        assert(forall|i: int| 0 <= i < fewer.len() ==> fewer[i] == edits[i]);
        if edits_named(bytes, fewer, encoding) is Err {
            let at = choose|i: int|
                0 <= i < fewer.len() && !(positions::named_at(
                    bytes,
                    (#[trigger] fewer[i]).range.start.line,
                    fewer[i].range.start.character,
                    encoding,
                ) is Ok && positions::named_at(
                    bytes,
                    fewer[i].range.end.line,
                    fewer[i].range.end.character,
                    encoding,
                ) is Ok);
            assert(edits[at] == fewer[at]);
        }
    }
}

/// Each of the protocol's grades of severity is one of this crate's, and whatever is none of them -
/// nothing at all among it - is an error.
pub proof fn law_every_grade_is_its_own(severity: Option<i64>)
    ensures
        severity_for(severity) == LspSeverity::Warning <==> severity == Some(2i64),
        severity_for(severity) == LspSeverity::Information <==> severity == Some(3i64),
        severity_for(severity) == LspSeverity::Hint <==> severity == Some(4i64),
        severity is None ==> severity_for(severity) == LspSeverity::Error,
{
}

/// The diagnostics that still fit a text are handed back in the order they were published in, each
/// from the place its start names to the place its end names and with what the server said of it.
/// Nothing else is handed back, and none of these is left out.
pub proof fn law_every_diagnostic_that_fits_is_handed_back(
    bytes: Seq<u8>,
    diagnostics: Seq<DiagnosticModel>,
    encoding: PositionEncoding,
)
    ensures
        complaints_in(bytes, diagnostics, encoding).len() == diagnostics.filter(
            |d: DiagnosticModel|
                positions::named_at(
                    bytes,
                    d.range.start.line,
                    d.range.start.character,
                    encoding,
                ) is Ok && positions::named_at(
                    bytes,
                    d.range.end.line,
                    d.range.end.character,
                    encoding,
                ) is Ok,
        ).len(),
        forall|i: int|
            0 <= i < complaints_in(bytes, diagnostics, encoding).len() ==> {
                let d = diagnostics.filter(
                    |d: DiagnosticModel|
                        positions::named_at(
                            bytes,
                            d.range.start.line,
                            d.range.start.character,
                            encoding,
                        ) is Ok && positions::named_at(
                            bytes,
                            d.range.end.line,
                            d.range.end.character,
                            encoding,
                        ) is Ok,
                )[i];
                let complaint = #[trigger] complaints_in(bytes, diagnostics, encoding)[i];
                &&& positions::named_at(
                    bytes,
                    d.range.start.line,
                    d.range.start.character,
                    encoding,
                ) == Ok::<LspPosition, Fault>(complaint.start)
                &&& positions::named_at(
                    bytes,
                    d.range.end.line,
                    d.range.end.character,
                    encoding,
                ) == Ok::<LspPosition, Fault>(complaint.end)
                &&& complaint.message == d.message
                &&& complaint.source == d.source
                &&& complaint.severity == severity_for(d.severity)
            },
    decreases diagnostics.len(),
{
    reveal(Seq::filter);
    if diagnostics.len() > 0 {
        law_every_diagnostic_that_fits_is_handed_back(bytes, diagnostics.drop_last(), encoding);
    }
}

/// The diagnostics about a place are exactly those that start at or ahead of it and end at or behind
/// it, in the order they were published in.
pub proof fn law_a_diagnostic_is_about_what_it_spans(
    diagnostics: Seq<DiagnosticModel>,
    line: int,
    character: u32,
)
    ensures
        about(diagnostics, line, character) == diagnostics.filter(
            |d: DiagnosticModel|
                (d.range.start.line < line || (d.range.start.line == line
                    && d.range.start.character <= character)) && (line < d.range.end.line || (line
                    == d.range.end.line && character <= d.range.end.character)),
        ),
    decreases diagnostics.len(),
{
    reveal(Seq::filter);
    if diagnostics.len() > 0 {
        law_a_diagnostic_is_about_what_it_spans(diagnostics.drop_last(), line, character);
    }
}

/// A hover in several pieces is the pieces one behind another with a blank line between them: two
/// lists of pieces say together what the first says, a blank line and what the second says. Markdown
/// is said as it is, code in a fence that names its language, and plain text in a fence that names
/// none.
pub proof fn law_a_hover_is_its_pieces(
    front: Seq<MarkedModel>,
    rest: Seq<MarkedModel>,
    piece: MarkedModel,
    language: Seq<char>,
    said: Seq<char>,
)
    ensures
        front.len() > 0 && rest.len() > 0 ==> hover_markdown(HoverModel::Several(front + rest))
            == hover_markdown(HoverModel::Several(front)) + "\n\n"@ + hover_markdown(
            HoverModel::Several(rest),
        ),
        hover_markdown(HoverModel::Several(seq![piece])) == hover_markdown(HoverModel::One(piece)),
        hover_markdown(HoverModel::One(MarkedModel::Markdown(said))) == said,
        hover_markdown(HoverModel::Markdown(said)) == said,
        hover_markdown(HoverModel::One(MarkedModel::Code { language, value: said })) == "```"@
            + language + "\n"@ + said + "\n```"@,
        hover_markdown(HoverModel::Plain(said)) == hover_markdown(
            HoverModel::One(MarkedModel::Code { language: Seq::empty(), value: said }),
        ),
    decreases rest.len(),
{
    if front.len() > 0 && rest.len() > 0 {
        let both = front + rest;
        assert(both.drop_last() =~= front + rest.drop_last());
        assert(both.last() == rest.last());
        if rest.len() == 1 {
            assert(both.drop_last() =~= front);
            assert(rest[0] == rest.last());
        } else {
            law_a_hover_is_its_pieces(front, rest.drop_last(), piece, language, said);
            assert(paragraphs(both) =~= paragraphs(front) + "\n\n"@ + paragraphs(rest));
        }
    }
}

/// A hover is left out exactly where nothing but white space is in any of its pieces, whether or not
/// a fence is put round it.
pub proof fn law_only_white_space_is_nothing_to_say(
    hover: HoverModel,
    piece: MarkedModel,
    pieces: Seq<MarkedModel>,
    said: Seq<char>,
    language: Seq<char>,
)
    ensures
        hover_said(hover) matches Some(shown) ==> shown == hover_markdown(hover),
        hover_said(HoverModel::Markdown(said)) is None <==> forall|i: int|
            0 <= i < said.len() ==> text::is_white_space(#[trigger] said[i]),
        hover_said(HoverModel::Plain(said)) is None <==> hover_said(
            HoverModel::Markdown(said),
        ) is None,
        hover_said(HoverModel::One(MarkedModel::Markdown(said))) is None <==> hover_said(
            HoverModel::Markdown(said),
        ) is None,
        hover_said(
            HoverModel::One(MarkedModel::Code { language, value: said }),
        ) is None <==> hover_said(HoverModel::Markdown(said)) is None,
        hover_said(HoverModel::Several(pieces)) is None <==> forall|i: int|
            0 <= i < pieces.len() ==> hover_said(HoverModel::One(#[trigger] pieces[i])) is None,
{
    text::law_only_white_space_is_trimmed_away(said);
    if hover_said(HoverModel::Several(pieces)) is None {
        assert forall|i: int| 0 <= i < pieces.len() implies hover_said(
            HoverModel::One(#[trigger] pieces[i]),
        ) is None by {
            assert(is_blank(content_of(pieces[i])));
        }
    } else {
        let at = choose|i: int|
            0 <= i < pieces.len() && !is_blank(content_of(#[trigger] pieces[i]));
        assert(!(hover_said(HoverModel::One(pieces[at])) is None));
    }
}

/// The signature shown is the one the server says is active, or the first where it says none or one
/// there is not; there is none to show exactly where the server has none. Its documentation is what
/// was said of it, unless that is nothing but white space.
pub proof fn law_the_active_signature_is_shown(help: SignaturesModel)
    ensures
        signature_shown(help) is None <==> help.signatures.len() == 0,
        signature_shown(help) matches Some(shown) ==> {
            let at = match help.active_signature {
                Some(at) => if at < help.signatures.len() {
                    at as int
                } else {
                    0
                },
                None => 0,
            };
            &&& shown.label == help.signatures[at].label
            &&& shown.documentation matches Some(said) ==> help.signatures[at].documentation
                == Some(said) && exists|i: int|
                0 <= i < said.len() && !text::is_white_space(#[trigger] said[i])
            &&& shown.documentation is None ==> (help.signatures[at].documentation matches Some(
                said,
            ) ==> forall|i: int| 0 <= i < said.len() ==> text::is_white_space(#[trigger] said[i]))
        },
{
    if let Some(signature) = chosen_signature(help) {
        if let Some(said) = signature.documentation {
            text::law_only_white_space_is_trimmed_away(said);
        }
    }
}

/// The parameter shown is the one of the number the signature says, or else the one of the number
/// said for them all, or else the first - and the first where there is none of that number. One named
/// by its text is the first stretch of the label that reads as that text.
pub proof fn law_the_active_parameter_is_shown(help: SignaturesModel, signature: SignatureModel)
    requires
        signature.parameters is Some,
        help.signatures.len() == 1,
        help.signatures[0] == signature,
    ensures
        signature_shown(help) matches Some(shown) && {
            let parameters = signature.parameters->0;
            let said = match signature.active_parameter {
                Some(said) => said as int,
                None => match help.active_parameter {
                    Some(said) => said as int,
                    None => 0,
                },
            };
            let at = if said < parameters.len() {
                said
            } else {
                0
            };
            let label = encode_utf8(signature.label);
            &&& parameters.len() == 0 ==> shown.active_parameter is None
            &&& parameters.len() > 0 ==> match parameters[at] {
                ParameterModel::Between(start, end) => shown.active_parameter == (if
                positions::counted_back(label, start, PositionEncoding::Utf16)
                    <= positions::counted_back(label, end, PositionEncoding::Utf16) {
                    Some(
                        (
                            positions::counted_back(label, start, PositionEncoding::Utf16),
                            positions::counted_back(label, end, PositionEncoding::Utf16),
                        ),
                    )
                } else {
                    None
                }),
                ParameterModel::Written(name) => match shown.active_parameter {
                    Some((start, end)) => {
                        &&& 0 <= start && end == start + encode_utf8(name).len() && end
                            <= label.len()
                        &&& label.subrange(start, end) == encode_utf8(name)
                        &&& forall|i: int|
                            0 <= i < start ==> !encode_utf8(name).is_prefix_of(
                                #[trigger] label.skip(i),
                            )
                    },
                    None => forall|i: int|
                        0 <= i <= label.len() ==> !encode_utf8(name).is_prefix_of(
                            #[trigger] label.skip(i),
                        ),
                },
            }
        },
{
    let label = encode_utf8(signature.label);
    let parameters = signature.parameters->0;
    let said = chosen_parameter(help, signature);
    if parameters.len() > 0 {
        let at = if said < parameters.len() {
            said
        } else {
            0
        };
        if let ParameterModel::Written(name) = parameters[at] {
            let name = encode_utf8(name);
            assert forall|i: int| 0 <= i <= label.len() implies (name.is_prefix_of(
                #[trigger] label.skip(i),
            ) <==> text::occurs_at(label, name, i)) by {
                if i + name.len() <= label.len() {
                    assert(label.skip(i).subrange(0, name.len() as int) =~= label.subrange(
                        i,
                        i + name.len(),
                    ));
                }
            }
            if text::contains(label, name) {
                let somewhere = choose|at: int| #[trigger] text::occurs_at(label, name, at);
                text::lemma_there_is_a_first(label, name, somewhere);
            }
        }
    }
}

/// Everything a server offers is offered on, one for one and in its order, whichever shape it came
/// in: with its label and its detail, and with what it says to insert or else its label.
pub proof fn law_every_item_is_offered(items: Seq<ItemModel>)
    ensures
        completions_in(ItemsModel::Array(items)) == completions_in(ItemsModel::List(items)),
        completions_in(ItemsModel::List(items)).len() == items.len(),
        forall|i: int|
            0 <= i < items.len() ==> {
                let offered = #[trigger] completions_in(ItemsModel::List(items))[i];
                &&& offered.label == items[i].label
                &&& offered.detail == items[i].detail
                &&& items[i].insert_text is None ==> offered.insert == items[i].label
                &&& items[i].insert_text matches Some(text) ==> offered.insert == text
                &&& offered.kind == kind_for(items[i].kind)
            },
{
}

/// The protocol numbers its kinds from one, in this order. There is no other.
pub proof fn law_kinds_are_numbered_from_one(number: i64)
    ensures
        kind_for(None) is None,
        kind_for(Some(number)) is Some <==> 1 <= number <= 25,
        1 <= number <= 25 ==> kind_for(Some(number)) == Some(
            seq![
                LspCompletionKind::Text,
                LspCompletionKind::Method,
                LspCompletionKind::Function,
                LspCompletionKind::Constructor,
                LspCompletionKind::Field,
                LspCompletionKind::Variable,
                LspCompletionKind::Class,
                LspCompletionKind::Interface,
                LspCompletionKind::Module,
                LspCompletionKind::Property,
                LspCompletionKind::Unit,
                LspCompletionKind::Value,
                LspCompletionKind::Enum,
                LspCompletionKind::Keyword,
                LspCompletionKind::Snippet,
                LspCompletionKind::Color,
                LspCompletionKind::File,
                LspCompletionKind::Reference,
                LspCompletionKind::Folder,
                LspCompletionKind::EnumMember,
                LspCompletionKind::Constant,
                LspCompletionKind::Struct,
                LspCompletionKind::Event,
                LspCompletionKind::Operator,
                LspCompletionKind::TypeParameter,
            ][number - 1],
        ),
{
}

/// A server's triggers are the texts it named that are one character, in its order, as often as it
/// named them.
pub proof fn law_triggers_come_in_the_order_they_were_named(texts: Seq<Seq<char>>)
    ensures
        single_characters(texts) == texts.filter(|text: Seq<char>| text.len() == 1).map_values(
            |text: Seq<char>| text[0],
        ),
    decreases texts.len(),
{
    reveal(Seq::filter);
    if texts.len() > 0 {
        law_triggers_come_in_the_order_they_were_named(texts.drop_last());
    }
    assert(single_characters(texts) =~= texts.filter(
        |text: Seq<char>| text.len() == 1,
    ).map_values(|text: Seq<char>| text[0]));
}

/// A server counts in bytes only where it says so in so many words, completes after what it named and
/// formats where it says so or describes how.
pub proof fn law_a_server_is_taken_at_its_word(reply: InitializeModel)
    ensures
        encoding_in(reply) == PositionEncoding::Utf8 <==> reply.position_encoding == Some("utf-8"@),
        formats_in(reply) <==> reply.formatting == Some(Formatting::Said(true))
            || reply.formatting == Some(Formatting::Described),
        reply.trigger_characters matches Some(Some(texts)) ==> triggers_in(reply)
            == single_characters(texts),
        !(reply.trigger_characters matches Some(Some(_))) ==> triggers_in(reply).len() == 0,
{
}

/// The name at a stretch is what the text has between the two places the stretch names. A name the
/// server gives in so many words is that name, whatever the text has.
pub proof fn law_a_name_is_what_the_text_has_there(
    bytes: Seq<u8>,
    range: Stretch,
    encoding: PositionEncoding,
    start: LspPosition,
    end: LspPosition,
    from: int,
    to: int,
    placeholder: Seq<char>,
)
    requires
        positions::named_at(bytes, range.start.line, range.start.character, encoding) == Ok::<
            LspPosition,
            Fault,
        >(start),
        positions::named_at(bytes, range.end.line, range.end.character, encoding) == Ok::<
            LspPosition,
            Fault,
        >(end),
        edits::place_in(bytes, start) == Ok::<int, Fault>(from),
        edits::place_in(bytes, end) == Ok::<int, Fault>(to),
    ensures
        from <= to ==> name_offered(RenamableModel::Range(range), bytes, encoding) == Ok::<
            Seq<u8>,
            Fault,
        >(bytes.subrange(from, to)),
        to < from ==> name_offered(RenamableModel::Range(range), bytes, encoding) == Err::<
            Seq<u8>,
            Fault,
        >(Fault::NameEndsBeforeItStarts),
        name_offered(RenamableModel::Placeholder(placeholder), bytes, encoding) == Ok::<
            Seq<u8>,
            Fault,
        >(encode_utf8(placeholder)),
        name_offered(RenamableModel::DefaultBehaviour, bytes, encoding) == Err::<Seq<u8>, Fault>(
            Fault::DefaultBehaviour,
        ),
{
}

/// Edits put in the order they start in are the edits that were counted, none of them left out and
/// none added, each starting on no earlier line than the one ahead of it, and on the same line at no
/// earlier column.
pub proof fn law_converted_edits_are_all_there(
    bytes: Seq<u8>,
    edits: Seq<ReplacementModel>,
    encoding: PositionEncoding,
)
    ensures
        edits_converted(bytes, edits, encoding) is Ok <==> edits_named(
            bytes,
            edits,
            encoding,
        ) is Ok,
        edits_converted(bytes, edits, encoding) matches Ok(converted) ==> {
            &&& converted.to_multiset() == edits_named(bytes, edits, encoding)->Ok_0.to_multiset()
            &&& forall|i: int, j: int|
                0 <= i < j < converted.len() ==> (#[trigger] converted[i]).start.line < (
                #[trigger] converted[j]).start.line || (converted[i].start.line
                    == converted[j].start.line && converted[i].start.column
                    <= converted[j].start.column)
        },
{
    if let Ok(named) = edits_named(bytes, edits, encoding) {
        order::law_order_keeps_everything::<LspTextEdit>(named);
        order::law_order_is_kept::<LspTextEdit>(named);
        let converted = order::ranked::<LspTextEdit>(named);
        assert forall|i: int, j: int| 0 <= i < j < converted.len() implies (
        #[trigger] converted[i]).start.line < (#[trigger] converted[j]).start.line || (
        converted[i].start.line == converted[j].start.line && converted[i].start.column
            <= converted[j].start.column) by {
            assert(!LspTextEdit::behind(converted[i], converted[j]));
        }
    }
}

/// A notification is about the file on disk its document names, with every diagnostic in it, and about
/// nothing where it has no params, they cannot be read or their document is no file on disk.
pub proof fn law_a_notification_is_about_its_file(
    message: Seq<char>,
    params: Seq<char>,
    read: wire::PublishedModel,
)
    ensures
        wire::member_in(message, "params"@) is None ==> published(message) is None,
        wire::member_in(message, "params"@) == Some(params) && (wire::is_too_long(params)
            || wire::published_in(params) is None) ==> published(message) is None,
        wire::member_in(message, "params"@) == Some(params) && !wire::is_too_long(params)
            && wire::published_in(params) == Some(read) ==> match uris::path_named(
            encode_utf8(read.uri),
        ) {
            Some(path) => published(message) == Some((path, read.diagnostics)),
            None => published(message) is None,
        },
{
}

proof fn lemma_level_edits(edits: Seq<TextEditModel>, one: TextEditModel)
    ensures
        order::level_with::<LspTextEdit>(edits, one) == edits.filter(
            |edit: TextEditModel| edit.start == one.start,
        ),
    decreases edits.len(),
{
    reveal(Seq::filter);
    if edits.len() > 0 {
        lemma_level_edits(edits.drop_last(), one);
    }
}

/// Edits that start at one place stay in the order of the answer.
pub proof fn law_edits_that_start_together_stay_in_order(
    bytes: Seq<u8>,
    edits: Seq<ReplacementModel>,
    encoding: PositionEncoding,
    one: TextEditModel,
)
    ensures
        edits_converted(bytes, edits, encoding) matches Ok(converted) ==> converted.filter(
            |edit: TextEditModel| edit.start == one.start,
        ) == edits_named(bytes, edits, encoding)->Ok_0.filter(
            |edit: TextEditModel| edit.start == one.start,
        ),
{
    if let Ok(named) = edits_named(bytes, edits, encoding) {
        order::law_order_leaves_equals_as_they_came::<LspTextEdit>(named, one);
        lemma_level_edits(named, one);
        lemma_level_edits(order::ranked::<LspTextEdit>(named), one);
    }
}

} // verus!
