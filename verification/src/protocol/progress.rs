//! What a server says about the work it is doing, and the answers its own requests are given.

use vstd::prelude::*;
use vstd::string::*;

use crate::json;
use crate::json::{Json, JsonModel};
use crate::text;

verus! {

broadcast use vstd::string::group_string_axioms;

// ---------------------------------------------------------------------------------------------
// What a notification says
// ---------------------------------------------------------------------------------------------

/// The value of a `$/progress` notification.
pub open spec fn value_of(message: JsonModel) -> Option<JsonModel> {
    json::within(message.member("params"@), "value"@)
}

/// Which end of a piece of work a notification is.
pub open spec fn kind_of(message: JsonModel) -> Option<Seq<char>> {
    match json::within(value_of(message), "kind"@) {
        Some(kind) => kind.as_text(),
        None => None,
    }
}

/// Which piece of work a notification is about: a text, or a number as it is written.
pub open spec fn token_of(message: JsonModel) -> Option<Seq<char>> {
    match json::within(message.member("params"@), "token"@) {
        Some(JsonModel::Text(token)) => Some(token),
        Some(JsonModel::Number(token)) => Some(token.written),
        _ => None,
    }
}

/// One text of a progress value, with no white space about it, unless that leaves nothing.
pub open spec fn text_in(value: JsonModel, field: Seq<char>) -> Option<Seq<char>> {
    match value.member(field) {
        Some(JsonModel::Text(text)) => if text::trimmed(text).len() == 0 {
            None
        } else {
            Some(text::trimmed(text))
        },
        _ => None,
    }
}

/// How far through a value says the work is: its `percentage` as the nearest whole number, held
/// to nought and a hundred.
pub open spec fn percentage_in(value: JsonModel) -> Option<u8> {
    match value.member("percentage"@) {
        Some(JsonModel::Number(number)) => Some(
            if number.rounded < 0 {
                0
            } else if number.rounded > 100 {
                100
            } else {
                number.rounded as u8
            },
        ),
        _ => None,
    }
}

/// A [`ProgressNote`] as a contract speaks of it.
pub struct NoteModel {
    /// See [`ProgressNote::title`].
    pub title: Option<Seq<char>>,
    /// See [`ProgressNote::message`].
    pub message: Option<Seq<char>>,
    /// See [`ProgressNote::percentage`].
    pub percentage: Option<u8>,
}

/// What a notification says about the work it is about.
pub open spec fn note_of(message: JsonModel) -> NoteModel {
    match value_of(message) {
        None => NoteModel { title: None, message: None, percentage: None },
        Some(value) => NoteModel {
            title: text_in(value, "title"@),
            message: text_in(value, "message"@),
            percentage: percentage_in(value),
        },
    }
}

// ---------------------------------------------------------------------------------------------
// Reading notifications
// ---------------------------------------------------------------------------------------------

/// The value of a `$/progress` notification - see [`value_of`].
fn progress_value(message: &Json) -> (value: Option<&Json>)
    ensures
        match value {
            Some(value) => value_of(message@) == Some(value@),
            None => value_of(message@) is None,
        },
{
    json::get_within(message.get("params"), "value")
}

/// Which end of a piece of work a `$/progress` notification is - `begin`, `report` or
/// `end`. This is what readiness is counted from; see [`crate::process`].
pub fn progress_kind(message: &Json) -> (kind: Option<&str>)
    ensures
        match kind {
            Some(kind) => kind_of(message@) == Some(kind@),
            None => kind_of(message@) is None,
        },
{
    match json::get_within(progress_value(message), "kind") {
        Some(kind) => kind.as_str(),
        None => None,
    }
}

/// Which piece of work the notification is about.
///
/// Readiness is tracked per token rather than as one count of outstanding work, because a
/// server announces several pieces at once and interleaves them: rust-analyzer scans its
/// roots while it loads proc-macros, and it checks the project with `cargo check` while it
/// is still priming its cache. A count cannot tell those apart, and a token can - see
/// [`crate::process`].
///
/// The protocol lets a token be a string or an integer, and both are read as the text that
/// names the work. `None` is a notification with no token at all, which names no work and
/// so says nothing about whether the server has finished starting.
pub fn progress_token(message: &Json) -> (token: Option<String>)
    ensures
        text::maybe(token) == token_of(message@),
{
    match json::get_within(message.get("params"), "token") {
        Some(Json::Text(token)) => Some(token.clone()),
        Some(Json::Number(token)) => Some(token.written.clone()),
        _ => None,
    }
}

/// What the same notification says the server is actually doing, which is what a caller
/// showing the wait reads out.
///
/// Every field is optional because the protocol makes them so, and a caller has to be written
/// to read well without any of them: only a `begin` carries a `title`, a `report` may carry
/// nothing but a `message`, and plenty of work reports no percentage at all - rust-analyzer
/// fetches a project's metadata without ever saying how far through it is. Carrying the
/// title forward from the `begin` is [`crate::process::Working`]'s business, since it is the
/// only thing that sees the notifications of one piece of work in a row.
#[derive(PartialEq, Eq, Debug)]
pub struct ProgressNote {
    /// What the work is called: "Indexing", "Fetching metadata".
    pub title: Option<String>,
    /// The line under the title: which crate is being read, how many files are left.
    pub message: Option<String>,
    /// How far through, 0 to 100.
    pub percentage: Option<u8>,
}

impl View for ProgressNote {
    type V = NoteModel;

    open spec fn view(&self) -> NoteModel {
        NoteModel {
            title: text::maybe(self.title),
            message: text::maybe(self.message),
            percentage: self.percentage,
        }
    }
}

impl Default for ProgressNote {
    /// A notification that says nothing.
    fn default() -> (note: Self)
        ensures
            note@ == (NoteModel { title: None, message: None, percentage: None }),
    {
        ProgressNote { title: None, message: None, percentage: None }
    }
}

/// Read one `$/progress` notification for what it says about the work.
pub fn progress_note(message: &Json) -> (note: ProgressNote)
    ensures
        note@ == note_of(message@),
{
    match progress_value(message) {
        None => ProgressNote::default(),
        Some(value) => ProgressNote {
            title: text_at(value, "title"),
            message: text_at(value, "message"),
            percentage: percentage_at(value),
        },
    }
}

/// How far through a progress value says the work is.
///
/// The protocol calls this an unsigned integer, but it is a JSON number on the wire and servers
/// have sent it as a fraction, so it is read as the whole number nearest to it. Out of range is
/// held to the ends: a bar drawn past its own width is worse than a bar that sits full while the
/// last of the work finishes.
fn percentage_at(value: &Json) -> (percentage: Option<u8>)
    ensures
        percentage == percentage_in(value@),
{
    match value.get("percentage") {
        Some(Json::Number(number)) => Some(
            if number.rounded < 0 {
                0
            } else if number.rounded > 100 {
                100
            } else {
                number.rounded as u8
            },
        ),
        _ => None,
    }
}

/// One string field of a progress value, if it is there and is not empty. An empty title is
/// a title the bar would draw a blank space for.
fn text_at(value: &Json, field: &str) -> (text: Option<String>)
    ensures
        text::maybe(text) == text_in(value@, field@),
{
    match value.get(field) {
        Some(Json::Text(text)) => {
            let trimmed = text::trim_text(text.as_str());
            if trimmed.as_str().is_empty() {
                None
            } else {
                Some(trimmed)
            }
        },
        _ => None,
    }
}

// ---------------------------------------------------------------------------------------------
// What a server asks
// ---------------------------------------------------------------------------------------------

/// A list of so many nothings.
pub open spec fn nothings(count: nat) -> JsonModel {
    JsonModel::List(Seq::new(count, |i: int| JsonModel::Null))
}

/// What a server's own request is answered with: one nothing for each piece of configuration it
/// asked for, and nothing for anything else.
pub open spec fn reply_to(method: Seq<char>, message: JsonModel) -> JsonModel {
    if method == "workspace/configuration"@ {
        match json::within(message.member("params"@), "items"@) {
            Some(JsonModel::List(items)) => nothings(items.len()),
            _ => nothings(0),
        }
    } else {
        JsonModel::Null
    }
}

/// Answer one of the server's own requests. Only the shape matters: a server that asked for
/// its configuration and is handed one entry per item it asked about carries on, and one
/// left waiting stops.
pub fn reply_to_server_request(method: &str, message: &Json) -> (reply: Json)
    ensures
        reply@ == reply_to(method@, message@),
{
    if !text::same(method, "workspace/configuration") {
        // `window/workDoneProgress/create`, `client/registerCapability` and the rest are
        // all served by "yes, fine".
        return Json::Null;
    }
    let asked_for: usize = match json::get_within(message.get("params"), "items") {
        Some(Json::List(items)) => {
            proof {
                json::lemma_models(items@);
            }
            items.len()
        },
        _ => 0,
    };
    let mut reply = Json::list();
    let mut given: usize = 0;
    assert(reply@->List_0 =~= nothings(0)->List_0);
    while given < asked_for
        invariant
            given <= asked_for,
            reply is List,
            reply@ == nothings(given as nat),
        decreases asked_for - given,
    {
        reply = reply.and(Json::Null);
        given += 1;
        assert(reply@->List_0 =~= nothings(given as nat)->List_0);
    }
    reply
}

/// A server that asks for its configuration is answered with exactly one entry for each item it
/// asked about.
pub proof fn law_configuration_is_answered_item_by_item(message: JsonModel)
    ensures
        reply_to("workspace/configuration"@, message) matches JsonModel::List(reply)
            && reply.len() == (match json::within(message.member("params"@), "items"@) {
            Some(JsonModel::List(items)) => items.len(),
            _ => 0,
        }) && forall|i: int| 0 <= i < reply.len() ==> #[trigger] reply[i] == JsonModel::Null,
{
}

/// How far through a piece of work is, is never more than all of it or less than none of it, and is
/// what the server says wherever that is between the two. Nothing is said of it where the server says
/// no number.
pub proof fn law_a_percentage_is_between_nought_and_a_hundred(message: JsonModel, value: JsonModel)
    requires
        value_of(message) == Some(value),
    ensures
        value.member("percentage"@) matches Some(JsonModel::Number(number)) ==> (note_of(
            message,
        ).percentage matches Some(percentage) && {
            &&& 0 <= number.rounded <= 100 ==> percentage == number.rounded
            &&& number.rounded < 0 ==> percentage == 0
            &&& number.rounded > 100 ==> percentage == 100
        }),
        !(value.member("percentage"@) matches Some(JsonModel::Number(_))) ==> note_of(
            message,
        ).percentage is None,
{
}

/// A title and a message are what the server says without the white space round it, and nothing where
/// it says nothing but white space, or no text.
pub proof fn law_a_note_is_what_is_said_without_white_space(
    message: JsonModel,
    value: JsonModel,
    said: Seq<char>,
)
    requires
        value_of(message) == Some(value),
    ensures
        value.member("title"@) == Some(JsonModel::Text(said)) ==> note_of(message).title == if (
        forall|i: int| 0 <= i < said.len() ==> text::is_white_space(#[trigger] said[i])) {
            None
        } else {
            Some(text::trimmed(said))
        },
        value.member("message"@) == Some(JsonModel::Text(said)) ==> note_of(message).message == if (
        forall|i: int| 0 <= i < said.len() ==> text::is_white_space(#[trigger] said[i])) {
            None
        } else {
            Some(text::trimmed(said))
        },
        !(value.member("title"@) matches Some(JsonModel::Text(_))) ==> note_of(message).title is None,
        !(value.member("message"@) matches Some(JsonModel::Text(_))) ==> note_of(
            message,
        ).message is None,
{
    text::law_only_white_space_is_trimmed_away(said);
}

/// A notification is of the work its `params.token` names, in words or as a number, and of the kind
/// its `params.value.kind` says; one with neither is of neither.
pub proof fn law_a_notification_names_its_work(
    message: JsonModel,
    params: JsonModel,
    value: JsonModel,
    said: Seq<char>,
)
    requires
        message.member("params"@) == Some(params),
    ensures
        params.member("token"@) == Some(JsonModel::Text(said)) ==> token_of(message) == Some(said),
        params.member("token"@) matches Some(JsonModel::Number(number)) ==> token_of(message)
            == Some(number.written),
        params.member("token"@) is None ==> token_of(message) is None,
        params.member("value"@) == Some(value) && value.member("kind"@) == Some(
            JsonModel::Text(said),
        ) ==> kind_of(message) == Some(said),
        params.member("value"@) is None ==> kind_of(message) is None && note_of(message).title is None
            && note_of(message).message is None && note_of(message).percentage is None,
{
}

/// A request other than for the configuration is replied to with nothing.
pub proof fn law_any_other_request_is_replied_to_with_nothing(
    method: Seq<char>,
    message: JsonModel,
)
    requires
        method != "workspace/configuration"@,
    ensures
        reply_to(method, message) == JsonModel::Null,
{
}

} // verus!
