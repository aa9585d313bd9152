//! A JSON value, as what is said to a server is built and what it says is read.
//!
//! Text is turned into these and these into text at the edge of the crate, where the pipe is:
//! everything in here is values.

use vstd::prelude::*;
use vstd::string::*;

use crate::text;

verus! {

broadcast use vstd::string::group_string_axioms;

/// A JSON number, in the three ways anything reads one.
#[derive(Debug, PartialEq, Eq)]
pub struct JsonNumber {
    /// How it is written.
    pub written: String,
    /// The whole number it is, where it is one that an `i64` holds.
    pub integer: Option<i64>,
    /// The whole number nearest to it, halves away from zero, held to what an `i64` holds.
    pub rounded: i64,
}

/// A JSON value.
#[derive(Debug, PartialEq, Eq)]
pub enum Json {
    /// `null`.
    Null,
    /// `true` or `false`.
    Bool(bool),
    /// A number.
    Number(JsonNumber),
    /// A string.
    Text(String),
    /// An array.
    List(Vec<Json>),
    /// An object: its members, no two of the same name.
    Object(Vec<(String, Json)>),
    /// A value that is carried as the JSON it is written in, and that nothing here looks inside.
    Verbatim(String),
}

/// A [`JsonNumber`] as a contract speaks of it.
pub struct NumberModel {
    /// See [`JsonNumber::written`].
    pub written: Seq<char>,
    /// See [`JsonNumber::integer`].
    pub integer: Option<i64>,
    /// See [`JsonNumber::rounded`].
    pub rounded: i64,
}

/// A [`Json`] as a contract speaks of it.
pub enum JsonModel {
    /// See [`Json::Null`].
    Null,
    /// See [`Json::Bool`].
    Bool(bool),
    /// See [`Json::Number`].
    Number(NumberModel),
    /// See [`Json::Text`].
    Text(Seq<char>),
    /// See [`Json::List`].
    List(Seq<JsonModel>),
    /// See [`Json::Object`].
    Object(Seq<(Seq<char>, JsonModel)>),
    /// See [`Json::Verbatim`].
    Verbatim(Seq<char>),
}

impl View for JsonNumber {
    type V = NumberModel;

    open spec fn view(&self) -> NumberModel {
        NumberModel { written: self.written@, integer: self.integer, rounded: self.rounded }
    }
}

/// A value as a contract speaks of it.
pub open spec fn model_of(json: Json) -> JsonModel
    decreases json,
{
    match json {
        Json::Null => JsonModel::Null,
        Json::Bool(yes) => JsonModel::Bool(yes),
        Json::Number(number) => JsonModel::Number(number@),
        Json::Text(text) => JsonModel::Text(text@),
        Json::List(items) => JsonModel::List(models_of(items@)),
        Json::Object(members) => JsonModel::Object(members_of(members@)),
        Json::Verbatim(text) => JsonModel::Verbatim(text@),
    }
}

/// Several values as a contract speaks of them.
pub open spec fn models_of(items: Seq<Json>) -> Seq<JsonModel>
    decreases items,
{
    if items.len() == 0 {
        Seq::empty()
    } else {
        models_of(items.drop_last()).push(model_of(items.last()))
    }
}

/// Several members of an object as a contract speaks of them.
pub open spec fn members_of(members: Seq<(String, Json)>) -> Seq<(Seq<char>, JsonModel)>
    decreases members,
{
    if members.len() == 0 {
        Seq::empty()
    } else {
        members_of(members.drop_last()).push((members.last().0@, model_of(members.last().1)))
    }
}

impl View for Json {
    type V = JsonModel;

    open spec fn view(&self) -> JsonModel {
        model_of(*self)
    }
}

/// A list has as many values as it is said to have, each the one it is said to be.
pub proof fn lemma_models(items: Seq<Json>)
    ensures
        models_of(items).len() == items.len(),
        forall|i: int| 0 <= i < items.len() ==> #[trigger] models_of(items)[i] == items[i]@,
    decreases items.len(),
{
    if items.len() > 0 {
        lemma_models(items.drop_last());
        assert forall|i: int| 0 <= i < items.len() implies #[trigger] models_of(items)[i]
            == items[i]@ by {
            if i < items.len() - 1 {
                assert(models_of(items)[i] == models_of(items.drop_last())[i]);
            }
        }
    }
}

/// An object has as many members as it is said to have, each the one it is said to be.
pub proof fn lemma_members(members: Seq<(String, Json)>)
    ensures
        members_of(members).len() == members.len(),
        forall|i: int|
            0 <= i < members.len() ==> #[trigger] members_of(members)[i] == (
                members[i].0@,
                members[i].1@,
            ),
    decreases members.len(),
{
    if members.len() > 0 {
        lemma_members(members.drop_last());
        assert forall|i: int| 0 <= i < members.len() implies #[trigger] members_of(members)[i] == (
            members[i].0@,
            members[i].1@,
        ) by {
            if i < members.len() - 1 {
                assert(members_of(members)[i] == members_of(members.drop_last())[i]);
            }
        }
    }
}

/// A whole number, written in decimal with a minus sign ahead of it where it is negative.
pub open spec fn signed_decimal(value: int) -> Seq<char> {
    if value < 0 {
        seq!['-'] + text::decimal((-value) as nat)
    } else {
        text::decimal(value as nat)
    }
}

/// Whether a whole number is one an `i64` holds.
pub open spec fn is_i64(value: int) -> bool {
    i64::MIN <= value <= i64::MAX
}

impl JsonModel {
    /// An object with no members.
    pub open spec fn object() -> JsonModel {
        JsonModel::Object(Seq::empty())
    }

    /// An array with nothing in it.
    pub open spec fn list() -> JsonModel {
        JsonModel::List(Seq::empty())
    }

    /// A whole number.
    pub open spec fn whole(value: int) -> JsonModel {
        JsonModel::Number(
            NumberModel {
                written: signed_decimal(value),
                integer: if is_i64(value) {
                    Some(value as i64)
                } else {
                    None
                },
                rounded: if is_i64(value) {
                    value as i64
                } else if value < 0 {
                    i64::MIN
                } else {
                    i64::MAX
                },
            },
        )
    }

    /// This object with one more member.
    pub open spec fn with(self, name: Seq<char>, value: JsonModel) -> JsonModel {
        match self {
            JsonModel::Object(members) => JsonModel::Object(members.push((name, value))),
            _ => self,
        }
    }

    /// This array with one more thing in it.
    pub open spec fn and(self, value: JsonModel) -> JsonModel {
        match self {
            JsonModel::List(items) => JsonModel::List(items.push(value)),
            _ => self,
        }
    }

    /// The member of this name, where this is an object that has one.
    pub open spec fn member(self, name: Seq<char>) -> Option<JsonModel> {
        match self {
            JsonModel::Object(members) => named(members, name),
            _ => None,
        }
    }

    /// The text this is, where it is one.
    pub open spec fn as_text(self) -> Option<Seq<char>> {
        match self {
            JsonModel::Text(text) => Some(text),
            _ => None,
        }
    }
}

/// The first member of a name.
pub open spec fn named(members: Seq<(Seq<char>, JsonModel)>, name: Seq<char>) -> Option<JsonModel>
    decreases members.len(),
{
    if members.len() == 0 {
        None
    } else if members[0].0 == name {
        Some(members[0].1)
    } else {
        named(members.drop_first(), name)
    }
}

/// The member of a name of what may be there.
pub open spec fn within(value: Option<JsonModel>, name: Seq<char>) -> Option<JsonModel> {
    match value {
        Some(value) => value.member(name),
        None => None,
    }
}

impl Json {
    /// An object with no members.
    pub fn object() -> (json: Json)
        ensures
            json@ == JsonModel::object(),
    {
        Json::Object(Vec::new())
    }

    /// An array with nothing in it.
    pub fn list() -> (json: Json)
        ensures
            json@ == JsonModel::list(),
    {
        Json::List(Vec::new())
    }

    /// A text.
    pub fn text(text: &str) -> (json: Json)
        ensures
            json@ == JsonModel::Text(text@),
    {
        Json::Text(text.to_owned())
    }

    /// A whole number.
    pub fn whole(value: i128) -> (json: Json)
        requires
            value > i128::MIN,
        ensures
            json@ == JsonModel::whole(value as int),
    {
        let mut written = String::new();
        if value < 0 {
            written.push('-');
            text::push_decimal(&mut written, (-value) as u128);
        } else {
            text::push_decimal(&mut written, value as u128);
        }
        assert(written@ =~= signed_decimal(value as int));
        let held: bool = i64::MIN as i128 <= value && value <= i64::MAX as i128;
        Json::Number(
            JsonNumber {
                written,
                integer: if held {
                    Some(value as i64)
                } else {
                    None
                },
                rounded: if held {
                    value as i64
                } else if value < 0 {
                    i64::MIN
                } else {
                    i64::MAX
                },
            },
        )
    }

    /// This object with one more member.
    pub fn with(self, name: &str, value: Json) -> (json: Json)
        requires
            self is Object,
        ensures
            json is Object,
            json@ == self@.with(name@, value@),
    {
        match self {
            Json::Object(members) => {
                let ghost before = members@;
                let mut members = members;
                members.push((name.to_owned(), value));
                assert(members@.drop_last() =~= before);
                Json::Object(members)
            },
            other => other,
        }
    }

    /// This array with one more thing in it.
    pub fn and(self, value: Json) -> (json: Json)
        requires
            self is List,
        ensures
            json is List,
            json@ == self@.and(value@),
    {
        match self {
            Json::List(items) => {
                let ghost before = items@;
                let mut items = items;
                items.push(value);
                assert(items@.drop_last() =~= before);
                Json::List(items)
            },
            other => other,
        }
    }

    /// The member of this name, where this is an object that has one.
    pub fn get(&self, name: &str) -> (value: Option<&Json>)
        ensures
            match value {
                Some(value) => self@.member(name@) == Some(value@),
                None => self@.member(name@) is None,
            },
    {
        match self {
            Json::Object(members) => {
                let ghost all = members_of(members@);
                let mut at: usize = 0;
                proof {
                    lemma_members(members@);
                    assert(all.skip(0) =~= all);
                }
                while at < members.len()
                    invariant
                        self@ == JsonModel::Object(all),
                        all.len() == members@.len(),
                        forall|i: int|
                            0 <= i < all.len() ==> #[trigger] all[i] == (
                                members@[i].0@,
                                members@[i].1@,
                            ),
                        at <= members@.len(),
                        named(all, name@) == named(all.skip(at as int), name@),
                    decreases members@.len() - at,
                {
                    let ghost left = all.skip(at as int);
                    assert(left[0] == (members@[at as int].0@, members@[at as int].1@));
                    assert(left.drop_first() =~= all.skip(at + 1));
                    if text::same(members[at].0.as_str(), name) {
                        return Some(&members[at].1);
                    }
                    at += 1;
                }
                assert(all.skip(at as int).len() == 0);
                None
            },
            _ => None,
        }
    }

    /// The text this is, where it is one.
    pub fn as_str(&self) -> (text: Option<&str>)
        ensures
            match text {
                Some(text) => self@.as_text() == Some(text@),
                None => self@.as_text() is None,
            },
    {
        match self {
            Json::Text(text) => Some(text.as_str()),
            _ => None,
        }
    }

    /// The same value again.
    pub fn copy(&self) -> (json: Json)
        ensures
            json@ == self@,
        decreases self,
    {
        match self {
            Json::Null => Json::Null,
            Json::Bool(yes) => Json::Bool(*yes),
            Json::Number(number) => Json::Number(
                JsonNumber {
                    written: number.written.clone(),
                    integer: number.integer,
                    rounded: number.rounded,
                },
            ),
            Json::Text(text) => Json::Text(text.clone()),
            Json::List(items) => {
                let mut copied: Vec<Json> = Vec::new();
                let mut at: usize = 0;
                while at < items.len()
                    invariant
                        at <= items@.len(),
                        decreases_to!(self => items@),
                        copied@.len() == at,
                        forall|i: int| 0 <= i < at ==> (#[trigger] copied@[i])@ == items@[i]@,
                    decreases items@.len() - at,
                {
                    copied.push(items[at].copy());
                    at += 1;
                }
                proof {
                    lemma_models(items@);
                    lemma_models(copied@);
                    assert(models_of(copied@) =~= models_of(items@));
                }
                Json::List(copied)
            },
            Json::Object(members) => {
                let mut copied: Vec<(String, Json)> = Vec::new();
                let mut at: usize = 0;
                while at < members.len()
                    invariant
                        at <= members@.len(),
                        decreases_to!(self => members@),
                        copied@.len() == at,
                        forall|i: int|
                            0 <= i < at ==> (#[trigger] copied@[i]).0@ == members@[i].0@
                                && copied@[i].1@ == members@[i].1@,
                    decreases members@.len() - at,
                {
                    copied.push((members[at].0.clone(), members[at].1.copy()));
                    at += 1;
                }
                proof {
                    lemma_members(members@);
                    lemma_members(copied@);
                    assert(members_of(copied@) =~= members_of(members@));
                }
                Json::Object(copied)
            },
            Json::Verbatim(text) => Json::Verbatim(text.clone()),
        }
    }
}

/// The member of a name of what may be there - see [`within`].
pub fn get_within<'a>(value: Option<&'a Json>, name: &str) -> (found: Option<&'a Json>)
    ensures
        match (value, found) {
            (Some(value), Some(found)) => within(Some(value@), name@) == Some(found@),
            (Some(value), None) => within(Some(value@), name@) is None,
            (None, found) => found is None,
        },
{
    match value {
        Some(value) => value.get(name),
        None => None,
    }
}

// ---------------------------------------------------------------------------------------------
// What values promise
// ---------------------------------------------------------------------------------------------

proof fn lemma_named_behind(
    members: Seq<(Seq<char>, JsonModel)>,
    name: Seq<char>,
    value: JsonModel,
    other: Seq<char>,
)
    ensures
        named(members.push((name, value)), other) == if named(members, other) is Some {
            named(members, other)
        } else if other == name {
            Some(value)
        } else {
            None
        },
    decreases members.len(),
{
    let all = members.push((name, value));
    if members.len() > 0 {
        lemma_named_behind(members.drop_first(), name, value, other);
        assert(all.drop_first() =~= members.drop_first().push((name, value)));
        assert(all[0] == members[0]);
    } else {
        assert(all.drop_first() =~= Seq::<(Seq<char>, JsonModel)>::empty());
        assert(all[0] == (name, value));
        assert(named(Seq::<(Seq<char>, JsonModel)>::empty(), other) is None);
    }
}

/// An object with one member more reads as it did by every other name, and as that member by its
/// name unless it had one of that name before.
pub broadcast proof fn law_a_member_reads_back(
    object: JsonModel,
    name: Seq<char>,
    value: JsonModel,
    other: Seq<char>,
)
    requires
        object is Object,
    ensures
        #[trigger] object.with(name, value).member(other) == if object.member(other) is Some {
            object.member(other)
        } else if other == name {
            Some(value)
        } else {
            None
        },
{
    lemma_named_behind(object->Object_0, name, value, other);
}

/// Nothing is in a fresh object or in a fresh list; a list with one item more has that item behind
/// the ones it had; and a whole number reads back as itself where it fits.
pub proof fn law_values_read_back(list: Seq<JsonModel>, item: JsonModel, name: Seq<char>, whole: i64)
    ensures
        JsonModel::object().member(name) is None,
        JsonModel::list() == JsonModel::List(Seq::empty()),
        JsonModel::List(list).and(item) == JsonModel::List(list.push(item)),
        JsonModel::whole(whole as int) matches JsonModel::Number(number) && number.integer == Some(
            whole,
        ) && number.rounded == whole,
        whole >= 0 ==> (JsonModel::whole(whole as int) matches JsonModel::Number(number)
            && text::decimal_value(number.written) == whole),
{
    if whole >= 0 {
        text::law_a_number_reads_back(whole as nat, Seq::empty(), '0');
    }
}

/// Only a text reads as text, and nothing but an object has members. A number below nought is written
/// with a minus ahead of it.
pub proof fn law_a_value_reads_as_what_it_is(value: JsonModel, name: Seq<char>, below: nat)
    requires
        below > 0,
    ensures
        value.as_text() is Some <==> value is Text,
        value matches JsonModel::Text(text) ==> value.as_text() == Some(text),
        !(value is Object) ==> value.member(name) is None,
        JsonModel::whole(-(below as int)) matches JsonModel::Number(number) && number.written
            == seq!['-'] + text::decimal(below),
{
}

} // verus!
