//! JSON as a tree of tokens.
//!
//! This is what a JSON reader hands to the codec and what the codec hands to
//! a JSON writer. Numbers arrive as the reader classified them: a signed or
//! unsigned integer where the text was one that fits, a double otherwise.
//! A string token carries its text and, where the reader could read that
//! text as a floating point number, the double it read.
use crate::float::{Float32, Float64};
use vstd::prelude::*;

verus! {

/// A JSON value.
#[derive(Debug, PartialEq)]
pub enum Json {
    /// `null`.
    Null,
    /// `true` or `false`.
    Bool(bool),
    /// A number that the reader delivered as a signed integer.
    Int(i64),
    /// A number that the reader delivered as an unsigned integer.
    Uint(u64),
    /// A number that the reader delivered as a double.
    Double(Float64),
    /// A single-precision number. Writers print it with single precision;
    /// readers deliver doubles, never this.
    Single(Float32),
    /// A string: its text, and what the reader made of that text as a
    /// floating point number, if anything.
    Str(String, Option<Float64>),
    /// An array.
    Array(Vec<Json>),
    /// An object: its members in the order of the text.
    Object(Vec<(String, Json)>),
}

/// The mathematical model of a [`Json`] value.
pub ghost enum JsonValue {
    Null,
    Bool(bool),
    Int(i64),
    Uint(u64),
    Double(Float64),
    Single(Float32),
    Str(Seq<char>, Option<Float64>),
    Array(Seq<JsonValue>),
    Object(Seq<(Seq<char>, JsonValue)>),
}

impl View for Json {
    type V = JsonValue;

    open spec fn view(&self) -> JsonValue
        decreases self,
    {
        match self {
            Json::Null => JsonValue::Null,
            Json::Bool(b) => JsonValue::Bool(*b),
            Json::Int(v) => JsonValue::Int(*v),
            Json::Uint(v) => JsonValue::Uint(*v),
            Json::Double(v) => JsonValue::Double(*v),
            Json::Single(v) => JsonValue::Single(*v),
            Json::Str(text, reading) => JsonValue::Str(text@, *reading),
            Json::Array(items) => JsonValue::Array(items_view(items@)),
            Json::Object(members) => JsonValue::Object(members_view(members@)),
        }
    }
}

/// The models of the items of an array, in order.
pub open spec fn items_view(items: Seq<Json>) -> Seq<JsonValue>
    decreases items,
{
    if items.len() == 0 {
        Seq::empty()
    } else {
        items_view(items.drop_last()).push(items.last().view())
    }
}

/// The models of the members of an object, in order.
pub open spec fn members_view(members: Seq<(String, Json)>) -> Seq<(Seq<char>, JsonValue)>
    decreases members,
{
    if members.len() == 0 {
        Seq::empty()
    } else {
        members_view(members.drop_last()).push((members.last().0@, members.last().1.view()))
    }
}

/// The model of an array holds the model of each item, at the item's place.
pub proof fn lemma_items_view(items: Seq<Json>)
    ensures
        items_view(items).len() == items.len(),
        forall|i: int| 0 <= i < items.len() ==> #[trigger] items_view(items)[i] == items[i]@,
    decreases items.len(),
{
    if items.len() > 0 {
        lemma_items_view(items.drop_last());
        assert(items_view(items) == items_view(items.drop_last()).push(items.last().view()));
    } else {
        assert(items_view(items) == Seq::<JsonValue>::empty());
    }
}

/// The model of an object holds the model of each member, at the member's place.
pub proof fn lemma_members_view(members: Seq<(String, Json)>)
    ensures
        members_view(members).len() == members.len(),
        forall|i: int|
            0 <= i < members.len() ==> #[trigger] members_view(members)[i] == (
                members[i].0@,
                members[i].1@,
            ),
    decreases members.len(),
{
    if members.len() > 0 {
        lemma_members_view(members.drop_last());
        assert(members_view(members) == members_view(members.drop_last()).push(
            (members.last().0@, members.last().1.view()),
        ));
    } else {
        assert(members_view(members) == Seq::<(Seq<char>, JsonValue)>::empty());
    }
}

impl Json {
    /// A string token with no reading as a number.
    pub fn string(text: &str) -> (r: Json)
        ensures
            r@ == JsonValue::Str(text@, None),
    {
        Json::Str(text.to_owned(), None)
    }

    /// A string token of the given characters, with no reading as a number.
    pub fn text(chars: &Vec<char>) -> (r: Json)
        ensures
            r@ == JsonValue::Str(chars@, None),
    {
        Json::Str(crate::text::string_of(chars), None)
    }

    /// An array of the given items.
    pub fn array(items: Vec<Json>) -> (r: Json)
        ensures
            r@ == JsonValue::Array(items_view(items@)),
    {
        Json::Array(items)
    }

    /// An object of the given members.
    pub fn object(members: Vec<(String, Json)>) -> (r: Json)
        ensures
            r@ == JsonValue::Object(members_view(members@)),
    {
        Json::Object(members)
    }
}

} // verus!

