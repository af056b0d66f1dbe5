//! Enums: an `int32` in the message, the symbolic name in JSON.
//!
//! Enums are open: a number that no variant has is written and read as a
//! number. `google.protobuf.NullValue` is the one enum that JSON `null`
//! stands for a value of.
use crate::error::{collect, lemma_collect_error, lemma_collect_step, CanonicalError, Outcome};
use crate::json::{items_view, lemma_items_view, Json, JsonValue};
use crate::number::{i32_from_str, i32_from_str_spec};
use crate::text::same_text;
use std::marker::PhantomData;
use vstd::prelude::*;

verus! {

/// What the codec asks of an enum type: its variants by number and by name.
///
/// A verified implementation states what its variants are by defining the
/// `spec` functions; an implementation in ordinary Rust leaves them as they
/// are and provides the executable methods only.
pub trait ProstEnum: Sized {
    /// The variant with the number, if there is one.
    open spec fn variant_of(value: i32) -> Option<Self> {
        arbitrary()
    }

    /// The variant with the name, if there is one.
    open spec fn variant_named(name: Seq<char>) -> Option<Self> {
        arbitrary()
    }

    /// The name of the variant.
    open spec fn name(&self) -> Seq<char> {
        arbitrary()
    }

    /// The number of the variant.
    open spec fn number(&self) -> i32 {
        arbitrary()
    }

    /// Whether the enum is `google.protobuf.NullValue`.
    open spec fn null_value() -> bool {
        arbitrary()
    }

    fn from_i32(value: i32) -> (r: Option<Self>)
        ensures
            r == Self::variant_of(value),
    ;

    fn from_str_name(value: &str) -> (r: Option<Self>)
        ensures
            r == Self::variant_named(value@),
    ;

    fn as_str_name(&self) -> (r: &'static str)
        ensures
            r@ == self.name(),
    ;

    fn as_i32(&self) -> (r: i32)
        ensures
            r == self.number(),
    ;

    /// Whether the enum is `google.protobuf.NullValue`.
    fn is_null_value() -> (r: bool)
        ensures
            r == Self::null_value(),
    ;
}

/// `google.protobuf.NullValue`: the enum whose one value stands for JSON
/// `null`.
#[derive(Clone, Copy, Debug, PartialEq, Eq, Structural)]
pub enum NullValue {
    NullValue,
}

impl ProstEnum for NullValue {
    open spec fn variant_of(value: i32) -> Option<Self> {
        if value == 0 {
            Some(NullValue::NullValue)
        } else {
            None
        }
    }

    open spec fn variant_named(name: Seq<char>) -> Option<Self> {
        if name == "NULL_VALUE"@ {
            Some(NullValue::NullValue)
        } else {
            None
        }
    }

    open spec fn name(&self) -> Seq<char> {
        "NULL_VALUE"@
    }

    open spec fn number(&self) -> i32 {
        0
    }

    open spec fn null_value() -> bool {
        true
    }

    fn from_i32(value: i32) -> (r: Option<Self>) {
        if value == 0 {
            Some(NullValue::NullValue)
        } else {
            None
        }
    }

    fn from_str_name(value: &str) -> (r: Option<Self>) {
        if same_text(value, "NULL_VALUE") {
            Some(NullValue::NullValue)
        } else {
            None
        }
    }

    fn as_str_name(&self) -> (r: &'static str) {
        "NULL_VALUE"
    }

    fn as_i32(&self) -> (r: i32) {
        0
    }

    fn is_null_value() -> (r: bool) {
        true
    }
}

/// The JSON of an enum number: `null` for the null value; the name of the
/// variant with that number where there is one; else the number itself.
pub open spec fn enum_json<E: ProstEnum>(value: i32) -> JsonValue {
    if E::null_value() && value == 0 {
        JsonValue::Null
    } else {
        match E::variant_of(value) {
            Some(v) => JsonValue::Str(v.name(), None),
            None => JsonValue::Int(value as i64),
        }
    }
}

/// The enum number that text stands for: the number of the variant with that
/// name, or else the integer that the text denotes.
pub open spec fn enum_from_text<E: ProstEnum>(text: Seq<char>, reading: Option<
    crate::float::Float64,
>) -> Outcome<i32> {
    if E::null_value() && text == "NULL_VALUE"@ {
        Ok(0)
    } else {
        match E::variant_named(text) {
            Some(v) => Ok(v.number()),
            None => match i32_from_str_spec(text, reading) {
                Ok(n) => Ok(n as i32),
                Err(_) => Err("invalid enum string"@),
            },
        }
    }
}

/// The enum number that JSON stands for: a name of a variant, or an integer
/// in the `i32` range, known or not; `null` for the null value only.
pub open spec fn enum_from_json<E: ProstEnum>(json: JsonValue) -> Outcome<i32> {
    match json {
        JsonValue::Null => if E::null_value() {
            Ok(0)
        } else {
            Err("invalid enum value"@)
        },
        JsonValue::Str(text, reading) => enum_from_text::<E>(text, reading),
        JsonValue::Int(v) => if i32::MIN <= v <= i32::MAX {
            Ok(v as i32)
        } else {
            Err("enum number out of range"@)
        },
        JsonValue::Uint(v) => if v <= i32::MAX {
            Ok(v as i32)
        } else {
            Err("enum number out of range"@)
        },
        _ => Err("invalid type, expected enum string or number"@),
    }
}

/// The enum number that JSON stands for, where `null` stands for none.
pub open spec fn enum_option_from_json<E: ProstEnum>(json: JsonValue) -> Outcome<Option<i32>> {
    match json {
        JsonValue::Null => Ok(None),
        _ => match enum_from_json::<E>(json) {
            Ok(v) => Ok(Some(v)),
            Err(m) => Err(m),
        },
    }
}

/// The JSON array of a row of enum numbers.
pub open spec fn enum_seq_json<E: ProstEnum>(values: Seq<i32>) -> JsonValue {
    JsonValue::Array(Seq::new(values.len(), |i: int| enum_json::<E>(values[i])))
}

/// The enum numbers that a JSON array stands for; `null` stands for none.
pub open spec fn enum_vec_from_json<E: ProstEnum>(json: JsonValue) -> Outcome<Seq<i32>> {
    match json {
        JsonValue::Array(items) => collect(
            Seq::new(items.len(), |i: int| enum_from_json::<E>(items[i])),
        ),
        JsonValue::Null => Ok(Seq::empty()),
        _ => Err("invalid type, expected a sequence"@),
    }
}

/// Writes an enum number as JSON.
pub fn enum_to_json<E: ProstEnum>(value: i32) -> (r: Json)
    ensures
        r@ == enum_json::<E>(value),
{
    if E::is_null_value() && value == 0 {
        return Json::Null;
    }
    match E::from_i32(value) {
        Some(v) => Json::string(v.as_str_name()),
        None => Json::Int(value as i64),
    }
}

/// Reads JSON as an enum number.
pub fn enum_from<E: ProstEnum>(json: &Json) -> (r: Result<i32, CanonicalError>)
    ensures
        crate::number::outcome_of(r) == enum_from_json::<E>(json@),
{
    match json {
        Json::Null => {
            if E::is_null_value() {
                Ok(0)
            } else {
                Err(CanonicalError::new("invalid enum value"))
            }
        },
        Json::Str(text, reading) => {
            if E::is_null_value() && same_text(text.as_str(), "NULL_VALUE") {
                return Ok(0);
            }
            match E::from_str_name(text.as_str()) {
                Some(v) => Ok(v.as_i32()),
                None => match i32_from_str(text.as_str(), *reading) {
                    Ok(n) => Ok(n),
                    Err(_) => Err(CanonicalError::new("invalid enum string")),
                },
            }
        },
        Json::Int(v) => {
            if -2_147_483_648 <= *v && *v <= 2_147_483_647 {
                Ok(*v as i32)
            } else {
                Err(CanonicalError::new("enum number out of range"))
            }
        },
        Json::Uint(v) => {
            if *v <= 2_147_483_647 {
                Ok(*v as i32)
            } else {
                Err(CanonicalError::new("enum number out of range"))
            }
        },
        _ => Err(CanonicalError::new("invalid type, expected enum string or number")),
    }
}

/// Wraps an optional enum number for canonical protobuf JSON deserialization.
pub struct CanonicalEnumOption<E>(pub Option<i32>, pub PhantomData<E>);

impl<E: ProstEnum> CanonicalEnumOption<E> {
    /// Reads an enum number, or nothing where the JSON is `null`.
    pub fn deserialize(json: &Json) -> (r: Result<Self, CanonicalError>)
        ensures
            match r {
                Ok(v) => enum_option_from_json::<E>(json@) == Ok::<Option<i32>, Seq<char>>(v.0),
                Err(e) => enum_option_from_json::<E>(json@) == Err::<Option<i32>, Seq<char>>(e@),
            },
    {
        match json {
            Json::Null => Ok(CanonicalEnumOption(None, PhantomData)),
            _ => match enum_from::<E>(json) {
                Ok(v) => Ok(CanonicalEnumOption(Some(v), PhantomData)),
                Err(e) => Err(e),
            },
        }
    }
}

/// Wraps an enum number for canonical protobuf JSON serialization.
pub struct CanonicalEnum<'a, E: ProstEnum> {
    value: i32,
    _marker: PhantomData<&'a E>,
}

impl<'a, E: ProstEnum> View for CanonicalEnum<'a, E> {
    type V = i32;

    closed spec fn view(&self) -> i32 {
        self.value
    }
}

impl<'a, E: ProstEnum> CanonicalEnum<'a, E> {
    pub fn new(value: i32) -> (r: Self)
        ensures
            r@ == value,
    {
        Self { value, _marker: PhantomData }
    }

    /// Writes the enum number as JSON.
    pub fn serialize(&self) -> (r: Result<Json, CanonicalError>)
        ensures
            crate::codec::json_outcome(r) == Ok::<JsonValue, Seq<char>>(enum_json::<E>(self@)),
    {
        Ok(enum_to_json::<E>(self.value))
    }
}

/// Wraps an enum number for canonical protobuf JSON deserialization.
pub struct CanonicalEnumValue<E>(pub i32, pub PhantomData<E>);

impl<E: ProstEnum> CanonicalEnumValue<E> {
    /// Reads an enum number.
    pub fn deserialize(json: &Json) -> (r: Result<Self, CanonicalError>)
        ensures
            match r {
                Ok(v) => enum_from_json::<E>(json@) == Ok::<i32, Seq<char>>(v.0),
                Err(e) => enum_from_json::<E>(json@) == Err::<i32, Seq<char>>(e@),
            },
    {
        match enum_from::<E>(json) {
            Ok(v) => Ok(CanonicalEnumValue(v, PhantomData)),
            Err(e) => Err(e),
        }
    }
}

/// Wraps a slice of enum numbers for canonical JSON serialization.
pub struct CanonicalEnumSeq<'a, E: ProstEnum> {
    values: &'a [i32],
    _marker: PhantomData<E>,
}

impl<'a, E: ProstEnum> View for CanonicalEnumSeq<'a, E> {
    type V = Seq<i32>;

    closed spec fn view(&self) -> Seq<i32> {
        self.values@
    }
}

impl<'a, E: ProstEnum> CanonicalEnumSeq<'a, E> {
    pub fn new(values: &'a [i32]) -> (r: Self)
        ensures
            r@ == values@,
    {
        Self { values, _marker: PhantomData }
    }

    /// Writes the enum numbers as a JSON array.
    pub fn serialize(&self) -> (r: Result<Json, CanonicalError>)
        ensures
            crate::codec::json_outcome(r) == Ok::<JsonValue, Seq<char>>(
                enum_seq_json::<E>(self@),
            ),
    {
        let mut items: Vec<Json> = Vec::new();
        let mut i: usize = 0;
        while i < self.values.len()
            invariant
                i <= self.values.len(),
                items@.len() == i,
                forall|k: int| 0 <= k < i ==> (#[trigger] items@[k])@ == enum_json::<E>(self.values@[k]),
            decreases self.values.len() - i,
        {
            items.push(enum_to_json::<E>(self.values[i]));
            i = i + 1;
        }
        proof {
            lemma_items_view(items@);
            assert(items_view(items@) =~= Seq::new(
                self.values@.len(),
                |i: int| enum_json::<E>(self.values@[i]),
            ));
        }
        Ok(Json::Array(items))
    }
}

/// Wraps a vector of enum numbers for canonical JSON deserialization.
pub struct CanonicalEnumVec<E>(pub Vec<i32>, pub PhantomData<E>);

impl<E: ProstEnum> CanonicalEnumVec<E> {
    /// Reads a JSON array of enum numbers; `null` stands for none.
    pub fn deserialize(json: &Json) -> (r: Result<Self, CanonicalError>)
        ensures
            match r {
                Ok(v) => enum_vec_from_json::<E>(json@) == Ok::<Seq<i32>, Seq<char>>(v.0@),
                Err(e) => enum_vec_from_json::<E>(json@) == Err::<Seq<i32>, Seq<char>>(e@),
            },
    {
        match json {
            Json::Array(items) => {
                let ghost all = items_view(items@);
                let ghost outcomes = Seq::new(all.len(), |i: int| enum_from_json::<E>(all[i]));
                let mut values: Vec<i32> = Vec::new();
                let mut i: usize = 0;
                proof {
                    lemma_items_view(items@);
                    assert(outcomes.take(0) =~= Seq::<Outcome<i32>>::empty());
                }
                while i < items.len()
                    invariant
                        i <= items.len(),
                        all == items_view(items@),
                        all.len() == items.len(),
                        forall|k: int| 0 <= k < items.len() ==> #[trigger] all[k] == items@[k]@,
                        outcomes == Seq::new(all.len(), |i: int| enum_from_json::<E>(all[i])),
                        json@ == JsonValue::Array(all),
                        collect(outcomes.take(i as int)) == Ok::<Seq<i32>, Seq<char>>(values@),
                    decreases items.len() - i,
                {
                    proof {
                        lemma_collect_step(outcomes, i as int);
                    }
                    match enum_from::<E>(&items[i]) {
                        Ok(v) => {
                            values.push(v);
                        },
                        Err(e) => {
                            proof {
                                lemma_collect_error(outcomes, i as int);
                            }
                            return Err(e);
                        },
                    }
                    i = i + 1;
                }
                assert(outcomes.take(items.len() as int) =~= outcomes);
                Ok(CanonicalEnumVec(values, PhantomData))
            },
            Json::Null => Ok(CanonicalEnumVec(Vec::new(), PhantomData)),
            _ => Err(CanonicalError::new("invalid type, expected a sequence")),
        }
    }
}

} // verus!
