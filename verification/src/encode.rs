//! Writing a message as canonical JSON, place by place.
//!
//! The places are written in declaration order under their JSON names. A
//! singular scalar or enum at its default, an optional field without a
//! value, an empty repeated field, an empty map and a oneof with no active
//! member are not written.
use crate::codec::{json_outcome, CanonicalSerialize};
use crate::duration::Duration;
use crate::error::{CanonicalError, Outcome};
use crate::field_mask::FieldMask;
use crate::float::{Float32, Float64};
use crate::json::{items_view, members_view, Json, JsonValue};
use crate::map::CanonicalMapKey;
use crate::message::{
    element_model, elements_model, entries_model, field_model, fields_model, key_model,
    lemma_elements_model, lemma_entries_model, lemma_fields_model, Element, ElementModel,
    FieldModel, FieldValue, KeyModel, MapKey, Message,
};
use crate::schema::{EnumDescriptor, KeyKind, Kind, Schema, Shape, Slot};
use crate::timestamp::Timestamp;
use crate::value::{Any, ListValue, Struct, Value};
use vstd::prelude::*;

verus! {

impl EnumDescriptor {
    /// The JSON of an enum number: `null` for the null value; the name of
    /// the first variant with that number where there is one; else the
    /// number itself.
    pub open spec fn json_of(self, value: i32) -> JsonValue {
        let i = self.place_of_number(value);
        if self.null_value && value == 0 {
            JsonValue::Null
        } else if 0 <= i < self.variants@.len() {
            JsonValue::Str(self.variants@[i].name@, None)
        } else {
            JsonValue::Int(value as i64)
        }
    }

    /// Writes the variant at place `place` as JSON: its name.
    pub fn variant_to_json(&self, place: usize) -> (r: Json)
        requires
            place < self.variants@.len(),
        ensures
            r@ == JsonValue::Str(self.variants@[place as int].name@, None),
    {
        Json::Str(self.variants[place].name.clone(), None)
    }

    /// Writes an enum number as JSON.
    pub fn to_json(&self, value: i32) -> (r: Json)
        ensures
            r@ == self.json_of(value),
    {
        if self.null_value && value == 0 {
            return Json::Null;
        }
        match self.from_i32(value) {
            Some(i) => Json::Str(self.variants[i].name.clone(), None),
            None => Json::Int(value as i64),
        }
    }
}

/// Whether a value is of the kind.
pub open spec fn of_kind(kind: Kind, e: ElementModel) -> bool {
    match (kind, e) {
        (Kind::Bool, ElementModel::Bool(_)) => true,
        (Kind::Int32, ElementModel::Int32(_)) => true,
        (Kind::Uint32, ElementModel::Uint32(_)) => true,
        (Kind::Int64, ElementModel::Int64(_)) => true,
        (Kind::Uint64, ElementModel::Uint64(_)) => true,
        (Kind::Float, ElementModel::Float(_)) => true,
        (Kind::Double, ElementModel::Double(_)) => true,
        (Kind::String, ElementModel::String(_)) => true,
        (Kind::Bytes, ElementModel::Bytes(_)) => true,
        (Kind::Enum(_), ElementModel::Enum(_)) => true,
        (Kind::Message(_), ElementModel::Message(_)) => true,
        (Kind::Timestamp, ElementModel::Timestamp(_)) => true,
        (Kind::Duration, ElementModel::Duration(_)) => true,
        (Kind::FieldMask, ElementModel::FieldMask(_)) => true,
        (Kind::Struct, ElementModel::Struct(_)) => true,
        (Kind::Value, ElementModel::Value(_)) => true,
        (Kind::ListValue, ElementModel::ListValue(_)) => true,
        (Kind::Any, ElementModel::Any(_, _)) => true,
        _ => false,
    }
}

/// Whether a scalar or enum value is the default of its kind: `false`,
/// zero of either sign, the empty string, no bytes, the enum number zero.
/// A message is never at a default.
pub open spec fn is_default(e: ElementModel) -> bool {
    match e {
        ElementModel::Bool(b) => !b,
        ElementModel::Int32(v) => v == 0,
        ElementModel::Uint32(v) => v == 0,
        ElementModel::Int64(v) => v == 0,
        ElementModel::Uint64(v) => v == 0,
        ElementModel::Float(f) => f.magnitude() == 0,
        ElementModel::Double(f) => f.magnitude() == 0,
        ElementModel::String(s) => s.len() == 0,
        ElementModel::Bytes(b) => b.len() == 0,
        ElementModel::Enum(v) => v == 0,
        _ => false,
    }
}

/// The text of a map key of the given kind.
pub open spec fn key_json(kind: KeyKind, key: KeyModel) -> Outcome<Seq<char>> {
    match (kind, key) {
        (KeyKind::String, KeyModel::String(s)) => Ok(<String as CanonicalMapKey>::key_text(s)),
        (KeyKind::Bool, KeyModel::Bool(b)) => Ok(<bool as CanonicalMapKey>::key_text(b)),
        (KeyKind::Int32, KeyModel::Int32(v)) => Ok(<i32 as CanonicalMapKey>::key_text(v)),
        (KeyKind::Int64, KeyModel::Int64(v)) => Ok(<i64 as CanonicalMapKey>::key_text(v)),
        (KeyKind::Uint32, KeyModel::Uint32(v)) => Ok(<u32 as CanonicalMapKey>::key_text(v)),
        (KeyKind::Uint64, KeyModel::Uint64(v)) => Ok(<u64 as CanonicalMapKey>::key_text(v)),
        _ => Err("value does not match its kind"@),
    }
}

/// The JSON of one value of the given kind.
pub open spec fn element_json(schema: Schema, kind: Kind, e: ElementModel) -> Outcome<JsonValue>
    decreases e, 0nat,
{
    match (kind, e) {
        (Kind::Bool, ElementModel::Bool(v)) => <bool as CanonicalSerialize>::canonical_json(v),
        (Kind::Int32, ElementModel::Int32(v)) => <i32 as CanonicalSerialize>::canonical_json(v),
        (Kind::Uint32, ElementModel::Uint32(v)) => <u32 as CanonicalSerialize>::canonical_json(v),
        (Kind::Int64, ElementModel::Int64(v)) => <i64 as CanonicalSerialize>::canonical_json(v),
        (Kind::Uint64, ElementModel::Uint64(v)) => <u64 as CanonicalSerialize>::canonical_json(v),
        (Kind::Float, ElementModel::Float(v)) => <Float32 as CanonicalSerialize>::canonical_json(v),
        (Kind::Double, ElementModel::Double(v)) => <Float64 as CanonicalSerialize>::canonical_json(
            v,
        ),
        (Kind::String, ElementModel::String(v)) => <String as CanonicalSerialize>::canonical_json(v),
        (Kind::Bytes, ElementModel::Bytes(v)) => <Vec<u8> as CanonicalSerialize>::canonical_json(v),
        (Kind::Enum(i), ElementModel::Enum(v)) => if i < schema.enums@.len() {
            Ok(schema.enums@[i as int].json_of(v))
        } else {
            Err("unknown enum type"@)
        },
        (Kind::Message(i), ElementModel::Message(fields)) => message_json(schema, i, fields),
        (Kind::Timestamp, ElementModel::Timestamp(v)) => <Timestamp as CanonicalSerialize>::canonical_json(
            v,
        ),
        (Kind::Duration, ElementModel::Duration(v)) => <Duration as CanonicalSerialize>::canonical_json(
            v,
        ),
        (Kind::FieldMask, ElementModel::FieldMask(v)) => <FieldMask as CanonicalSerialize>::canonical_json(
            v,
        ),
        (Kind::Struct, ElementModel::Struct(v)) => <Struct as CanonicalSerialize>::canonical_json(v),
        (Kind::Value, ElementModel::Value(v)) => <Value as CanonicalSerialize>::canonical_json(v),
        (Kind::ListValue, ElementModel::ListValue(v)) => <ListValue as CanonicalSerialize>::canonical_json(
            v,
        ),
        (Kind::Any, ElementModel::Any(url, bytes)) => <Any as CanonicalSerialize>::canonical_json(
            (url, bytes),
        ),
        _ => Err("value does not match its kind"@),
    }
}

/// The JSON of each value of a row, or the first error among them.
pub open spec fn elements_json(schema: Schema, kind: Kind, es: Seq<ElementModel>) -> Outcome<
    Seq<JsonValue>,
>
    decreases es, 0nat,
{
    if es.len() == 0 {
        Ok(Seq::empty())
    } else {
        match elements_json(schema, kind, es.drop_last()) {
            Err(m) => Err(m),
            Ok(done) => match element_json(schema, kind, es.last()) {
                Err(m) => Err(m),
                Ok(j) => Ok(done.push(j)),
            },
        }
    }
}

/// The member of a JSON object that one entry of a map is written as.
pub open spec fn entry_json(schema: Schema, keys: KeyKind, kind: Kind, entry: (
    KeyModel,
    ElementModel,
)) -> Outcome<(Seq<char>, JsonValue)>
    decreases entry.1, 1nat,
{
    match key_json(keys, entry.0) {
        Err(m) => Err(m),
        Ok(k) => match element_json(schema, kind, entry.1) {
            Err(m) => Err(m),
            Ok(j) => Ok((k, j)),
        },
    }
}

/// The members that the entries of a map are written as, or the first
/// error among them.
pub open spec fn entries_json(
    schema: Schema,
    keys: KeyKind,
    kind: Kind,
    entries: Seq<(KeyModel, ElementModel)>,
) -> Outcome<Seq<(Seq<char>, JsonValue)>>
    decreases entries, 0nat,
{
    if entries.len() == 0 {
        Ok(Seq::empty())
    } else {
        match entries_json(schema, keys, kind, entries.drop_last()) {
            Err(m) => Err(m),
            Ok(done) => match entry_json(schema, keys, kind, entries.last()) {
                Err(m) => Err(m),
                Ok(member) => Ok(done.push(member)),
            },
        }
    }
}

/// A value under a name.
pub open spec fn named_json(name: Seq<char>, json: Outcome<JsonValue>) -> Outcome<
    Option<(Seq<char>, JsonValue)>,
> {
    match json {
        Ok(j) => Ok(Some((name, j))),
        Err(m) => Err(m),
    }
}

/// The member that one place of a message is written as, if it is written.
pub open spec fn slot_json(schema: Schema, slot: Slot, field: FieldModel) -> Outcome<
    Option<(Seq<char>, JsonValue)>,
>
    decreases field, 0nat,
{
    match (slot, field) {
        (Slot::Field(f), FieldModel::Singular(e)) => if f.shape != Shape::Singular || !of_kind(
            f.kind,
            e,
        ) {
            Err("message does not match its descriptor"@)
        } else if is_default(e) {
            Ok(None)
        } else {
            named_json(f.json_name@, element_json(schema, f.kind, e))
        },
        (Slot::Field(f), FieldModel::Optional(o)) => if f.shape != Shape::Optional {
            Err("message does not match its descriptor"@)
        } else {
            match o {
                None => Ok(None),
                Some(e) => named_json(f.json_name@, element_json(schema, f.kind, e)),
            }
        },
        (Slot::Field(f), FieldModel::Repeated(es)) => if f.shape != Shape::Repeated {
            Err("message does not match its descriptor"@)
        } else if es.len() == 0 {
            Ok(None)
        } else {
            match elements_json(schema, f.kind, es) {
                Ok(items) => Ok(Some((f.json_name@, JsonValue::Array(items)))),
                Err(m) => Err(m),
            }
        },
        (Slot::Field(f), FieldModel::Keyed(entries)) => match f.shape {
            Shape::Keyed(keys) => if entries.len() == 0 {
                Ok(None)
            } else {
                match entries_json(schema, keys, f.kind, entries) {
                    Ok(members) => Ok(Some((f.json_name@, JsonValue::Object(members)))),
                    Err(m) => Err(m),
                }
            },
            _ => Err("message does not match its descriptor"@),
        },
        (Slot::Oneof(members), FieldModel::Oneof(active)) => match active {
            None => Ok(None),
            Some((i, e)) => if i < members@.len() {
                named_json(members@[i as int].json_name@, element_json(schema, members@[i as int].kind, e))
            } else {
                Err("message does not match its descriptor"@)
            },
        },
        _ => Err("message does not match its descriptor"@),
    }
}

/// The members that the places of a message are written as, or the first
/// error among them. `slots` and `fields` have the same length.
pub open spec fn slots_json(schema: Schema, slots: Seq<Slot>, fields: Seq<FieldModel>) -> Outcome<
    Seq<(Seq<char>, JsonValue)>,
>
    decreases fields, 0nat,
{
    if fields.len() == 0 || slots.len() == 0 {
        Ok(Seq::empty())
    } else {
        match slots_json(schema, slots.drop_last(), fields.drop_last()) {
            Err(m) => Err(m),
            Ok(done) => match slot_json(schema, slots.last(), fields.last()) {
                Err(m) => Err(m),
                Ok(None) => Ok(done),
                Ok(Some(member)) => Ok(done.push(member)),
            },
        }
    }
}

/// The JSON object of a message of the type at place `index` of the schema.
pub open spec fn message_json(schema: Schema, index: usize, fields: Seq<FieldModel>) -> Outcome<
    JsonValue,
>
    decreases fields, 1nat,
{
    if index >= schema.messages@.len() {
        Err("unknown message type"@)
    } else if schema.messages@[index as int].slots@.len() != fields.len() {
        Err("message does not match its descriptor"@)
    } else {
        match slots_json(schema, schema.messages@[index as int].slots@, fields) {
            Ok(members) => Ok(JsonValue::Object(members)),
            Err(m) => Err(m),
        }
    }
}

/// An error at one value, with none before it, is the error of the row.
pub proof fn lemma_elements_json_error(schema: Schema, kind: Kind, es: Seq<ElementModel>, i: int)
    requires
        0 <= i < es.len(),
        elements_json(schema, kind, es.take(i)) is Ok,
        element_json(schema, kind, es[i]) is Err,
    ensures
        elements_json(schema, kind, es) == Err::<Seq<JsonValue>, Seq<char>>(
            element_json(schema, kind, es[i])->Err_0,
        ),
    decreases es.len(),
{
    if i == es.len() - 1 {
        assert(es.drop_last() =~= es.take(i));
    } else {
        assert(es.drop_last().take(i) =~= es.take(i));
        lemma_elements_json_error(schema, kind, es.drop_last(), i);
    }
}

/// An error at one entry, with none before it, is the error of the map.
pub proof fn lemma_entries_json_error(
    schema: Schema,
    keys: KeyKind,
    kind: Kind,
    entries: Seq<(KeyModel, ElementModel)>,
    i: int,
)
    requires
        0 <= i < entries.len(),
        entries_json(schema, keys, kind, entries.take(i)) is Ok,
        entry_json(schema, keys, kind, entries[i]) is Err,
    ensures
        entries_json(schema, keys, kind, entries) == Err::<Seq<(Seq<char>, JsonValue)>, Seq<char>>(
            entry_json(schema, keys, kind, entries[i])->Err_0,
        ),
    decreases entries.len(),
{
    if i == entries.len() - 1 {
        assert(entries.drop_last() =~= entries.take(i));
    } else {
        assert(entries.drop_last().take(i) =~= entries.take(i));
        lemma_entries_json_error(schema, keys, kind, entries.drop_last(), i);
    }
}

/// An error at one place, with none before it, is the error of the message.
pub proof fn lemma_slots_json_error(
    schema: Schema,
    slots: Seq<Slot>,
    fields: Seq<FieldModel>,
    i: int,
)
    requires
        0 <= i < fields.len(),
        slots.len() == fields.len(),
        slots_json(schema, slots.take(i), fields.take(i)) is Ok,
        slot_json(schema, slots[i], fields[i]) is Err,
    ensures
        slots_json(schema, slots, fields) == Err::<Seq<(Seq<char>, JsonValue)>, Seq<char>>(
            slot_json(schema, slots[i], fields[i])->Err_0,
        ),
    decreases fields.len(),
{
    if i == fields.len() - 1 {
        assert(fields.drop_last() =~= fields.take(i));
        assert(slots.drop_last() =~= slots.take(i));
    } else {
        assert(fields.drop_last().take(i) =~= fields.take(i));
        assert(slots.drop_last().take(i) =~= slots.take(i));
        lemma_slots_json_error(schema, slots.drop_last(), fields.drop_last(), i);
    }
}

/// Whether a value is the default of its kind.
pub fn element_is_default(e: &Element) -> (r: bool)
    ensures
        r == is_default(element_model(*e)),
{
    match e {
        Element::Bool(b) => !*b,
        Element::Int32(v) => *v == 0,
        Element::Uint32(v) => *v == 0,
        Element::Int64(v) => *v == 0,
        Element::Uint64(v) => *v == 0,
        Element::Float(f) => f.bits % crate::float::SINGLE_SIGN == 0,
        Element::Double(f) => f.bits % crate::float::DOUBLE_SIGN == 0,
        Element::String(s) => s.as_str().unicode_len() == 0,
        Element::Bytes(b) => b.len() == 0,
        Element::Enum(v) => *v == 0,
        _ => false,
    }
}

/// Whether a value is of the kind.
pub fn element_of_kind(kind: Kind, e: &Element) -> (r: bool)
    ensures
        r == of_kind(kind, element_model(*e)),
{
    match (kind, e) {
        (Kind::Bool, Element::Bool(_)) => true,
        (Kind::Int32, Element::Int32(_)) => true,
        (Kind::Uint32, Element::Uint32(_)) => true,
        (Kind::Int64, Element::Int64(_)) => true,
        (Kind::Uint64, Element::Uint64(_)) => true,
        (Kind::Float, Element::Float(_)) => true,
        (Kind::Double, Element::Double(_)) => true,
        (Kind::String, Element::String(_)) => true,
        (Kind::Bytes, Element::Bytes(_)) => true,
        (Kind::Enum(_), Element::Enum(_)) => true,
        (Kind::Message(_), Element::Message(_)) => true,
        (Kind::Timestamp, Element::Timestamp(_)) => true,
        (Kind::Duration, Element::Duration(_)) => true,
        (Kind::FieldMask, Element::FieldMask(_)) => true,
        (Kind::Struct, Element::Struct(_)) => true,
        (Kind::Value, Element::Value(_)) => true,
        (Kind::ListValue, Element::ListValue(_)) => true,
        (Kind::Any, Element::Any(_)) => true,
        _ => false,
    }
}

/// Writes a map key as text.
pub fn encode_key(kind: KeyKind, key: &MapKey) -> (r: Result<String, CanonicalError>)
    ensures
        crate::codec::value_outcome(r) == key_json(kind, key_model(*key)),
{
    match (kind, key) {
        (KeyKind::String, MapKey::String(s)) => Ok(s.to_key()),
        (KeyKind::Bool, MapKey::Bool(b)) => Ok(b.to_key()),
        (KeyKind::Int32, MapKey::Int32(v)) => Ok(v.to_key()),
        (KeyKind::Int64, MapKey::Int64(v)) => Ok(v.to_key()),
        (KeyKind::Uint32, MapKey::Uint32(v)) => Ok(v.to_key()),
        (KeyKind::Uint64, MapKey::Uint64(v)) => Ok(v.to_key()),
        _ => Err(CanonicalError::new("value does not match its kind")),
    }
}

/// Writes one value of the given kind as JSON.
pub fn encode_element(schema: &Schema, kind: Kind, e: &Element) -> (r: Result<Json, CanonicalError>)
    ensures
        json_outcome(r) == element_json(*schema, kind, element_model(*e)),
    decreases e,
{
    match (kind, e) {
        (Kind::Bool, Element::Bool(v)) => v.serialize_canonical(),
        (Kind::Int32, Element::Int32(v)) => v.serialize_canonical(),
        (Kind::Uint32, Element::Uint32(v)) => v.serialize_canonical(),
        (Kind::Int64, Element::Int64(v)) => v.serialize_canonical(),
        (Kind::Uint64, Element::Uint64(v)) => v.serialize_canonical(),
        (Kind::Float, Element::Float(v)) => v.serialize_canonical(),
        (Kind::Double, Element::Double(v)) => v.serialize_canonical(),
        (Kind::String, Element::String(v)) => v.serialize_canonical(),
        (Kind::Bytes, Element::Bytes(v)) => {
            assert(v.deep_view() =~= v@);
            v.serialize_canonical()
        },
        (Kind::Enum(i), Element::Enum(v)) => {
            if i < schema.enums.len() {
                Ok(schema.enums[i].to_json(*v))
            } else {
                Err(CanonicalError::new("unknown enum type"))
            }
        },
        (Kind::Message(i), Element::Message(m)) => encode_message(schema, i, m),
        (Kind::Timestamp, Element::Timestamp(v)) => v.serialize_canonical(),
        (Kind::Duration, Element::Duration(v)) => v.serialize_canonical(),
        (Kind::FieldMask, Element::FieldMask(v)) => v.serialize_canonical(),
        (Kind::Struct, Element::Struct(v)) => v.serialize_canonical(),
        (Kind::Value, Element::Value(v)) => v.serialize_canonical(),
        (Kind::ListValue, Element::ListValue(v)) => v.serialize_canonical(),
        (Kind::Any, Element::Any(v)) => v.serialize_canonical(),
        _ => Err(CanonicalError::new("value does not match its kind")),
    }
}

/// Writes each value of a row as JSON.
pub fn encode_elements(schema: &Schema, kind: Kind, es: &Vec<Element>) -> (r: Result<
    Vec<Json>,
    CanonicalError,
>)
    ensures
        match r {
            Ok(items) => elements_json(*schema, kind, elements_model(es@)) == Ok::<
                Seq<JsonValue>,
                Seq<char>,
            >(items_view(items@)),
            Err(e) => elements_json(*schema, kind, elements_model(es@)) == Err::<
                Seq<JsonValue>,
                Seq<char>,
            >(e@),
        },
    decreases es,
{
    let ghost all = elements_model(es@);
    let mut items: Vec<Json> = Vec::new();
    let mut i: usize = 0;
    proof {
        lemma_elements_model(es@);
        assert(all.take(0) =~= Seq::<ElementModel>::empty());
    }
    while i < es.len()
        invariant
            i <= es.len(),
            all == elements_model(es@),
            all.len() == es.len(),
            forall|k: int| 0 <= k < es.len() ==> #[trigger] all[k] == element_model(es@[k]),
            elements_json(*schema, kind, all.take(i as int)) == Ok::<Seq<JsonValue>, Seq<char>>(
                items_view(items@),
            ),
        decreases es.len() - i,
    {
        proof {
            let next = all.take(i + 1);
            assert(next.drop_last() =~= all.take(i as int));
            assert(next.last() == all[i as int]);
        }
        match encode_element(schema, kind, &es[i]) {
            Err(e) => {
                proof {
                    lemma_elements_json_error(*schema, kind, all, i as int);
                }
                return Err(e);
            },
            Ok(j) => {
                let ghost before = items@;
                items.push(j);
                assert(items@.drop_last() =~= before);
            },
        }
        i = i + 1;
    }
    assert(all.take(es.len() as int) =~= all);
    Ok(items)
}

/// Writes each entry of a map as a member of a JSON object.
pub fn encode_entries(schema: &Schema, keys: KeyKind, kind: Kind, entries: &Vec<(MapKey, Element)>) -> (r:
    Result<Vec<(String, Json)>, CanonicalError>)
    ensures
        match r {
            Ok(members) => entries_json(*schema, keys, kind, entries_model(entries@)) == Ok::<
                Seq<(Seq<char>, JsonValue)>,
                Seq<char>,
            >(members_view(members@)),
            Err(e) => entries_json(*schema, keys, kind, entries_model(entries@)) == Err::<
                Seq<(Seq<char>, JsonValue)>,
                Seq<char>,
            >(e@),
        },
    decreases entries,
{
    let ghost all = entries_model(entries@);
    let mut members: Vec<(String, Json)> = Vec::new();
    let mut i: usize = 0;
    proof {
        lemma_entries_model(entries@);
        assert(all.take(0) =~= Seq::<(KeyModel, ElementModel)>::empty());
    }
    while i < entries.len()
        invariant
            i <= entries.len(),
            all == entries_model(entries@),
            all.len() == entries.len(),
            forall|k: int|
                0 <= k < entries.len() ==> #[trigger] all[k] == (
                    key_model(entries@[k].0),
                    element_model(entries@[k].1),
                ),
            entries_json(*schema, keys, kind, all.take(i as int)) == Ok::<
                Seq<(Seq<char>, JsonValue)>,
                Seq<char>,
            >(members_view(members@)),
        decreases entries.len() - i,
    {
        proof {
            let next = all.take(i + 1);
            assert(next.drop_last() =~= all.take(i as int));
            assert(next.last() == all[i as int]);
        }
        let key = match encode_key(keys, &entries[i].0) {
            Ok(key) => key,
            Err(e) => {
                proof {
                    lemma_entries_json_error(*schema, keys, kind, all, i as int);
                }
                return Err(e);
            },
        };
        match encode_element(schema, kind, &entries[i].1) {
            Err(e) => {
                proof {
                    lemma_entries_json_error(*schema, keys, kind, all, i as int);
                }
                return Err(e);
            },
            Ok(j) => {
                let ghost before = members@;
                members.push((key, j));
                assert(members@.drop_last() =~= before);
            },
        }
        i = i + 1;
    }
    assert(all.take(entries.len() as int) =~= all);
    Ok(members)
}

/// Writes a value under a name.
fn named(name: &String, json: Result<Json, CanonicalError>) -> (r: Result<
    Option<(String, Json)>,
    CanonicalError,
>)
    ensures
        member_outcome(r) == named_json(name@, json_outcome(json)),
{
    match json {
        Ok(j) => Ok(Some((name.clone(), j))),
        Err(e) => Err(e),
    }
}

/// An optional member as an outcome over models.
pub open spec fn member_outcome(r: Result<Option<(String, Json)>, CanonicalError>) -> Outcome<
    Option<(Seq<char>, JsonValue)>,
> {
    match r {
        Ok(Some(member)) => Ok(Some((member.0@, member.1@))),
        Ok(None) => Ok(None),
        Err(e) => Err(e@),
    }
}

/// Writes one place of a message as a member of a JSON object, if it is to
/// be written.
pub fn encode_slot(schema: &Schema, slot: &Slot, field: &FieldValue) -> (r: Result<
    Option<(String, Json)>,
    CanonicalError,
>)
    ensures
        member_outcome(r) == slot_json(*schema, *slot, field_model(*field)),
    decreases field,
{
    match (slot, field) {
        (Slot::Field(f), FieldValue::Singular(e)) => {
            if !matches!(f.shape, Shape::Singular) || !element_of_kind(f.kind, e) {
                Err(CanonicalError::new("message does not match its descriptor"))
            } else if element_is_default(e) {
                Ok(None)
            } else {
                named(&f.json_name, encode_element(schema, f.kind, e))
            }
        },
        (Slot::Field(f), FieldValue::Optional(o)) => {
            if !matches!(f.shape, Shape::Optional) {
                Err(CanonicalError::new("message does not match its descriptor"))
            } else {
                match o {
                    None => Ok(None),
                    Some(e) => named(&f.json_name, encode_element(schema, f.kind, e)),
                }
            }
        },
        (Slot::Field(f), FieldValue::Repeated(es)) => {
            if !matches!(f.shape, Shape::Repeated) {
                Err(CanonicalError::new("message does not match its descriptor"))
            } else if es.len() == 0 {
                proof {
                    lemma_elements_model(es@);
                }
                Ok(None)
            } else {
                proof {
                    lemma_elements_model(es@);
                }
                match encode_elements(schema, f.kind, es) {
                    Ok(items) => Ok(Some((f.json_name.clone(), Json::Array(items)))),
                    Err(e) => Err(e),
                }
            }
        },
        (Slot::Field(f), FieldValue::Keyed(entries)) => {
            proof {
                lemma_entries_model(entries@);
            }
            match f.shape {
                Shape::Keyed(keys) => {
                    if entries.len() == 0 {
                        Ok(None)
                    } else {
                        match encode_entries(schema, keys, f.kind, entries) {
                            Ok(members) => Ok(Some((f.json_name.clone(), Json::Object(members)))),
                            Err(e) => Err(e),
                        }
                    }
                },
                _ => Err(CanonicalError::new("message does not match its descriptor")),
            }
        },
        (Slot::Oneof(members), FieldValue::Oneof(active)) => match active {
            None => Ok(None),
            Some((i, e)) => {
                if *i < members.len() {
                    named(&members[*i].json_name, encode_element(schema, members[*i].kind, e))
                } else {
                    Err(CanonicalError::new("message does not match its descriptor"))
                }
            },
        },
        _ => Err(CanonicalError::new("message does not match its descriptor")),
    }
}

/// Writes a message of the type at place `index` of the schema as a JSON
/// object.
pub fn encode_message(schema: &Schema, index: usize, message: &Message) -> (r: Result<
    Json,
    CanonicalError,
>)
    ensures
        json_outcome(r) == message_json(*schema, index, message.deep_view()),
    decreases message,
{
    if index >= schema.messages.len() {
        return Err(CanonicalError::new("unknown message type"));
    }
    let slots = &schema.messages[index].slots;
    proof {
        lemma_fields_model(message.fields@);
    }
    if slots.len() != message.fields.len() {
        return Err(CanonicalError::new("message does not match its descriptor"));
    }
    let ghost all = fields_model(message.fields@);
    let mut members: Vec<(String, Json)> = Vec::new();
    let mut i: usize = 0;
    proof {
        assert(all.take(0) =~= Seq::<FieldModel>::empty());
    }
    while i < slots.len()
        invariant
            i <= slots.len(),
            slots@.len() == message.fields@.len(),
            index < schema.messages@.len(),
            slots == &schema.messages@[index as int].slots,
            all == fields_model(message.fields@),
            all.len() == message.fields@.len(),
            forall|k: int|
                0 <= k < message.fields@.len() ==> #[trigger] all[k] == field_model(
                    message.fields@[k],
                ),
            slots_json(*schema, slots@.take(i as int), all.take(i as int)) == Ok::<
                Seq<(Seq<char>, JsonValue)>,
                Seq<char>,
            >(members_view(members@)),
        decreases slots.len() - i,
    {
        proof {
            let next = all.take(i + 1);
            assert(next.drop_last() =~= all.take(i as int));
            assert(next.last() == all[i as int]);
            let next_slots = slots@.take(i + 1);
            assert(next_slots.drop_last() =~= slots@.take(i as int));
            assert(next_slots.last() == slots@[i as int]);
        }
        match encode_slot(schema, &slots[i], &message.fields[i]) {
            Err(e) => {
                proof {
                    lemma_slots_json_error(*schema, slots@, all, i as int);
                }
                return Err(e);
            },
            Ok(None) => {},
            Ok(Some(member)) => {
                let ghost before = members@;
                members.push(member);
                assert(members@.drop_last() =~= before);
            },
        }
        i = i + 1;
    }
    proof {
        assert(all.take(slots.len() as int) =~= all);
        assert(slots@.take(slots.len() as int) =~= slots@);
    }
    Ok(Json::Object(members))
}

} // verus!
