//! Reading a message from canonical JSON, member by member.
//!
//! Every place starts at its default. Each member of the JSON object then
//! sets the place that its key names, by JSON name or by protobuf name; a
//! member whose key names nothing is passed over. `null` leaves a place as
//! it is, or empties it where the place can be empty.
use crate::codec::{value_outcome, CanonicalDeserialize};
use crate::duration::Duration;
use crate::error::{CanonicalError, Outcome};
use crate::field_mask::FieldMask;
use crate::float::{Float32, Float64};
use crate::json::{items_view, lemma_items_view, lemma_members_view, members_view, Json, JsonValue};
use crate::map::CanonicalMapKey;
use crate::message::{
    element_model, elements_model, entries_model, field_model, fields_model, key_model,
    lemma_elements_model_push, lemma_entries_model, lemma_fields_model, lemma_fields_model_push,
    Element, ElementModel, FieldModel, FieldValue, KeyModel, MapKey, Message,
};
use crate::number::{i32_from_str, i32_from_str_spec, outcome_of};
use crate::schema::{
    EnumDescriptor, FieldDescriptor, KeyKind, Kind, MessageDescriptor, Named, Schema, Shape, Slot,
};
use crate::text::same_text;
use crate::timestamp::Timestamp;
use crate::value::{
    field_models, lemma_key_index, list_models, upsert, Any, ListValue, Struct, Value, ValueModel,
};
use vstd::prelude::*;

verus! {

impl EnumDescriptor {
    /// The enum number that JSON stands for: the number of the first
    /// variant with the name, or an integer in the `i32` range, known or
    /// not; `null` for the null value only.
    pub open spec fn number_of(self, json: JsonValue) -> Outcome<i32> {
        match json {
            JsonValue::Null => if self.null_value {
                Ok(0)
            } else {
                Err("invalid enum value"@)
            },
            JsonValue::Str(text, reading) => {
                let i = self.place_of_name(text);
                if self.null_value && text == "NULL_VALUE"@ {
                    Ok(0)
                } else if 0 <= i < self.variants@.len() {
                    Ok(self.variants@[i].number)
                } else {
                    match i32_from_str_spec(text, reading) {
                        Ok(n) => Ok(n as i32),
                        Err(_) => Err("invalid enum string"@),
                    }
                }
            },
            JsonValue::Int(v) => if i32::MIN <= v <= i32::MAX {
                Ok(v as i32)
            } else {
                Err("enum number out of range"@)
            },
            JsonValue::Uint(v) => if v <= i32::MAX {
                Ok(v as i32)
            } else {
                Err("enum number out of range"@)
            },
            _ => Err("invalid type, expected enum string or number"@),
        }
    }

    /// The place of the variant that JSON stands for, for an enum that is
    /// held by its variants: the number that is read must be that of a
    /// variant.
    pub open spec fn variant_of(self, json: JsonValue) -> Outcome<usize> {
        match self.number_of(json) {
            Err(m) => Err(m),
            Ok(number) => if 0 <= self.place_of_number(number) < self.variants@.len() {
                Ok(self.place_of_number(number) as usize)
            } else {
                Err("unknown enum number"@)
            },
        }
    }

    /// Reads JSON as a variant of the enum.
    pub fn variant_from_json(&self, json: &Json) -> (r: Result<usize, CanonicalError>)
        ensures
            outcome_of(r) == self.variant_of(json@),
    {
        match self.from_json(json) {
            Err(e) => Err(e),
            Ok(number) => match self.from_i32(number) {
                Some(place) => Ok(place),
                None => Err(CanonicalError::new("unknown enum number")),
            },
        }
    }

    /// Reads JSON as an enum number.
    pub fn from_json(&self, json: &Json) -> (r: Result<i32, CanonicalError>)
        ensures
            outcome_of(r) == self.number_of(json@),
    {
        match json {
            Json::Null => {
                if self.null_value {
                    Ok(0)
                } else {
                    Err(CanonicalError::new("invalid enum value"))
                }
            },
            Json::Str(text, reading) => {
                if self.null_value && same_text(text.as_str(), "NULL_VALUE") {
                    return Ok(0);
                }
                match self.from_str_name(text.as_str()) {
                    Some(i) => Ok(self.variants[i].number),
                    None => match i32_from_str(text.as_str(), *reading) {
                        Ok(n) => Ok(n),
                        Err(_) => Err(CanonicalError::new("invalid enum string")),
                    },
                }
            },
            Json::Int(v) => {
                if -2_147_483_648 <= *v && *v <= 2_147_483_647 {
                    Ok(*v as i32)
                } else {
                    Err(CanonicalError::new("enum number out of range"))
                }
            },
            Json::Uint(v) => {
                if *v <= 2_147_483_647 {
                    Ok(*v as i32)
                } else {
                    Err(CanonicalError::new("enum number out of range"))
                }
            },
            _ => Err(CanonicalError::new("invalid type, expected enum string or number")),
        }
    }
}

/// The map key of the given kind that text stands for.
pub open spec fn key_from_json(kind: KeyKind, text: Seq<char>) -> Outcome<KeyModel> {
    match kind {
        KeyKind::String => Ok(KeyModel::String(text)),
        KeyKind::Bool => match <bool as CanonicalMapKey>::key_from_text(text) {
            Ok(v) => Ok(KeyModel::Bool(v)),
            Err(m) => Err(m),
        },
        KeyKind::Int32 => match <i32 as CanonicalMapKey>::key_from_text(text) {
            Ok(v) => Ok(KeyModel::Int32(v)),
            Err(m) => Err(m),
        },
        KeyKind::Int64 => match <i64 as CanonicalMapKey>::key_from_text(text) {
            Ok(v) => Ok(KeyModel::Int64(v)),
            Err(m) => Err(m),
        },
        KeyKind::Uint32 => match <u32 as CanonicalMapKey>::key_from_text(text) {
            Ok(v) => Ok(KeyModel::Uint32(v)),
            Err(m) => Err(m),
        },
        KeyKind::Uint64 => match <u64 as CanonicalMapKey>::key_from_text(text) {
            Ok(v) => Ok(KeyModel::Uint64(v)),
            Err(m) => Err(m),
        },
    }
}

/// The default of a kind, for a place of the message type at place `owner`
/// of the schema. A message type can hold directly, as a singular field,
/// only message types that stand before it in the schema.
pub open spec fn default_element(schema: Schema, kind: Kind, owner: usize) -> Outcome<ElementModel>
    decreases owner, 0nat, 0nat,
{
    match kind {
        Kind::Bool => Ok(ElementModel::Bool(false)),
        Kind::Int32 => Ok(ElementModel::Int32(0)),
        Kind::Uint32 => Ok(ElementModel::Uint32(0)),
        Kind::Int64 => Ok(ElementModel::Int64(0)),
        Kind::Uint64 => Ok(ElementModel::Uint64(0)),
        Kind::Float => Ok(ElementModel::Float(Float32 { bits: 0 })),
        Kind::Double => Ok(ElementModel::Double(Float64 { bits: 0 })),
        Kind::String => Ok(ElementModel::String(Seq::empty())),
        Kind::Bytes => Ok(ElementModel::Bytes(Seq::empty())),
        Kind::Enum(_) => Ok(ElementModel::Enum(0)),
        Kind::Message(i) => if i < owner {
            match default_message(schema, i) {
                Ok(fields) => Ok(ElementModel::Message(fields)),
                Err(m) => Err(m),
            }
        } else {
            Err("a message type holds itself directly"@)
        },
        Kind::Timestamp => Ok(ElementModel::Timestamp(Timestamp { seconds: 0, nanos: 0 })),
        Kind::Duration => Ok(ElementModel::Duration(Duration { seconds: 0, nanos: 0 })),
        Kind::FieldMask => Ok(ElementModel::FieldMask(Seq::empty())),
        Kind::Struct => Ok(ElementModel::Struct(Seq::empty())),
        Kind::Value => Ok(ElementModel::Value(ValueModel::Unset)),
        Kind::ListValue => Ok(ElementModel::ListValue(Seq::empty())),
        Kind::Any => Ok(ElementModel::Any(Seq::empty(), Seq::empty())),
    }
}

/// What a place holds before anything is read into it.
pub open spec fn default_field(schema: Schema, slot: Slot, owner: usize) -> Outcome<FieldModel>
    decreases owner, 0nat, 1nat,
{
    match slot {
        Slot::Oneof(_) => Ok(FieldModel::Oneof(None)),
        Slot::Field(f) => match f.shape {
            Shape::Singular => match default_element(schema, f.kind, owner) {
                Ok(e) => Ok(FieldModel::Singular(e)),
                Err(m) => Err(m),
            },
            Shape::Optional => Ok(FieldModel::Optional(None)),
            Shape::Repeated => Ok(FieldModel::Repeated(Seq::empty())),
            Shape::Keyed(_) => Ok(FieldModel::Keyed(Seq::empty())),
        },
    }
}

/// What the places of a message hold before anything is read into them.
pub open spec fn default_slots(schema: Schema, slots: Seq<Slot>, owner: usize) -> Outcome<
    Seq<FieldModel>,
>
    decreases owner, 1nat, slots.len(),
{
    if slots.len() == 0 {
        Ok(Seq::empty())
    } else {
        match default_slots(schema, slots.drop_last(), owner) {
            Err(m) => Err(m),
            Ok(done) => match default_field(schema, slots.last(), owner) {
                Err(m) => Err(m),
                Ok(f) => Ok(done.push(f)),
            },
        }
    }
}

/// The message of the type at place `index` with every place at its
/// default.
pub open spec fn default_message(schema: Schema, index: usize) -> Outcome<Seq<FieldModel>>
    decreases index, 2nat, 0nat,
{
    if index >= schema.messages@.len() {
        Err("unknown message type"@)
    } else {
        default_slots(schema, schema.messages@[index as int].slots@, index)
    }
}

/// An error at one place, with none before it, is the error of the whole.
pub proof fn lemma_default_slots_error(schema: Schema, slots: Seq<Slot>, owner: usize, i: int)
    requires
        0 <= i < slots.len(),
        default_slots(schema, slots.take(i), owner) is Ok,
        default_field(schema, slots[i], owner) is Err,
    ensures
        default_slots(schema, slots, owner) == Err::<Seq<FieldModel>, Seq<char>>(
            default_field(schema, slots[i], owner)->Err_0,
        ),
    decreases slots.len(),
{
    if i == slots.len() - 1 {
        assert(slots.drop_last() =~= slots.take(i));
    } else {
        assert(slots.drop_last().take(i) =~= slots.take(i));
        lemma_default_slots_error(schema, slots.drop_last(), owner, i);
    }
}

/// The value of the given kind that JSON stands for.
pub open spec fn element_from_json(schema: Schema, kind: Kind, json: JsonValue) -> Outcome<
    ElementModel,
>
    decreases json, 1nat,
{
    match kind {
        Kind::Bool => match <bool as CanonicalDeserialize>::canonical_value(json) {
            Ok(v) => Ok(ElementModel::Bool(v)),
            Err(m) => Err(m),
        },
        Kind::Int32 => match <i32 as CanonicalDeserialize>::canonical_value(json) {
            Ok(v) => Ok(ElementModel::Int32(v)),
            Err(m) => Err(m),
        },
        Kind::Uint32 => match <u32 as CanonicalDeserialize>::canonical_value(json) {
            Ok(v) => Ok(ElementModel::Uint32(v)),
            Err(m) => Err(m),
        },
        Kind::Int64 => match <i64 as CanonicalDeserialize>::canonical_value(json) {
            Ok(v) => Ok(ElementModel::Int64(v)),
            Err(m) => Err(m),
        },
        Kind::Uint64 => match <u64 as CanonicalDeserialize>::canonical_value(json) {
            Ok(v) => Ok(ElementModel::Uint64(v)),
            Err(m) => Err(m),
        },
        Kind::Float => match <Float32 as CanonicalDeserialize>::canonical_value(json) {
            Ok(v) => Ok(ElementModel::Float(v)),
            Err(m) => Err(m),
        },
        Kind::Double => match <Float64 as CanonicalDeserialize>::canonical_value(json) {
            Ok(v) => Ok(ElementModel::Double(v)),
            Err(m) => Err(m),
        },
        Kind::String => match <String as CanonicalDeserialize>::canonical_value(json) {
            Ok(v) => Ok(ElementModel::String(v)),
            Err(m) => Err(m),
        },
        Kind::Bytes => match <Vec<u8> as CanonicalDeserialize>::canonical_value(json) {
            Ok(v) => Ok(ElementModel::Bytes(v)),
            Err(m) => Err(m),
        },
        Kind::Enum(i) => if i < schema.enums@.len() {
            match schema.enums@[i as int].number_of(json) {
                Ok(v) => Ok(ElementModel::Enum(v)),
                Err(m) => Err(m),
            }
        } else {
            Err("unknown enum type"@)
        },
        Kind::Message(i) => match message_from_json(schema, i, json) {
            Ok(fields) => Ok(ElementModel::Message(fields)),
            Err(m) => Err(m),
        },
        Kind::Timestamp => match <Timestamp as CanonicalDeserialize>::canonical_value(json) {
            Ok(v) => Ok(ElementModel::Timestamp(v)),
            Err(m) => Err(m),
        },
        Kind::Duration => match <Duration as CanonicalDeserialize>::canonical_value(json) {
            Ok(v) => Ok(ElementModel::Duration(v)),
            Err(m) => Err(m),
        },
        Kind::FieldMask => match <FieldMask as CanonicalDeserialize>::canonical_value(json) {
            Ok(v) => Ok(ElementModel::FieldMask(v)),
            Err(m) => Err(m),
        },
        Kind::Struct => match <Struct as CanonicalDeserialize>::canonical_value(json) {
            Ok(v) => Ok(ElementModel::Struct(v)),
            Err(m) => Err(m),
        },
        Kind::Value => match <Value as CanonicalDeserialize>::canonical_value(json) {
            Ok(v) => Ok(ElementModel::Value(v)),
            Err(m) => Err(m),
        },
        Kind::ListValue => match <ListValue as CanonicalDeserialize>::canonical_value(json) {
            Ok(v) => Ok(ElementModel::ListValue(v)),
            Err(m) => Err(m),
        },
        Kind::Any => match <Any as CanonicalDeserialize>::canonical_value(json) {
            Ok(v) => Ok(ElementModel::Any(v.0, v.1)),
            Err(m) => Err(m),
        },
    }
}

/// The values that the items of a JSON array stand for, or the first error.
pub open spec fn elements_from_json(schema: Schema, kind: Kind, items: Seq<JsonValue>) -> Outcome<
    Seq<ElementModel>,
>
    decreases items, 0nat,
{
    if items.len() == 0 {
        Ok(Seq::empty())
    } else {
        match elements_from_json(schema, kind, items.drop_last()) {
            Err(m) => Err(m),
            Ok(done) => match element_from_json(schema, kind, items.last()) {
                Err(m) => Err(m),
                Ok(e) => Ok(done.push(e)),
            },
        }
    }
}

/// The entries that the members of a JSON object stand for, put into the
/// map in order, or the first error. The key of a member is read before
/// its value.
pub open spec fn entries_from_json(
    schema: Schema,
    keys: KeyKind,
    kind: Kind,
    members: Seq<(Seq<char>, JsonValue)>,
) -> Outcome<Seq<(KeyModel, ElementModel)>>
    decreases members, 0nat,
{
    if members.len() == 0 {
        Ok(Seq::empty())
    } else {
        match entries_from_json(schema, keys, kind, members.drop_last()) {
            Err(m) => Err(m),
            Ok(done) => match key_from_json(keys, members.last().0) {
                Err(m) => Err(m),
                Ok(k) => match element_from_json(schema, kind, members.last().1) {
                    Err(m) => Err(m),
                    Ok(e) => Ok(upsert(done, k, e)),
                },
            },
        }
    }
}

/// What a member makes of the field it names: the new content of the
/// place, or nothing where the place stays as it is.
pub open spec fn field_from_json(schema: Schema, field: FieldDescriptor, json: JsonValue) -> Outcome<
    Option<FieldModel>,
>
    decreases json, 2nat,
{
    match field.shape {
        Shape::Singular => match json {
            JsonValue::Null => Ok(None),
            _ => match element_from_json(schema, field.kind, json) {
                Ok(e) => Ok(Some(FieldModel::Singular(e))),
                Err(m) => Err(m),
            },
        },
        Shape::Optional => match json {
            JsonValue::Null if field.kind != Kind::Value => Ok(Some(FieldModel::Optional(None))),
            _ => match element_from_json(schema, field.kind, json) {
                Ok(e) => Ok(Some(FieldModel::Optional(Some(e)))),
                Err(m) => Err(m),
            },
        },
        Shape::Repeated => match json {
            JsonValue::Null => Ok(Some(FieldModel::Repeated(Seq::empty()))),
            JsonValue::Array(items) => match elements_from_json(schema, field.kind, items) {
                Ok(es) => Ok(Some(FieldModel::Repeated(es))),
                Err(m) => Err(m),
            },
            _ => Err("invalid type, expected a sequence"@),
        },
        Shape::Keyed(keys) => match json {
            JsonValue::Null => Ok(Some(FieldModel::Keyed(Seq::empty()))),
            JsonValue::Object(members) => match entries_from_json(
                schema,
                keys,
                field.kind,
                members,
            ) {
                Ok(entries) => Ok(Some(FieldModel::Keyed(entries))),
                Err(m) => Err(m),
            },
            _ => Err("invalid type, expected a map"@),
        },
    }
}

/// What a member makes of the oneof whose member it names: nothing for
/// `null`; else the member is read and becomes the active one, unless
/// another member is active already.
pub open spec fn oneof_from_json(
    schema: Schema,
    kind: Kind,
    member: usize,
    current: FieldModel,
    json: JsonValue,
) -> Outcome<Option<FieldModel>>
    decreases json, 2nat,
{
    match json {
        JsonValue::Null => Ok(None),
        _ => match element_from_json(schema, kind, json) {
            Err(m) => Err(m),
            Ok(e) => match current {
                FieldModel::Oneof(Some((active, _))) if active != member => Err(
                    "multiple oneof fields set"@,
                ),
                _ => Ok(Some(FieldModel::Oneof(Some((member, e))))),
            },
        },
    }
}

/// The places of a message after one member of the JSON object was read
/// into them.
#[verifier::opaque]
pub open spec fn member_read(
    schema: Schema,
    desc: MessageDescriptor,
    state: Seq<FieldModel>,
    member: (Seq<char>, JsonValue),
) -> Outcome<Seq<FieldModel>>
    decreases member.1, 3nat,
{
    match desc.named(member.0) {
        Named::Nothing => Ok(state),
        Named::Field(f) => if f < state.len() && f < desc.slots@.len() && desc.slots@[f as int] is Field {
            match field_from_json(schema, desc.slots@[f as int]->Field_0, member.1) {
                Err(m) => Err(m),
                Ok(None) => Ok(state),
                Ok(Some(new)) => Ok(state.update(f as int, new)),
            }
        } else {
            Err("message does not match its descriptor"@)
        },
        Named::Member(o, m) => if o < state.len() && o < desc.slots@.len() && desc.slots@[o as int] is Oneof
            && m < desc.slots@[o as int]->Oneof_0@.len() {
            match oneof_from_json(
                schema,
                desc.slots@[o as int]->Oneof_0@[m as int].kind,
                m,
                state[o as int],
                member.1,
            ) {
                Err(m) => Err(m),
                Ok(None) => Ok(state),
                Ok(Some(new)) => Ok(state.update(o as int, new)),
            }
        } else {
            Err("message does not match its descriptor"@)
        },
    }
}

/// The places of a message after the members of the JSON object were read
/// into them, one after the other.
pub open spec fn members_read(
    schema: Schema,
    desc: MessageDescriptor,
    start: Seq<FieldModel>,
    members: Seq<(Seq<char>, JsonValue)>,
) -> Outcome<Seq<FieldModel>>
    decreases members, 0nat,
{
    if members.len() == 0 {
        Ok(start)
    } else {
        match members_read(schema, desc, start, members.drop_last()) {
            Err(m) => Err(m),
            Ok(state) => member_read(schema, desc, state, members.last()),
        }
    }
}

/// The message of the type at place `index` of the schema that JSON stands
/// for: an object, read member by member into a message at its defaults.
pub open spec fn message_from_json(schema: Schema, index: usize, json: JsonValue) -> Outcome<
    Seq<FieldModel>,
>
    decreases json, 0nat,
{
    if index >= schema.messages@.len() {
        Err("unknown message type"@)
    } else {
        match json {
            JsonValue::Object(members) => match default_message(schema, index) {
                Err(m) => Err(m),
                Ok(start) => members_read(schema, schema.messages@[index as int], start, members),
            },
            _ => Err("invalid type, expected a map"@),
        }
    }
}

/// An error at one item, with none before it, is the error of the array.
pub proof fn lemma_elements_from_json_error(
    schema: Schema,
    kind: Kind,
    items: Seq<JsonValue>,
    i: int,
)
    requires
        0 <= i < items.len(),
        elements_from_json(schema, kind, items.take(i)) is Ok,
        element_from_json(schema, kind, items[i]) is Err,
    ensures
        elements_from_json(schema, kind, items) == Err::<Seq<ElementModel>, Seq<char>>(
            element_from_json(schema, kind, items[i])->Err_0,
        ),
    decreases items.len(),
{
    if i == items.len() - 1 {
        assert(items.drop_last() =~= items.take(i));
    } else {
        assert(items.drop_last().take(i) =~= items.take(i));
        lemma_elements_from_json_error(schema, kind, items.drop_last(), i);
    }
}

/// The error of one member, with none before it, is the error of the map.
pub proof fn lemma_entries_from_json_error(
    schema: Schema,
    keys: KeyKind,
    kind: Kind,
    members: Seq<(Seq<char>, JsonValue)>,
    i: int,
    message: Seq<char>,
)
    requires
        0 <= i < members.len(),
        entries_from_json(schema, keys, kind, members.take(i)) is Ok,
        key_from_json(keys, members[i].0) == Err::<KeyModel, Seq<char>>(message) || (key_from_json(
            keys,
            members[i].0,
        ) is Ok && element_from_json(schema, kind, members[i].1) == Err::<ElementModel, Seq<char>>(
            message,
        )),
    ensures
        entries_from_json(schema, keys, kind, members) == Err::<
            Seq<(KeyModel, ElementModel)>,
            Seq<char>,
        >(message),
    decreases members.len(),
{
    if i == members.len() - 1 {
        assert(members.drop_last() =~= members.take(i));
    } else {
        assert(members.drop_last().take(i) =~= members.take(i));
        lemma_entries_from_json_error(schema, keys, kind, members.drop_last(), i, message);
    }
}

/// Reading the members is reading all but the last, then the last.
pub proof fn lemma_members_read_last(
    schema: Schema,
    desc: MessageDescriptor,
    start: Seq<FieldModel>,
    members: Seq<(Seq<char>, JsonValue)>,
)
    requires
        members.len() > 0,
    ensures
        members_read(schema, desc, start, members) == match members_read(
            schema,
            desc,
            start,
            members.drop_last(),
        ) {
            Err(m) => Err::<Seq<FieldModel>, Seq<char>>(m),
            Ok(state) => member_read(schema, desc, state, members.last()),
        },
{
    reveal(member_read);
}

/// Reading one member more: the places after the members before it, then
/// that member read into them.
pub proof fn lemma_members_read_step(
    schema: Schema,
    desc: MessageDescriptor,
    start: Seq<FieldModel>,
    members: Seq<(Seq<char>, JsonValue)>,
    i: int,
)
    requires
        0 <= i < members.len(),
    ensures
        members_read(schema, desc, start, members.take(i + 1)) == match members_read(
            schema,
            desc,
            start,
            members.take(i),
        ) {
            Err(m) => Err::<Seq<FieldModel>, Seq<char>>(m),
            Ok(state) => member_read(schema, desc, state, members[i]),
        },
{
    reveal(member_read);
    let next = members.take(i + 1);
    assert(next.drop_last() =~= members.take(i));
    assert(next.last() == members[i]);
    assert(members_read(schema, desc, start, next) == match members_read(
        schema,
        desc,
        start,
        next.drop_last(),
    ) {
        Err(m) => Err::<Seq<FieldModel>, Seq<char>>(m),
        Ok(state) => member_read(schema, desc, state, next.last()),
    });
}

/// The error of one member, with none before it, is the error of the
/// message.
pub proof fn lemma_members_read_error(
    schema: Schema,
    desc: MessageDescriptor,
    start: Seq<FieldModel>,
    members: Seq<(Seq<char>, JsonValue)>,
    i: int,
)
    requires
        0 <= i < members.len(),
        members_read(schema, desc, start, members.take(i)) is Ok,
        member_read(
            schema,
            desc,
            members_read(schema, desc, start, members.take(i))->Ok_0,
            members[i],
        ) is Err,
    ensures
        members_read(schema, desc, start, members) == Err::<Seq<FieldModel>, Seq<char>>(
            member_read(
                schema,
                desc,
                members_read(schema, desc, start, members.take(i))->Ok_0,
                members[i],
            )->Err_0,
        ),
    decreases members.len(),
{
    reveal(member_read);
    assert(members_read(schema, desc, start, members) == match members_read(
        schema,
        desc,
        start,
        members.drop_last(),
    ) {
        Err(m) => Err::<Seq<FieldModel>, Seq<char>>(m),
        Ok(state) => member_read(schema, desc, state, members.last()),
    });
    if i == members.len() - 1 {
        assert(members.drop_last() =~= members.take(i));
    } else {
        assert(members.drop_last().take(i) =~= members.take(i));
        lemma_members_read_error(schema, desc, start, members.drop_last(), i);
    }
}

/// Reads text as a map key of the given kind.
pub fn decode_key(kind: KeyKind, text: &str) -> (r: Result<MapKey, CanonicalError>)
    ensures
        value_outcome(r) == key_from_json(kind, text@),
{
    match kind {
        KeyKind::String => Ok(MapKey::String(text.to_owned())),
        KeyKind::Bool => match bool::from_key(text) {
            Ok(v) => Ok(MapKey::Bool(v)),
            Err(e) => Err(e),
        },
        KeyKind::Int32 => match i32::from_key(text) {
            Ok(v) => Ok(MapKey::Int32(v)),
            Err(e) => Err(e),
        },
        KeyKind::Int64 => match i64::from_key(text) {
            Ok(v) => Ok(MapKey::Int64(v)),
            Err(e) => Err(e),
        },
        KeyKind::Uint32 => match u32::from_key(text) {
            Ok(v) => Ok(MapKey::Uint32(v)),
            Err(e) => Err(e),
        },
        KeyKind::Uint64 => match u64::from_key(text) {
            Ok(v) => Ok(MapKey::Uint64(v)),
            Err(e) => Err(e),
        },
    }
}

/// Whether two keys are the same key.
pub fn same_map_key(a: &MapKey, b: &MapKey) -> (r: bool)
    ensures
        r == (key_model(*a) == key_model(*b)),
{
    match (a, b) {
        (MapKey::String(x), MapKey::String(y)) => *x == *y,
        (MapKey::Bool(x), MapKey::Bool(y)) => *x == *y,
        (MapKey::Int32(x), MapKey::Int32(y)) => *x == *y,
        (MapKey::Int64(x), MapKey::Int64(y)) => *x == *y,
        (MapKey::Uint32(x), MapKey::Uint32(y)) => *x == *y,
        (MapKey::Uint64(x), MapKey::Uint64(y)) => *x == *y,
        _ => false,
    }
}

/// Sets `key` to `value` in the entries of a map: in place where the key is
/// there, at the end where it is not.
pub fn set_entry(entries: &mut Vec<(MapKey, Element)>, key: MapKey, value: Element)
    ensures
        entries_model(final(entries)@) == upsert(
            entries_model(old(entries)@),
            key_model(key),
            element_model(value),
        ),
{
    let ghost models = entries_model(entries@);
    proof {
        lemma_entries_model(entries@);
    }
    let mut i: usize = 0;
    while i < entries.len() && !same_map_key(&entries[i].0, &key)
        invariant
            i <= entries.len(),
            entries@ == old(entries)@,
            forall|j: int| 0 <= j < i ==> key_model(entries@[j].0) != key_model(key),
        decreases entries.len() - i,
    {
        i = i + 1;
    }
    proof {
        assert forall|j: int| 0 <= j < i implies models[j].0 != key_model(key) by {
            assert(models[j] == (key_model(entries@[j].0), element_model(entries@[j].1)));
        }
        if i < entries.len() {
            assert(models[i as int] == (
                key_model(entries@[i as int].0),
                element_model(entries@[i as int].1),
            ));
        }
        lemma_key_index(models, key_model(key), i as int);
    }
    if i < entries.len() {
        entries.set(i, (key, value));
        proof {
            lemma_entries_model(entries@);
            assert(entries_model(entries@) =~= models.update(
                i as int,
                (key_model(key), element_model(value)),
            ));
        }
    } else {
        entries.push((key, value));
        proof {
            lemma_entries_model(entries@);
            assert(entries_model(entries@) =~= models.push((key_model(key), element_model(value))));
        }
    }
}

/// Makes the default of a kind.
pub fn make_default_element(schema: &Schema, kind: Kind, owner: usize) -> (r: Result<
    Element,
    CanonicalError,
>)
    ensures
        value_outcome(r) == default_element(*schema, kind, owner),
    decreases owner, 0nat, 0nat,
{
    match kind {
        Kind::Bool => Ok(Element::Bool(false)),
        Kind::Int32 => Ok(Element::Int32(0)),
        Kind::Uint32 => Ok(Element::Uint32(0)),
        Kind::Int64 => Ok(Element::Int64(0)),
        Kind::Uint64 => Ok(Element::Uint64(0)),
        Kind::Float => Ok(Element::Float(Float32 { bits: 0 })),
        Kind::Double => Ok(Element::Double(Float64 { bits: 0 })),
        Kind::String => Ok(Element::String(String::new())),
        Kind::Bytes => Ok(Element::Bytes(Vec::new())),
        Kind::Enum(_) => Ok(Element::Enum(0)),
        Kind::Message(i) => {
            if i < owner {
                match make_default_message(schema, i) {
                    Ok(m) => Ok(Element::Message(m)),
                    Err(e) => Err(e),
                }
            } else {
                Err(CanonicalError::new("a message type holds itself directly"))
            }
        },
        Kind::Timestamp => Ok(Element::Timestamp(Timestamp { seconds: 0, nanos: 0 })),
        Kind::Duration => Ok(Element::Duration(Duration { seconds: 0, nanos: 0 })),
        Kind::FieldMask => {
            let paths: Vec<String> = Vec::new();
            assert(crate::field_mask::texts(paths@) =~= Seq::<Seq<char>>::empty());
            Ok(Element::FieldMask(FieldMask { paths }))
        },
        Kind::Struct => {
            let fields: Vec<(String, Value)> = Vec::new();
            assert(field_models(fields@) =~= Seq::<(Seq<char>, ValueModel)>::empty());
            Ok(Element::Struct(Struct { fields }))
        },
        Kind::Value => Ok(Element::Value(Value { kind: None })),
        Kind::ListValue => {
            let values: Vec<Value> = Vec::new();
            assert(list_models(values@) =~= Seq::<ValueModel>::empty());
            Ok(Element::ListValue(ListValue { values }))
        },
        Kind::Any => Ok(Element::Any(Any { type_url: String::new(), value: Vec::new() })),
    }
}

/// Makes what a place holds before anything is read into it.
pub fn make_default_field(schema: &Schema, slot: &Slot, owner: usize) -> (r: Result<
    FieldValue,
    CanonicalError,
>)
    ensures
        value_outcome(r) == default_field(*schema, *slot, owner),
    decreases owner, 0nat, 1nat,
{
    match slot {
        Slot::Oneof(_) => Ok(FieldValue::Oneof(None)),
        Slot::Field(f) => match f.shape {
            Shape::Singular => match make_default_element(schema, f.kind, owner) {
                Ok(e) => Ok(FieldValue::Singular(e)),
                Err(e) => Err(e),
            },
            Shape::Optional => Ok(FieldValue::Optional(None)),
            Shape::Repeated => {
                let es: Vec<Element> = Vec::new();
                assert(elements_model(es@) =~= Seq::<ElementModel>::empty());
                Ok(FieldValue::Repeated(es))
            },
            Shape::Keyed(_) => {
                let entries: Vec<(MapKey, Element)> = Vec::new();
                assert(entries_model(entries@) =~= Seq::<(KeyModel, ElementModel)>::empty());
                Ok(FieldValue::Keyed(entries))
            },
        },
    }
}

/// Makes the message of the type at place `index` with every place at its
/// default.
pub fn make_default_message(schema: &Schema, index: usize) -> (r: Result<Message, CanonicalError>)
    ensures
        value_outcome(r) == default_message(*schema, index),
    decreases index, 2nat, 0nat,
{
    if index >= schema.messages.len() {
        return Err(CanonicalError::new("unknown message type"));
    }
    let slots = &schema.messages[index].slots;
    let mut fields: Vec<FieldValue> = Vec::new();
    let mut i: usize = 0;
    proof {
        assert(slots@.take(0) =~= Seq::<Slot>::empty());
        assert(fields_model(fields@) =~= Seq::<FieldModel>::empty());
    }
    while i < slots.len()
        invariant
            i <= slots.len(),
            index < schema.messages@.len(),
            slots == &schema.messages@[index as int].slots,
            default_slots(*schema, slots@.take(i as int), index) == Ok::<
                Seq<FieldModel>,
                Seq<char>,
            >(fields_model(fields@)),
        decreases slots.len() - i,
    {
        proof {
            let next = slots@.take(i + 1);
            assert(next.drop_last() =~= slots@.take(i as int));
            assert(next.last() == slots@[i as int]);
        }
        match make_default_field(schema, &slots[i], index) {
            Err(e) => {
                proof {
                    lemma_default_slots_error(*schema, slots@, index, i as int);
                }
                return Err(e);
            },
            Ok(f) => {
                proof {
                    lemma_fields_model_push(fields@, f);
                }
                fields.push(f);
            },
        }
        i = i + 1;
    }
    assert(slots@.take(slots.len() as int) =~= slots@);
    Ok(Message { fields })
}

/// Reads JSON as one value of the given kind.
pub fn decode_element(schema: &Schema, kind: Kind, json: &Json) -> (r: Result<
    Element,
    CanonicalError,
>)
    ensures
        value_outcome(r) == element_from_json(*schema, kind, json@),
    decreases json, 2nat,
{
    match kind {
        Kind::Bool => match bool::deserialize_canonical(json) {
            Ok(v) => Ok(Element::Bool(v)),
            Err(e) => Err(e),
        },
        Kind::Int32 => match i32::deserialize_canonical(json) {
            Ok(v) => Ok(Element::Int32(v)),
            Err(e) => Err(e),
        },
        Kind::Uint32 => match u32::deserialize_canonical(json) {
            Ok(v) => Ok(Element::Uint32(v)),
            Err(e) => Err(e),
        },
        Kind::Int64 => match i64::deserialize_canonical(json) {
            Ok(v) => Ok(Element::Int64(v)),
            Err(e) => Err(e),
        },
        Kind::Uint64 => match u64::deserialize_canonical(json) {
            Ok(v) => Ok(Element::Uint64(v)),
            Err(e) => Err(e),
        },
        Kind::Float => match Float32::deserialize_canonical(json) {
            Ok(v) => Ok(Element::Float(v)),
            Err(e) => Err(e),
        },
        Kind::Double => match Float64::deserialize_canonical(json) {
            Ok(v) => Ok(Element::Double(v)),
            Err(e) => Err(e),
        },
        Kind::String => match String::deserialize_canonical(json) {
            Ok(v) => Ok(Element::String(v)),
            Err(e) => Err(e),
        },
        Kind::Bytes => match Vec::<u8>::deserialize_canonical(json) {
            Ok(v) => {
                assert(v.deep_view() =~= v@);
                Ok(Element::Bytes(v))
            },
            Err(e) => Err(e),
        },
        Kind::Enum(i) => {
            if i < schema.enums.len() {
                match schema.enums[i].from_json(json) {
                    Ok(v) => Ok(Element::Enum(v)),
                    Err(e) => Err(e),
                }
            } else {
                Err(CanonicalError::new("unknown enum type"))
            }
        },
        Kind::Message(i) => match decode_message(schema, i, json) {
            Ok(m) => Ok(Element::Message(m)),
            Err(e) => Err(e),
        },
        Kind::Timestamp => match Timestamp::deserialize_canonical(json) {
            Ok(v) => Ok(Element::Timestamp(v)),
            Err(e) => Err(e),
        },
        Kind::Duration => match Duration::deserialize_canonical(json) {
            Ok(v) => Ok(Element::Duration(v)),
            Err(e) => Err(e),
        },
        Kind::FieldMask => match FieldMask::deserialize_canonical(json) {
            Ok(v) => Ok(Element::FieldMask(v)),
            Err(e) => Err(e),
        },
        Kind::Struct => match Struct::deserialize_canonical(json) {
            Ok(v) => Ok(Element::Struct(v)),
            Err(e) => Err(e),
        },
        Kind::Value => match Value::deserialize_canonical(json) {
            Ok(v) => Ok(Element::Value(v)),
            Err(e) => Err(e),
        },
        Kind::ListValue => match ListValue::deserialize_canonical(json) {
            Ok(v) => Ok(Element::ListValue(v)),
            Err(e) => Err(e),
        },
        Kind::Any => match Any::deserialize_canonical(json) {
            Ok(v) => Ok(Element::Any(v)),
            Err(e) => Err(e),
        },
    }
}

/// Reads each item of a JSON array as a value of the given kind.
pub fn decode_elements(schema: &Schema, kind: Kind, items: &Vec<Json>) -> (r: Result<
    Vec<Element>,
    CanonicalError,
>)
    ensures
        match r {
            Ok(es) => elements_from_json(*schema, kind, items_view(items@)) == Ok::<
                Seq<ElementModel>,
                Seq<char>,
            >(elements_model(es@)),
            Err(e) => elements_from_json(*schema, kind, items_view(items@)) == Err::<
                Seq<ElementModel>,
                Seq<char>,
            >(e@),
        },
    decreases items, 0nat,
{
    let ghost all = items_view(items@);
    let mut es: Vec<Element> = Vec::new();
    let mut i: usize = 0;
    proof {
        lemma_items_view(items@);
        assert(all.take(0) =~= Seq::<JsonValue>::empty());
        assert(elements_model(es@) =~= Seq::<ElementModel>::empty());
    }
    while i < items.len()
        invariant
            i <= items.len(),
            all == items_view(items@),
            all.len() == items.len(),
            forall|k: int| 0 <= k < items.len() ==> #[trigger] all[k] == items@[k]@,
            elements_from_json(*schema, kind, all.take(i as int)) == Ok::<
                Seq<ElementModel>,
                Seq<char>,
            >(elements_model(es@)),
        decreases items.len() - i,
    {
        proof {
            let next = all.take(i + 1);
            assert(next.drop_last() =~= all.take(i as int));
            assert(next.last() == all[i as int]);
        }
        match decode_element(schema, kind, &items[i]) {
            Err(e) => {
                proof {
                    lemma_elements_from_json_error(*schema, kind, all, i as int);
                }
                return Err(e);
            },
            Ok(v) => {
                proof {
                    lemma_elements_model_push(es@, v);
                }
                es.push(v);
            },
        }
        i = i + 1;
    }
    assert(all.take(items.len() as int) =~= all);
    Ok(es)
}

/// Reads each member of a JSON object as an entry of a map.
pub fn decode_entries(schema: &Schema, keys: KeyKind, kind: Kind, members: &Vec<(String, Json)>) -> (r:
    Result<Vec<(MapKey, Element)>, CanonicalError>)
    ensures
        match r {
            Ok(entries) => entries_from_json(*schema, keys, kind, members_view(members@)) == Ok::<
                Seq<(KeyModel, ElementModel)>,
                Seq<char>,
            >(entries_model(entries@)),
            Err(e) => entries_from_json(*schema, keys, kind, members_view(members@)) == Err::<
                Seq<(KeyModel, ElementModel)>,
                Seq<char>,
            >(e@),
        },
    decreases members, 0nat,
{
    let ghost all = members_view(members@);
    let mut entries: Vec<(MapKey, Element)> = Vec::new();
    let mut i: usize = 0;
    proof {
        lemma_members_view(members@);
        assert(all.take(0) =~= Seq::<(Seq<char>, JsonValue)>::empty());
        assert(entries_model(entries@) =~= Seq::<(KeyModel, ElementModel)>::empty());
    }
    while i < members.len()
        invariant
            i <= members.len(),
            all == members_view(members@),
            all.len() == members.len(),
            forall|k: int|
                0 <= k < members.len() ==> #[trigger] all[k] == (members@[k].0@, members@[k].1@),
            entries_from_json(*schema, keys, kind, all.take(i as int)) == Ok::<
                Seq<(KeyModel, ElementModel)>,
                Seq<char>,
            >(entries_model(entries@)),
        decreases members.len() - i,
    {
        proof {
            let next = all.take(i + 1);
            assert(next.drop_last() =~= all.take(i as int));
            assert(next.last() == all[i as int]);
        }
        let key = match decode_key(keys, members[i].0.as_str()) {
            Ok(key) => key,
            Err(e) => {
                proof {
                    lemma_entries_from_json_error(*schema, keys, kind, all, i as int, e@);
                }
                return Err(e);
            },
        };
        let value = match decode_element(schema, kind, &members[i].1) {
            Ok(value) => value,
            Err(e) => {
                proof {
                    lemma_entries_from_json_error(*schema, keys, kind, all, i as int, e@);
                }
                return Err(e);
            },
        };
        set_entry(&mut entries, key, value);
        i = i + 1;
    }
    assert(all.take(members.len() as int) =~= all);
    Ok(entries)
}

/// What an optional new content of a place states of its model.
pub open spec fn change_outcome(r: Result<Option<FieldValue>, CanonicalError>) -> Outcome<
    Option<FieldModel>,
> {
    match r {
        Ok(Some(f)) => Ok(Some(field_model(f))),
        Ok(None) => Ok(None),
        Err(e) => Err(e@),
    }
}

/// Reads JSON into a field: the new content of the place, or nothing where
/// the place stays as it is.
pub fn decode_field(schema: &Schema, field: &FieldDescriptor, json: &Json) -> (r: Result<
    Option<FieldValue>,
    CanonicalError,
>)
    ensures
        change_outcome(r) == field_from_json(*schema, *field, json@),
    decreases json, 3nat,
{
    match field.shape {
        Shape::Singular => match json {
            Json::Null => Ok(None),
            _ => match decode_element(schema, field.kind, json) {
                Ok(e) => Ok(Some(FieldValue::Singular(e))),
                Err(e) => Err(e),
            },
        },
        Shape::Optional => {
            let null = matches!(json, Json::Null);
            if null && !matches!(field.kind, Kind::Value) {
                Ok(Some(FieldValue::Optional(None)))
            } else {
                match decode_element(schema, field.kind, json) {
                    Ok(e) => Ok(Some(FieldValue::Optional(Some(e)))),
                    Err(e) => Err(e),
                }
            }
        },
        Shape::Repeated => match json {
            Json::Null => {
                let es: Vec<Element> = Vec::new();
                assert(elements_model(es@) =~= Seq::<ElementModel>::empty());
                Ok(Some(FieldValue::Repeated(es)))
            },
            Json::Array(items) => match decode_elements(schema, field.kind, items) {
                Ok(es) => Ok(Some(FieldValue::Repeated(es))),
                Err(e) => Err(e),
            },
            _ => Err(CanonicalError::new("invalid type, expected a sequence")),
        },
        Shape::Keyed(keys) => match json {
            Json::Null => {
                let entries: Vec<(MapKey, Element)> = Vec::new();
                assert(entries_model(entries@) =~= Seq::<(KeyModel, ElementModel)>::empty());
                Ok(Some(FieldValue::Keyed(entries)))
            },
            Json::Object(members) => match decode_entries(schema, keys, field.kind, members) {
                Ok(entries) => Ok(Some(FieldValue::Keyed(entries))),
                Err(e) => Err(e),
            },
            _ => Err(CanonicalError::new("invalid type, expected a map")),
        },
    }
}

/// Reads JSON into a oneof through the member at place `member`: the new
/// content of the place, or nothing where the place stays as it is.
pub fn decode_oneof(schema: &Schema, kind: Kind, member: usize, current: &FieldValue, json: &Json) -> (r:
    Result<Option<FieldValue>, CanonicalError>)
    ensures
        change_outcome(r) == oneof_from_json(*schema, kind, member, field_model(*current), json@),
    decreases json, 3nat,
{
    match json {
        Json::Null => Ok(None),
        _ => match decode_element(schema, kind, json) {
            Err(e) => Err(e),
            Ok(e) => {
                let other = match current {
                    FieldValue::Oneof(Some((active, _))) => *active != member,
                    _ => false,
                };
                if other {
                    Err(CanonicalError::new("multiple oneof fields set"))
                } else {
                    Ok(Some(FieldValue::Oneof(Some((member, e)))))
                }
            },
        },
    }
}

/// Reads one member of a JSON object into the places of a message.
pub fn decode_member(
    schema: &Schema,
    desc: &MessageDescriptor,
    state: &mut Vec<FieldValue>,
    key: &str,
    json: &Json,
) -> (r: Result<(), CanonicalError>)
    ensures
        match r {
            Ok(_) => member_read(*schema, *desc, fields_model(old(state)@), (key@, json@)) == Ok::<
                Seq<FieldModel>,
                Seq<char>,
            >(fields_model(final(state)@)),
            Err(e) => member_read(*schema, *desc, fields_model(old(state)@), (key@, json@)) == Err::<
                Seq<FieldModel>,
                Seq<char>,
            >(e@),
        },
    decreases json, 4nat,
{
    proof {
        reveal(member_read);
        lemma_fields_model(state@);
    }
    let ghost before = fields_model(state@);
    match desc.find(key) {
        Named::Nothing => Ok(()),
        Named::Field(f) => {
            if f >= state.len() {
                return Err(CanonicalError::new("message does not match its descriptor"));
            }
            match &desc.slots[f] {
                Slot::Field(field) => match decode_field(schema, field, json) {
                    Err(e) => Err(e),
                    Ok(None) => Ok(()),
                    Ok(Some(new)) => {
                        state.set(f, new);
                        proof {
                            lemma_fields_model(state@);
                            assert(fields_model(state@) =~= before.update(f as int, field_model(new)));
                        }
                        Ok(())
                    },
                },
                Slot::Oneof(_) => Err(CanonicalError::new("message does not match its descriptor")),
            }
        },
        Named::Member(o, m) => {
            if o >= state.len() {
                return Err(CanonicalError::new("message does not match its descriptor"));
            }
            match &desc.slots[o] {
                Slot::Oneof(members) => {
                    match decode_oneof(schema, members[m].kind, m, &state[o], json) {
                        Err(e) => Err(e),
                        Ok(None) => Ok(()),
                        Ok(Some(new)) => {
                            state.set(o, new);
                            proof {
                                lemma_fields_model(state@);
                                assert(fields_model(state@) =~= before.update(
                                    o as int,
                                    field_model(new),
                                ));
                            }
                            Ok(())
                        },
                    }
                },
                Slot::Field(_) => Err(CanonicalError::new("message does not match its descriptor")),
            }
        },
    }
}

/// Reads the members of a JSON object, one after the other, into the
/// places of a message.
pub fn decode_members(
    schema: &Schema,
    desc: &MessageDescriptor,
    fields: Vec<FieldValue>,
    members: &Vec<(String, Json)>,
) -> (r: Result<Vec<FieldValue>, CanonicalError>)
    ensures
        match r {
            Ok(done) => members_read(
                *schema,
                *desc,
                fields_model(fields@),
                members_view(members@),
            ) == Ok::<Seq<FieldModel>, Seq<char>>(fields_model(done@)),
            Err(e) => members_read(*schema, *desc, fields_model(fields@), members_view(members@))
                == Err::<Seq<FieldModel>, Seq<char>>(e@),
        },
    decreases members, 0nat,
{
    let ghost start = fields_model(fields@);
    let ghost all = members_view(members@);
    let mut state = fields;
    let mut i: usize = 0;
    proof {
        lemma_members_view(members@);
        assert(all.take(0) =~= Seq::<(Seq<char>, JsonValue)>::empty());
    }
    while i < members.len()
        invariant
            i <= members.len(),
            start == fields_model(fields@),
            all == members_view(members@),
            all.len() == members.len(),
            forall|k: int|
                0 <= k < members.len() ==> #[trigger] all[k] == (members@[k].0@, members@[k].1@),
            members_read(*schema, *desc, start, all.take(i as int)) == Ok::<
                Seq<FieldModel>,
                Seq<char>,
            >(fields_model(state@)),
        decreases members.len() - i,
    {
        proof {
            lemma_members_read_step(*schema, *desc, start, all, i as int);
            assert(all[i as int] == (members@[i as int].0@, members@[i as int].1@));
        }
        match decode_member(schema, desc, &mut state, members[i].0.as_str(), &members[i].1) {
            Err(e) => {
                proof {
                    lemma_members_read_error(*schema, *desc, start, all, i as int);
                }
                return Err(e);
            },
            Ok(_) => {},
        }
        i = i + 1;
    }
    assert(all.take(members.len() as int) =~= all);
    Ok(state)
}

/// Reads a JSON object as a message of the type at place `index` of the
/// schema.
pub fn decode_message(schema: &Schema, index: usize, json: &Json) -> (r: Result<
    Message,
    CanonicalError,
>)
    ensures
        value_outcome(r) == message_from_json(*schema, index, json@),
    decreases json, 1nat,
{
    if index >= schema.messages.len() {
        return Err(CanonicalError::new("unknown message type"));
    }
    match json {
        Json::Object(members) => {
            match make_default_message(schema, index) {
                Err(e) => Err(e),
                Ok(message) => match decode_members(
                    schema,
                    &schema.messages[index],
                    message.fields,
                    members,
                ) {
                    Ok(fields) => Ok(Message { fields }),
                    Err(e) => Err(e),
                },
            }
        },
        _ => Err(CanonicalError::new("invalid type, expected a map")),
    }
}

} // verus!
