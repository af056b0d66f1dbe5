//! Messages as values: what a message of a described type holds, place by
//! place, with the mathematical model of it.
use crate::duration::Duration;
use crate::field_mask::{texts, FieldMask};
use crate::float::{Float32, Float64};
use crate::timestamp::Timestamp;
use crate::value::{field_models, list_models, value_model, Any, ListValue, Struct, Value, ValueModel};
use vstd::prelude::*;

verus! {

/// One value of some kind.
#[derive(Debug, PartialEq)]
pub enum Element {
    Bool(bool),
    Int32(i32),
    Uint32(u32),
    Int64(i64),
    Uint64(u64),
    Float(Float32),
    Double(Float64),
    String(String),
    Bytes(Vec<u8>),
    /// An enum value by its number, known to the enum or not.
    Enum(i32),
    Message(Message),
    Timestamp(Timestamp),
    Duration(Duration),
    FieldMask(FieldMask),
    Struct(Struct),
    Value(Value),
    ListValue(ListValue),
    Any(Any),
}

/// A key of a map.
#[derive(Debug, PartialEq)]
pub enum MapKey {
    String(String),
    Bool(bool),
    Int32(i32),
    Int64(i64),
    Uint32(u32),
    Uint64(u64),
}

/// What one place of a message holds.
#[derive(Debug, PartialEq)]
pub enum FieldValue {
    /// The value of a singular field.
    Singular(Element),
    /// The value of an optional field, if it has one.
    Optional(Option<Element>),
    /// The values of a repeated field.
    Repeated(Vec<Element>),
    /// The entries of a map field, with distinct keys, in the order in which
    /// the keys first came.
    Keyed(Vec<(MapKey, Element)>),
    /// The active member of a oneof, by its place among the members, with
    /// its value; or nothing.
    Oneof(Option<(usize, Element)>),
}

/// A message: what each place of its type holds, in declaration order.
#[derive(Debug, PartialEq)]
pub struct Message {
    pub fields: Vec<FieldValue>,
}

/// The model of a [`MapKey`].
pub ghost enum KeyModel {
    String(Seq<char>),
    Bool(bool),
    Int32(i32),
    Int64(i64),
    Uint32(u32),
    Uint64(u64),
}

/// The model of an [`Element`].
pub ghost enum ElementModel {
    Bool(bool),
    Int32(i32),
    Uint32(u32),
    Int64(i64),
    Uint64(u64),
    Float(Float32),
    Double(Float64),
    String(Seq<char>),
    Bytes(Seq<u8>),
    Enum(i32),
    Message(Seq<FieldModel>),
    Timestamp(Timestamp),
    Duration(Duration),
    FieldMask(Seq<Seq<char>>),
    Struct(Seq<(Seq<char>, ValueModel)>),
    Value(ValueModel),
    ListValue(Seq<ValueModel>),
    Any(Seq<char>, Seq<u8>),
}

/// The model of a [`FieldValue`].
pub ghost enum FieldModel {
    Singular(ElementModel),
    Optional(Option<ElementModel>),
    Repeated(Seq<ElementModel>),
    Keyed(Seq<(KeyModel, ElementModel)>),
    Oneof(Option<(usize, ElementModel)>),
}

/// The model of a key.
pub open spec fn key_model(key: MapKey) -> KeyModel {
    match key {
        MapKey::String(s) => KeyModel::String(s@),
        MapKey::Bool(b) => KeyModel::Bool(b),
        MapKey::Int32(v) => KeyModel::Int32(v),
        MapKey::Int64(v) => KeyModel::Int64(v),
        MapKey::Uint32(v) => KeyModel::Uint32(v),
        MapKey::Uint64(v) => KeyModel::Uint64(v),
    }
}

/// The model of a value.
pub open spec fn element_model(e: Element) -> ElementModel
    decreases e,
{
    match e {
        Element::Bool(b) => ElementModel::Bool(b),
        Element::Int32(v) => ElementModel::Int32(v),
        Element::Uint32(v) => ElementModel::Uint32(v),
        Element::Int64(v) => ElementModel::Int64(v),
        Element::Uint64(v) => ElementModel::Uint64(v),
        Element::Float(v) => ElementModel::Float(v),
        Element::Double(v) => ElementModel::Double(v),
        Element::String(s) => ElementModel::String(s@),
        Element::Bytes(b) => ElementModel::Bytes(b@),
        Element::Enum(v) => ElementModel::Enum(v),
        Element::Message(m) => ElementModel::Message(fields_model(m.fields@)),
        Element::Timestamp(t) => ElementModel::Timestamp(t),
        Element::Duration(d) => ElementModel::Duration(d),
        Element::FieldMask(m) => ElementModel::FieldMask(texts(m.paths@)),
        Element::Struct(s) => ElementModel::Struct(field_models(s.fields@)),
        Element::Value(v) => ElementModel::Value(value_model(v)),
        Element::ListValue(l) => ElementModel::ListValue(list_models(l.values@)),
        Element::Any(a) => ElementModel::Any(a.type_url@, a.value@),
    }
}

/// The model of what a place holds.
pub open spec fn field_model(f: FieldValue) -> FieldModel
    decreases f,
{
    match f {
        FieldValue::Singular(e) => FieldModel::Singular(element_model(e)),
        FieldValue::Optional(None) => FieldModel::Optional(None),
        FieldValue::Optional(Some(e)) => FieldModel::Optional(Some(element_model(e))),
        FieldValue::Repeated(es) => FieldModel::Repeated(elements_model(es@)),
        FieldValue::Keyed(entries) => FieldModel::Keyed(entries_model(entries@)),
        FieldValue::Oneof(None) => FieldModel::Oneof(None),
        FieldValue::Oneof(Some((i, e))) => FieldModel::Oneof(Some((i, element_model(e)))),
    }
}

/// The models of what the places of a message hold.
pub open spec fn fields_model(fields: Seq<FieldValue>) -> Seq<FieldModel>
    decreases fields,
{
    if fields.len() == 0 {
        Seq::empty()
    } else {
        fields_model(fields.drop_last()).push(field_model(fields.last()))
    }
}

/// The models of a row of values.
pub open spec fn elements_model(es: Seq<Element>) -> Seq<ElementModel>
    decreases es,
{
    if es.len() == 0 {
        Seq::empty()
    } else {
        elements_model(es.drop_last()).push(element_model(es.last()))
    }
}

/// The models of the entries of a map.
pub open spec fn entries_model(entries: Seq<(MapKey, Element)>) -> Seq<(KeyModel, ElementModel)>
    decreases entries,
{
    if entries.len() == 0 {
        Seq::empty()
    } else {
        entries_model(entries.drop_last()).push(
            (key_model(entries.last().0), element_model(entries.last().1)),
        )
    }
}

/// The model of a message holds the model of each place.
pub proof fn lemma_fields_model(fields: Seq<FieldValue>)
    ensures
        fields_model(fields).len() == fields.len(),
        forall|i: int|
            0 <= i < fields.len() ==> #[trigger] fields_model(fields)[i] == field_model(fields[i]),
    decreases fields.len(),
{
    if fields.len() > 0 {
        lemma_fields_model(fields.drop_last());
        assert(fields_model(fields) == fields_model(fields.drop_last()).push(
            field_model(fields.last()),
        ));
    } else {
        assert(fields_model(fields) == Seq::<FieldModel>::empty());
    }
}

/// The model of a row holds the model of each value.
pub proof fn lemma_elements_model(es: Seq<Element>)
    ensures
        elements_model(es).len() == es.len(),
        forall|i: int| 0 <= i < es.len() ==> #[trigger] elements_model(es)[i] == element_model(es[i]),
    decreases es.len(),
{
    if es.len() > 0 {
        lemma_elements_model(es.drop_last());
        assert(elements_model(es) == elements_model(es.drop_last()).push(element_model(es.last())));
    } else {
        assert(elements_model(es) == Seq::<ElementModel>::empty());
    }
}

/// The model of a map holds the model of each entry.
pub proof fn lemma_entries_model(entries: Seq<(MapKey, Element)>)
    ensures
        entries_model(entries).len() == entries.len(),
        forall|i: int|
            0 <= i < entries.len() ==> #[trigger] entries_model(entries)[i] == (
                key_model(entries[i].0),
                element_model(entries[i].1),
            ),
    decreases entries.len(),
{
    if entries.len() > 0 {
        lemma_entries_model(entries.drop_last());
        assert(entries_model(entries) == entries_model(entries.drop_last()).push(
            (key_model(entries.last().0), element_model(entries.last().1)),
        ));
    } else {
        assert(entries_model(entries) == Seq::<(KeyModel, ElementModel)>::empty());
    }
}

/// Adding a place at the end adds its model at the end.
pub proof fn lemma_fields_model_push(fields: Seq<FieldValue>, f: FieldValue)
    ensures
        fields_model(fields.push(f)) == fields_model(fields).push(field_model(f)),
{
    assert(fields.push(f).drop_last() =~= fields);
    assert(fields_model(fields.push(f)) == fields_model(fields.push(f).drop_last()).push(
        field_model(fields.push(f).last()),
    ));
}

/// Adding a value at the end adds its model at the end.
pub proof fn lemma_elements_model_push(es: Seq<Element>, e: Element)
    ensures
        elements_model(es.push(e)) == elements_model(es).push(element_model(e)),
{
    assert(es.push(e).drop_last() =~= es);
    assert(elements_model(es.push(e)) == elements_model(es.push(e).drop_last()).push(
        element_model(es.push(e).last()),
    ));
}

impl DeepView for Message {
    type V = Seq<FieldModel>;

    open spec fn deep_view(&self) -> Seq<FieldModel> {
        fields_model(self.fields@)
    }
}

impl DeepView for Element {
    type V = ElementModel;

    open spec fn deep_view(&self) -> ElementModel {
        element_model(*self)
    }
}

impl DeepView for FieldValue {
    type V = FieldModel;

    open spec fn deep_view(&self) -> FieldModel {
        field_model(*self)
    }
}

impl DeepView for MapKey {
    type V = KeyModel;

    open spec fn deep_view(&self) -> KeyModel {
        key_model(*self)
    }
}

} // verus!
