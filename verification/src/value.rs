//! `google.protobuf.Value`, `Struct` and `ListValue`: JSON held inside a
//! message. In canonical JSON they are written as the JSON they hold.
//!
//! A `Struct` keeps its fields in the order in which their keys first came;
//! a key that comes again replaces the value where the key stands.
use crate::codec::{json_outcome, value_outcome, CanonicalDeserialize, CanonicalSerialize};
use crate::error::{CanonicalError, Outcome};
use crate::float::Float64;
use crate::json::{
    items_view, lemma_items_view, lemma_members_view, members_view, Json, JsonValue,
};
use crate::number::{f64_from_i64_exact, f64_from_u64_exact, MAX_SAFE_I64, MAX_SAFE_U64, MIN_SAFE_I64};
use vstd::prelude::*;

verus! {

/// What a [`Value`] holds.
#[derive(Debug, PartialEq)]
pub enum Kind {
    /// JSON `null`. The number is that of the null value, zero.
    NullValue(i32),
    NumberValue(Float64),
    StringValue(String),
    BoolValue(bool),
    StructValue(Struct),
    ListValue(ListValue),
}

/// Any JSON value. A value whose kind is not set cannot be written.
#[derive(Debug, PartialEq)]
pub struct Value {
    pub kind: Option<Kind>,
}

/// A JSON object: fields with distinct keys.
#[derive(Debug, PartialEq)]
pub struct Struct {
    pub fields: Vec<(String, Value)>,
}

/// A JSON array.
#[derive(Debug, PartialEq)]
pub struct ListValue {
    pub values: Vec<Value>,
}

/// The mathematical model of a [`Value`].
pub ghost enum ValueModel {
    Unset,
    Null(i32),
    Number(Float64),
    Text(Seq<char>),
    Bool(bool),
    Struct(Seq<(Seq<char>, ValueModel)>),
    List(Seq<ValueModel>),
}

/// The model of a value.
pub open spec fn value_model(value: Value) -> ValueModel
    decreases value,
{
    match value.kind {
        None => ValueModel::Unset,
        Some(Kind::NullValue(n)) => ValueModel::Null(n),
        Some(Kind::NumberValue(f)) => ValueModel::Number(f),
        Some(Kind::StringValue(s)) => ValueModel::Text(s@),
        Some(Kind::BoolValue(b)) => ValueModel::Bool(b),
        Some(Kind::StructValue(s)) => ValueModel::Struct(field_models(s.fields@)),
        Some(Kind::ListValue(l)) => ValueModel::List(list_models(l.values@)),
    }
}

/// The models of the values of a list, in order.
pub open spec fn list_models(values: Seq<Value>) -> Seq<ValueModel>
    decreases values,
{
    if values.len() == 0 {
        Seq::empty()
    } else {
        list_models(values.drop_last()).push(value_model(values.last()))
    }
}

/// The models of the fields of a struct, in order.
pub open spec fn field_models(fields: Seq<(String, Value)>) -> Seq<(Seq<char>, ValueModel)>
    decreases fields,
{
    if fields.len() == 0 {
        Seq::empty()
    } else {
        field_models(fields.drop_last()).push((fields.last().0@, value_model(fields.last().1)))
    }
}

/// The model of a list holds the model of each value, at the value's place.
pub proof fn lemma_list_models(values: Seq<Value>)
    ensures
        list_models(values).len() == values.len(),
        forall|i: int|
            0 <= i < values.len() ==> #[trigger] list_models(values)[i] == value_model(values[i]),
    decreases values.len(),
{
    if values.len() > 0 {
        lemma_list_models(values.drop_last());
        assert(list_models(values) == list_models(values.drop_last()).push(
            value_model(values.last()),
        ));
    } else {
        assert(list_models(values) == Seq::<ValueModel>::empty());
    }
}

/// The model of a struct holds the model of each field, at the field's place.
pub proof fn lemma_field_models(fields: Seq<(String, Value)>)
    ensures
        field_models(fields).len() == fields.len(),
        forall|i: int|
            0 <= i < fields.len() ==> #[trigger] field_models(fields)[i] == (
                fields[i].0@,
                value_model(fields[i].1),
            ),
    decreases fields.len(),
{
    if fields.len() > 0 {
        lemma_field_models(fields.drop_last());
        assert(field_models(fields) == field_models(fields.drop_last()).push(
            (fields.last().0@, value_model(fields.last().1)),
        ));
    } else {
        assert(field_models(fields) == Seq::<(Seq<char>, ValueModel)>::empty());
    }
}

impl DeepView for Value {
    type V = ValueModel;

    open spec fn deep_view(&self) -> ValueModel {
        value_model(*self)
    }
}

impl DeepView for Struct {
    type V = Seq<(Seq<char>, ValueModel)>;

    open spec fn deep_view(&self) -> Seq<(Seq<char>, ValueModel)> {
        field_models(self.fields@)
    }
}

impl DeepView for ListValue {
    type V = Seq<ValueModel>;

    open spec fn deep_view(&self) -> Seq<ValueModel> {
        list_models(self.values@)
    }
}

/// The JSON of a value: the JSON it holds. A number must be finite and the
/// kind must be set.
pub open spec fn value_json(value: ValueModel) -> Outcome<JsonValue>
    decreases value,
{
    match value {
        ValueModel::Unset => Err("Value.kind is missing"@),
        ValueModel::Null(_) => Ok(JsonValue::Null),
        ValueModel::Number(f) => if f.finite() {
            Ok(JsonValue::Double(f))
        } else {
            Err("Value.number_value must be finite"@)
        },
        ValueModel::Text(s) => Ok(JsonValue::Str(s, None)),
        ValueModel::Bool(b) => Ok(JsonValue::Bool(b)),
        ValueModel::Struct(fields) => match struct_json(fields) {
            Ok(members) => Ok(JsonValue::Object(members)),
            Err(m) => Err(m),
        },
        ValueModel::List(values) => match list_json(values) {
            Ok(items) => Ok(JsonValue::Array(items)),
            Err(m) => Err(m),
        },
    }
}

/// The JSON of each value of a list, or the first error among them.
pub open spec fn list_json(values: Seq<ValueModel>) -> Outcome<Seq<JsonValue>>
    decreases values,
{
    if values.len() == 0 {
        Ok(Seq::empty())
    } else {
        match list_json(values.drop_last()) {
            Err(m) => Err(m),
            Ok(done) => match value_json(values.last()) {
                Err(m) => Err(m),
                Ok(j) => Ok(done.push(j)),
            },
        }
    }
}

/// The JSON of each field of a struct, or the first error among them.
pub open spec fn struct_json(fields: Seq<(Seq<char>, ValueModel)>) -> Outcome<
    Seq<(Seq<char>, JsonValue)>,
>
    decreases fields,
{
    if fields.len() == 0 {
        Ok(Seq::empty())
    } else {
        match struct_json(fields.drop_last()) {
            Err(m) => Err(m),
            Ok(done) => match value_json(fields.last().1) {
                Err(m) => Err(m),
                Ok(j) => Ok(done.push((fields.last().0, j))),
            },
        }
    }
}

/// The place of the first entry with the key, or the number of entries where
/// there is none.
pub open spec fn key_index<K, V>(entries: Seq<(K, V)>, key: K) -> int
    decreases entries.len(),
{
    if entries.len() == 0 {
        0
    } else if entries[0].0 == key {
        0
    } else {
        1 + key_index(entries.skip(1), key)
    }
}

/// `key_index` is the first place that holds the key.
pub proof fn lemma_key_index<K, V>(entries: Seq<(K, V)>, key: K, i: int)
    requires
        0 <= i <= entries.len(),
        forall|j: int| 0 <= j < i ==> entries[j].0 != key,
        i < entries.len() ==> entries[i].0 == key,
    ensures
        key_index(entries, key) == i,
    decreases entries.len(),
{
    if entries.len() > 0 && i > 0 {
        assert forall|j: int| 0 <= j < i - 1 implies entries.skip(1)[j].0 != key by {
            assert(entries.skip(1)[j] == entries[j + 1]);
        }
        lemma_key_index(entries.skip(1), key, i - 1);
    }
}

/// The entries with the key set to the value: in place where the key is
/// there, at the end where it is not.
pub open spec fn upsert<K, V>(entries: Seq<(K, V)>, key: K, value: V) -> Seq<(K, V)> {
    let i = key_index(entries, key);
    if 0 <= i < entries.len() {
        entries.update(i, (key, value))
    } else {
        entries.push((key, value))
    }
}

/// The value that JSON stands for: the JSON itself. An integer must be in
/// the range that a double holds exactly.
pub open spec fn value_from_json(json: JsonValue) -> Outcome<ValueModel>
    decreases json,
{
    match json {
        JsonValue::Null => Ok(ValueModel::Null(0)),
        JsonValue::Bool(b) => Ok(ValueModel::Bool(b)),
        JsonValue::Int(v) => if MIN_SAFE_I64 <= v <= MAX_SAFE_I64 {
            Ok(ValueModel::Number(Float64::of_whole(v < 0, if v < 0 { -v } else { v as int })))
        } else {
            Err("integer out of range for f64"@)
        },
        JsonValue::Uint(v) => if v <= MAX_SAFE_U64 {
            Ok(ValueModel::Number(Float64::of_whole(false, v as int)))
        } else {
            Err("integer out of range for f64"@)
        },
        JsonValue::Double(f) => Ok(ValueModel::Number(f)),
        JsonValue::Single(f) => Ok(ValueModel::Number(f.widened())),
        JsonValue::Str(s, _) => Ok(ValueModel::Text(s)),
        JsonValue::Array(items) => match list_from_json(items) {
            Ok(values) => Ok(ValueModel::List(values)),
            Err(m) => Err(m),
        },
        JsonValue::Object(members) => match struct_from_json(members) {
            Ok(fields) => Ok(ValueModel::Struct(fields)),
            Err(m) => Err(m),
        },
    }
}

/// The values that the items of an array stand for, or the first error.
pub open spec fn list_from_json(items: Seq<JsonValue>) -> Outcome<Seq<ValueModel>>
    decreases items,
{
    if items.len() == 0 {
        Ok(Seq::empty())
    } else {
        match list_from_json(items.drop_last()) {
            Err(m) => Err(m),
            Ok(done) => match value_from_json(items.last()) {
                Err(m) => Err(m),
                Ok(v) => Ok(done.push(v)),
            },
        }
    }
}

/// The fields that the members of an object stand for, or the first error.
/// A key that comes again replaces the value where the key stands.
pub open spec fn struct_from_json(members: Seq<(Seq<char>, JsonValue)>) -> Outcome<
    Seq<(Seq<char>, ValueModel)>,
>
    decreases members,
{
    if members.len() == 0 {
        Ok(Seq::empty())
    } else {
        match struct_from_json(members.drop_last()) {
            Err(m) => Err(m),
            Ok(done) => match value_from_json(members.last().1) {
                Err(m) => Err(m),
                Ok(v) => Ok(upsert(done, members.last().0, v)),
            },
        }
    }
}

/// An error at one value, with none before it, is the error of the list.
pub proof fn lemma_list_json_error(values: Seq<ValueModel>, i: int)
    requires
        0 <= i < values.len(),
        list_json(values.take(i)) is Ok,
        value_json(values[i]) is Err,
    ensures
        list_json(values) == Err::<Seq<JsonValue>, Seq<char>>(value_json(values[i])->Err_0),
    decreases values.len(),
{
    if i == values.len() - 1 {
        assert(values.drop_last() =~= values.take(i));
    } else {
        assert(values.drop_last().take(i) =~= values.take(i));
        lemma_list_json_error(values.drop_last(), i);
    }
}

/// An error at one field, with none before it, is the error of the struct.
pub proof fn lemma_struct_json_error(fields: Seq<(Seq<char>, ValueModel)>, i: int)
    requires
        0 <= i < fields.len(),
        struct_json(fields.take(i)) is Ok,
        value_json(fields[i].1) is Err,
    ensures
        struct_json(fields) == Err::<Seq<(Seq<char>, JsonValue)>, Seq<char>>(
            value_json(fields[i].1)->Err_0,
        ),
    decreases fields.len(),
{
    if i == fields.len() - 1 {
        assert(fields.drop_last() =~= fields.take(i));
    } else {
        assert(fields.drop_last().take(i) =~= fields.take(i));
        lemma_struct_json_error(fields.drop_last(), i);
    }
}

/// An error at one item, with none before it, is the error of the array.
pub proof fn lemma_list_from_json_error(items: Seq<JsonValue>, i: int)
    requires
        0 <= i < items.len(),
        list_from_json(items.take(i)) is Ok,
        value_from_json(items[i]) is Err,
    ensures
        list_from_json(items) == Err::<Seq<ValueModel>, Seq<char>>(
            value_from_json(items[i])->Err_0,
        ),
    decreases items.len(),
{
    if i == items.len() - 1 {
        assert(items.drop_last() =~= items.take(i));
    } else {
        assert(items.drop_last().take(i) =~= items.take(i));
        lemma_list_from_json_error(items.drop_last(), i);
    }
}

/// An error at one member, with none before it, is the error of the object.
pub proof fn lemma_struct_from_json_error(members: Seq<(Seq<char>, JsonValue)>, i: int)
    requires
        0 <= i < members.len(),
        struct_from_json(members.take(i)) is Ok,
        value_from_json(members[i].1) is Err,
    ensures
        struct_from_json(members) == Err::<Seq<(Seq<char>, ValueModel)>, Seq<char>>(
            value_from_json(members[i].1)->Err_0,
        ),
    decreases members.len(),
{
    if i == members.len() - 1 {
        assert(members.drop_last() =~= members.take(i));
    } else {
        assert(members.drop_last().take(i) =~= members.take(i));
        lemma_struct_from_json_error(members.drop_last(), i);
    }
}

/// Writes each value of a list as JSON.
pub fn list_to_json(values: &Vec<Value>) -> (r: Result<Vec<Json>, CanonicalError>)
    ensures
        match r {
            Ok(items) => list_json(list_models(values@)) == Ok::<Seq<JsonValue>, Seq<char>>(
                items_view(items@),
            ),
            Err(e) => list_json(list_models(values@)) == Err::<Seq<JsonValue>, Seq<char>>(e@),
        },
    decreases values,
{
    let ghost all = list_models(values@);
    let mut items: Vec<Json> = Vec::new();
    let mut i: usize = 0;
    proof {
        lemma_list_models(values@);
        assert(all.take(0) =~= Seq::<ValueModel>::empty());
    }
    while i < values.len()
        invariant
            i <= values.len(),
            all == list_models(values@),
            all.len() == values.len(),
            forall|k: int| 0 <= k < values.len() ==> #[trigger] all[k] == value_model(values@[k]),
            list_json(all.take(i as int)) == Ok::<Seq<JsonValue>, Seq<char>>(items_view(items@)),
        decreases values.len() - i,
    {
        proof {
            let next = all.take(i + 1);
            assert(next.drop_last() =~= all.take(i as int));
            assert(next.last() == all[i as int]);
        }
        match value_to_json(&values[i]) {
            Err(e) => {
                proof {
                    lemma_list_json_error(all, i as int);
                }
                return Err(e);
            },
            Ok(j) => {
                let ghost before = items@;
                items.push(j);
                proof {
                    assert(items@.drop_last() =~= before);
                }
            },
        }
        i = i + 1;
    }
    assert(all.take(values.len() as int) =~= all);
    Ok(items)
}

/// Writes each field of a struct as a member of a JSON object.
pub fn fields_to_json(fields: &Vec<(String, Value)>) -> (r: Result<
    Vec<(String, Json)>,
    CanonicalError,
>)
    ensures
        match r {
            Ok(members) => struct_json(field_models(fields@)) == Ok::<
                Seq<(Seq<char>, JsonValue)>,
                Seq<char>,
            >(members_view(members@)),
            Err(e) => struct_json(field_models(fields@)) == Err::<
                Seq<(Seq<char>, JsonValue)>,
                Seq<char>,
            >(e@),
        },
    decreases fields,
{
    let ghost all = field_models(fields@);
    let mut members: Vec<(String, Json)> = Vec::new();
    let mut i: usize = 0;
    proof {
        lemma_field_models(fields@);
        assert(all.take(0) =~= Seq::<(Seq<char>, ValueModel)>::empty());
    }
    while i < fields.len()
        invariant
            i <= fields.len(),
            all == field_models(fields@),
            all.len() == fields.len(),
            forall|k: int|
                0 <= k < fields.len() ==> #[trigger] all[k] == (
                    fields@[k].0@,
                    value_model(fields@[k].1),
                ),
            struct_json(all.take(i as int)) == Ok::<Seq<(Seq<char>, JsonValue)>, Seq<char>>(
                members_view(members@),
            ),
        decreases fields.len() - i,
    {
        proof {
            let next = all.take(i + 1);
            assert(next.drop_last() =~= all.take(i as int));
            assert(next.last() == all[i as int]);
        }
        match value_to_json(&fields[i].1) {
            Err(e) => {
                proof {
                    lemma_struct_json_error(all, i as int);
                }
                return Err(e);
            },
            Ok(j) => {
                let ghost before = members@;
                members.push((fields[i].0.clone(), j));
                proof {
                    assert(members@.drop_last() =~= before);
                }
            },
        }
        i = i + 1;
    }
    assert(all.take(fields.len() as int) =~= all);
    Ok(members)
}

/// Writes a value as the JSON it holds.
pub fn value_to_json(value: &Value) -> (r: Result<Json, CanonicalError>)
    ensures
        json_outcome(r) == value_json(value_model(*value)),
    decreases value,
{
    match &value.kind {
        None => Err(CanonicalError::new("Value.kind is missing")),
        Some(Kind::NullValue(_)) => Ok(Json::Null),
        Some(Kind::NumberValue(f)) => {
            if f.is_finite() {
                Ok(Json::Double(*f))
            } else {
                Err(CanonicalError::new("Value.number_value must be finite"))
            }
        },
        Some(Kind::StringValue(s)) => Ok(Json::Str(s.clone(), None)),
        Some(Kind::BoolValue(b)) => Ok(Json::Bool(*b)),
        Some(Kind::StructValue(s)) => match fields_to_json(&s.fields) {
            Ok(members) => Ok(Json::Object(members)),
            Err(e) => Err(e),
        },
        Some(Kind::ListValue(l)) => match list_to_json(&l.values) {
            Ok(items) => Ok(Json::Array(items)),
            Err(e) => Err(e),
        },
    }
}

/// Sets `key` to `value` in `fields`: in place where the key is there, at
/// the end where it is not.
pub fn set_field(fields: &mut Vec<(String, Value)>, key: String, value: Value)
    ensures
        field_models(final(fields)@) == upsert(
            field_models(old(fields)@),
            key@,
            value_model(value),
        ),
{
    let ghost models = field_models(fields@);
    proof {
        lemma_field_models(fields@);
    }
    let mut i: usize = 0;
    while i < fields.len() && fields[i].0 != key
        invariant
            i <= fields.len(),
            fields@ == old(fields)@,
            forall|j: int| 0 <= j < i ==> fields@[j].0@ != key@,
        decreases fields.len() - i,
    {
        i = i + 1;
    }
    proof {
        assert forall|j: int| 0 <= j < i implies models[j].0 != key@ by {
            assert(models[j] == (fields@[j].0@, value_model(fields@[j].1)));
        }
        if i < fields.len() {
            assert(models[i as int] == (fields@[i as int].0@, value_model(fields@[i as int].1)));
        }
        lemma_key_index(models, key@, i as int);
    }
    if i < fields.len() {
        fields.set(i, (key, value));
        proof {
            lemma_field_models(fields@);
            assert(field_models(fields@) =~= models.update(i as int, (key@, value_model(value))));
        }
    } else {
        fields.push((key, value));
        proof {
            lemma_field_models(fields@);
            assert(field_models(fields@) =~= models.push((key@, value_model(value))));
        }
    }
}

/// Reads each item of a JSON array as a value.
pub fn list_from_items(items: &Vec<Json>) -> (r: Result<Vec<Value>, CanonicalError>)
    ensures
        match r {
            Ok(values) => list_from_json(items_view(items@)) == Ok::<Seq<ValueModel>, Seq<char>>(
                list_models(values@),
            ),
            Err(e) => list_from_json(items_view(items@)) == Err::<Seq<ValueModel>, Seq<char>>(e@),
        },
    decreases items,
{
    let ghost all = items_view(items@);
    let mut values: Vec<Value> = Vec::new();
    let mut i: usize = 0;
    proof {
        lemma_items_view(items@);
        assert(all.take(0) =~= Seq::<JsonValue>::empty());
    }
    while i < items.len()
        invariant
            i <= items.len(),
            all == items_view(items@),
            all.len() == items.len(),
            forall|k: int| 0 <= k < items.len() ==> #[trigger] all[k] == items@[k]@,
            list_from_json(all.take(i as int)) == Ok::<Seq<ValueModel>, Seq<char>>(
                list_models(values@),
            ),
        decreases items.len() - i,
    {
        proof {
            let next = all.take(i + 1);
            assert(next.drop_last() =~= all.take(i as int));
            assert(next.last() == all[i as int]);
        }
        match value_from(&items[i]) {
            Err(e) => {
                proof {
                    lemma_list_from_json_error(all, i as int);
                }
                return Err(e);
            },
            Ok(v) => {
                let ghost before = values@;
                values.push(v);
                proof {
                    assert(values@.drop_last() =~= before);
                }
            },
        }
        i = i + 1;
    }
    assert(all.take(items.len() as int) =~= all);
    Ok(values)
}

/// Reads each member of a JSON object as a field.
pub fn fields_from_members(members: &Vec<(String, Json)>) -> (r: Result<
    Vec<(String, Value)>,
    CanonicalError,
>)
    ensures
        match r {
            Ok(fields) => struct_from_json(members_view(members@)) == Ok::<
                Seq<(Seq<char>, ValueModel)>,
                Seq<char>,
            >(field_models(fields@)),
            Err(e) => struct_from_json(members_view(members@)) == Err::<
                Seq<(Seq<char>, ValueModel)>,
                Seq<char>,
            >(e@),
        },
    decreases members,
{
    let ghost all = members_view(members@);
    let mut fields: Vec<(String, Value)> = Vec::new();
    let mut i: usize = 0;
    proof {
        lemma_members_view(members@);
        assert(all.take(0) =~= Seq::<(Seq<char>, JsonValue)>::empty());
    }
    while i < members.len()
        invariant
            i <= members.len(),
            all == members_view(members@),
            all.len() == members.len(),
            forall|k: int|
                0 <= k < members.len() ==> #[trigger] all[k] == (members@[k].0@, members@[k].1@),
            struct_from_json(all.take(i as int)) == Ok::<Seq<(Seq<char>, ValueModel)>, Seq<char>>(
                field_models(fields@),
            ),
        decreases members.len() - i,
    {
        proof {
            let next = all.take(i + 1);
            assert(next.drop_last() =~= all.take(i as int));
            assert(next.last() == all[i as int]);
        }
        match value_from(&members[i].1) {
            Err(e) => {
                proof {
                    lemma_struct_from_json_error(all, i as int);
                }
                return Err(e);
            },
            Ok(v) => {
                set_field(&mut fields, members[i].0.clone(), v);
            },
        }
        i = i + 1;
    }
    assert(all.take(members.len() as int) =~= all);
    Ok(fields)
}

/// Reads JSON as a value.
pub fn value_from(json: &Json) -> (r: Result<Value, CanonicalError>)
    ensures
        value_outcome(r) == value_from_json(json@),
    decreases json,
{
    match json {
        Json::Null => Ok(Value { kind: Some(Kind::NullValue(0)) }),
        Json::Bool(b) => Ok(Value { kind: Some(Kind::BoolValue(*b)) }),
        Json::Int(v) => match f64_from_i64_exact(*v) {
            Ok(f) => Ok(Value { kind: Some(Kind::NumberValue(f)) }),
            Err(e) => Err(e),
        },
        Json::Uint(v) => match f64_from_u64_exact(*v) {
            Ok(f) => Ok(Value { kind: Some(Kind::NumberValue(f)) }),
            Err(e) => Err(e),
        },
        Json::Double(f) => Ok(Value { kind: Some(Kind::NumberValue(*f)) }),
        Json::Single(f) => Ok(Value { kind: Some(Kind::NumberValue(f.widen())) }),
        Json::Str(s, _) => Ok(Value { kind: Some(Kind::StringValue(s.clone())) }),
        Json::Array(items) => match list_from_items(items) {
            Ok(values) => Ok(Value { kind: Some(Kind::ListValue(ListValue { values })) }),
            Err(e) => Err(e),
        },
        Json::Object(members) => match fields_from_members(members) {
            Ok(fields) => Ok(Value { kind: Some(Kind::StructValue(Struct { fields })) }),
            Err(e) => Err(e),
        },
    }
}

impl CanonicalSerialize for Value {
    open spec fn canonical_json(value: ValueModel) -> Outcome<JsonValue> {
        value_json(value)
    }

    fn serialize_canonical(&self) -> (r: Result<Json, CanonicalError>) {
        value_to_json(self)
    }
}

impl CanonicalDeserialize for Value {
    open spec fn canonical_value(json: JsonValue) -> Outcome<ValueModel> {
        value_from_json(json)
    }

    fn deserialize_canonical(json: &Json) -> (r: Result<Self, CanonicalError>) {
        value_from(json)
    }
}

impl CanonicalSerialize for Struct {
    open spec fn canonical_json(value: Seq<(Seq<char>, ValueModel)>) -> Outcome<JsonValue> {
        value_json(ValueModel::Struct(value))
    }

    fn serialize_canonical(&self) -> (r: Result<Json, CanonicalError>) {
        match fields_to_json(&self.fields) {
            Ok(members) => Ok(Json::Object(members)),
            Err(e) => Err(e),
        }
    }
}

impl CanonicalDeserialize for Struct {
    open spec fn canonical_value(json: JsonValue) -> Outcome<Seq<(Seq<char>, ValueModel)>> {
        match json {
            JsonValue::Object(members) => struct_from_json(members),
            _ => Err("invalid type, expected an object"@),
        }
    }

    fn deserialize_canonical(json: &Json) -> (r: Result<Self, CanonicalError>) {
        match json {
            Json::Object(members) => match fields_from_members(members) {
                Ok(fields) => Ok(Struct { fields }),
                Err(e) => Err(e),
            },
            _ => Err(CanonicalError::new("invalid type, expected an object")),
        }
    }
}

impl CanonicalSerialize for ListValue {
    open spec fn canonical_json(value: Seq<ValueModel>) -> Outcome<JsonValue> {
        value_json(ValueModel::List(value))
    }

    fn serialize_canonical(&self) -> (r: Result<Json, CanonicalError>) {
        match list_to_json(&self.values) {
            Ok(items) => Ok(Json::Array(items)),
            Err(e) => Err(e),
        }
    }
}

impl CanonicalDeserialize for ListValue {
    open spec fn canonical_value(json: JsonValue) -> Outcome<Seq<ValueModel>> {
        match json {
            JsonValue::Array(items) => list_from_json(items),
            JsonValue::Null => Ok(Seq::empty()),
            _ => Err("invalid type, expected an array"@),
        }
    }

    fn deserialize_canonical(json: &Json) -> (r: Result<Self, CanonicalError>) {
        match json {
            Json::Array(items) => match list_from_items(items) {
                Ok(values) => Ok(ListValue { values }),
                Err(e) => Err(e),
            },
            Json::Null => {
                let values: Vec<Value> = Vec::new();
                assert(list_models(values@) =~= Seq::<ValueModel>::empty());
                Ok(ListValue { values })
            },
            _ => Err(CanonicalError::new("invalid type, expected an array")),
        }
    }
}

/// `google.protobuf.Any`. The codec has no registry of types, so it
/// neither writes nor reads one.
#[derive(Debug, PartialEq)]
pub struct Any {
    pub type_url: String,
    pub value: Vec<u8>,
}

impl DeepView for Any {
    type V = (Seq<char>, Seq<u8>);

    open spec fn deep_view(&self) -> (Seq<char>, Seq<u8>) {
        (self.type_url@, self.value@)
    }
}

impl CanonicalSerialize for Any {
    open spec fn canonical_json(value: (Seq<char>, Seq<u8>)) -> Outcome<JsonValue> {
        Err("unsupported Any type"@)
    }

    fn serialize_canonical(&self) -> (r: Result<Json, CanonicalError>) {
        Err(CanonicalError::new("unsupported Any type"))
    }
}

impl CanonicalDeserialize for Any {
    open spec fn canonical_value(json: JsonValue) -> Outcome<(Seq<char>, Seq<u8>)> {
        Err("unsupported Any type"@)
    }

    fn deserialize_canonical(json: &Json) -> (r: Result<Self, CanonicalError>) {
        Err(CanonicalError::new("unsupported Any type"))
    }
}

} // verus!
