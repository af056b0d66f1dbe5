//! Round trip: a message that is written as JSON and read again is the
//! message it was.
//!
//! The law is shown for a whole message from what holds of the single values
//! in it. Of a value of a scalar kind, of an enum and of the well-known
//! types whose text this library writes and reads itself, it is shown in
//! turn when the value comes back. Where an outside crate writes and reads
//! the text (base64, the calendar), that the crate undoes its own work on
//! the value is what the law asks of the value.
use crate::decode::{
    default_element, default_field, default_message, default_slots, element_from_json,
    elements_from_json, entries_from_json, field_from_json, key_from_json, lemma_members_read_last,
    member_read, members_read, message_from_json, oneof_from_json,
};
use crate::encode::{
    element_json, elements_json, entries_json, entry_json, is_default, key_json, message_json,
    slot_json, slots_json,
};

use crate::json::JsonValue;
use crate::message::{ElementModel, FieldModel, KeyModel};
use crate::schema::{KeyKind, Kind, MessageDescriptor, Named, Schema, Shape, Slot};
use crate::text::{lemma_decimal_round_trip, lemma_signed_decimal_round_trip};
use crate::value::{
    lemma_key_index, list_from_json, list_json, struct_from_json, struct_json, upsert,
    value_from_json, value_json, ValueModel,
};
use vstd::prelude::*;

verus! {

/// Whether a value comes back: where it can be written, what was written
/// reads as the value.
pub open spec fn comes_back(schema: Schema, kind: Kind, e: ElementModel) -> bool {
    match element_json(schema, kind, e) {
        Ok(j) => element_from_json(schema, kind, j) == Ok::<ElementModel, Seq<char>>(e),
        Err(_) => true,
    }
}

/// Whether a value is written as something other than `null`.
pub open spec fn written_as_value(schema: Schema, kind: Kind, e: ElementModel) -> bool {
    match element_json(schema, kind, e) {
        Ok(j) => !(j is Null),
        Err(_) => true,
    }
}

/// Whether a key comes back.
pub open spec fn key_comes_back(keys: KeyKind, key: KeyModel) -> bool {
    match key_json(keys, key) {
        Ok(text) => key_from_json(keys, text) == Ok::<KeyModel, Seq<char>>(key),
        Err(_) => true,
    }
}

/// Whether no two entries have the same key.
pub open spec fn distinct_keys<K, V>(entries: Seq<(K, V)>) -> bool {
    forall|i: int, j: int| 0 <= i < j < entries.len() ==> entries[i].0 != entries[j].0
}

/// Whether a value is fit for a round trip.
///
/// - A message is fit if what every place of it holds is fit.
/// - A `float` or `double` that is no number is the default NaN.
/// - The names of an enum are its own.
/// - The paths of a field mask hold no comma.
/// - In a `google.protobuf.Value`, a null has the number zero and the keys
///   of every struct are distinct.
/// - `bytes` and a timestamp, whose text an outside crate writes and reads,
///   come back.
///
/// Any other value is fit.
pub open spec fn fit_element(schema: Schema, kind: Kind, e: ElementModel) -> bool
    decreases e, 0nat,
{
    match (kind, e) {
        (Kind::Message(i), ElementModel::Message(fields)) => fit_message(schema, i, fields),
        (Kind::Float, ElementModel::Float(f)) => f.nan() ==> f.bits == crate::float::SINGLE_NAN,
        (Kind::Double, ElementModel::Double(f)) => f.nan() ==> f.bits == crate::float::DOUBLE_NAN,
        (Kind::Enum(i), ElementModel::Enum(_)) => i < schema.enums@.len()
            ==> schema.enums@[i as int].names_own(),
        (Kind::FieldMask, ElementModel::FieldMask(paths)) => crate::text::all_without(paths, ','),
        (Kind::Value, ElementModel::Value(v)) => fit_value(v),
        (Kind::Struct, ElementModel::Struct(fields)) => fit_struct(fields) && distinct_keys(fields),
        (Kind::ListValue, ElementModel::ListValue(values)) => fit_list(values),
        (Kind::Bytes, ElementModel::Bytes(_)) => comes_back(schema, kind, e),
        (Kind::Timestamp, ElementModel::Timestamp(_)) => comes_back(schema, kind, e),
        _ => true,
    }
}

/// Whether every value of a row is fit.
pub open spec fn fit_elements(schema: Schema, kind: Kind, es: Seq<ElementModel>) -> bool
    decreases es, 0nat,
{
    if es.len() == 0 {
        true
    } else {
        fit_elements(schema, kind, es.drop_last()) && fit_element(schema, kind, es.last())
    }
}

/// Whether the value of every entry of a map is fit.
pub open spec fn fit_entries(
    schema: Schema,
    keys: KeyKind,
    kind: Kind,
    entries: Seq<(KeyModel, ElementModel)>,
) -> bool
    decreases entries, 0nat,
{
    if entries.len() == 0 {
        true
    } else {
        &&& fit_entries(schema, keys, kind, entries.drop_last())
        &&& fit_element(schema, kind, entries.last().1)
    }
}

/// Whether what a place holds is fit for a round trip.
///
/// - A singular scalar or enum at its default is the default itself: a
///   zero is not negative.
/// - A value that is written under a name of its own is not written as
///   `null`, which would read as nothing (but in an optional
///   `google.protobuf.Value`, where `null` is read as a value).
/// - The keys of a map are distinct.
pub open spec fn fit_field(schema: Schema, slot: Slot, field: FieldModel, owner: usize) -> bool
    decreases field, 0nat,
{
    match (slot, field) {
        (Slot::Field(f), FieldModel::Singular(e)) => if is_default(e) {
            default_element(schema, f.kind, owner) == Ok::<ElementModel, Seq<char>>(e)
        } else {
            fit_element(schema, f.kind, e) && written_as_value(schema, f.kind, e)
        },
        (Slot::Field(f), FieldModel::Optional(Some(e))) => fit_element(schema, f.kind, e) && (f.kind
            == Kind::Value || written_as_value(schema, f.kind, e)),
        (Slot::Field(f), FieldModel::Optional(None)) => true,
        (Slot::Field(f), FieldModel::Repeated(es)) => fit_elements(schema, f.kind, es),
        (Slot::Field(f), FieldModel::Keyed(entries)) => match f.shape {
            Shape::Keyed(keys) => fit_entries(schema, keys, f.kind, entries) && distinct_keys(
                entries,
            ),
            _ => true,
        },
        (Slot::Oneof(members), FieldModel::Oneof(Some((m, e)))) => m < members@.len() ==> fit_element(
            schema,
            members@[m as int].kind,
            e,
        ) && written_as_value(schema, members@[m as int].kind, e),
        _ => true,
    }
}

/// Whether what every place of a message holds is fit.
pub open spec fn fit_fields(schema: Schema, slots: Seq<Slot>, fields: Seq<FieldModel>, owner: usize) -> bool
    decreases fields, 0nat,
{
    if fields.len() == 0 || slots.len() == 0 {
        true
    } else {
        fit_fields(schema, slots.drop_last(), fields.drop_last(), owner) && fit_field(
            schema,
            slots.last(),
            fields.last(),
            owner,
        )
    }
}

impl MessageDescriptor {
    /// Whether the JSON name of every field and of every member of a oneof
    /// names that field or member, and nothing that stands before it.
    #[verifier::opaque]
    pub open spec fn json_names_own(self) -> bool {
        forall|k: int|
            0 <= k < self.slots@.len() ==> match #[trigger] self.slots@[k] {
                Slot::Field(f) => self.named(f.json_name@) == Named::Field(k as usize),
                Slot::Oneof(members) => forall|m: int|
                    0 <= m < members@.len() ==> self.named((#[trigger] members@[m]).json_name@)
                        == Named::Member(k as usize, m as usize),
            }
    }
}

/// The JSON name of a field names the field.
pub proof fn lemma_field_name_owns(desc: MessageDescriptor, k: int)
    requires
        desc.json_names_own(),
        0 <= k < desc.slots@.len(),
        desc.slots@[k] is Field,
    ensures
        desc.named(desc.slots@[k]->Field_0.json_name@) == Named::Field(k as usize),
{
    reveal(MessageDescriptor::json_names_own);
}

/// The JSON name of a member of a oneof names the member.
pub proof fn lemma_member_name_owns(desc: MessageDescriptor, k: int, m: int)
    requires
        desc.json_names_own(),
        0 <= k < desc.slots@.len(),
        desc.slots@[k] is Oneof,
        0 <= m < desc.slots@[k]->Oneof_0@.len(),
    ensures
        desc.named(desc.slots@[k]->Oneof_0@[m].json_name@) == Named::Member(
            k as usize,
            m as usize,
        ),
{
    reveal(MessageDescriptor::json_names_own);
    let members = desc.slots@[k]->Oneof_0;
    assert(desc.named((#[trigger] members@[m]).json_name@) == Named::Member(k as usize, m as usize));
}

/// Whether a message is fit for a round trip: its type has defaults and
/// JSON names of its own, and what every place holds is fit.
pub open spec fn fit_message(schema: Schema, index: usize, fields: Seq<FieldModel>) -> bool
    decreases fields, 1nat,
{
    &&& index < schema.messages@.len() ==> {
        &&& default_message(schema, index) is Ok
        &&& schema.messages@[index as int].json_names_own()
        &&& fit_fields(schema, schema.messages@[index as int].slots@, fields, index)
    }
}

/// What every place of a fit message holds is fit.
pub proof fn lemma_fit_fields(
    schema: Schema,
    slots: Seq<Slot>,
    fields: Seq<FieldModel>,
    owner: usize,
    i: int,
)
    requires
        fit_fields(schema, slots, fields, owner),
        slots.len() == fields.len(),
        0 <= i < fields.len(),
    ensures
        fit_field(schema, slots[i], fields[i], owner),
    decreases fields.len(),
{
    if i < fields.len() - 1 {
        lemma_fit_fields(schema, slots.drop_last(), fields.drop_last(), owner, i);
    }
}

/// The defaults are as many as the places, and each is the default of its
/// place.
pub proof fn lemma_default_slots(schema: Schema, slots: Seq<Slot>, owner: usize)
    requires
        default_slots(schema, slots, owner) is Ok,
    ensures
        default_slots(schema, slots, owner)->Ok_0.len() == slots.len(),
        forall|i: int|
            0 <= i < slots.len() ==> default_field(schema, #[trigger] slots[i], owner) == Ok::<
                FieldModel,
                Seq<char>,
            >(default_slots(schema, slots, owner)->Ok_0[i]),
    decreases slots.len(),
{
    if slots.len() > 0 {
        lemma_default_slots(schema, slots.drop_last(), owner);
        assert forall|i: int| 0 <= i < slots.len() implies default_field(
            schema,
            #[trigger] slots[i],
            owner,
        ) == Ok::<FieldModel, Seq<char>>(default_slots(schema, slots, owner)->Ok_0[i]) by {
            if i < slots.len() - 1 {
                assert(slots.drop_last()[i] == slots[i]);
            }
        }
    }
}

/// What was written of a fit row reads as the row.
pub proof fn lemma_elements_come_back(schema: Schema, kind: Kind, es: Seq<ElementModel>)
    requires
        fit_elements(schema, kind, es),
        elements_json(schema, kind, es) is Ok,
    ensures
        elements_from_json(schema, kind, elements_json(schema, kind, es)->Ok_0) == Ok::<
            Seq<ElementModel>,
            Seq<char>,
        >(es),
        elements_json(schema, kind, es)->Ok_0.len() == es.len(),
    decreases es, 1nat,
{
    if es.len() > 0 {
        let done = elements_json(schema, kind, es.drop_last())->Ok_0;
        let j = element_json(schema, kind, es.last())->Ok_0;
        lemma_elements_come_back(schema, kind, es.drop_last());
        lemma_element_comes_back(schema, kind, es.last());
        assert(done.push(j).drop_last() =~= done);
        assert(es.drop_last().push(es.last()) =~= es);
    } else {
        assert(es =~= Seq::<ElementModel>::empty());
    }
}

/// A key that is not among the entries is put at their end.
pub proof fn lemma_upsert_new<K, V>(entries: Seq<(K, V)>, key: K, value: V)
    requires
        forall|i: int| 0 <= i < entries.len() ==> entries[i].0 != key,
    ensures
        upsert(entries, key, value) == entries.push((key, value)),
{
    lemma_key_index(entries, key, entries.len() as int);
}

/// What was written of a fit map reads as the map.
pub proof fn lemma_entries_come_back(
    schema: Schema,
    keys: KeyKind,
    kind: Kind,
    entries: Seq<(KeyModel, ElementModel)>,
)
    requires
        fit_entries(schema, keys, kind, entries),
        distinct_keys(entries),
        entries_json(schema, keys, kind, entries) is Ok,
    ensures
        entries_from_json(schema, keys, kind, entries_json(schema, keys, kind, entries)->Ok_0)
            == Ok::<Seq<(KeyModel, ElementModel)>, Seq<char>>(entries),
        entries_json(schema, keys, kind, entries)->Ok_0.len() == entries.len(),
    decreases entries, 1nat,
{
    if entries.len() > 0 {
        let before = entries.drop_last();
        let done = entries_json(schema, keys, kind, before)->Ok_0;
        let member = entry_json(schema, keys, kind, entries.last())->Ok_0;
        assert(distinct_keys(before)) by {
            assert forall|i: int, j: int| 0 <= i < j < before.len() implies before[i].0
                != before[j].0 by {
                assert(before[i] == entries[i]);
                assert(before[j] == entries[j]);
            }
        }
        lemma_entries_come_back(schema, keys, kind, before);
        lemma_element_comes_back(schema, kind, entries.last().1);
        lemma_key_comes_back(keys, entries.last().0);
        assert(done.push(member).drop_last() =~= done);
        assert(done.push(member).last() == member);
        assert forall|i: int| 0 <= i < before.len() implies before[i].0 != entries.last().0 by {
            assert(before[i] == entries[i]);
        }
        lemma_upsert_new(before, entries.last().0, entries.last().1);
        assert(before.push(entries.last()) =~= entries);
    } else {
        assert(entries =~= Seq::<(KeyModel, ElementModel)>::empty());
    }
}

/// The places of a message while it is read back: those before `k` hold
/// what the message holds, the others their defaults.
pub open spec fn read_so_far(fields: Seq<FieldModel>, start: Seq<FieldModel>, k: int) -> Seq<
    FieldModel,
> {
    Seq::new(
        fields.len(),
        |i: int|
            if i < k {
                fields[i]
            } else {
                start[i]
            },
    )
}

/// A place at rest holds its default.
pub proof fn lemma_rest_is_default(schema: Schema, slot: Slot, field: FieldModel, owner: usize)
    requires
        fit_field(schema, slot, field, owner),
        slot_json(schema, slot, field) == Ok::<Option<(Seq<char>, JsonValue)>, Seq<char>>(None),
        default_field(schema, slot, owner) is Ok,
    ensures
        default_field(schema, slot, owner) == Ok::<FieldModel, Seq<char>>(field),
{
    match (slot, field) {
        (Slot::Field(f), FieldModel::Repeated(es)) => {
            assert(es =~= Seq::<ElementModel>::empty());
        },
        (Slot::Field(f), FieldModel::Keyed(entries)) => {
            assert(entries =~= Seq::<(KeyModel, ElementModel)>::empty());
        },
        _ => {},
    }
}

/// A member that names a field puts what it reads into the field's place.
pub proof fn lemma_member_read_field(
    schema: Schema,
    desc: MessageDescriptor,
    state: Seq<FieldModel>,
    member: (Seq<char>, JsonValue),
    k: usize,
    new: FieldModel,
)
    requires
        k < state.len(),
        k < desc.slots@.len(),
        desc.slots@[k as int] is Field,
        desc.named(member.0) == Named::Field(k),
        field_from_json(schema, desc.slots@[k as int]->Field_0, member.1) == Ok::<
            Option<FieldModel>,
            Seq<char>,
        >(Some(new)),
    ensures
        member_read(schema, desc, state, member) == Ok::<Seq<FieldModel>, Seq<char>>(
            state.update(k as int, new),
        ),
{
    reveal(member_read);
}

/// A member that names a member of a oneof puts what it reads into the
/// oneof's place.
pub proof fn lemma_member_read_oneof(
    schema: Schema,
    desc: MessageDescriptor,
    state: Seq<FieldModel>,
    member: (Seq<char>, JsonValue),
    k: usize,
    m: usize,
    new: FieldModel,
)
    requires
        k < state.len(),
        k < desc.slots@.len(),
        desc.slots@[k as int] is Oneof,
        m < desc.slots@[k as int]->Oneof_0@.len(),
        desc.named(member.0) == Named::Member(k, m),
        oneof_from_json(
            schema,
            desc.slots@[k as int]->Oneof_0@[m as int].kind,
            m,
            state[k as int],
            member.1,
        ) == Ok::<Option<FieldModel>, Seq<char>>(Some(new)),
    ensures
        member_read(schema, desc, state, member) == Ok::<Seq<FieldModel>, Seq<char>>(
            state.update(k as int, new),
        ),
{
    reveal(member_read);
}

/// What a fit field was written as stands under the field's JSON name and
/// reads as what the field held.
pub proof fn lemma_field_written_reads(
    schema: Schema,
    slot: Slot,
    field: FieldModel,
    owner: usize,
    member: (Seq<char>, JsonValue),
)
    requires
        slot is Field,
        fit_field(schema, slot, field, owner),
        slot_json(schema, slot, field) == Ok::<Option<(Seq<char>, JsonValue)>, Seq<char>>(
            Some(member),
        ),
    ensures
        member.0 == slot->Field_0.json_name@,
        field_from_json(schema, slot->Field_0, member.1) == Ok::<Option<FieldModel>, Seq<char>>(
            Some(field),
        ),
    decreases field, 2nat, 0nat,
{
    let f = slot->Field_0;
    match field {
        FieldModel::Singular(e) => {
            lemma_element_comes_back(schema, f.kind, e);
        },
        FieldModel::Optional(Some(e)) => {
            lemma_element_comes_back(schema, f.kind, e);
        },
        FieldModel::Repeated(es) => {
            lemma_elements_come_back(schema, f.kind, es);
        },
        FieldModel::Keyed(entries) => {
            match f.shape {
                Shape::Keyed(keys) => {
                    lemma_entries_come_back(schema, keys, f.kind, entries);
                },
                _ => {},
            }
        },
        _ => {},
    }
}

/// What the active member of a fit oneof was written as stands under the
/// member's JSON name and reads as the member with its value.
pub proof fn lemma_oneof_written_reads(
    schema: Schema,
    slot: Slot,
    field: FieldModel,
    owner: usize,
    member: (Seq<char>, JsonValue),
)
    requires
        slot is Oneof,
        fit_field(schema, slot, field, owner),
        slot_json(schema, slot, field) == Ok::<Option<(Seq<char>, JsonValue)>, Seq<char>>(
            Some(member),
        ),
    ensures
        field matches FieldModel::Oneof(Some(active)) && active.0 < slot->Oneof_0@.len() && member.0
            == slot->Oneof_0@[active.0 as int].json_name@ && oneof_from_json(
            schema,
            slot->Oneof_0@[active.0 as int].kind,
            active.0,
            FieldModel::Oneof(None),
            member.1,
        ) == Ok::<Option<FieldModel>, Seq<char>>(Some(field)),
    decreases field, 2nat, 0nat,
{
    let members = slot->Oneof_0;
    match field {
        FieldModel::Oneof(Some((m, e))) => {
            if m < members@.len() {
                lemma_element_comes_back(schema, members@[m as int].kind, e);
            }
        },
        _ => {},
    }
}

/// The member that a fit place was written as is read into that place, and
/// gives the place what it held.
pub proof fn lemma_member_comes_back(
    schema: Schema,
    index: usize,
    fields: Seq<FieldModel>,
    start: Seq<FieldModel>,
    k: usize,
    member: (Seq<char>, JsonValue),
)
    requires
        index < schema.messages@.len(),
        schema.messages@[index as int].json_names_own(),
        schema.messages@[index as int].slots@.len() == fields.len(),
        default_slots(schema, schema.messages@[index as int].slots@, index) == Ok::<
            Seq<FieldModel>,
            Seq<char>,
        >(start),
        k < fields.len(),
        fit_field(schema, schema.messages@[index as int].slots@[k as int], fields[k as int], index),
        slot_json(schema, schema.messages@[index as int].slots@[k as int], fields[k as int])
            == Ok::<Option<(Seq<char>, JsonValue)>, Seq<char>>(Some(member)),
    ensures
        member_read(
            schema,
            schema.messages@[index as int],
            read_so_far(fields, start, k as int),
            member,
        ) == Ok::<Seq<FieldModel>, Seq<char>>(read_so_far(fields, start, k + 1)),
    decreases fields[k as int], 3nat, 0nat,
{
    let desc = schema.messages@[index as int];
    let slot = desc.slots@[k as int];
    let field = fields[k as int];
    let state = read_so_far(fields, start, k as int);
    lemma_default_slots(schema, desc.slots@, index);
    assert(state.len() == fields.len());
    assert(state[k as int] == start[k as int]);
    assert(default_field(schema, slot, index) == Ok::<FieldModel, Seq<char>>(start[k as int]));
    match slot {
        Slot::Field(f) => {
            lemma_field_name_owns(desc, k as int);
            lemma_field_written_reads(schema, slot, field, index, member);
            lemma_member_read_field(schema, desc, state, member, k, field);
        },
        Slot::Oneof(members) => {
            lemma_oneof_written_reads(schema, slot, field, index, member);
            let m = field->Oneof_0->Some_0.0;
            lemma_member_name_owns(desc, k as int, m as int);
            assert(state[k as int] == FieldModel::Oneof(None));
            lemma_member_read_oneof(schema, desc, state, member, k, m, field);
        },
    }
    assert(state.update(k as int, field) =~= read_so_far(fields, start, k + 1));
}

/// Reading back what the first `k` places of a fit message were written as
/// gives those places what they held and leaves the others at their
/// defaults.
pub proof fn lemma_places_come_back(
    schema: Schema,
    index: usize,
    fields: Seq<FieldModel>,
    start: Seq<FieldModel>,
    k: int,
)
    requires
        index < schema.messages@.len(),
        schema.messages@[index as int].json_names_own(),
        schema.messages@[index as int].slots@.len() == fields.len(),
        default_slots(schema, schema.messages@[index as int].slots@, index) == Ok::<
            Seq<FieldModel>,
            Seq<char>,
        >(start),
        fit_fields(schema, schema.messages@[index as int].slots@, fields, index),
        0 <= k <= fields.len(),
        slots_json(schema, schema.messages@[index as int].slots@.take(k), fields.take(k)) is Ok,
    ensures
        members_read(
            schema,
            schema.messages@[index as int],
            start,
            slots_json(
                schema,
                schema.messages@[index as int].slots@.take(k),
                fields.take(k),
            )->Ok_0,
        ) == Ok::<Seq<FieldModel>, Seq<char>>(read_so_far(fields, start, k)),
    decreases fields, 0nat, k,
{
    let desc = schema.messages@[index as int];
    let slots = desc.slots@;
    lemma_default_slots(schema, slots, index);
    assert(desc.slots.len() == slots.len());
    assert(k <= usize::MAX);
    if k == 0 {
        assert(read_so_far(fields, start, 0) =~= start);
        assert(fields.take(0) =~= Seq::<FieldModel>::empty());
    } else {
        assert(slots.take(k).drop_last() =~= slots.take(k - 1));
        assert(fields.take(k).drop_last() =~= fields.take(k - 1));
        assert(slots.take(k).last() == slots[k - 1]);
        assert(fields.take(k).last() == fields[k - 1]);
        lemma_places_come_back(schema, index, fields, start, k - 1);
        lemma_fit_fields(schema, slots, fields, index, k - 1);
        let done = slots_json(schema, slots.take(k - 1), fields.take(k - 1))->Ok_0;
        match slot_json(schema, slots[k - 1], fields[k - 1]) {
            Ok(None) => {
                lemma_rest_is_default(schema, slots[k - 1], fields[k - 1], index);
                assert(read_so_far(fields, start, k) =~= read_so_far(fields, start, k - 1));
            },
            Ok(Some(member)) => {
                let members = done.push(member);
                lemma_members_read_last(schema, desc, start, members);
                assert(members.drop_last() =~= done);
                assert(members.last() == member);
                lemma_member_comes_back(schema, index, fields, start, (k - 1) as usize, member);
            },
            Err(_) => {},
        }
    }
}

/// Round trip for a message: a fit message that can be written reads back
/// from what it was written as.
pub proof fn law_round_trip(schema: Schema, index: usize, fields: Seq<FieldModel>)
    requires
        fit_message(schema, index, fields),
        message_json(schema, index, fields) is Ok,
    ensures
        message_from_json(schema, index, message_json(schema, index, fields)->Ok_0) == Ok::<
            Seq<FieldModel>,
            Seq<char>,
        >(fields),
    decreases fields, 1nat, 0nat,
{
    let desc = schema.messages@[index as int];
    let start = default_message(schema, index)->Ok_0;
    assert(desc.slots@.take(fields.len() as int) =~= desc.slots@);
    assert(fields.take(fields.len() as int) =~= fields);
    lemma_places_come_back(schema, index, fields, start, fields.len() as int);
    assert(read_so_far(fields, start, fields.len() as int) =~= fields);
}

/// Round trip for one value: a fit value that can be written reads back
/// from what it was written as.
pub proof fn lemma_element_comes_back(schema: Schema, kind: Kind, e: ElementModel)
    requires
        fit_element(schema, kind, e),
    ensures
        comes_back(schema, kind, e),
    decreases e, 2nat, 0nat,
{
    match (kind, e) {
        (Kind::Message(i), ElementModel::Message(fields)) => {
            if message_json(schema, i, fields) is Ok {
                law_round_trip(schema, i, fields);
            }
        },
        (Kind::Float, ElementModel::Float(f)) => {
            lemma_float_comes_back(schema, f);
        },
        (Kind::Double, ElementModel::Double(f)) => {
            lemma_double_comes_back(schema, f);
        },
        (Kind::Enum(i), ElementModel::Enum(v)) => {
            lemma_enum_comes_back(schema, i, v);
        },
        (Kind::FieldMask, ElementModel::FieldMask(paths)) => {
            lemma_field_mask_comes_back(schema, paths);
        },
        (Kind::Duration, ElementModel::Duration(d)) => {
            lemma_duration_comes_back(schema, d);
        },
        (Kind::Value, ElementModel::Value(_)) => {
            lemma_values_come_back(schema, kind, e);
        },
        (Kind::Struct, ElementModel::Struct(_)) => {
            lemma_values_come_back(schema, kind, e);
        },
        (Kind::ListValue, ElementModel::ListValue(_)) => {
            lemma_values_come_back(schema, kind, e);
        },
        (Kind::Bytes, ElementModel::Bytes(_)) => {},
        (Kind::Timestamp, ElementModel::Timestamp(_)) => {},
        (Kind::Any, ElementModel::Any(_, _)) => {},
        _ => {
            if kind == Kind::Bool || kind == Kind::Int32 || kind == Kind::Uint32 || kind
                == Kind::Int64 || kind == Kind::Uint64 || kind == Kind::String {
                lemma_plain_scalars_come_back(schema, kind, e);
            }
        },
    }
}

/// A `bool`, an integer of any of the four kinds and a string always come
/// back.
pub proof fn lemma_plain_scalars_come_back(schema: Schema, kind: Kind, e: ElementModel)
    requires
        kind == Kind::Bool || kind == Kind::Int32 || kind == Kind::Uint32 || kind == Kind::Int64
            || kind == Kind::Uint64 || kind == Kind::String,
    ensures
        comes_back(schema, kind, e),
        written_as_value(schema, kind, e),
{
    match e {
        ElementModel::Int64(v) => {
            lemma_signed_decimal_round_trip(v as int);
        },
        ElementModel::Uint64(v) => {
            lemma_decimal_round_trip(v as nat);
        },
        _ => {},
    }
}

/// A `float` comes back unless it is a NaN other than the default NaN: a
/// finite one as a number, an infinite one through its name.
pub proof fn lemma_float_comes_back(schema: Schema, f: crate::float::Float32)
    requires
        f.nan() ==> f.bits == crate::float::SINGLE_NAN,
    ensures
        comes_back(schema, Kind::Float, ElementModel::Float(f)),
        written_as_value(schema, Kind::Float, ElementModel::Float(f)),
{
    reveal_strlit("NaN");
    reveal_strlit("Infinity");
    reveal_strlit("-Infinity");
    assert("NaN"@.len() == 3 && "Infinity"@.len() == 8 && "-Infinity"@.len() == 9);
}

/// A `double` comes back unless it is a NaN other than the default NaN.
pub proof fn lemma_double_comes_back(schema: Schema, f: crate::float::Float64)
    requires
        f.nan() ==> f.bits == crate::float::DOUBLE_NAN,
    ensures
        comes_back(schema, Kind::Double, ElementModel::Double(f)),
        written_as_value(schema, Kind::Double, ElementModel::Double(f)),
{
    reveal_strlit("NaN");
    reveal_strlit("Infinity");
    reveal_strlit("-Infinity");
    assert("NaN"@.len() == 3 && "Infinity"@.len() == 8 && "-Infinity"@.len() == 9);
}

impl crate::schema::EnumDescriptor {
    /// Whether the name of every variant finds that variant, and, in the
    /// enum of the null value, the name `NULL_VALUE` belongs to the number
    /// zero.
    #[verifier::opaque]
    pub open spec fn names_own(self) -> bool {
        forall|i: int|
            0 <= i < self.variants@.len() ==> {
                &&& self.place_of_name((#[trigger] self.variants@[i]).name@) == i
                &&& self.null_value && self.variants@[i].name@ == "NULL_VALUE"@
                    ==> self.variants@[i].number == 0
            }
    }
}

/// An enum number comes back, known to the enum or not, where the names of
/// the enum are its own.
pub proof fn lemma_enum_comes_back(schema: Schema, index: usize, v: i32)
    requires
        index < schema.enums@.len() ==> schema.enums@[index as int].names_own(),
    ensures
        comes_back(schema, Kind::Enum(index), ElementModel::Enum(v)),
{
    if index < schema.enums@.len() {
        let desc = schema.enums@[index as int];
        reveal(crate::schema::EnumDescriptor::names_own);
        let flags = Seq::new(desc.variants@.len(), |i: int| desc.variants@[i].number == v);
        crate::schema::lemma_first_true_bounds(flags);
        let i = desc.place_of_number(v);
        if 0 <= i < desc.variants@.len() {
            assert(flags[i]);
            assert(desc.place_of_name((#[trigger] desc.variants@[i]).name@) == i);
        }
    }
}

/// A key of a map comes back, whatever its kind.
pub proof fn lemma_key_comes_back(keys: KeyKind, key: KeyModel)
    ensures
        key_comes_back(keys, key),
{
    reveal_strlit("true");
    reveal_strlit("false");
    assert("true"@.len() == 4 && "false"@.len() == 5);
    match key {
        KeyModel::Int32(v) => {
            lemma_signed_decimal_round_trip(v as int);
        },
        KeyModel::Int64(v) => {
            lemma_signed_decimal_round_trip(v as int);
        },
        KeyModel::Uint32(v) => {
            lemma_decimal_round_trip(v as nat);
        },
        KeyModel::Uint64(v) => {
            lemma_decimal_round_trip(v as nat);
        },
        _ => {},
    }
}

/// A message, a timestamp, a duration, a field mask, a struct and a list
/// are never written as `null`.
pub proof fn law_messages_written_as_values(schema: Schema, kind: Kind, e: ElementModel)
    requires
        kind.is_message(),
        kind != Kind::Value,
    ensures
        written_as_value(schema, kind, e),
{
}

/// Whether a `google.protobuf.Value` is fit for a round trip: a null has
/// the number zero, and the keys of every struct in it are distinct.
pub open spec fn fit_value(v: ValueModel) -> bool
    decreases v, 0nat,
{
    match v {
        ValueModel::Null(n) => n == 0,
        ValueModel::Struct(fields) => fit_struct(fields) && distinct_keys(fields),
        ValueModel::List(values) => fit_list(values),
        _ => true,
    }
}

/// Whether every value of a list is fit.
pub open spec fn fit_list(values: Seq<ValueModel>) -> bool
    decreases values, 0nat,
{
    if values.len() == 0 {
        true
    } else {
        fit_list(values.drop_last()) && fit_value(values.last())
    }
}

/// Whether the value of every field of a struct is fit.
pub open spec fn fit_struct(fields: Seq<(Seq<char>, ValueModel)>) -> bool
    decreases fields, 0nat,
{
    if fields.len() == 0 {
        true
    } else {
        fit_struct(fields.drop_last()) && fit_value(fields.last().1)
    }
}

/// Round trip for `google.protobuf.Value`: a fit value that can be written
/// reads back from what it was written as.
pub proof fn lemma_value_comes_back(v: ValueModel)
    requires
        fit_value(v),
        value_json(v) is Ok,
    ensures
        value_from_json(value_json(v)->Ok_0) == Ok::<ValueModel, Seq<char>>(v),
    decreases v, 1nat,
{
    match v {
        ValueModel::Struct(fields) => {
            lemma_struct_comes_back(fields);
        },
        ValueModel::List(values) => {
            lemma_list_comes_back(values);
        },
        _ => {},
    }
}

/// Round trip for `google.protobuf.ListValue`.
pub proof fn lemma_list_comes_back(values: Seq<ValueModel>)
    requires
        fit_list(values),
        list_json(values) is Ok,
    ensures
        list_from_json(list_json(values)->Ok_0) == Ok::<Seq<ValueModel>, Seq<char>>(values),
    decreases values, 2nat,
{
    if values.len() > 0 {
        let done = list_json(values.drop_last())->Ok_0;
        let j = value_json(values.last())->Ok_0;
        lemma_list_comes_back(values.drop_last());
        lemma_value_comes_back(values.last());
        assert(done.push(j).drop_last() =~= done);
        assert(values.drop_last().push(values.last()) =~= values);
    } else {
        assert(values =~= Seq::<ValueModel>::empty());
    }
}

/// Round trip for `google.protobuf.Struct`.
pub proof fn lemma_struct_comes_back(fields: Seq<(Seq<char>, ValueModel)>)
    requires
        fit_struct(fields),
        distinct_keys(fields),
        struct_json(fields) is Ok,
    ensures
        struct_from_json(struct_json(fields)->Ok_0) == Ok::<
            Seq<(Seq<char>, ValueModel)>,
            Seq<char>,
        >(fields),
    decreases fields, 2nat,
{
    if fields.len() > 0 {
        let before = fields.drop_last();
        let done = struct_json(before)->Ok_0;
        let j = value_json(fields.last().1)->Ok_0;
        assert(distinct_keys(before)) by {
            assert forall|i: int, k: int| 0 <= i < k < before.len() implies before[i].0
                != before[k].0 by {
                assert(before[i] == fields[i]);
                assert(before[k] == fields[k]);
            }
        }
        lemma_struct_comes_back(before);
        lemma_value_comes_back(fields.last().1);
        let member = (fields.last().0, j);
        assert(done.push(member).drop_last() =~= done);
        assert(done.push(member).last() == member);
        assert forall|i: int| 0 <= i < before.len() implies before[i].0 != fields.last().0 by {
            assert(before[i] == fields[i]);
        }
        lemma_upsert_new(before, fields.last().0, fields.last().1);
        assert(before.push(fields.last()) =~= fields);
    } else {
        assert(fields =~= Seq::<(Seq<char>, ValueModel)>::empty());
    }
}

/// A fit `google.protobuf.Value`, `Struct` and `ListValue` in a message come
/// back.
pub proof fn lemma_values_come_back(schema: Schema, kind: Kind, e: ElementModel)
    requires
        match (kind, e) {
            (Kind::Value, ElementModel::Value(v)) => fit_value(v),
            (Kind::Struct, ElementModel::Struct(fields)) => fit_struct(fields) && distinct_keys(
                fields,
            ),
            (Kind::ListValue, ElementModel::ListValue(values)) => fit_list(values),
            _ => false,
        },
    ensures
        comes_back(schema, kind, e),
{
    match (kind, e) {
        (Kind::Value, ElementModel::Value(v)) => {
            if value_json(v) is Ok {
                lemma_value_comes_back(v);
            }
        },
        (Kind::Struct, ElementModel::Struct(fields)) => {
            if struct_json(fields) is Ok {
                lemma_struct_comes_back(fields);
            }
        },
        (Kind::ListValue, ElementModel::ListValue(values)) => {
            if list_json(values) is Ok {
                lemma_list_comes_back(values);
            }
        },
        _ => {},
    }
}

/// A duration in a message comes back.
pub proof fn lemma_duration_comes_back(schema: Schema, d: crate::duration::Duration)
    ensures
        comes_back(schema, Kind::Duration, ElementModel::Duration(d)),
{
    if crate::duration::duration_text(d) is Ok {
        crate::duration::lemma_duration_round_trip(d);
    }
}

/// A field mask whose paths hold no comma comes back.
pub proof fn lemma_field_mask_comes_back(schema: Schema, paths: Seq<Seq<char>>)
    requires
        crate::text::all_without(paths, ','),
    ensures
        comes_back(schema, Kind::FieldMask, ElementModel::FieldMask(paths)),
{
    if crate::field_mask::mask_text(paths) is Ok {
        crate::field_mask::lemma_mask_round_trip(paths);
    }
}

} // verus!
