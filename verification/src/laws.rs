//! What holds of the codec as a whole.
use crate::decode::{lemma_members_read_last, member_read, members_read, message_from_json};
use crate::encode::{is_default, message_json, of_kind, slot_json, slots_json};
use crate::float::Float64;
use crate::json::JsonValue;
use crate::message::FieldModel;
use crate::number::{MAX_SAFE_I64, MAX_SAFE_U64, MIN_SAFE_I64};
use crate::scalar::{i32_from_json, i64_from_json, u32_from_json, u64_from_json};
use crate::schema::{MessageDescriptor, Named, Schema, Shape, Slot};
use crate::text::{
    decimal, lemma_decimal_round_trip, lemma_signed_decimal_round_trip, signed_decimal,
    signed_value, unsigned_value, within,
};
use vstd::prelude::*;

verus! {

/// Whether text is none of the three that stand for a double that is no
/// number or not finite.
pub open spec fn plain_text(text: Seq<char>) -> bool {
    text != "NaN"@ && text != "Infinity"@ && text != "-Infinity"@
}

/// Number format tolerance, `int32`: a whole number in range reads the same
/// whether it comes as an integer, as its decimal text, as a double that
/// equals it, or as other text that the reader reads as such a double.
pub proof fn law_int32_formats(n: i32, f: Float64, text: Seq<char>, reading: Option<Float64>)
    requires
        f.integer() == Some(n as int),
        plain_text(text),
        within(signed_value(text), i32::MIN as int, i32::MAX as int) is None,
    ensures
        i32_from_json(JsonValue::Int(n as i64)) == Ok::<i32, Seq<char>>(n),
        n >= 0 ==> i32_from_json(JsonValue::Uint(n as u64)) == Ok::<i32, Seq<char>>(n),
        i32_from_json(JsonValue::Str(signed_decimal(n as int), reading)) == Ok::<i32, Seq<char>>(n),
        i32_from_json(JsonValue::Double(f)) == Ok::<i32, Seq<char>>(n),
        i32_from_json(JsonValue::Str(text, Some(f))) == Ok::<i32, Seq<char>>(n),
{
    lemma_signed_decimal_round_trip(n as int);
}

/// Number format tolerance, `uint32`.
pub proof fn law_uint32_formats(n: u32, f: Float64, text: Seq<char>, reading: Option<Float64>)
    requires
        f.integer() == Some(n as int),
        plain_text(text),
        within(unsigned_value(text), 0, u32::MAX as int) is None,
    ensures
        u32_from_json(JsonValue::Uint(n as u64)) == Ok::<u32, Seq<char>>(n),
        u32_from_json(JsonValue::Int(n as i64)) == Ok::<u32, Seq<char>>(n),
        u32_from_json(JsonValue::Str(decimal(n as nat), reading)) == Ok::<u32, Seq<char>>(n),
        u32_from_json(JsonValue::Double(f)) == Ok::<u32, Seq<char>>(n),
        u32_from_json(JsonValue::Str(text, Some(f))) == Ok::<u32, Seq<char>>(n),
{
    lemma_decimal_round_trip(n as nat);
}

/// Number format tolerance, `int64`: the decimal text of any `i64` reads as
/// it; an integer, a double and other text read as the number only within
/// the range that a double holds exactly, and fail beyond it.
pub proof fn law_int64_formats(n: i64, f: Float64, text: Seq<char>, reading: Option<Float64>)
    requires
        f.integer() == Some(n as int),
        plain_text(text),
        within(signed_value(text), i64::MIN as int, i64::MAX as int) is None,
    ensures
        i64_from_json(JsonValue::Str(signed_decimal(n as int), reading)) == Ok::<i64, Seq<char>>(n),
        MIN_SAFE_I64 <= n <= MAX_SAFE_I64 ==> {
            &&& i64_from_json(JsonValue::Int(n)) == Ok::<i64, Seq<char>>(n)
            &&& i64_from_json(JsonValue::Double(f)) == Ok::<i64, Seq<char>>(n)
            &&& i64_from_json(JsonValue::Str(text, Some(f))) == Ok::<i64, Seq<char>>(n)
        },
        !(MIN_SAFE_I64 <= n <= MAX_SAFE_I64) ==> {
            &&& i64_from_json(JsonValue::Int(n)) is Err
            &&& i64_from_json(JsonValue::Double(f)) is Err
            &&& i64_from_json(JsonValue::Str(text, Some(f))) is Err
        },
{
    lemma_signed_decimal_round_trip(n as int);
}

/// Number format tolerance, `uint64`.
pub proof fn law_uint64_formats(n: u64, f: Float64, text: Seq<char>, reading: Option<Float64>)
    requires
        f.integer() == Some(n as int),
        plain_text(text),
        within(unsigned_value(text), 0, u64::MAX as int) is None,
    ensures
        u64_from_json(JsonValue::Str(decimal(n as nat), reading)) == Ok::<u64, Seq<char>>(n),
        n <= MAX_SAFE_U64 ==> {
            &&& u64_from_json(JsonValue::Uint(n)) == Ok::<u64, Seq<char>>(n)
            &&& u64_from_json(JsonValue::Double(f)) == Ok::<u64, Seq<char>>(n)
            &&& u64_from_json(JsonValue::Str(text, Some(f))) == Ok::<u64, Seq<char>>(n)
        },
        n > MAX_SAFE_U64 ==> {
            &&& u64_from_json(JsonValue::Uint(n)) is Err
            &&& u64_from_json(JsonValue::Double(f)) is Err
            &&& u64_from_json(JsonValue::Str(text, Some(f))) is Err
        },
{
    lemma_decimal_round_trip(n as nat);
}

/// Whether a place holds nothing to write: a singular scalar or enum at its
/// default, an optional field without a value, an empty repeated field, an
/// empty map, a oneof with no active member.
pub open spec fn at_rest(slot: Slot, field: FieldModel) -> bool {
    match (slot, field) {
        (Slot::Field(f), FieldModel::Singular(e)) => f.shape == Shape::Singular && of_kind(f.kind, e)
            && is_default(e),
        (Slot::Field(f), FieldModel::Optional(o)) => f.shape == Shape::Optional && o is None,
        (Slot::Field(f), FieldModel::Repeated(es)) => f.shape == Shape::Repeated && es.len() == 0,
        (Slot::Field(f), FieldModel::Keyed(entries)) => f.shape is Keyed && entries.len() == 0,
        (Slot::Oneof(_), FieldModel::Oneof(active)) => active is None,
        _ => false,
    }
}

/// Places at rest leave no member.
pub proof fn lemma_slots_at_rest(schema: Schema, slots: Seq<Slot>, fields: Seq<FieldModel>)
    requires
        slots.len() == fields.len(),
        forall|i: int| 0 <= i < fields.len() ==> at_rest(slots[i], #[trigger] fields[i]),
    ensures
        slots_json(schema, slots, fields) == Ok::<Seq<(Seq<char>, JsonValue)>, Seq<char>>(
            Seq::empty(),
        ),
    decreases fields.len(),
{
    if fields.len() > 0 {
        assert forall|i: int| 0 <= i < fields.drop_last().len() implies at_rest(
            slots.drop_last()[i],
            #[trigger] fields.drop_last()[i],
        ) by {
            assert(fields.drop_last()[i] == fields[i]);
        }
        lemma_slots_at_rest(schema, slots.drop_last(), fields.drop_last());
        assert(at_rest(slots.last(), fields[fields.len() - 1]));
        assert(slot_json(schema, slots.last(), fields.last()) == Ok::<
            Option<(Seq<char>, JsonValue)>,
            Seq<char>,
        >(None));
    }
}

/// Default elision: a message whose every place is at rest is written as
/// the empty object.
pub proof fn law_default_elision(schema: Schema, index: usize, fields: Seq<FieldModel>)
    requires
        index < schema.messages@.len(),
        schema.messages@[index as int].slots@.len() == fields.len(),
        forall|i: int|
            0 <= i < fields.len() ==> at_rest(
                schema.messages@[index as int].slots@[i],
                #[trigger] fields[i],
            ),
    ensures
        message_json(schema, index, fields) == Ok::<JsonValue, Seq<char>>(
            JsonValue::Object(Seq::empty()),
        ),
{
    lemma_slots_at_rest(schema, schema.messages@[index as int].slots@, fields);
}

/// A member whose key names nothing changes nothing, wherever it stands
/// among the members.
pub proof fn lemma_unknown_member(
    schema: Schema,
    desc: MessageDescriptor,
    start: Seq<FieldModel>,
    members: Seq<(Seq<char>, JsonValue)>,
    at: int,
    extra: (Seq<char>, JsonValue),
)
    requires
        0 <= at <= members.len(),
        desc.named(extra.0) == Named::Nothing,
    ensures
        members_read(schema, desc, start, members.insert(at, extra)) == members_read(
            schema,
            desc,
            start,
            members,
        ),
    decreases members.len() - at,
{
    reveal(member_read);
    let longer = members.insert(at, extra);
    lemma_members_read_last(schema, desc, start, longer);
    if at == members.len() {
        assert(longer.drop_last() =~= members);
        assert(longer.last() == extra);
    } else {
        lemma_members_read_last(schema, desc, start, members);
        assert(longer.drop_last() =~= members.drop_last().insert(at, extra));
        assert(longer.last() == members.last());
        lemma_unknown_member(schema, desc, start, members.drop_last(), at, extra);
    }
}

/// Unknown fields: a member whose key the message type does not know can be
/// added to a JSON object anywhere without changing what the object reads
/// as.
pub proof fn law_unknown_fields(
    schema: Schema,
    index: usize,
    members: Seq<(Seq<char>, JsonValue)>,
    at: int,
    key: Seq<char>,
    value: JsonValue,
)
    requires
        index < schema.messages@.len(),
        0 <= at <= members.len(),
        schema.messages@[index as int].named(key) == Named::Nothing,
    ensures
        message_from_json(schema, index, JsonValue::Object(members.insert(at, (key, value))))
            == message_from_json(schema, index, JsonValue::Object(members)),
{
    let desc = schema.messages@[index as int];
    match crate::decode::default_message(schema, index) {
        Ok(start) => {
            lemma_unknown_member(schema, desc, start, members, at, (key, value));
        },
        Err(_) => {},
    }
}

impl MessageDescriptor {
    /// The protobuf name of what a key names; the key itself where it
    /// names nothing.
    pub open spec fn proto_key(self, key: Seq<char>) -> Seq<char> {
        match self.named(key) {
            Named::Field(f) => self.slots@[f as int]->Field_0.proto_name@,
            Named::Member(o, m) => self.slots@[o as int]->Oneof_0@[m as int].proto_name@,
            Named::Nothing => key,
        }
    }

    /// Whether the protobuf name of every field and of every member of a
    /// oneof names that field or member, and nothing that stands before it.
    pub open spec fn proto_names_own(self) -> bool {
        forall|key: Seq<char>| #[trigger] self.named(self.proto_key(key)) == self.named(key)
    }
}

/// The members with every key that names something replaced by the
/// protobuf name of what it names.
pub open spec fn with_proto_names(desc: MessageDescriptor, members: Seq<(Seq<char>, JsonValue)>) -> Seq<
    (Seq<char>, JsonValue),
> {
    Seq::new(members.len(), |i: int| (desc.proto_key(members[i].0), members[i].1))
}

/// Reading members does not depend on which of its two names a key uses.
pub proof fn lemma_proto_names(
    schema: Schema,
    desc: MessageDescriptor,
    start: Seq<FieldModel>,
    members: Seq<(Seq<char>, JsonValue)>,
)
    requires
        desc.proto_names_own(),
    ensures
        members_read(schema, desc, start, with_proto_names(desc, members)) == members_read(
            schema,
            desc,
            start,
            members,
        ),
    decreases members.len(),
{
    reveal(member_read);
    let renamed = with_proto_names(desc, members);
    if members.len() > 0 {
        lemma_members_read_last(schema, desc, start, members);
        lemma_members_read_last(schema, desc, start, renamed);
        assert(renamed.drop_last() =~= with_proto_names(desc, members.drop_last()));
        assert(renamed.last() == (desc.proto_key(members.last().0), members.last().1));
        lemma_proto_names(schema, desc, start, members.drop_last());
        assert(desc.named(desc.proto_key(members.last().0)) == desc.named(members.last().0));
    }
}

/// Name tolerance: an object reads the same with its keys rewritten to
/// protobuf names, for a message type whose protobuf names are its own.
pub proof fn law_name_tolerance(
    schema: Schema,
    index: usize,
    members: Seq<(Seq<char>, JsonValue)>,
)
    requires
        index < schema.messages@.len(),
        schema.messages@[index as int].proto_names_own(),
    ensures
        message_from_json(
            schema,
            index,
            JsonValue::Object(with_proto_names(schema.messages@[index as int], members)),
        ) == message_from_json(schema, index, JsonValue::Object(members)),
{
    let desc = schema.messages@[index as int];
    match crate::decode::default_message(schema, index) {
        Ok(start) => {
            lemma_proto_names(schema, desc, start, members);
        },
        Err(_) => {},
    }
}

/// Once reading has failed, more members do not mend it.
pub proof fn lemma_members_read_stays_failed(
    schema: Schema,
    desc: MessageDescriptor,
    start: Seq<FieldModel>,
    members: Seq<(Seq<char>, JsonValue)>,
    n: int,
)
    requires
        0 <= n <= members.len(),
        members_read(schema, desc, start, members.take(n)) is Err,
    ensures
        members_read(schema, desc, start, members) is Err,
    decreases members.len() - n,
{
    reveal(member_read);
    if n == members.len() {
        assert(members.take(n) =~= members);
    } else {
        lemma_members_read_last(schema, desc, start, members.take(n + 1));
        assert(members.take(n + 1).drop_last() =~= members.take(n));
        lemma_members_read_stays_failed(schema, desc, start, members, n + 1);
    }
}

/// A oneof that a member has made active stays with that member as long as
/// reading goes on without error.
pub proof fn lemma_oneof_stays(
    schema: Schema,
    desc: MessageDescriptor,
    start: Seq<FieldModel>,
    members: Seq<(Seq<char>, JsonValue)>,
    i: int,
    n: int,
    o: usize,
    m: usize,
)
    requires
        0 <= i < n <= members.len(),
        desc.named(members[i].0) == Named::Member(o, m),
        !(members[i].1 is Null),
        members_read(schema, desc, start, members.take(n)) is Ok,
    ensures
        o < members_read(schema, desc, start, members.take(n))->Ok_0.len(),
        o < desc.slots@.len(),
        desc.slots@[o as int] is Oneof,
        members_read(schema, desc, start, members.take(n))->Ok_0[o as int] matches FieldModel::Oneof(
            Some(active),
        ) && active.0 == m,
    decreases n - i,
{
    reveal(member_read);
    let before = members.take(n - 1);
    lemma_members_read_last(schema, desc, start, members.take(n));
    assert(members.take(n).drop_last() =~= before);
    assert(members.take(n).last() == members[n - 1]);
    let state = members_read(schema, desc, start, before)->Ok_0;
    if n - 1 > i {
        lemma_oneof_stays(schema, desc, start, members, i, n - 1, o, m);
    }
}

/// A member that names another member of a oneof than the active one, with
/// a value, is refused.
pub proof fn lemma_other_member_refused(
    schema: Schema,
    desc: MessageDescriptor,
    state: Seq<FieldModel>,
    member: (Seq<char>, JsonValue),
    o: usize,
    first: usize,
    second: usize,
)
    requires
        desc.named(member.0) == Named::Member(o, second),
        first != second,
        !(member.1 is Null),
        o < state.len(),
        state[o as int] matches FieldModel::Oneof(Some(active)) && active.0 == first,
    ensures
        member_read(schema, desc, state, member) is Err,
{
    reveal(member_read);
}

/// Oneof uniqueness: a JSON object in which two members name two different
/// members of the same oneof, neither with `null`, does not read as a
/// message.
pub proof fn law_oneof_uniqueness(
    schema: Schema,
    index: usize,
    members: Seq<(Seq<char>, JsonValue)>,
    i: int,
    j: int,
    o: usize,
    first: usize,
    second: usize,
)
    requires
        index < schema.messages@.len(),
        0 <= i < j < members.len(),
        schema.messages@[index as int].named(members[i].0) == Named::Member(o, first),
        schema.messages@[index as int].named(members[j].0) == Named::Member(o, second),
        first != second,
        !(members[i].1 is Null),
        !(members[j].1 is Null),
    ensures
        message_from_json(schema, index, JsonValue::Object(members)) is Err,
{
    let desc = schema.messages@[index as int];
    match crate::decode::default_message(schema, index) {
        Err(_) => {},
        Ok(start) => {
            if members_read(schema, desc, start, members.take(j)) is Ok {
                let state = members_read(schema, desc, start, members.take(j))->Ok_0;
                lemma_oneof_stays(schema, desc, start, members, i, j, o, first);
                lemma_members_read_last(schema, desc, start, members.take(j + 1));
                assert(members.take(j + 1).drop_last() =~= members.take(j));
                assert(members.take(j + 1).last() == members[j]);
                lemma_other_member_refused(schema, desc, state, members[j], o, first, second);
                assert(members_read(schema, desc, start, members.take(j + 1)) is Err);
                lemma_members_read_stays_failed(schema, desc, start, members, j + 1);
            } else {
                lemma_members_read_stays_failed(schema, desc, start, members, j);
            }
        },
    }
}

} // verus!
