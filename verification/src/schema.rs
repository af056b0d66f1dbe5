//! Descriptors: what the codec knows of a message type, field by field, and
//! of an enum type, variant by variant.
//!
//! A field has two names. The JSON name is the one that is written; on
//! input either name is taken.
use crate::field_mask::raised;
use crate::text::{chars_of, same_text, string_of};
use vstd::prelude::*;

verus! {

/// The kind of one value.
#[derive(Clone, Copy, Debug, PartialEq, Eq, Structural)]
pub enum Kind {
    Bool,
    Int32,
    Uint32,
    Int64,
    Uint64,
    Float,
    Double,
    String,
    Bytes,
    /// An enum, by its place in the schema.
    Enum(usize),
    /// A message, by its place in the schema.
    Message(usize),
    Timestamp,
    Duration,
    FieldMask,
    Struct,
    Value,
    ListValue,
    Any,
}

/// The kind of a map's keys.
#[derive(Clone, Copy, Debug, PartialEq, Eq, Structural)]
pub enum KeyKind {
    String,
    Bool,
    Int32,
    Int64,
    Uint32,
    Uint64,
}

/// How many values a field holds, and whether it can tell absence from the
/// default.
#[derive(Clone, Copy, Debug, PartialEq, Eq, Structural)]
pub enum Shape {
    /// One value, always there. A scalar or enum at its default is not
    /// written.
    Singular,
    /// One value or none.
    Optional,
    /// Values in a row.
    Repeated,
    /// Values by key.
    Keyed(KeyKind),
}

impl Kind {
    /// Whether values of the kind are messages, well-known ones included.
    pub open spec fn is_message(self) -> bool {
        match self {
            Kind::Message(_) | Kind::Timestamp | Kind::Duration | Kind::FieldMask | Kind::Struct
            | Kind::Value | Kind::ListValue | Kind::Any => true,
            _ => false,
        }
    }

    /// Whether values of the kind are messages, well-known ones included.
    pub fn message_like(self) -> (r: bool)
        ensures
            r == self.is_message(),
    {
        match self {
            Kind::Message(_) | Kind::Timestamp | Kind::Duration | Kind::FieldMask | Kind::Struct
            | Kind::Value | Kind::ListValue | Kind::Any => true,
            _ => false,
        }
    }
}

/// A field that is no member of a oneof.
#[derive(Debug, PartialEq)]
pub struct FieldDescriptor {
    pub proto_name: String,
    pub json_name: String,
    pub kind: Kind,
    pub shape: Shape,
}

/// A member of a oneof.
#[derive(Debug, PartialEq)]
pub struct OneofMember {
    pub proto_name: String,
    pub json_name: String,
    pub kind: Kind,
}

/// One place in a message: a field, or a oneof with its members.
#[derive(Debug, PartialEq)]
pub enum Slot {
    Field(FieldDescriptor),
    Oneof(Vec<OneofMember>),
}

/// A message type: its places in declaration order.
#[derive(Debug, PartialEq)]
pub struct MessageDescriptor {
    pub slots: Vec<Slot>,
}

/// One variant of an enum.
#[derive(Debug, PartialEq)]
pub struct EnumVariant {
    pub name: String,
    pub number: i32,
}

/// An enum type: its variants in declaration order. Where two variants
/// share a number or a name, the first one counts.
#[derive(Debug, PartialEq)]
pub struct EnumDescriptor {
    pub variants: Vec<EnumVariant>,
    /// Whether the enum is `google.protobuf.NullValue`.
    pub null_value: bool,
}

/// The message and enum types that kinds refer to by place.
#[derive(Debug, PartialEq)]
pub struct Schema {
    pub messages: Vec<MessageDescriptor>,
    pub enums: Vec<EnumDescriptor>,
}

/// The place of the first `true`, or the length where there is none.
pub open spec fn first_true(flags: Seq<bool>) -> int
    decreases flags.len(),
{
    if flags.len() == 0 {
        0
    } else if flags[0] {
        0
    } else {
        1 + first_true(flags.skip(1))
    }
}

/// `first_true` is the first place that holds `true`.
pub proof fn lemma_first_true(flags: Seq<bool>, i: int)
    requires
        0 <= i <= flags.len(),
        forall|j: int| 0 <= j < i ==> !flags[j],
        i < flags.len() ==> flags[i],
    ensures
        first_true(flags) == i,
    decreases flags.len(),
{
    if flags.len() > 0 && i > 0 {
        assert forall|j: int| 0 <= j < i - 1 implies !flags.skip(1)[j] by {
            assert(flags.skip(1)[j] == flags[j + 1]);
        }
        lemma_first_true(flags.skip(1), i - 1);
    }
}

/// `first_true` stays within the row, stops at a `true` and passes none.
pub proof fn lemma_first_true_bounds(flags: Seq<bool>)
    ensures
        0 <= first_true(flags) <= flags.len(),
        first_true(flags) < flags.len() ==> flags[first_true(flags)],
        forall|j: int| 0 <= j < first_true(flags) ==> !flags[j],
    decreases flags.len(),
{
    if flags.len() > 0 && !flags[0] {
        lemma_first_true_bounds(flags.skip(1));
        assert forall|j: int| 0 <= j < first_true(flags) implies !flags[j] by {
            if j > 0 {
                assert(flags.skip(1)[j - 1] == flags[j]);
            }
        }
    }
}

impl EnumDescriptor {
    /// The place of the first variant with the number, or the number of
    /// variants where there is none.
    pub open spec fn place_of_number(self, number: i32) -> int {
        first_true(Seq::new(self.variants@.len(), |i: int| self.variants@[i].number == number))
    }

    /// The place of the first variant with the name, or the number of
    /// variants where there is none.
    pub open spec fn place_of_name(self, name: Seq<char>) -> int {
        first_true(Seq::new(self.variants@.len(), |i: int| self.variants@[i].name@ == name))
    }

    /// The place of the first variant with the number.
    pub fn from_i32(&self, number: i32) -> (r: Option<usize>)
        ensures
            match r {
                Some(i) => i < self.variants@.len() && i == self.place_of_number(number),
                None => self.place_of_number(number) == self.variants@.len(),
            },
    {
        let mut i: usize = 0;
        while i < self.variants.len() && self.variants[i].number != number
            invariant
                i <= self.variants.len(),
                forall|j: int| 0 <= j < i ==> self.variants@[j].number != number,
            decreases self.variants.len() - i,
        {
            i = i + 1;
        }
        proof {
            lemma_first_true(
                Seq::new(self.variants@.len(), |i: int| self.variants@[i].number == number),
                i as int,
            );
        }
        if i < self.variants.len() {
            Some(i)
        } else {
            None
        }
    }

    /// The place of the first variant with the name.
    pub fn from_str_name(&self, name: &str) -> (r: Option<usize>)
        ensures
            match r {
                Some(i) => i < self.variants@.len() && i == self.place_of_name(name@),
                None => self.place_of_name(name@) == self.variants@.len(),
            },
    {
        let mut i: usize = 0;
        while i < self.variants.len() && !same_text(self.variants[i].name.as_str(), name)
            invariant
                i <= self.variants.len(),
                forall|j: int| 0 <= j < i ==> self.variants@[j].name@ != name@,
            decreases self.variants.len() - i,
        {
            i = i + 1;
        }
        proof {
            lemma_first_true(
                Seq::new(self.variants@.len(), |i: int| self.variants@[i].name@ == name@),
                i as int,
            );
        }
        if i < self.variants.len() {
            Some(i)
        } else {
            None
        }
    }
}

/// Whether a key names something with the two given names.
pub open spec fn names(proto_name: Seq<char>, json_name: Seq<char>, key: Seq<char>) -> bool {
    key == json_name || key == proto_name
}

/// The place of the first member of a oneof that the key names, or the
/// number of members.
pub open spec fn member_place(members: Seq<OneofMember>, key: Seq<char>) -> int {
    first_true(
        Seq::new(
            members.len(),
            |i: int| names(members[i].proto_name@, members[i].json_name@, key),
        ),
    )
}

/// Whether the slot is a oneof with a member that the key names.
pub open spec fn oneof_names(slot: Slot, key: Seq<char>) -> bool {
    match slot {
        Slot::Oneof(members) => member_place(members@, key) < members@.len(),
        Slot::Field(_) => false,
    }
}

/// Whether the slot is a field that the key names.
pub open spec fn field_names(slot: Slot, key: Seq<char>) -> bool {
    match slot {
        Slot::Field(f) => names(f.proto_name@, f.json_name@, key),
        Slot::Oneof(_) => false,
    }
}

/// What a key of a JSON object names in a message.
#[derive(Clone, Copy, Debug, PartialEq, Eq, Structural)]
pub enum Named {
    /// The member at the second place of the oneof at the first place.
    Member(usize, usize),
    /// The field at this place.
    Field(usize),
    /// Nothing that the message knows.
    Nothing,
}

impl MessageDescriptor {
    /// The place of the first oneof with a member that the key names.
    pub open spec fn oneof_place(self, key: Seq<char>) -> int {
        first_true(Seq::new(self.slots@.len(), |i: int| oneof_names(self.slots@[i], key)))
    }

    /// The place of the first field that the key names.
    pub open spec fn field_place(self, key: Seq<char>) -> int {
        first_true(Seq::new(self.slots@.len(), |i: int| field_names(self.slots@[i], key)))
    }

    /// What the key names: a member of a oneof before any field; among
    /// several, the first.
    pub open spec fn named(self, key: Seq<char>) -> Named {
        let o = self.oneof_place(key);
        let f = self.field_place(key);
        if 0 <= o < self.slots@.len() {
            Named::Member(
                o as usize,
                member_place(self.slots@[o]->Oneof_0@, key) as usize,
            )
        } else if 0 <= f < self.slots@.len() {
            Named::Field(f as usize)
        } else {
            Named::Nothing
        }
    }

    /// Finds what the key names.
    pub fn find(&self, key: &str) -> (r: Named)
        ensures
            r == self.named(key@),
            match r {
                Named::Member(o, m) => o < self.slots@.len() && self.slots@[o as int] is Oneof && m
                    < self.slots@[o as int]->Oneof_0@.len(),
                Named::Field(f) => f < self.slots@.len() && self.slots@[f as int] is Field,
                Named::Nothing => true,
            },
    {
        let ghost oneofs = Seq::new(self.slots@.len(), |i: int| oneof_names(self.slots@[i], key@));
        let ghost fields = Seq::new(self.slots@.len(), |i: int| field_names(self.slots@[i], key@));
        let mut i: usize = 0;
        while i < self.slots.len()
            invariant
                i <= self.slots.len(),
                oneofs == Seq::new(self.slots@.len(), |i: int| oneof_names(self.slots@[i], key@)),
                forall|j: int| 0 <= j < i ==> !oneofs[j],
            decreases self.slots.len() - i,
        {
            match &self.slots[i] {
                Slot::Oneof(members) => {
                    let m = find_member(members, key);
                    if m < members.len() {
                        proof {
                            lemma_first_true(oneofs, i as int);
                        }
                        return Named::Member(i, m);
                    }
                },
                Slot::Field(_) => {},
            }
            i = i + 1;
        }
        proof {
            lemma_first_true(oneofs, self.slots@.len() as int);
        }
        let mut i: usize = 0;
        while i < self.slots.len()
            invariant
                i <= self.slots.len(),
                fields == Seq::new(self.slots@.len(), |i: int| field_names(self.slots@[i], key@)),
                forall|j: int| 0 <= j < i ==> !fields[j],
                self.oneof_place(key@) == self.slots@.len(),
            decreases self.slots.len() - i,
        {
            match &self.slots[i] {
                Slot::Field(f) => {
                    if same_text(key, f.json_name.as_str()) || same_text(key, f.proto_name.as_str()) {
                        proof {
                            lemma_first_true(fields, i as int);
                        }
                        return Named::Field(i);
                    }
                },
                Slot::Oneof(_) => {},
            }
            i = i + 1;
        }
        proof {
            lemma_first_true(fields, self.slots@.len() as int);
        }
        Named::Nothing
    }
}

/// The place of the first member that the key names, or the number of
/// members.
pub fn find_member(members: &Vec<OneofMember>, key: &str) -> (r: usize)
    ensures
        r == member_place(members@, key@),
        r <= members@.len(),
{
    let mut i: usize = 0;
    while i < members.len() && !(same_text(key, members[i].json_name.as_str()) || same_text(
        key,
        members[i].proto_name.as_str(),
    ))
        invariant
            i <= members.len(),
            forall|j: int|
                0 <= j < i ==> !names(members@[j].proto_name@, members@[j].json_name@, key@),
        decreases members.len() - i,
    {
        i = i + 1;
    }
    proof {
        lemma_first_true(
            Seq::new(
                members@.len(),
                |i: int| names(members@[i].proto_name@, members@[i].json_name@, key@),
            ),
            i as int,
        );
    }
    i
}

/// The JSON name that a field gets where its descriptor sets none: the
/// underscores go, and the character after each becomes upper case.
pub open spec fn json_name_of(name: Seq<char>) -> Seq<char>
    decreases name.len(),
{
    if name.len() == 0 {
        Seq::empty()
    } else {
        let before = name.drop_last();
        let c = name.last();
        if c == '_' {
            json_name_of(before)
        } else if before.len() > 0 && before.last() == '_' {
            json_name_of(before).push(raised(c))
        } else {
            json_name_of(before).push(c)
        }
    }
}

/// Derives the JSON name of a field from its declared name.
pub fn to_json_name(name: &str) -> (r: String)
    ensures
        r@ == json_name_of(name@),
{
    let chars = chars_of(name);
    let mut out: Vec<char> = Vec::new();
    let mut capitalize_next = false;
    let mut i: usize = 0;
    while i < chars.len()
        invariant
            i <= chars.len(),
            out@ == json_name_of(chars@.take(i as int)),
            capitalize_next == (i > 0 && chars@[i - 1] == '_'),
        decreases chars.len() - i,
    {
        let c = chars[i];
        proof {
            let next = chars@.take(i + 1);
            assert(next.drop_last() =~= chars@.take(i as int));
            assert(next.last() == c);
            if i > 0 {
                assert(chars@.take(i as int).last() == chars@[i - 1]);
            }
        }
        if c == '_' {
            capitalize_next = true;
        } else if capitalize_next {
            let up = if 'a' <= c && c <= 'z' { ((c as u8) - 32u8) as char } else { c };
            out.push(up);
            capitalize_next = false;
        } else {
            out.push(c);
        }
        i = i + 1;
    }
    assert(chars@.take(chars.len() as int) =~= chars@);
    string_of(&out)
}

/// The name that a member of a oneof gets where its descriptor sets none:
/// the `lowerCamelCase` form of the variant's name.
pub fn lower_camel(name: &str) -> (r: String)
    ensures
        r@ == crate::field_mask::camel(name@),
{
    crate::field_mask::snake_to_lower_camel(name)
}

impl FieldDescriptor {
    /// A field with the given names. Where no JSON name is given it is
    /// derived from the protobuf name.
    pub fn new(proto_name: &str, json_name: Option<&str>, kind: Kind, shape: Shape) -> (r: Self)
        ensures
            r.proto_name@ == proto_name@,
            r.json_name@ == match json_name {
                Some(n) => n@,
                None => json_name_of(proto_name@),
            },
            r.kind == kind,
            r.shape == shape,
    {
        let json = match json_name {
            Some(n) => n.to_owned(),
            None => to_json_name(proto_name),
        };
        FieldDescriptor { proto_name: proto_name.to_owned(), json_name: json, kind, shape }
    }
}

impl OneofMember {
    /// A member with the given names. A name that is not given is the
    /// `lowerCamelCase` form of the variant's name.
    pub fn new(variant: &str, proto_name: Option<&str>, json_name: Option<&str>, kind: Kind) -> (r:
        Self)
        ensures
            r.proto_name@ == match proto_name {
                Some(n) => n@,
                None => crate::field_mask::camel(variant@),
            },
            r.json_name@ == match json_name {
                Some(n) => n@,
                None => crate::field_mask::camel(variant@),
            },
            r.kind == kind,
    {
        let proto = match proto_name {
            Some(n) => n.to_owned(),
            None => lower_camel(variant),
        };
        let json = match json_name {
            Some(n) => n.to_owned(),
            None => lower_camel(variant),
        };
        OneofMember { proto_name: proto, json_name: json, kind }
    }
}

} // verus!
