//! The names of a message type are its own: no key of a JSON object names
//! two things. A descriptor can be checked for it.
use crate::schema::{
    EnumDescriptor,
    field_names, lemma_first_true_bounds, member_place, names, oneof_names, MessageDescriptor, Named,
    Slot,
};
use vstd::prelude::*;

verus! {

impl MessageDescriptor {
    /// Whether both names of the field or oneof at place `k` name it, and
    /// nothing that stands before it.
    pub open spec fn owns_names_at(self, k: int) -> bool {
        match self.slots@[k] {
            Slot::Field(f) => self.named(f.json_name@) == Named::Field(k as usize) && self.named(
                f.proto_name@,
            ) == Named::Field(k as usize),
            Slot::Oneof(members) => forall|m: int|
                0 <= m < members@.len() ==> self.named((#[trigger] members@[m]).json_name@)
                    == Named::Member(k as usize, m as usize) && self.named(members@[m].proto_name@)
                    == Named::Member(k as usize, m as usize),
        }
    }

    /// Whether both names of every field and of every member of a oneof
    /// name that field or member.
    #[verifier::opaque]
    pub open spec fn names_own(self) -> bool {
        forall|k: int| 0 <= k < self.slots@.len() ==> #[trigger] self.owns_names_at(k)
    }

    /// Checks that the names of the message type are its own.
    pub fn check_names(&self) -> (r: bool)
        ensures
            r == self.names_own(),
    {
        let mut k: usize = 0;
        while k < self.slots.len()
            invariant
                k <= self.slots.len(),
                forall|i: int| 0 <= i < k ==> #[trigger] self.owns_names_at(i),
            decreases self.slots.len() - k,
        {
            match &self.slots[k] {
                Slot::Field(f) => {
                    let by_json = self.find(f.json_name.as_str());
                    let by_proto = self.find(f.proto_name.as_str());
                    let own = match (by_json, by_proto) {
                        (Named::Field(a), Named::Field(b)) => a == k && b == k,
                        _ => false,
                    };
                    if !own {
                        proof {
                            reveal(MessageDescriptor::names_own);
                            assert(!self.owns_names_at(k as int));
                        }
                        return false;
                    }
                },
                Slot::Oneof(members) => {
                    let mut m: usize = 0;
                    while m < members.len()
                        invariant
                            m <= members.len(),
                            k < self.slots.len(),
                            self.slots@[k as int] == Slot::Oneof(*members),
                            forall|i: int|
                                0 <= i < m ==> self.named((#[trigger] members@[i]).json_name@)
                                    == Named::Member(k, i as usize) && self.named(
                                    members@[i].proto_name@,
                                ) == Named::Member(k, i as usize),
                        decreases members.len() - m,
                    {
                        let by_json = self.find(members[m].json_name.as_str());
                        let by_proto = self.find(members[m].proto_name.as_str());
                        let own = match (by_json, by_proto) {
                            (Named::Member(a, b), Named::Member(c, d)) => a == k && b == m && c == k
                                && d == m,
                            _ => false,
                        };
                        if !own {
                            proof {
                                reveal(MessageDescriptor::names_own);
                                assert(!(self.named((#[trigger] members@[m as int]).json_name@)
                                    == Named::Member(k, m) && self.named(
                                    members@[m as int].proto_name@,
                                ) == Named::Member(k, m)));
                                assert(!self.owns_names_at(k as int));
                            }
                            return false;
                        }
                        m = m + 1;
                    }
                },
            }
            k = k + 1;
        }
        proof {
            reveal(MessageDescriptor::names_own);
        }
        true
    }
}

impl EnumDescriptor {
    /// Whether the name of the variant at place `i` finds that variant, and
    /// does not give the name of the null value to another number.
    pub open spec fn owns_name_at(self, i: int) -> bool {
        &&& self.place_of_name(self.variants@[i].name@) == i
        &&& self.null_value && self.variants@[i].name@ == "NULL_VALUE"@
            ==> self.variants@[i].number == 0
    }

    /// Checks that the names of the enum are its own.
    pub fn check_names(&self) -> (r: bool)
        ensures
            r == self.names_own(),
    {
        let mut i: usize = 0;
        while i < self.variants.len()
            invariant
                i <= self.variants.len(),
                forall|k: int| 0 <= k < i ==> #[trigger] self.owns_name_at(k),
            decreases self.variants.len() - i,
        {
            let found = self.from_str_name(self.variants[i].name.as_str());
            let own = match found {
                Some(place) => place == i,
                None => false,
            };
            let null_name = self.null_value && crate::text::same_text(
                self.variants[i].name.as_str(),
                "NULL_VALUE",
            );
            if !own || (null_name && self.variants[i].number != 0) {
                proof {
                    reveal(EnumDescriptor::names_own);
                    assert(!self.owns_name_at(i as int));
                    assert(!(self.place_of_name((#[trigger] self.variants@[i as int]).name@) == i
                        && (self.null_value && self.variants@[i as int].name@ == "NULL_VALUE"@
                        ==> self.variants@[i as int].number == 0)));
                }
                return false;
            }
            i = i + 1;
        }
        proof {
            reveal(EnumDescriptor::names_own);
            assert forall|k: int| 0 <= k < self.variants@.len() implies {
                &&& self.place_of_name((#[trigger] self.variants@[k]).name@) == k
                &&& self.null_value && self.variants@[k].name@ == "NULL_VALUE"@
                    ==> self.variants@[k].number == 0
            } by {
                assert(self.owns_name_at(k));
            }
        }
        true
    }
}

/// A message type whose names are its own has JSON names of its own, as the
/// round trip asks, and protobuf names of its own, as name tolerance asks.
pub proof fn law_names_own(desc: MessageDescriptor)
    requires
        desc.names_own(),
    ensures
        desc.json_names_own(),
        desc.proto_names_own(),
{
    reveal(MessageDescriptor::names_own);
    reveal(MessageDescriptor::json_names_own);
    assert forall|k: int| 0 <= k < desc.slots@.len() implies match #[trigger] desc.slots@[k] {
        Slot::Field(f) => desc.named(f.json_name@) == Named::Field(k as usize),
        Slot::Oneof(members) => forall|m: int|
            0 <= m < members@.len() ==> desc.named((#[trigger] members@[m]).json_name@)
                == Named::Member(k as usize, m as usize),
    } by {
        assert(desc.owns_names_at(k));
    }
    assert forall|key: Seq<char>| #[trigger]
        desc.named(desc.proto_key(key)) == desc.named(key) by {
        lemma_named_in_bounds(desc, key);
        match desc.named(key) {
            Named::Field(f) => {
                assert(desc.owns_names_at(f as int));
            },
            Named::Member(o, m) => {
                assert(desc.owns_names_at(o as int));
                let members = desc.slots@[o as int]->Oneof_0;
                assert(desc.named((#[trigger] members@[m as int]).json_name@) == Named::Member(
                    o,
                    m,
                ));
            },
            Named::Nothing => {},
        }
    }
}

/// What a key names is a place of the message type, of the kind named.
pub proof fn lemma_named_in_bounds(desc: MessageDescriptor, key: Seq<char>)
    ensures
        match desc.named(key) {
            Named::Field(f) => f < desc.slots@.len() && desc.slots@[f as int] is Field,
            Named::Member(o, m) => o < desc.slots@.len() && desc.slots@[o as int] is Oneof && m
                < desc.slots@[o as int]->Oneof_0@.len(),
            Named::Nothing => true,
        },
{
    let oneofs = Seq::new(desc.slots@.len(), |i: int| oneof_names(desc.slots@[i], key));
    let fields = Seq::new(desc.slots@.len(), |i: int| field_names(desc.slots@[i], key));
    lemma_first_true_bounds(oneofs);
    lemma_first_true_bounds(fields);
    assert(desc.oneof_place(key) == crate::schema::first_true(oneofs));
    assert(desc.field_place(key) == crate::schema::first_true(fields));
    assert(desc.slots@.len() <= usize::MAX) by {
        assert(desc.slots.len() == desc.slots@.len());
    }
    let o = desc.oneof_place(key);
    if 0 <= o < desc.slots@.len() {
        assert(oneofs[o]);
        assert(oneof_names(desc.slots@[o], key));
        let members = desc.slots@[o]->Oneof_0;
        assert(members.len() == members@.len());
        let flags = Seq::new(
            members@.len(),
            |i: int| names(members@[i].proto_name@, members@[i].json_name@, key),
        );
        lemma_first_true_bounds(flags);
        assert(member_place(members@, key) == crate::schema::first_true(flags));
    } else {
        let f = desc.field_place(key);
        if 0 <= f < desc.slots@.len() {
            assert(fields[f]);
        }
    }
}

} // verus!
