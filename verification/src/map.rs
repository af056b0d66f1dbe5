//! Maps: a JSON object whose keys are the map's keys written as text.
//!
//! A map keeps its entries in the order in which their keys first came; a
//! key that comes again replaces the value where the key stands. That order
//! is the order in which the entries are written.
use crate::codec::{json_outcome, value_outcome, CanonicalDeserialize, CanonicalSerialize};
use crate::enums::{enum_from, enum_from_json, enum_json, enum_to_json, ProstEnum};
use crate::error::{collect, lemma_collect_error, lemma_collect_step, CanonicalError, Outcome};
use crate::json::{lemma_members_view, members_view, Json, JsonValue};
use crate::text::{
    chars_of, decimal, parse_signed, parse_unsigned, push_decimal, push_signed_decimal, same_text,
    signed_decimal, signed_value, string_of, unsigned_value, within,
};
use crate::value::{lemma_key_index, upsert};
use std::marker::PhantomData;
use vstd::prelude::*;

verus! {

/// Key conversion helper for canonical protobuf JSON maps.
pub trait CanonicalMapKey: Sized + DeepView {
    /// The key that text stands for, or the message of the error.
    spec fn key_from_text(text: Seq<char>) -> Outcome<Self::V>;

    /// The text of a key.
    spec fn key_text(key: Self::V) -> Seq<char>;

    /// Returns `CanonicalError` if the input does not represent a valid key.
    fn from_key(value: &str) -> (r: Result<Self, CanonicalError>)
        ensures
            value_outcome(r) == Self::key_from_text(value@),
    ;

    /// Writes the key as the text that stands for it in JSON.
    fn to_key(&self) -> (r: String)
        ensures
            r@ == Self::key_text(self.deep_view()),
    ;

    /// Whether two keys are the same key.
    fn same_key(&self, other: &Self) -> (r: bool)
        ensures
            r == (self.deep_view() == other.deep_view()),
    ;
}

impl CanonicalMapKey for String {
    open spec fn key_from_text(text: Seq<char>) -> Outcome<Seq<char>> {
        Ok(text)
    }

    open spec fn key_text(key: Seq<char>) -> Seq<char> {
        key
    }

    fn from_key(value: &str) -> (r: Result<Self, CanonicalError>) {
        Ok(value.to_owned())
    }

    fn to_key(&self) -> (r: String) {
        self.clone()
    }

    fn same_key(&self, other: &Self) -> (r: bool) {
        *self == *other
    }
}

impl CanonicalMapKey for bool {
    open spec fn key_from_text(text: Seq<char>) -> Outcome<bool> {
        if text == "true"@ {
            Ok(true)
        } else if text == "false"@ {
            Ok(false)
        } else {
            Err("invalid bool map key"@)
        }
    }

    open spec fn key_text(key: bool) -> Seq<char> {
        if key {
            "true"@
        } else {
            "false"@
        }
    }

    fn from_key(value: &str) -> (r: Result<Self, CanonicalError>) {
        if same_text(value, "true") {
            Ok(true)
        } else if same_text(value, "false") {
            Ok(false)
        } else {
            Err(CanonicalError::new("invalid bool map key"))
        }
    }

    fn to_key(&self) -> (r: String) {
        if *self {
            "true".to_owned()
        } else {
            "false".to_owned()
        }
    }

    fn same_key(&self, other: &Self) -> (r: bool) {
        *self == *other
    }
}

impl CanonicalMapKey for i32 {
    open spec fn key_from_text(text: Seq<char>) -> Outcome<i32> {
        match within(signed_value(text), i32::MIN as int, i32::MAX as int) {
            Some(n) => Ok(n as i32),
            None => Err("invalid i32 map key"@),
        }
    }

    open spec fn key_text(key: i32) -> Seq<char> {
        signed_decimal(key as int)
    }

    fn from_key(value: &str) -> (r: Result<Self, CanonicalError>) {
        match parse_signed(&chars_of(value), -2_147_483_648, 2_147_483_647) {
            Some(n) => Ok(n as i32),
            None => Err(CanonicalError::new("invalid i32 map key")),
        }
    }

    fn to_key(&self) -> (r: String) {
        let mut out: Vec<char> = Vec::new();
        push_signed_decimal(&mut out, *self as i64);
        assert(out@ =~= signed_decimal(*self as int));
        string_of(&out)
    }

    fn same_key(&self, other: &Self) -> (r: bool) {
        *self == *other
    }
}

impl CanonicalMapKey for i64 {
    open spec fn key_from_text(text: Seq<char>) -> Outcome<i64> {
        match within(signed_value(text), i64::MIN as int, i64::MAX as int) {
            Some(n) => Ok(n as i64),
            None => Err("invalid i64 map key"@),
        }
    }

    open spec fn key_text(key: i64) -> Seq<char> {
        signed_decimal(key as int)
    }

    fn from_key(value: &str) -> (r: Result<Self, CanonicalError>) {
        match parse_signed(&chars_of(value), i64::MIN, i64::MAX) {
            Some(n) => Ok(n),
            None => Err(CanonicalError::new("invalid i64 map key")),
        }
    }

    fn to_key(&self) -> (r: String) {
        let mut out: Vec<char> = Vec::new();
        push_signed_decimal(&mut out, *self);
        assert(out@ =~= signed_decimal(*self as int));
        string_of(&out)
    }

    fn same_key(&self, other: &Self) -> (r: bool) {
        *self == *other
    }
}

impl CanonicalMapKey for u32 {
    open spec fn key_from_text(text: Seq<char>) -> Outcome<u32> {
        match within(unsigned_value(text), 0, u32::MAX as int) {
            Some(n) => Ok(n as u32),
            None => Err("invalid u32 map key"@),
        }
    }

    open spec fn key_text(key: u32) -> Seq<char> {
        decimal(key as nat)
    }

    fn from_key(value: &str) -> (r: Result<Self, CanonicalError>) {
        match parse_unsigned(&chars_of(value), 4_294_967_295) {
            Some(n) => Ok(n as u32),
            None => Err(CanonicalError::new("invalid u32 map key")),
        }
    }

    fn to_key(&self) -> (r: String) {
        let mut out: Vec<char> = Vec::new();
        push_decimal(&mut out, *self as u64);
        assert(out@ =~= decimal(*self as nat));
        string_of(&out)
    }

    fn same_key(&self, other: &Self) -> (r: bool) {
        *self == *other
    }
}

impl CanonicalMapKey for u64 {
    open spec fn key_from_text(text: Seq<char>) -> Outcome<u64> {
        match within(unsigned_value(text), 0, u64::MAX as int) {
            Some(n) => Ok(n as u64),
            None => Err("invalid u64 map key"@),
        }
    }

    open spec fn key_text(key: u64) -> Seq<char> {
        decimal(key as nat)
    }

    fn from_key(value: &str) -> (r: Result<Self, CanonicalError>) {
        match parse_unsigned(&chars_of(value), u64::MAX) {
            Some(n) => Ok(n),
            None => Err(CanonicalError::new("invalid u64 map key")),
        }
    }

    fn to_key(&self) -> (r: String) {
        let mut out: Vec<char> = Vec::new();
        push_decimal(&mut out, *self);
        assert(out@ =~= decimal(*self as nat));
        string_of(&out)
    }

    fn same_key(&self, other: &Self) -> (r: bool) {
        *self == *other
    }
}

/// A model of a map: its entries, key and value, in order.
pub type Entries<K, V> = Seq<(K, V)>;

/// Map type abstraction: a container of entries with distinct keys.
pub trait CanonicalMapType: Sized {
    type Key: CanonicalMapKey;

    type Value: DeepView;

    /// The entries of the map in the order in which the map hands them out.
    spec fn entries(&self) -> Seq<(<Self::Key as DeepView>::V, <Self::Value as DeepView>::V)>;

    /// A map with no entries.
    fn empty() -> (r: Self)
        ensures
            r.entries() == Seq::<
                (<Self::Key as DeepView>::V, <Self::Value as DeepView>::V),
            >::empty(),
    ;

    /// Sets `key` to `value`: in place where the key is there, as a new
    /// last entry where it is not.
    fn insert(&mut self, key: Self::Key, value: Self::Value)
        ensures
            final(self).entries() == upsert(
                old(self).entries(),
                key.deep_view(),
                value.deep_view(),
            ),
    ;

    /// The number of entries.
    fn len(&self) -> (r: usize)
        ensures
            r == self.entries().len(),
    ;

    /// The key of the entry at place `i`.
    fn key_at(&self, i: usize) -> (r: &Self::Key)
        requires
            i < self.entries().len(),
        ensures
            r.deep_view() == self.entries()[i as int].0,
    ;

    /// The value of the entry at place `i`.
    fn value_at(&self, i: usize) -> (r: &Self::Value)
        requires
            i < self.entries().len(),
        ensures
            r.deep_view() == self.entries()[i as int].1,
    ;
}

/// A map held as a vector of entries.
pub struct EntryMap<K, V> {
    pub entries: Vec<(K, V)>,
}

/// The models of a row of entries.
pub open spec fn entry_models<K: DeepView, V: DeepView>(entries: Seq<(K, V)>) -> Seq<(K::V, V::V)> {
    Seq::new(entries.len(), |i: int| (entries[i].0.deep_view(), entries[i].1.deep_view()))
}

impl<K: CanonicalMapKey, V: DeepView> CanonicalMapType for EntryMap<K, V> {
    type Key = K;

    type Value = V;

    open spec fn entries(&self) -> Seq<(K::V, V::V)> {
        entry_models(self.entries@)
    }

    fn empty() -> (r: Self) {
        let r = EntryMap { entries: Vec::new() };
        assert(r.entries() =~= Seq::<(K::V, V::V)>::empty());
        r
    }

    fn insert(&mut self, key: K, value: V) {
        let ghost before = entry_models(self.entries@);
        let mut i: usize = 0;
        while i < self.entries.len() && !self.entries[i].0.same_key(&key)
            invariant
                i <= self.entries.len(),
                self.entries@ == old(self).entries@,
                forall|j: int| 0 <= j < i ==> self.entries@[j].0.deep_view() != key.deep_view(),
            decreases self.entries.len() - i,
        {
            i = i + 1;
        }
        proof {
            assert forall|j: int| 0 <= j < i implies before[j].0 != key.deep_view() by {}
            lemma_key_index(before, key.deep_view(), i as int);
        }
        if i < self.entries.len() {
            self.entries.set(i, (key, value));
            assert(entry_models(self.entries@) =~= before.update(
                i as int,
                (key.deep_view(), value.deep_view()),
            ));
        } else {
            self.entries.push((key, value));
            assert(entry_models(self.entries@) =~= before.push(
                (key.deep_view(), value.deep_view()),
            ));
        }
    }

    fn len(&self) -> (r: usize) {
        self.entries.len()
    }

    fn key_at(&self, i: usize) -> (r: &K) {
        &self.entries[i].0
    }

    fn value_at(&self, i: usize) -> (r: &V) {
        &self.entries[i].1
    }
}

/// The member of a JSON object that an entry of a map is written as.
pub open spec fn entry_json<K: CanonicalMapKey, V: CanonicalSerialize>(entry: (K::V, V::V)) -> Outcome<
    (Seq<char>, JsonValue),
> {
    match V::canonical_json(entry.1) {
        Ok(j) => Ok((K::key_text(entry.0), j)),
        Err(m) => Err(m),
    }
}

/// The JSON object of a map: one member for each entry, in order, or the
/// first error among the values.
pub open spec fn map_json<K: CanonicalMapKey, V: CanonicalSerialize>(entries: Seq<(K::V, V::V)>) -> Outcome<
    JsonValue,
> {
    match collect(Seq::new(entries.len(), |i: int| entry_json::<K, V>(entries[i]))) {
        Ok(members) => Ok(JsonValue::Object(members)),
        Err(m) => Err(m),
    }
}

/// The JSON object of a map of enum numbers.
pub open spec fn enum_map_json<E: ProstEnum, K: CanonicalMapKey>(entries: Seq<(K::V, i32)>) -> JsonValue {
    JsonValue::Object(
        Seq::new(entries.len(), |i: int| (K::key_text(entries[i].0), enum_json::<E>(entries[i].1))),
    )
}

/// The entry that a member of a JSON object stands for: the key is read
/// first, then the value.
pub open spec fn entry_from_json<K: CanonicalMapKey, V: CanonicalDeserialize>(
    member: (Seq<char>, JsonValue),
) -> Outcome<(K::V, V::V)> {
    match K::key_from_text(member.0) {
        Err(m) => Err(m),
        Ok(k) => match V::canonical_value(member.1) {
            Err(m) => Err(m),
            Ok(v) => Ok((k, v)),
        },
    }
}

/// The entry of enum number that a member of a JSON object stands for.
pub open spec fn enum_entry_from_json<E: ProstEnum, K: CanonicalMapKey>(
    member: (Seq<char>, JsonValue),
) -> Outcome<(K::V, i32)> {
    match K::key_from_text(member.0) {
        Err(m) => Err(m),
        Ok(k) => match enum_from_json::<E>(member.1) {
            Err(m) => Err(m),
            Ok(v) => Ok((k, v)),
        },
    }
}

/// The entries put into a map one after the other.
pub open spec fn inserted<K, V>(entries: Seq<(K, V)>) -> Seq<(K, V)>
    decreases entries.len(),
{
    if entries.len() == 0 {
        Seq::empty()
    } else {
        upsert(inserted(entries.drop_last()), entries.last().0, entries.last().1)
    }
}

/// The map that JSON stands for: an object, each member an entry, put into
/// the map in order; `null` stands for the empty map.
pub open spec fn map_from_json<K: CanonicalMapKey, V: CanonicalDeserialize>(json: JsonValue) -> Outcome<
    Seq<(K::V, V::V)>,
> {
    match json {
        JsonValue::Object(members) => match collect(
            Seq::new(members.len(), |i: int| entry_from_json::<K, V>(members[i])),
        ) {
            Ok(entries) => Ok(inserted(entries)),
            Err(m) => Err(m),
        },
        JsonValue::Null => Ok(Seq::empty()),
        _ => Err("invalid type, expected a map"@),
    }
}

/// The map of enum numbers that JSON stands for.
pub open spec fn enum_map_from_json<E: ProstEnum, K: CanonicalMapKey>(json: JsonValue) -> Outcome<
    Seq<(K::V, i32)>,
> {
    match json {
        JsonValue::Object(members) => match collect(
            Seq::new(members.len(), |i: int| enum_entry_from_json::<E, K>(members[i])),
        ) {
            Ok(entries) => Ok(inserted(entries)),
            Err(m) => Err(m),
        },
        JsonValue::Null => Ok(Seq::empty()),
        _ => Err("invalid type, expected a map"@),
    }
}

/// Wraps a map reference with canonical JSON serialization.
pub struct CanonicalMapRef<'a, M> {
    values: &'a M,
}

impl<'a, M> View for CanonicalMapRef<'a, M> {
    type V = M;

    closed spec fn view(&self) -> M {
        *self.values
    }
}

impl<'a, M> CanonicalMapRef<'a, M> {
    pub fn new(values: &'a M) -> (r: Self)
        ensures
            r@ == *values,
    {
        Self { values }
    }
}

impl<'a, M: CanonicalMapType> CanonicalMapRef<'a, M> where M::Value: CanonicalSerialize {
    /// Writes the map as a JSON object.
    pub fn serialize(&self) -> (r: Result<Json, CanonicalError>)
        ensures
            json_outcome(r) == map_json::<M::Key, M::Value>(self@.entries()),
    {
        let ghost all = self.values.entries();
        let ghost outcomes = Seq::new(all.len(), |i: int| entry_json::<M::Key, M::Value>(all[i]));
        let mut members: Vec<(String, Json)> = Vec::new();
        let mut i: usize = 0;
        let n = self.values.len();
        proof {
            assert(outcomes.take(0) =~= Seq::<Outcome<(Seq<char>, JsonValue)>>::empty());
            assert(members_view(members@) =~= Seq::<(Seq<char>, JsonValue)>::empty());
        }
        while i < n
            invariant
                i <= n,
                n == all.len(),
                all == self.values.entries(),
                outcomes == Seq::new(all.len(), |i: int| entry_json::<M::Key, M::Value>(all[i])),
                collect(outcomes.take(i as int)) == Ok::<Seq<(Seq<char>, JsonValue)>, Seq<char>>(
                    members_view(members@),
                ),
            decreases n - i,
        {
            proof {
                lemma_collect_step(outcomes, i as int);
            }
            let key = self.values.key_at(i).to_key();
            match self.values.value_at(i).serialize_canonical() {
                Ok(j) => {
                    let ghost before = members@;
                    members.push((key, j));
                    assert(members@.drop_last() =~= before);
                },
                Err(e) => {
                    proof {
                        lemma_collect_error(outcomes, i as int);
                    }
                    return Err(e);
                },
            }
            i = i + 1;
        }
        assert(outcomes.take(n as int) =~= outcomes);
        Ok(Json::Object(members))
    }
}

/// Wraps a map for canonical protobuf JSON deserialization.
pub struct CanonicalMap<M>(pub M);

impl<M: CanonicalMapType> CanonicalMap<M> where M::Value: CanonicalDeserialize {
    /// Reads a JSON object as a map; `null` stands for the empty map.
    pub fn deserialize(json: &Json) -> (r: Result<Self, CanonicalError>)
        ensures
            match r {
                Ok(m) => map_from_json::<M::Key, M::Value>(json@) == Ok::<
                    Seq<(<M::Key as DeepView>::V, <M::Value as DeepView>::V)>,
                    Seq<char>,
                >(m.0.entries()),
                Err(e) => map_from_json::<M::Key, M::Value>(json@) == Err::<
                    Seq<(<M::Key as DeepView>::V, <M::Value as DeepView>::V)>,
                    Seq<char>,
                >(e@),
            },
    {
        match json {
            Json::Object(members) => {
                let ghost all = members_view(members@);
                let ghost outcomes = Seq::new(
                    all.len(),
                    |i: int| entry_from_json::<M::Key, M::Value>(all[i]),
                );
                let mut values = M::empty();
                let ghost mut done = Seq::<
                    (<M::Key as DeepView>::V, <M::Value as DeepView>::V),
                >::empty();
                let mut i: usize = 0;
                proof {
                    lemma_members_view(members@);
                    assert(outcomes.take(0) =~= Seq::<
                        Outcome<(<M::Key as DeepView>::V, <M::Value as DeepView>::V)>,
                    >::empty());
                }
                while i < members.len()
                    invariant
                        i <= members.len(),
                        all == members_view(members@),
                        all.len() == members.len(),
                        forall|k: int|
                            0 <= k < members.len() ==> #[trigger] all[k] == (
                                members@[k].0@,
                                members@[k].1@,
                            ),
                        outcomes == Seq::new(
                            all.len(),
                            |i: int| entry_from_json::<M::Key, M::Value>(all[i]),
                        ),
                        json@ == JsonValue::Object(all),
                        collect(outcomes.take(i as int)) == Ok::<
                            Seq<(<M::Key as DeepView>::V, <M::Value as DeepView>::V)>,
                            Seq<char>,
                        >(done),
                        values.entries() == inserted(done),
                    decreases members.len() - i,
                {
                    proof {
                        lemma_collect_step(outcomes, i as int);
                    }
                    let key = match M::Key::from_key(members[i].0.as_str()) {
                        Ok(key) => key,
                        Err(e) => {
                            proof {
                                lemma_collect_error(outcomes, i as int);
                            }
                            return Err(e);
                        },
                    };
                    let value = match M::Value::deserialize_canonical(&members[i].1) {
                        Ok(value) => value,
                        Err(e) => {
                            proof {
                                lemma_collect_error(outcomes, i as int);
                            }
                            return Err(e);
                        },
                    };
                    proof {
                        let next = done.push((key.deep_view(), value.deep_view()));
                        assert(next.drop_last() =~= done);
                        done = next;
                    }
                    values.insert(key, value);
                    i = i + 1;
                }
                assert(outcomes.take(members.len() as int) =~= outcomes);
                Ok(CanonicalMap(values))
            },
            Json::Null => Ok(CanonicalMap(M::empty())),
            _ => Err(CanonicalError::new("invalid type, expected a map")),
        }
    }
}

/// Wraps a map reference with enum values for canonical JSON serialization.
pub struct CanonicalEnumMapRef<'a, E, M> {
    values: &'a M,
    _marker: PhantomData<E>,
}

impl<'a, E, M> View for CanonicalEnumMapRef<'a, E, M> {
    type V = M;

    closed spec fn view(&self) -> M {
        *self.values
    }
}

impl<'a, E, M> CanonicalEnumMapRef<'a, E, M> {
    pub fn new(values: &'a M) -> (r: Self)
        ensures
            r@ == *values,
    {
        Self { values, _marker: PhantomData }
    }
}

impl<'a, E: ProstEnum, M: CanonicalMapType<Value = i32>> CanonicalEnumMapRef<'a, E, M> {
    /// Writes the map of enum numbers as a JSON object.
    pub fn serialize(&self) -> (r: Result<Json, CanonicalError>)
        ensures
            json_outcome(r) == Ok::<JsonValue, Seq<char>>(
                enum_map_json::<E, M::Key>(self@.entries()),
            ),
    {
        let ghost all = self.values.entries();
        let mut members: Vec<(String, Json)> = Vec::new();
        let mut i: usize = 0;
        let n = self.values.len();
        while i < n
            invariant
                i <= n,
                n == all.len(),
                all == self.values.entries(),
                members@.len() == i,
                forall|k: int|
                    0 <= k < i ==> (#[trigger] members@[k]).0@ == <M::Key as CanonicalMapKey>::key_text(
                        all[k].0,
                    ) && members@[k].1@ == enum_json::<E>(all[k].1),
            decreases n - i,
        {
            let key = self.values.key_at(i).to_key();
            let value = *self.values.value_at(i);
            members.push((key, enum_to_json::<E>(value)));
            i = i + 1;
        }
        proof {
            lemma_members_view(members@);
            assert(members_view(members@) =~= Seq::new(
                all.len(),
                |i: int|
                    (<M::Key as CanonicalMapKey>::key_text(all[i].0), enum_json::<E>(all[i].1)),
            ));
        }
        Ok(Json::Object(members))
    }
}

/// Wraps a map with enum values for canonical JSON deserialization.
pub struct CanonicalEnumMap<E, M>(pub M, pub PhantomData<E>);

impl<E: ProstEnum, M: CanonicalMapType<Value = i32>> CanonicalEnumMap<E, M> {
    /// Reads a JSON object as a map of enum numbers; `null` stands for the
    /// empty map.
    pub fn deserialize(json: &Json) -> (r: Result<Self, CanonicalError>)
        ensures
            match r {
                Ok(m) => enum_map_from_json::<E, M::Key>(json@) == Ok::<
                    Seq<(<M::Key as DeepView>::V, i32)>,
                    Seq<char>,
                >(m.0.entries()),
                Err(e) => enum_map_from_json::<E, M::Key>(json@) == Err::<
                    Seq<(<M::Key as DeepView>::V, i32)>,
                    Seq<char>,
                >(e@),
            },
    {
        match json {
            Json::Object(members) => {
                let ghost all = members_view(members@);
                let ghost outcomes = Seq::new(
                    all.len(),
                    |i: int| enum_entry_from_json::<E, M::Key>(all[i]),
                );
                let mut values = M::empty();
                let ghost mut done = Seq::<(<M::Key as DeepView>::V, i32)>::empty();
                let mut i: usize = 0;
                proof {
                    lemma_members_view(members@);
                    assert(outcomes.take(0) =~= Seq::<
                        Outcome<(<M::Key as DeepView>::V, i32)>,
                    >::empty());
                }
                while i < members.len()
                    invariant
                        i <= members.len(),
                        all == members_view(members@),
                        all.len() == members.len(),
                        forall|k: int|
                            0 <= k < members.len() ==> #[trigger] all[k] == (
                                members@[k].0@,
                                members@[k].1@,
                            ),
                        outcomes == Seq::new(
                            all.len(),
                            |i: int| enum_entry_from_json::<E, M::Key>(all[i]),
                        ),
                        json@ == JsonValue::Object(all),
                        collect(outcomes.take(i as int)) == Ok::<
                            Seq<(<M::Key as DeepView>::V, i32)>,
                            Seq<char>,
                        >(done),
                        values.entries() == inserted(done),
                    decreases members.len() - i,
                {
                    proof {
                        lemma_collect_step(outcomes, i as int);
                    }
                    let key = match M::Key::from_key(members[i].0.as_str()) {
                        Ok(key) => key,
                        Err(e) => {
                            proof {
                                lemma_collect_error(outcomes, i as int);
                            }
                            return Err(e);
                        },
                    };
                    let value = match enum_from::<E>(&members[i].1) {
                        Ok(value) => value,
                        Err(e) => {
                            proof {
                                lemma_collect_error(outcomes, i as int);
                            }
                            return Err(e);
                        },
                    };
                    proof {
                        let next = done.push((key.deep_view(), value));
                        assert(next.drop_last() =~= done);
                        done = next;
                    }
                    values.insert(key, value);
                    i = i + 1;
                }
                assert(outcomes.take(members.len() as int) =~= outcomes);
                Ok(CanonicalEnumMap(values, PhantomData))
            },
            Json::Null => Ok(CanonicalEnumMap(M::empty(), PhantomData)),
            _ => Err(CanonicalError::new("invalid type, expected a map")),
        }
    }
}

} // verus!
