//! Adapters that lift a codec over an optional value and over a sequence.
use crate::codec::{json_outcome, CanonicalDeserialize, CanonicalSerialize};
use crate::error::{collect, lemma_collect_error, lemma_collect_step, CanonicalError, Outcome};
use crate::json::{items_view, lemma_items_view, Json, JsonValue};
use vstd::prelude::*;

verus! {

/// The models of a row of values.
pub open spec fn models<T: DeepView>(values: Seq<T>) -> Seq<T::V> {
    Seq::new(values.len(), |i: int| values[i].deep_view())
}

/// The value that JSON stands for, where `null` stands for none.
pub open spec fn option_from_json<T: CanonicalDeserialize>(json: JsonValue) -> Outcome<
    Option<T::V>,
> {
    match json {
        JsonValue::Null => Ok(None),
        _ => match T::canonical_value(json) {
            Ok(v) => Ok(Some(v)),
            Err(m) => Err(m),
        },
    }
}

/// The JSON array of a row of values, or the first error among them.
pub open spec fn seq_json<T: CanonicalSerialize>(values: Seq<T::V>) -> Outcome<JsonValue> {
    match collect(Seq::new(values.len(), |i: int| T::canonical_json(values[i]))) {
        Ok(items) => Ok(JsonValue::Array(items)),
        Err(m) => Err(m),
    }
}

/// The values that a JSON array stands for, or the first error among its
/// items; `null` stands for no values.
pub open spec fn vec_from_json<T: CanonicalDeserialize>(json: JsonValue) -> Outcome<Seq<T::V>> {
    match json {
        JsonValue::Array(items) => collect(
            Seq::new(items.len(), |i: int| T::canonical_value(items[i])),
        ),
        JsonValue::Null => Ok(Seq::empty()),
        _ => Err("invalid type, expected a sequence"@),
    }
}

/// Wraps a value to serialize it using canonical protobuf JSON rules.
pub struct Canonical<'a, T: CanonicalSerialize> {
    value: &'a T,
}

impl<'a, T: CanonicalSerialize> DeepView for Canonical<'a, T> {
    type V = T::V;

    closed spec fn deep_view(&self) -> T::V {
        self.value.deep_view()
    }
}

impl<'a, T: CanonicalSerialize> Canonical<'a, T> {
    pub fn new(value: &'a T) -> (r: Self)
        ensures
            r.deep_view() == value.deep_view(),
    {
        Self { value }
    }

    /// Writes the value as canonical JSON.
    pub fn serialize(&self) -> (r: Result<Json, CanonicalError>)
        ensures
            json_outcome(r) == T::canonical_json(self.deep_view()),
    {
        self.value.serialize_canonical()
    }
}

/// Wraps a value for canonical protobuf JSON deserialization.
pub struct CanonicalValue<T>(pub T);

impl<T: CanonicalDeserialize> CanonicalValue<T> {
    /// Reads the value from canonical JSON.
    pub fn deserialize(json: &Json) -> (r: Result<Self, CanonicalError>)
        ensures
            match r {
                Ok(v) => T::canonical_value(json@) == Ok::<T::V, Seq<char>>(v.0.deep_view()),
                Err(e) => T::canonical_value(json@) == Err::<T::V, Seq<char>>(e@),
            },
    {
        match T::deserialize_canonical(json) {
            Ok(v) => Ok(CanonicalValue(v)),
            Err(e) => Err(e),
        }
    }
}

impl<T: CanonicalSerialize> CanonicalSerialize for Box<T> {
    open spec fn canonical_json(value: T::V) -> Outcome<JsonValue> {
        T::canonical_json(value)
    }

    fn serialize_canonical(&self) -> (r: Result<Json, CanonicalError>) {
        (**self).serialize_canonical()
    }
}

impl<T: CanonicalDeserialize> CanonicalDeserialize for Box<T> {
    open spec fn canonical_value(json: JsonValue) -> Outcome<T::V> {
        T::canonical_value(json)
    }

    fn deserialize_canonical(json: &Json) -> (r: Result<Self, CanonicalError>) {
        match T::deserialize_canonical(json) {
            Ok(v) => Ok(Box::new(v)),
            Err(e) => Err(e),
        }
    }
}

/// Wraps an `Option` for canonical protobuf JSON deserialization.
pub struct CanonicalOption<T>(pub Option<T>);

impl<T: CanonicalDeserialize> CanonicalOption<T> {
    /// Reads a value, or nothing where the JSON is `null`.
    pub fn deserialize(json: &Json) -> (r: Result<Self, CanonicalError>)
        ensures
            match r {
                Ok(v) => option_from_json::<T>(json@) == Ok::<Option<T::V>, Seq<char>>(
                    match v.0 {
                        Some(x) => Some(x.deep_view()),
                        None => None,
                    },
                ),
                Err(e) => option_from_json::<T>(json@) == Err::<Option<T::V>, Seq<char>>(e@),
            },
    {
        match json {
            Json::Null => Ok(CanonicalOption(None)),
            _ => match T::deserialize_canonical(json) {
                Ok(v) => Ok(CanonicalOption(Some(v))),
                Err(e) => Err(e),
            },
        }
    }
}

/// Wraps a slice to serialize as a canonical JSON array.
pub struct CanonicalSeq<'a, T: CanonicalSerialize> {
    values: &'a [T],
}

impl<'a, T: CanonicalSerialize> DeepView for CanonicalSeq<'a, T> {
    type V = Seq<T::V>;

    closed spec fn deep_view(&self) -> Seq<T::V> {
        models(self.values@)
    }
}

impl<'a, T: CanonicalSerialize> CanonicalSeq<'a, T> {
    pub fn new(values: &'a [T]) -> (r: Self)
        ensures
            r.deep_view() == models(values@),
    {
        Self { values }
    }

    /// Writes the values as a JSON array.
    pub fn serialize(&self) -> (r: Result<Json, CanonicalError>)
        ensures
            json_outcome(r) == seq_json::<T>(self.deep_view()),
    {
        let ghost all = models(self.values@);
        let ghost outcomes = Seq::new(all.len(), |i: int| T::canonical_json(all[i]));
        let mut items: Vec<Json> = Vec::new();
        let mut i: usize = 0;
        proof {
            assert(outcomes.take(0) =~= Seq::<Outcome<JsonValue>>::empty());
            assert(items_view(items@) =~= Seq::<JsonValue>::empty());
        }
        while i < self.values.len()
            invariant
                i <= self.values.len(),
                all == models(self.values@),
                outcomes == Seq::new(all.len(), |i: int| T::canonical_json(all[i])),
                collect(outcomes.take(i as int)) == Ok::<Seq<JsonValue>, Seq<char>>(
                    items_view(items@),
                ),
            decreases self.values.len() - i,
        {
            proof {
                lemma_collect_step(outcomes, i as int);
            }
            match self.values[i].serialize_canonical() {
                Ok(j) => {
                    let ghost before = items@;
                    items.push(j);
                    assert(items@.drop_last() =~= before);
                },
                Err(e) => {
                    proof {
                        lemma_collect_error(outcomes, i as int);
                    }
                    return Err(e);
                },
            }
            i = i + 1;
        }
        assert(outcomes.take(self.values.len() as int) =~= outcomes);
        Ok(Json::Array(items))
    }
}

/// Wraps a vector for canonical protobuf JSON deserialization.
pub struct CanonicalVec<T>(pub Vec<T>);

impl<T: CanonicalDeserialize> CanonicalVec<T> {
    /// Reads a JSON array of values; `null` stands for no values.
    pub fn deserialize(json: &Json) -> (r: Result<Self, CanonicalError>)
        ensures
            match r {
                Ok(v) => vec_from_json::<T>(json@) == Ok::<Seq<T::V>, Seq<char>>(models(v.0@)),
                Err(e) => vec_from_json::<T>(json@) == Err::<Seq<T::V>, Seq<char>>(e@),
            },
    {
        match json {
            Json::Array(items) => {
                let ghost all = items_view(items@);
                let ghost outcomes = Seq::new(all.len(), |i: int| T::canonical_value(all[i]));
                let mut values: Vec<T> = Vec::new();
                let mut i: usize = 0;
                proof {
                    lemma_items_view(items@);
                    assert(outcomes.take(0) =~= Seq::<Outcome<T::V>>::empty());
                    assert(models(values@) =~= Seq::<T::V>::empty());
                }
                while i < items.len()
                    invariant
                        i <= items.len(),
                        all == items_view(items@),
                        all.len() == items.len(),
                        forall|k: int| 0 <= k < items.len() ==> #[trigger] all[k] == items@[k]@,
                        outcomes == Seq::new(all.len(), |i: int| T::canonical_value(all[i])),
                        json@ == JsonValue::Array(all),
                        collect(outcomes.take(i as int)) == Ok::<Seq<T::V>, Seq<char>>(
                            models(values@),
                        ),
                    decreases items.len() - i,
                {
                    proof {
                        lemma_collect_step(outcomes, i as int);
                    }
                    match T::deserialize_canonical(&items[i]) {
                        Ok(v) => {
                            let ghost before = models(values@);
                            values.push(v);
                            assert(models(values@) =~= before.push(v.deep_view()));
                        },
                        Err(e) => {
                            proof {
                                lemma_collect_error(outcomes, i as int);
                            }
                            return Err(e);
                        },
                    }
                    i = i + 1;
                }
                assert(outcomes.take(items.len() as int) =~= outcomes);
                Ok(CanonicalVec(values))
            },
            Json::Null => {
                let values: Vec<T> = Vec::new();
                assert(models(values@) =~= Seq::<T::V>::empty());
                Ok(CanonicalVec(values))
            },
            _ => Err(CanonicalError::new("invalid type, expected a sequence")),
        }
    }
}

} // verus!
