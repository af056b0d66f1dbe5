//! The two traits of the codec: a type that maps to canonical JSON, and a
//! type that canonical JSON maps to.
use crate::error::{CanonicalError, Outcome};
use crate::float::{Float32, Float64};
use crate::json::{Json, JsonValue};
use vstd::prelude::*;

verus! {

/// A JSON result as an outcome over the model of JSON.
pub open spec fn json_outcome(r: Result<Json, CanonicalError>) -> Outcome<JsonValue> {
    match r {
        Ok(j) => Ok(j@),
        Err(e) => Err(e@),
    }
}

/// A decoded result as an outcome over the model of the value.
pub open spec fn value_outcome<T: DeepView>(r: Result<T, CanonicalError>) -> Outcome<T::V> {
    match r {
        Ok(v) => Ok(v.deep_view()),
        Err(e) => Err(e@),
    }
}

/// Serializes a value using protobuf canonical JSON rules.
pub trait CanonicalSerialize: DeepView {
    /// The canonical JSON of a value, or the message of the error that
    /// serializing it gives.
    spec fn canonical_json(value: Self::V) -> Outcome<JsonValue>;

    /// Serializes this value in canonical protobuf JSON form.
    fn serialize_canonical(&self) -> (r: Result<Json, CanonicalError>)
        ensures
            json_outcome(r) == Self::canonical_json(self.deep_view()),
    ;
}

/// Deserializes a value using protobuf canonical JSON rules.
pub trait CanonicalDeserialize: Sized + DeepView {
    /// The value that a piece of JSON stands for, or the message of the error
    /// that deserializing it gives.
    spec fn canonical_value(json: JsonValue) -> Outcome<Self::V>;

    /// Deserializes this value from canonical protobuf JSON form.
    fn deserialize_canonical(json: &Json) -> (r: Result<Self, CanonicalError>)
        ensures
            value_outcome(r) == Self::canonical_value(json@),
    ;
}

impl DeepView for Float64 {
    type V = Float64;

    open spec fn deep_view(&self) -> Float64 {
        *self
    }
}

impl DeepView for Float32 {
    type V = Float32;

    open spec fn deep_view(&self) -> Float32 {
        *self
    }
}

} // verus!
