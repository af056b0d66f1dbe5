//! Canonical JSON mapping for Protocol Buffers messages.
//!
//! The codec works on JSON token trees ([`Json`]) rather than on text: a JSON
//! reader hands a tree in, a JSON writer takes a tree out. Every rule of the
//! mapping (numeric formats, well-known types, enums, maps, oneofs, default
//! elision) is stated in a contract and proved of the code.
//!
//! # Layers
//!
//! - [`float`], [`text`] and [`number`]: floating point numbers by their bit
//!   patterns, decimal integers in text, and the conversions between the
//!   shapes a number takes in JSON and the scalar domains.
//! - [`scalar`], [`timestamp`], [`duration`], [`field_mask`] and [`value`]:
//!   the codec of each scalar and of each well-known type, as
//!   implementations of [`CanonicalSerialize`] and [`CanonicalDeserialize`].
//! - [`wrappers`], [`enums`] and [`map`]: adapters that lift a codec over an
//!   optional value, a sequence, a map and an enum number.
//! - [`schema`], [`message`], [`encode`], [`decode`] and [`oneof`]: messages
//!   described by descriptors, written and read place by place.
//! - [`laws`], [`round_trip`] and [`names`]: what holds of the codec as a
//!   whole.
//! - [`attributes`], [`typing`] and [`conformance`]: what a code generator
//!   and a conformance test program decide.
//!
//! # Floating point numbers
//!
//! The library holds a floating point number by its bit pattern
//! ([`float::Float64`], [`float::Float32`]) and does integer arithmetic on
//! it. Text is read as a floating point number outside the library: a
//! string token carries what its reader made of it.
pub mod attributes;
pub mod codec;
pub mod conformance;
pub mod decode;
pub mod duration;
pub mod encode;
pub mod enums;
pub mod error;
pub mod field_mask;
pub mod float;
pub mod json;
pub mod laws;
pub mod map;
pub mod message;
pub mod names;
pub mod number;
pub mod oneof;
pub mod round_trip;
pub mod scalar;
pub mod schema;
pub mod text;
pub mod timestamp;
pub mod typing;
pub mod value;
pub mod wrappers;

pub use codec::{CanonicalDeserialize, CanonicalSerialize};
pub use decode::decode_message;
pub use encode::encode_message;
pub use enums::{
    CanonicalEnum, CanonicalEnumOption, CanonicalEnumSeq, CanonicalEnumValue, CanonicalEnumVec,
    ProstEnum,
};
pub use error::CanonicalError;
pub use json::Json;
pub use map::{
    CanonicalEnumMap, CanonicalEnumMapRef, CanonicalMap, CanonicalMapKey, CanonicalMapRef,
    CanonicalMapType,
};
pub use oneof::OneofMatch;
pub use wrappers::{Canonical, CanonicalOption, CanonicalSeq, CanonicalValue, CanonicalVec};
