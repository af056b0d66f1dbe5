//! The codecs of the protobuf scalars: `bool`, the four integer kinds, the
//! two floating point kinds, `string` and `bytes`.
//!
//! Each scalar has one canonical JSON form on output and accepts several on
//! input. The 64-bit integers are written as strings; as bare JSON numbers
//! they are accepted only within the range that a double holds exactly.
use crate::codec::{CanonicalDeserialize, CanonicalSerialize};
use crate::error::{CanonicalError, Outcome};
use crate::float::{Float32, Float64};
use crate::json::{Json, JsonValue};
use crate::number::{
    f32_from_f64, f32_from_f64_spec, f32_from_i64_exact, f32_from_u64_exact, f64_from_i64_exact,
    f64_from_u64_exact, float32_json, float64_json, float_from_text, i32_from_f64,
    i32_from_f64_spec, i32_from_str, i32_from_str_spec, i64_from_f64, i64_from_f64_spec,
    i64_from_str, i64_from_str_spec, parse_float, serialize_float32, serialize_float64,
    u32_from_f64, u32_from_f64_spec, u32_from_str, u32_from_str_spec, u64_from_f64,
    u64_from_f64_spec, u64_from_str, u64_from_str_spec, MAX_SAFE_I64, MAX_SAFE_I64_F32,
    MAX_SAFE_U64, MAX_SAFE_U64_F32, MIN_SAFE_I64,
};
use crate::text::{push_decimal, push_signed_decimal, decimal, signed_decimal};
use vstd::prelude::*;

verus! {

/// The value of an outcome over `int` as an `i32`.
pub open spec fn as_i32(o: Outcome<int>) -> Outcome<i32> {
    match o {
        Ok(n) => Ok(n as i32),
        Err(m) => Err(m),
    }
}

/// The value of an outcome over `int` as a `u32`.
pub open spec fn as_u32(o: Outcome<int>) -> Outcome<u32> {
    match o {
        Ok(n) => Ok(n as u32),
        Err(m) => Err(m),
    }
}

/// The value of an outcome over `int` as an `i64`.
pub open spec fn as_i64(o: Outcome<int>) -> Outcome<i64> {
    match o {
        Ok(n) => Ok(n as i64),
        Err(m) => Err(m),
    }
}

/// The value of an outcome over `int` as a `u64`.
pub open spec fn as_u64(o: Outcome<int>) -> Outcome<u64> {
    match o {
        Ok(n) => Ok(n as u64),
        Err(m) => Err(m),
    }
}

/// The `bool` that JSON stands for: a JSON boolean only.
pub open spec fn bool_from_json(json: JsonValue) -> Outcome<bool> {
    match json {
        JsonValue::Bool(b) => Ok(b),
        _ => Err("invalid type, expected a boolean"@),
    }
}

/// The `int32` that JSON stands for: a number, a whole-valued double or a
/// decimal string, in the `i32` range.
pub open spec fn i32_from_json(json: JsonValue) -> Outcome<i32> {
    match json {
        JsonValue::Int(v) => if i32::MIN <= v <= i32::MAX {
            Ok(v as i32)
        } else {
            Err("i32 out of range"@)
        },
        JsonValue::Uint(v) => if v <= i32::MAX {
            Ok(v as i32)
        } else {
            Err("i32 out of range"@)
        },
        JsonValue::Double(f) => as_i32(i32_from_f64_spec(f)),
        JsonValue::Single(f) => as_i32(i32_from_f64_spec(f.widened())),
        JsonValue::Str(text, reading) => as_i32(i32_from_str_spec(text, reading)),
        _ => Err("invalid type, expected i32 or string"@),
    }
}

/// The `uint32` that JSON stands for: a number, a whole-valued double or a
/// decimal string, in the `u32` range.
pub open spec fn u32_from_json(json: JsonValue) -> Outcome<u32> {
    match json {
        JsonValue::Int(v) => if 0 <= v <= u32::MAX {
            Ok(v as u32)
        } else {
            Err("u32 out of range"@)
        },
        JsonValue::Uint(v) => if v <= u32::MAX {
            Ok(v as u32)
        } else {
            Err("u32 out of range"@)
        },
        JsonValue::Double(f) => as_u32(u32_from_f64_spec(f)),
        JsonValue::Single(f) => as_u32(u32_from_f64_spec(f.widened())),
        JsonValue::Str(text, reading) => as_u32(u32_from_str_spec(text, reading)),
        _ => Err("invalid type, expected u32 or string"@),
    }
}

/// The `int64` that JSON stands for: a bare number of magnitude up to two to
/// the 53, or a decimal string in the whole `i64` range.
pub open spec fn i64_from_json(json: JsonValue) -> Outcome<i64> {
    match json {
        JsonValue::Int(v) => if MIN_SAFE_I64 <= v <= MAX_SAFE_I64 {
            Ok(v)
        } else {
            Err("i64 out of range"@)
        },
        JsonValue::Uint(v) => if v <= MAX_SAFE_I64 {
            Ok(v as i64)
        } else {
            Err("i64 out of range"@)
        },
        JsonValue::Double(f) => as_i64(i64_from_f64_spec(f)),
        JsonValue::Single(f) => as_i64(i64_from_f64_spec(f.widened())),
        JsonValue::Str(text, reading) => as_i64(i64_from_str_spec(text, reading)),
        _ => Err("invalid type, expected i64 or string"@),
    }
}

/// The `uint64` that JSON stands for: a bare number up to two to the 54, or
/// a decimal string in the whole `u64` range.
pub open spec fn u64_from_json(json: JsonValue) -> Outcome<u64> {
    match json {
        JsonValue::Int(v) => if 0 <= v <= MAX_SAFE_U64 {
            Ok(v as u64)
        } else {
            Err("u64 out of range"@)
        },
        JsonValue::Uint(v) => if v <= MAX_SAFE_U64 {
            Ok(v)
        } else {
            Err("u64 out of range"@)
        },
        JsonValue::Double(f) => as_u64(u64_from_f64_spec(f)),
        JsonValue::Single(f) => as_u64(u64_from_f64_spec(f.widened())),
        JsonValue::Str(text, reading) => as_u64(u64_from_str_spec(text, reading)),
        _ => Err("invalid type, expected u64 or string"@),
    }
}

/// The `double` that JSON stands for: a finite number, an integer in the
/// safe range, a decimal string, or one of the strings `NaN`, `Infinity`
/// and `-Infinity`.
pub open spec fn f64_from_json(json: JsonValue) -> Outcome<Float64> {
    match json {
        JsonValue::Double(f) => if f.finite() {
            Ok(f)
        } else {
            Err("float must be finite"@)
        },
        JsonValue::Single(f) => if f.finite() {
            Ok(f.widened())
        } else {
            Err("float must be finite"@)
        },
        JsonValue::Int(v) => if MIN_SAFE_I64 <= v <= MAX_SAFE_I64 {
            Ok(Float64::of_whole(v < 0, if v < 0 { -v } else { v as int }))
        } else {
            Err("integer out of range for f64"@)
        },
        JsonValue::Uint(v) => if v <= MAX_SAFE_U64 {
            Ok(Float64::of_whole(false, v as int))
        } else {
            Err("integer out of range for f64"@)
        },
        JsonValue::Str(text, reading) => float_from_text(text, reading),
        _ => Err("invalid type, expected f64 or string"@),
    }
}

/// The `float` that JSON stands for: as for `double`, then narrowed to single
/// precision, which may lose precision but not overflow; an integer must be
/// of magnitude up to two to the 24.
pub open spec fn f32_from_json(json: JsonValue) -> Outcome<Float32> {
    match json {
        JsonValue::Double(f) => if f.finite() {
            f32_from_f64_spec(f)
        } else {
            Err("float must be finite"@)
        },
        JsonValue::Single(f) => if f.finite() {
            Ok(f)
        } else {
            Err("float must be finite"@)
        },
        JsonValue::Int(v) => if -MAX_SAFE_I64_F32 <= v <= MAX_SAFE_I64_F32 {
            Ok(Float32::of_whole(v < 0, if v < 0 { -v } else { v as int }))
        } else {
            Err("integer out of range for f32"@)
        },
        JsonValue::Uint(v) => if v <= MAX_SAFE_U64_F32 {
            Ok(Float32::of_whole(false, v as int))
        } else {
            Err("integer out of range for f32"@)
        },
        JsonValue::Str(text, reading) => match float_from_text(text, reading) {
            Ok(f) => f32_from_f64_spec(f),
            Err(m) => Err(m),
        },
        _ => Err("invalid type, expected f32 or string"@),
    }
}

/// What the standard base64 alphabet with padding makes of bytes.
pub uninterp spec fn base64_encoded(bytes: Seq<u8>) -> Seq<char>;

/// The bytes that text stands for in the standard base64 alphabet with
/// padding, where it stands for any.
pub uninterp spec fn base64_decoded(text: Seq<char>) -> Option<Seq<u8>>;

/// `base64::Engine::encode` on `base64::prelude::BASE64_STANDARD`: the
/// standard alphabet with `=` padding. The result is named; decoding it
/// gives the bytes back. The call computes the length of the text and panics
/// where that does not fit in `usize`, which `requires` leaves out.
#[verifier::external_body]
fn base64_encode(bytes: &Vec<u8>) -> (r: String)
    requires
        bytes.len() / 3 < usize::MAX / 4,
    ensures
        r@ == base64_encoded(bytes@),
        base64_decoded(r@) == Some(bytes@),
{
    base64::Engine::encode(&base64::prelude::BASE64_STANDARD, bytes)
}

/// `base64::Engine::decode` on `base64::prelude::BASE64_STANDARD`: the text
/// must be canonical, padded base64 in the standard alphabet. The result is
/// named; the outside error is dropped.
#[verifier::external_body]
fn base64_decode(text: &str) -> (r: Option<Vec<u8>>)
    ensures
        match r {
            Some(bytes) => base64_decoded(text@) == Some(bytes@),
            None => base64_decoded(text@) is None,
        },
{
    base64::Engine::decode(&base64::prelude::BASE64_STANDARD, text.as_bytes()).ok()
}

/// The JSON of `bytes`: base64 text, for bytes short enough that the text's
/// length fits in `usize`.
pub open spec fn bytes_json(value: Seq<u8>) -> Outcome<JsonValue> {
    if value.len() / 3 < usize::MAX / 4 {
        Ok(JsonValue::Str(base64_encoded(value), None))
    } else {
        Err("bytes too long for base64"@)
    }
}

/// Writes bytes as base64 text. What is written reads back as the bytes.
pub fn bytes_to_json(bytes: &Vec<u8>) -> (r: Result<Json, CanonicalError>)
    ensures
        crate::codec::json_outcome(r) == bytes_json(bytes@),
        r matches Ok(j) ==> bytes_from_json(j@) == Ok::<Seq<u8>, Seq<char>>(bytes@),
{
    if bytes.len() / 3 < usize::MAX / 4 {
        Ok(Json::Str(base64_encode(bytes), None))
    } else {
        Err(CanonicalError::new("bytes too long for base64"))
    }
}

/// The `bytes` that JSON stands for: a string of canonical base64.
pub open spec fn bytes_from_json(json: JsonValue) -> Outcome<Seq<u8>> {
    match json {
        JsonValue::Str(text, _) => match base64_decoded(text) {
            Some(bytes) => Ok(bytes),
            None => Err("invalid base64"@),
        },
        _ => Err("invalid type, expected a string"@),
    }
}

pub open spec fn bool_json(value: bool) -> JsonValue {
    JsonValue::Bool(value)
}

pub open spec fn i32_json(value: i32) -> JsonValue {
    JsonValue::Int(value as i64)
}

pub open spec fn u32_json(value: u32) -> JsonValue {
    JsonValue::Uint(value as u64)
}

pub open spec fn i64_json(value: i64) -> JsonValue {
    JsonValue::Str(signed_decimal(value as int), None)
}

pub open spec fn u64_json(value: u64) -> JsonValue {
    JsonValue::Str(decimal(value as nat), None)
}

pub open spec fn string_json(value: Seq<char>) -> JsonValue {
    JsonValue::Str(value, None)
}

/// The `string` that JSON stands for: a JSON string only.
pub open spec fn string_from_json(json: JsonValue) -> Outcome<Seq<char>> {
    match json {
        JsonValue::Str(text, _) => Ok(text),
        _ => Err("invalid type, expected a string"@),
    }
}

impl CanonicalSerialize for bool {
    open spec fn canonical_json(value: bool) -> Outcome<JsonValue> {
        Ok(bool_json(value))
    }

    fn serialize_canonical(&self) -> (r: Result<Json, CanonicalError>) {
        Ok(Json::Bool(*self))
    }
}

impl CanonicalDeserialize for bool {
    open spec fn canonical_value(json: JsonValue) -> Outcome<bool> {
        bool_from_json(json)
    }

    fn deserialize_canonical(json: &Json) -> (r: Result<Self, CanonicalError>) {
        match json {
            Json::Bool(b) => Ok(*b),
            _ => Err(CanonicalError::new("invalid type, expected a boolean")),
        }
    }
}

impl CanonicalSerialize for i32 {
    open spec fn canonical_json(value: i32) -> Outcome<JsonValue> {
        Ok(i32_json(value))
    }

    fn serialize_canonical(&self) -> (r: Result<Json, CanonicalError>) {
        Ok(Json::Int(*self as i64))
    }
}

impl CanonicalDeserialize for i32 {
    open spec fn canonical_value(json: JsonValue) -> Outcome<i32> {
        i32_from_json(json)
    }

    fn deserialize_canonical(json: &Json) -> (r: Result<Self, CanonicalError>) {
        match json {
            Json::Int(v) => {
                if -2_147_483_648 <= *v && *v <= 2_147_483_647 {
                    Ok(*v as i32)
                } else {
                    Err(CanonicalError::new("i32 out of range"))
                }
            },
            Json::Uint(v) => {
                if *v <= 2_147_483_647 {
                    Ok(*v as i32)
                } else {
                    Err(CanonicalError::new("i32 out of range"))
                }
            },
            Json::Double(f) => i32_from_f64(*f),
            Json::Single(f) => i32_from_f64(f.widen()),
            Json::Str(text, reading) => i32_from_str(text.as_str(), *reading),
            _ => Err(CanonicalError::new("invalid type, expected i32 or string")),
        }
    }
}

impl CanonicalSerialize for u32 {
    open spec fn canonical_json(value: u32) -> Outcome<JsonValue> {
        Ok(u32_json(value))
    }

    fn serialize_canonical(&self) -> (r: Result<Json, CanonicalError>) {
        Ok(Json::Uint(*self as u64))
    }
}

impl CanonicalDeserialize for u32 {
    open spec fn canonical_value(json: JsonValue) -> Outcome<u32> {
        u32_from_json(json)
    }

    fn deserialize_canonical(json: &Json) -> (r: Result<Self, CanonicalError>) {
        match json {
            Json::Int(v) => {
                if 0 <= *v && *v <= 4_294_967_295 {
                    Ok(*v as u32)
                } else {
                    Err(CanonicalError::new("u32 out of range"))
                }
            },
            Json::Uint(v) => {
                if *v <= 4_294_967_295 {
                    Ok(*v as u32)
                } else {
                    Err(CanonicalError::new("u32 out of range"))
                }
            },
            Json::Double(f) => u32_from_f64(*f),
            Json::Single(f) => u32_from_f64(f.widen()),
            Json::Str(text, reading) => u32_from_str(text.as_str(), *reading),
            _ => Err(CanonicalError::new("invalid type, expected u32 or string")),
        }
    }
}

impl CanonicalSerialize for i64 {
    open spec fn canonical_json(value: i64) -> Outcome<JsonValue> {
        Ok(i64_json(value))
    }

    fn serialize_canonical(&self) -> (r: Result<Json, CanonicalError>) {
        let mut digits: Vec<char> = Vec::new();
        push_signed_decimal(&mut digits, *self);
        assert(digits@ =~= signed_decimal(*self as int));
        Ok(Json::text(&digits))
    }
}

impl CanonicalDeserialize for i64 {
    open spec fn canonical_value(json: JsonValue) -> Outcome<i64> {
        i64_from_json(json)
    }

    fn deserialize_canonical(json: &Json) -> (r: Result<Self, CanonicalError>) {
        match json {
            Json::Int(v) => {
                if MIN_SAFE_I64 <= *v && *v <= MAX_SAFE_I64 {
                    Ok(*v)
                } else {
                    Err(CanonicalError::new("i64 out of range"))
                }
            },
            Json::Uint(v) => {
                if *v <= 9_007_199_254_740_992 {
                    Ok(*v as i64)
                } else {
                    Err(CanonicalError::new("i64 out of range"))
                }
            },
            Json::Double(f) => i64_from_f64(*f),
            Json::Single(f) => i64_from_f64(f.widen()),
            Json::Str(text, reading) => i64_from_str(text.as_str(), *reading),
            _ => Err(CanonicalError::new("invalid type, expected i64 or string")),
        }
    }
}

impl CanonicalSerialize for u64 {
    open spec fn canonical_json(value: u64) -> Outcome<JsonValue> {
        Ok(u64_json(value))
    }

    fn serialize_canonical(&self) -> (r: Result<Json, CanonicalError>) {
        let mut digits: Vec<char> = Vec::new();
        push_decimal(&mut digits, *self);
        assert(digits@ =~= decimal(*self as nat));
        Ok(Json::text(&digits))
    }
}

impl CanonicalDeserialize for u64 {
    open spec fn canonical_value(json: JsonValue) -> Outcome<u64> {
        u64_from_json(json)
    }

    fn deserialize_canonical(json: &Json) -> (r: Result<Self, CanonicalError>) {
        match json {
            Json::Int(v) => {
                if 0 <= *v && *v <= 18_014_398_509_481_984 {
                    Ok(*v as u64)
                } else {
                    Err(CanonicalError::new("u64 out of range"))
                }
            },
            Json::Uint(v) => {
                if *v <= MAX_SAFE_U64 {
                    Ok(*v)
                } else {
                    Err(CanonicalError::new("u64 out of range"))
                }
            },
            Json::Double(f) => u64_from_f64(*f),
            Json::Single(f) => u64_from_f64(f.widen()),
            Json::Str(text, reading) => u64_from_str(text.as_str(), *reading),
            _ => Err(CanonicalError::new("invalid type, expected u64 or string")),
        }
    }
}

impl CanonicalSerialize for String {
    open spec fn canonical_json(value: Seq<char>) -> Outcome<JsonValue> {
        Ok(string_json(value))
    }

    fn serialize_canonical(&self) -> (r: Result<Json, CanonicalError>) {
        Ok(Json::Str(self.clone(), None))
    }
}

impl CanonicalDeserialize for String {
    open spec fn canonical_value(json: JsonValue) -> Outcome<Seq<char>> {
        string_from_json(json)
    }

    fn deserialize_canonical(json: &Json) -> (r: Result<Self, CanonicalError>) {
        match json {
            Json::Str(text, _) => Ok(text.clone()),
            _ => Err(CanonicalError::new("invalid type, expected a string")),
        }
    }
}

impl CanonicalSerialize for Float64 {
    open spec fn canonical_json(value: Float64) -> Outcome<JsonValue> {
        Ok(float64_json(value))
    }

    fn serialize_canonical(&self) -> (r: Result<Json, CanonicalError>) {
        Ok(serialize_float64(*self))
    }
}

impl CanonicalDeserialize for Float64 {
    open spec fn canonical_value(json: JsonValue) -> Outcome<Float64> {
        f64_from_json(json)
    }

    fn deserialize_canonical(json: &Json) -> (r: Result<Self, CanonicalError>) {
        match json {
            Json::Double(f) => {
                if f.is_finite() {
                    Ok(*f)
                } else {
                    Err(CanonicalError::new("float must be finite"))
                }
            },
            Json::Single(f) => {
                if f.is_finite() {
                    Ok(f.widen())
                } else {
                    Err(CanonicalError::new("float must be finite"))
                }
            },
            Json::Int(v) => match f64_from_i64_exact(*v) {
                Ok(f) => Ok(f),
                Err(e) => Err(e),
            },
            Json::Uint(v) => match f64_from_u64_exact(*v) {
                Ok(f) => Ok(f),
                Err(e) => Err(e),
            },
            Json::Str(text, reading) => parse_float(text.as_str(), *reading),
            _ => Err(CanonicalError::new("invalid type, expected f64 or string")),
        }
    }
}

impl CanonicalSerialize for Float32 {
    open spec fn canonical_json(value: Float32) -> Outcome<JsonValue> {
        Ok(float32_json(value))
    }

    fn serialize_canonical(&self) -> (r: Result<Json, CanonicalError>) {
        Ok(serialize_float32(*self))
    }
}

impl CanonicalDeserialize for Float32 {
    open spec fn canonical_value(json: JsonValue) -> Outcome<Float32> {
        f32_from_json(json)
    }

    fn deserialize_canonical(json: &Json) -> (r: Result<Self, CanonicalError>) {
        match json {
            Json::Double(f) => {
                if f.is_finite() {
                    f32_from_f64(*f)
                } else {
                    Err(CanonicalError::new("float must be finite"))
                }
            },
            Json::Single(f) => {
                if f.is_finite() {
                    Ok(*f)
                } else {
                    Err(CanonicalError::new("float must be finite"))
                }
            },
            Json::Int(v) => match f32_from_i64_exact(*v) {
                Ok(f) => Ok(f),
                Err(e) => Err(e),
            },
            Json::Uint(v) => match f32_from_u64_exact(*v) {
                Ok(f) => Ok(f),
                Err(e) => Err(e),
            },
            Json::Str(text, reading) => match parse_float(text.as_str(), *reading) {
                Ok(f) => f32_from_f64(f),
                Err(e) => Err(e),
            },
            _ => Err(CanonicalError::new("invalid type, expected f32 or string")),
        }
    }
}

impl CanonicalSerialize for Vec<u8> {
    open spec fn canonical_json(value: Seq<u8>) -> Outcome<JsonValue> {
        bytes_json(value)
    }

    fn serialize_canonical(&self) -> (r: Result<Json, CanonicalError>) {
        assert(self.deep_view() =~= self@);
        bytes_to_json(self)
    }
}

impl CanonicalDeserialize for Vec<u8> {
    open spec fn canonical_value(json: JsonValue) -> Outcome<Seq<u8>> {
        bytes_from_json(json)
    }

    fn deserialize_canonical(json: &Json) -> (r: Result<Self, CanonicalError>) {
        match json {
            Json::Str(text, _) => match base64_decode(text.as_str()) {
                Some(bytes) => {
                    assert(bytes.deep_view() =~= bytes@);
                    Ok(bytes)
                },
                None => Err(CanonicalError::new("invalid base64")),
            },
            _ => Err(CanonicalError::new("invalid type, expected a string")),
        }
    }
}

} // verus!
