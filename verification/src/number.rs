//! Conversions between the shapes a number takes in JSON (an integer, a
//! double, text) and the protobuf scalar domains.
//!
//! An integer and a double convert into one another only where the value
//! survives the trip exactly.
use crate::error::{CanonicalError, Outcome};
use crate::float::{nearest_double, Float32, Float64, Whole};
use crate::json::{Json, JsonValue};
use crate::text::{chars_of, parse_signed, parse_unsigned, same_text, signed_value, unsigned_value, within};
use vstd::prelude::*;

verus! {

/// Minimum `i64` that a double holds exactly along with all between it and zero.
pub const MIN_SAFE_I64: i64 = -9_007_199_254_740_992;

/// Maximum `i64` that a double holds exactly along with all between zero and it.
pub const MAX_SAFE_I64: i64 = 9_007_199_254_740_992;

/// Maximum `u64` accepted from and for a double.
pub const MAX_SAFE_U64: u64 = 18_014_398_509_481_984;

/// Maximum magnitude of an `i64` that a single holds exactly.
pub const MAX_SAFE_I64_F32: i64 = 16_777_216;

/// Maximum `u64` that a single holds exactly.
pub const MAX_SAFE_U64_F32: u64 = 16_777_216;

/// An integer result as an outcome over `int`.
pub open spec fn outcome_i32(r: Result<i32, CanonicalError>) -> Outcome<int> {
    match r {
        Ok(v) => Ok(v as int),
        Err(e) => Err(e@),
    }
}

/// An integer result as an outcome over `int`.
pub open spec fn outcome_u32(r: Result<u32, CanonicalError>) -> Outcome<int> {
    match r {
        Ok(v) => Ok(v as int),
        Err(e) => Err(e@),
    }
}

/// An integer result as an outcome over `int`.
pub open spec fn outcome_i64(r: Result<i64, CanonicalError>) -> Outcome<int> {
    match r {
        Ok(v) => Ok(v as int),
        Err(e) => Err(e@),
    }
}

/// An integer result as an outcome over `int`.
pub open spec fn outcome_u64(r: Result<u64, CanonicalError>) -> Outcome<int> {
    match r {
        Ok(v) => Ok(v as int),
        Err(e) => Err(e@),
    }
}

/// A floating point result as an outcome.
pub open spec fn outcome_of<T>(r: Result<T, CanonicalError>) -> Outcome<T> {
    match r {
        Ok(v) => Ok(v),
        Err(e) => Err(e@),
    }
}

/// The integer that a double converts to: it must be a whole number, else
/// the error is `invalid`; it must lie between `lo` and `hi`, else the error
/// is `range`.
pub open spec fn whole_between(
    value: Float64,
    lo: int,
    hi: int,
    invalid: Seq<char>,
    range: Seq<char>,
) -> Outcome<int> {
    match value.integer() {
        None => Err(invalid),
        Some(n) => if lo <= n <= hi {
            Ok(n)
        } else {
            Err(range)
        },
    }
}

/// The double that text converts to: `NaN`, `Infinity` and `-Infinity` are
/// taken literally; any other text must have a finite reading.
pub open spec fn float_from_text(text: Seq<char>, reading: Option<Float64>) -> Outcome<Float64> {
    if text == "NaN"@ {
        Ok(Float64 { bits: 0x7FF8_0000_0000_0000 })
    } else if text == "Infinity"@ {
        Ok(Float64 { bits: 0x7FF0_0000_0000_0000 })
    } else if text == "-Infinity"@ {
        Ok(Float64 { bits: 0xFFF0_0000_0000_0000 })
    } else {
        match reading {
            None => Err("invalid f64 string"@),
            Some(f) => if f.finite() {
                Ok(f)
            } else {
                Err("float out of range"@)
            },
        }
    }
}

/// The integer that text converts to. Text that is a decimal integer between
/// `lo` and `hi` converts to that integer. Any other text is taken by its
/// reading as a floating point number, which must be a whole number (else
/// `invalid`) between `safe_lo` and `safe_hi` (else `range`).
pub open spec fn integer_from_text(
    plain: Option<int>,
    text: Seq<char>,
    reading: Option<Float64>,
    safe_lo: int,
    safe_hi: int,
    invalid: Seq<char>,
    range: Seq<char>,
) -> Outcome<int> {
    match plain {
        Some(n) => Ok(n),
        None => match float_from_text(text, reading) {
            Err(_) => Err(invalid),
            Ok(f) => whole_between(f, safe_lo, safe_hi, invalid, range),
        },
    }
}

pub open spec fn i32_from_f64_spec(value: Float64) -> Outcome<int> {
    whole_between(value, i32::MIN as int, i32::MAX as int, "invalid i32"@, "i32 out of range"@)
}

pub open spec fn u32_from_f64_spec(value: Float64) -> Outcome<int> {
    whole_between(value, 0, u32::MAX as int, "invalid u32"@, "u32 out of range"@)
}

pub open spec fn i64_from_f64_spec(value: Float64) -> Outcome<int> {
    whole_between(
        value,
        -9_007_199_254_740_992,
        9_007_199_254_740_992,
        "invalid i64"@,
        "i64 out of range"@,
    )
}

pub open spec fn u64_from_f64_spec(value: Float64) -> Outcome<int> {
    whole_between(value, 0, 18_014_398_509_481_984, "invalid u64"@, "u64 out of range"@)
}

pub open spec fn i32_from_str_spec(text: Seq<char>, reading: Option<Float64>) -> Outcome<int> {
    integer_from_text(
        within(signed_value(text), i32::MIN as int, i32::MAX as int),
        text,
        reading,
        i32::MIN as int,
        i32::MAX as int,
        "invalid i32 string"@,
        "i32 out of range"@,
    )
}

pub open spec fn u32_from_str_spec(text: Seq<char>, reading: Option<Float64>) -> Outcome<int> {
    integer_from_text(
        within(unsigned_value(text), 0, u32::MAX as int),
        text,
        reading,
        0,
        u32::MAX as int,
        "invalid u32 string"@,
        "u32 out of range"@,
    )
}

pub open spec fn i64_from_str_spec(text: Seq<char>, reading: Option<Float64>) -> Outcome<int> {
    integer_from_text(
        within(signed_value(text), i64::MIN as int, i64::MAX as int),
        text,
        reading,
        -9_007_199_254_740_992,
        9_007_199_254_740_992,
        "invalid i64 string"@,
        "i64 out of range"@,
    )
}

pub open spec fn u64_from_str_spec(text: Seq<char>, reading: Option<Float64>) -> Outcome<int> {
    integer_from_text(
        within(unsigned_value(text), 0, u64::MAX as int),
        text,
        reading,
        0,
        18_014_398_509_481_984,
        "invalid u64 string"@,
        "u64 out of range"@,
    )
}

/// The single that a double converts to: a NaN gives the default NaN, an
/// infinity that infinity, a finite double the nearest single, which must be
/// finite too.
pub open spec fn f32_from_f64_spec(value: Float64) -> Outcome<Float32> {
    if value.nan() || value.infinite() || value.narrowed().finite() {
        Ok(value.narrowed())
    } else {
        Err("float out of range"@)
    }
}

/// Converts a whole double between `lo` and `hi` to that integer.
fn whole_in_range(value: Float64, lo: i64, hi: i64, invalid: &str, range: &str) -> (r: Result<
    i64,
    CanonicalError,
>)
    requires
        i64::MIN < lo,
    ensures
        outcome_i64(r) == whole_between(value, lo as int, hi as int, invalid@, range@),
{
    match value.whole() {
        Whole::No => Err(CanonicalError::new(invalid)),
        Whole::Large => Err(CanonicalError::new(range)),
        Whole::Is(n) => {
            if n < lo || n > hi {
                Err(CanonicalError::new(range))
            } else {
                Ok(n)
            }
        },
    }
}

/// Reads text as a double: `NaN`, `Infinity` and `-Infinity` literally,
/// any other text by the finite `reading` that the JSON reader took of it.
pub fn parse_float(value: &str, reading: Option<Float64>) -> (r: Result<Float64, CanonicalError>)
    ensures
        outcome_of(r) == float_from_text(value@, reading),
{
    if same_text(value, "NaN") {
        Ok(Float64::not_a_number())
    } else if same_text(value, "Infinity") {
        Ok(Float64::infinity(false))
    } else if same_text(value, "-Infinity") {
        Ok(Float64::infinity(true))
    } else {
        match reading {
            None => Err(CanonicalError::new("invalid f64 string")),
            Some(f) => {
                if f.is_finite() {
                    Ok(f)
                } else {
                    Err(CanonicalError::new("float out of range"))
                }
            },
        }
    }
}

/// The integer of text that is no plain decimal integer of the wanted kind.
fn integer_from_reading(
    value: &str,
    reading: Option<Float64>,
    lo: i64,
    hi: i64,
    invalid: &str,
    range: &str,
) -> (r: Result<i64, CanonicalError>)
    requires
        i64::MIN < lo,
    ensures
        outcome_i64(r) == integer_from_text(
            None,
            value@,
            reading,
            lo as int,
            hi as int,
            invalid@,
            range@,
        ),
{
    match parse_float(value, reading) {
        Err(_) => Err(CanonicalError::new(invalid)),
        Ok(f) => whole_in_range(f, lo, hi, invalid, range),
    }
}

/// Converts a whole double in the `i32` range to that `i32`.
pub fn i32_from_f64(value: Float64) -> (r: Result<i32, CanonicalError>)
    ensures
        outcome_i32(r) == i32_from_f64_spec(value),
{
    match whole_in_range(value, -2_147_483_648, 2_147_483_647, "invalid i32", "i32 out of range") {
        Ok(n) => Ok(n as i32),
        Err(e) => Err(e),
    }
}

/// Converts a whole double in the `u32` range to that `u32`.
pub fn u32_from_f64(value: Float64) -> (r: Result<u32, CanonicalError>)
    ensures
        outcome_u32(r) == u32_from_f64_spec(value),
{
    match whole_in_range(value, 0, 4_294_967_295, "invalid u32", "u32 out of range") {
        Ok(n) => Ok(n as u32),
        Err(e) => Err(e),
    }
}

/// Converts a whole double of magnitude up to two to the 53 to that `i64`.
pub fn i64_from_f64(value: Float64) -> (r: Result<i64, CanonicalError>)
    ensures
        outcome_i64(r) == i64_from_f64_spec(value),
{
    whole_in_range(value, MIN_SAFE_I64, MAX_SAFE_I64, "invalid i64", "i64 out of range")
}

/// Converts a whole double from zero up to two to the 54 to that `u64`.
pub fn u64_from_f64(value: Float64) -> (r: Result<u64, CanonicalError>)
    ensures
        outcome_u64(r) == u64_from_f64_spec(value),
{
    match whole_in_range(value, 0, 18_014_398_509_481_984, "invalid u64", "u64 out of range") {
        Ok(n) => Ok(n as u64),
        Err(e) => Err(e),
    }
}

/// Reads text as an `i32`: a decimal integer, or text whose reading as a
/// floating point number is a whole number in range.
pub fn i32_from_str(value: &str, reading: Option<Float64>) -> (r: Result<i32, CanonicalError>)
    ensures
        outcome_i32(r) == i32_from_str_spec(value@, reading),
{
    let chars = chars_of(value);
    if let Some(n) = parse_signed(&chars, -2_147_483_648, 2_147_483_647) {
        return Ok(n as i32);
    }
    match integer_from_reading(
        value,
        reading,
        -2_147_483_648,
        2_147_483_647,
        "invalid i32 string",
        "i32 out of range",
    ) {
        Ok(n) => Ok(n as i32),
        Err(e) => Err(e),
    }
}

/// Reads text as a `u32`: a decimal integer, or text whose reading as a
/// floating point number is a whole number in range.
pub fn u32_from_str(value: &str, reading: Option<Float64>) -> (r: Result<u32, CanonicalError>)
    ensures
        outcome_u32(r) == u32_from_str_spec(value@, reading),
{
    let chars = chars_of(value);
    if let Some(n) = parse_unsigned(&chars, 4_294_967_295) {
        return Ok(n as u32);
    }
    match integer_from_reading(
        value,
        reading,
        0,
        4_294_967_295,
        "invalid u32 string",
        "u32 out of range",
    ) {
        Ok(n) => Ok(n as u32),
        Err(e) => Err(e),
    }
}

/// Reads text as an `i64`: a decimal integer, or text whose reading as a
/// floating point number is a whole number of magnitude up to two to the 53.
pub fn i64_from_str(value: &str, reading: Option<Float64>) -> (r: Result<i64, CanonicalError>)
    ensures
        outcome_i64(r) == i64_from_str_spec(value@, reading),
{
    let chars = chars_of(value);
    if let Some(n) = parse_signed(&chars, i64::MIN, i64::MAX) {
        return Ok(n);
    }
    integer_from_reading(
        value,
        reading,
        MIN_SAFE_I64,
        MAX_SAFE_I64,
        "invalid i64 string",
        "i64 out of range",
    )
}

/// Reads text as a `u64`: a decimal integer, or text whose reading as a
/// floating point number is a whole number up to two to the 54.
pub fn u64_from_str(value: &str, reading: Option<Float64>) -> (r: Result<u64, CanonicalError>)
    ensures
        outcome_u64(r) == u64_from_str_spec(value@, reading),
{
    let chars = chars_of(value);
    if let Some(n) = parse_unsigned(&chars, u64::MAX) {
        return Ok(n);
    }
    match integer_from_reading(
        value,
        reading,
        0,
        18_014_398_509_481_984,
        "invalid u64 string",
        "u64 out of range",
    ) {
        Ok(n) => Ok(n as u64),
        Err(e) => Err(e),
    }
}

/// The double that equals `value`, for a magnitude up to two to the 53.
pub fn f64_from_i64_exact(value: i64) -> (r: Result<Float64, CanonicalError>)
    ensures
        match r {
            Ok(f) => MIN_SAFE_I64 <= value <= MAX_SAFE_I64 && f.finite() && f.integer() == Some(
                value as int,
            ) && f.negative() == (value < 0) && f == Float64::of_whole(
                value < 0,
                if value < 0 {
                    -value
                } else {
                    value as int
                },
            ),
            Err(e) => !(MIN_SAFE_I64 <= value <= MAX_SAFE_I64) && e@
                == "integer out of range for f64"@,
        },
{
    if value < MIN_SAFE_I64 || value > MAX_SAFE_I64 {
        return Err(CanonicalError::new("integer out of range for f64"));
    }
    if value < 0 {
        Ok(Float64::from_magnitude(true, (-value) as u64))
    } else {
        Ok(Float64::from_magnitude(false, value as u64))
    }
}

/// The double nearest to `value`, for a value up to two to the 54: `value`
/// itself up to two to the 53, the nearest even number above.
pub fn f64_from_u64_exact(value: u64) -> (r: Result<Float64, CanonicalError>)
    ensures
        match r {
            Ok(f) => value <= MAX_SAFE_U64 && f.finite() && !f.negative() && f.integer() == Some(
                nearest_double(value as int),
            ) && f == Float64::of_whole(false, value as int),
            Err(e) => value > MAX_SAFE_U64 && e@ == "integer out of range for f64"@,
        },
{
    if value > MAX_SAFE_U64 {
        return Err(CanonicalError::new("integer out of range for f64"));
    }
    Ok(Float64::from_magnitude(false, value))
}

/// The single that equals `value`, for a magnitude up to two to the 24.
pub fn f32_from_i64_exact(value: i64) -> (r: Result<Float32, CanonicalError>)
    ensures
        match r {
            Ok(f) => -MAX_SAFE_I64_F32 <= value <= MAX_SAFE_I64_F32 && f.finite() && f.integer()
                == Some(value as int) && f.negative() == (value < 0) && f == Float32::of_whole(
                value < 0,
                if value < 0 {
                    -value
                } else {
                    value as int
                },
            ),
            Err(e) => !(-MAX_SAFE_I64_F32 <= value <= MAX_SAFE_I64_F32) && e@
                == "integer out of range for f32"@,
        },
{
    if value < -MAX_SAFE_I64_F32 || value > MAX_SAFE_I64_F32 {
        return Err(CanonicalError::new("integer out of range for f32"));
    }
    if value < 0 {
        Ok(Float32::from_magnitude(true, (-value) as u32))
    } else {
        Ok(Float32::from_magnitude(false, value as u32))
    }
}

/// The single that equals `value`, for a value up to two to the 24.
pub fn f32_from_u64_exact(value: u64) -> (r: Result<Float32, CanonicalError>)
    ensures
        match r {
            Ok(f) => value <= MAX_SAFE_U64_F32 && f.finite() && !f.negative() && f.integer()
                == Some(value as int) && f == Float32::of_whole(false, value as int),
            Err(e) => value > MAX_SAFE_U64_F32 && e@ == "integer out of range for f32"@,
        },
{
    if value > MAX_SAFE_U64_F32 {
        return Err(CanonicalError::new("integer out of range for f32"));
    }
    Ok(Float32::from_magnitude(false, value as u32))
}

/// Narrows a double to a single. Precision may be lost; a finite double
/// whose nearest single is not finite is out of range.
pub fn f32_from_f64(value: Float64) -> (r: Result<Float32, CanonicalError>)
    ensures
        outcome_of(r) == f32_from_f64_spec(value),
{
    let narrow = value.narrow();
    if value.is_nan() || value.is_infinite() || narrow.is_finite() {
        Ok(narrow)
    } else {
        Err(CanonicalError::new("float out of range"))
    }
}

/// The JSON of a double: a number where finite, else one of the strings
/// `NaN`, `Infinity` and `-Infinity`.
pub open spec fn float64_json(value: Float64) -> JsonValue {
    if value.finite() {
        JsonValue::Double(value)
    } else if value.nan() {
        JsonValue::Str("NaN"@, None)
    } else if !value.negative() {
        JsonValue::Str("Infinity"@, None)
    } else {
        JsonValue::Str("-Infinity"@, None)
    }
}

/// The JSON of a single: a number where finite, else one of the strings
/// `NaN`, `Infinity` and `-Infinity`.
pub open spec fn float32_json(value: Float32) -> JsonValue {
    if value.finite() {
        JsonValue::Single(value)
    } else if value.nan() {
        JsonValue::Str("NaN"@, None)
    } else if !value.negative() {
        JsonValue::Str("Infinity"@, None)
    } else {
        JsonValue::Str("-Infinity"@, None)
    }
}

/// Writes a double as JSON.
pub fn serialize_float64(value: Float64) -> (r: Json)
    ensures
        r@ == float64_json(value),
{
    if value.is_finite() {
        Json::Double(value)
    } else if value.is_nan() {
        Json::string("NaN")
    } else if !value.is_negative() {
        Json::string("Infinity")
    } else {
        Json::string("-Infinity")
    }
}

/// Writes a single as JSON.
pub fn serialize_float32(value: Float32) -> (r: Json)
    ensures
        r@ == float32_json(value),
{
    if value.is_finite() {
        Json::Single(value)
    } else if value.is_nan() {
        Json::string("NaN")
    } else if !value.is_negative() {
        Json::string("Infinity")
    } else {
        Json::string("-Infinity")
    }
}

} // verus!
