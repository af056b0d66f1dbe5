use prost_canonical_serde::float::{Float32, Float64, Whole};
use prost_canonical_serde::number::{
    f32_from_f64, f32_from_i64_exact, f32_from_u64_exact, f64_from_i64_exact, f64_from_u64_exact,
    i32_from_f64, i32_from_str, i64_from_f64, i64_from_str, parse_float, serialize_float32,
    serialize_float64, u32_from_f64, u32_from_str, u64_from_f64, u64_from_str,
};
use prost_canonical_serde::text::{chars_of, parse_signed, parse_unsigned, same_text};
use prost_canonical_serde::{CanonicalDeserialize, CanonicalSerialize, Json};

fn d(v: f64) -> Float64 {
    Float64 { bits: v.to_bits() }
}

fn s(v: f32) -> Float32 {
    Float32 { bits: v.to_bits() }
}

fn reading(text: &str) -> Option<Float64> {
    text.parse::<f64>().ok().map(d)
}

fn message<T>(r: Result<T, prost_canonical_serde::CanonicalError>) -> String {
    match r {
        Ok(_) => panic!("expected an error"),
        Err(e) => e.to_string(),
    }
}

const DOUBLES: [f64; 32] = [
    0.0,
    -0.0,
    1.0,
    -1.0,
    0.5,
    42.0,
    42.5,
    1e6,
    4.2e1,
    2147483647.0,
    2147483648.0,
    -2147483648.0,
    -2147483649.0,
    4294967295.0,
    4294967296.0,
    9007199254740992.0,
    9007199254740994.0,
    -9007199254740992.0,
    18014398509481984.0,
    18014398509481988.0,
    1e300,
    -1e300,
    5e-324,
    2.2250738585072014e-308,
    3.4028234663852886e38,
    3.4028235e38,
    3.5e38,
    1.401298464324817e-45,
    7.006492321624085e-46,
    7.006492321624087e-46,
    1.1754943508222875e-38,
    0.1,
];

#[test]
fn i32_from_plain_decimal_text() {
    assert_eq!(i32_from_str("42", None).unwrap(), 42);
    assert_eq!(i32_from_str("-2147483648", None).unwrap(), i32::MIN);
    assert_eq!(i32_from_str("+7", None).unwrap(), 7);
    assert_eq!(i32_from_str("007", None).unwrap(), 7);
}

#[test]
fn decimal_parsing_agrees_with_the_standard_library() {
    let texts = [
        "", "+", "-", "0", "-0", "+0", "12", "-12", "+12", "1_0", " 1", "1 ", "१", "2147483647",
        "2147483648", "-2147483648", "-2147483649", "4294967295", "4294967296",
        "9223372036854775807", "9223372036854775808", "-9223372036854775808",
        "-9223372036854775809", "18446744073709551615", "18446744073709551616",
        "000000000000000000000000000000012", "--1", "+-1", "1e3", "0x10",
    ];
    for text in texts {
        let chars = chars_of(text);
        assert_eq!(parse_signed(&chars, i64::MIN, i64::MAX), text.parse::<i64>().ok(), "{text}");
        assert_eq!(
            parse_signed(&chars, i32::MIN as i64, i32::MAX as i64),
            text.parse::<i32>().ok().map(|v| v as i64),
            "{text}"
        );
        assert_eq!(parse_unsigned(&chars, u64::MAX), text.parse::<u64>().ok(), "{text}");
        assert_eq!(
            parse_unsigned(&chars, u32::MAX as u64),
            text.parse::<u32>().ok().map(|v| v as u64),
            "{text}"
        );
    }
}

#[test]
fn chars_and_text_helpers() {
    assert_eq!(chars_of("aé漢"), vec!['a', 'é', '漢']);
    assert!(same_text("abc", "abc"));
    assert!(!same_text("abc", "abd"));
}

#[test]
fn float_classes_agree_with_the_hardware() {
    let mut all: Vec<f64> = DOUBLES.to_vec();
    all.extend([f64::NAN, f64::INFINITY, f64::NEG_INFINITY, f64::MAX, f64::MIN, f64::MIN_POSITIVE]);
    for v in all {
        let f = d(v);
        assert_eq!(f.is_finite(), v.is_finite(), "{v}");
        assert_eq!(f.is_nan(), v.is_nan(), "{v}");
        assert_eq!(f.is_infinite(), v.is_infinite(), "{v}");
        assert_eq!(f.is_negative(), v.is_sign_negative(), "{v}");
    }
    for v in [0.0f32, -0.0, 1.5, f32::NAN, f32::INFINITY, f32::NEG_INFINITY, f32::MAX, f32::MIN_POSITIVE] {
        let f = s(v);
        assert_eq!(f.is_finite(), v.is_finite(), "{v}");
        assert_eq!(f.is_nan(), v.is_nan(), "{v}");
        assert_eq!(f.is_infinite(), v.is_infinite(), "{v}");
        assert_eq!(f.is_negative(), v.is_sign_negative(), "{v}");
    }
}

#[test]
fn whole_numbers_agree_with_the_hardware() {
    for v in DOUBLES {
        let expected = if v % 1.0 != 0.0 {
            Whole::No
        } else if v.abs() >= 9223372036854775808.0 {
            Whole::Large
        } else {
            Whole::Is(v as i64)
        };
        assert_eq!(d(v).whole(), expected, "{v}");
    }
    assert_eq!(d(f64::NAN).whole(), Whole::No);
    assert_eq!(d(f64::INFINITY).whole(), Whole::No);
    assert_eq!(d(9223372036854775808.0).whole(), Whole::Large);
    assert_eq!(d(-9223372036854775808.0).whole(), Whole::Large);
    assert_eq!(d(4611686018427387904.0).whole(), Whole::Is(4611686018427387904));
}

#[test]
fn narrowing_agrees_with_the_hardware() {
    let mut all: Vec<f64> = DOUBLES.to_vec();
    for v in DOUBLES {
        all.push(-v);
        all.push(v * 1.0000001);
        all.push(v / 3.0);
    }
    all.extend([
        f64::INFINITY,
        f64::NEG_INFINITY,
        f64::MAX,
        3.4028235677973366e38,
        3.4028235677973362e38,
        3.402823567797337e38,
        1.0000000596046448,
        1.0000000596046447,
        1.000000059604645,
        1.0000001788139343,
        1.1754942106924411e-38,
        1.1754943508222874e-38,
        1.4012984643248169e-45,
        2.1019476964872256e-45,
    ]);
    for v in all {
        assert_eq!(d(v).narrow().bits, (v as f32).to_bits(), "{v:e}");
    }
    assert!(d(f64::NAN).narrow().is_nan());
}

#[test]
fn widening_agrees_with_the_hardware() {
    let singles = [
        0.0f32,
        -0.0,
        1.0,
        -1.5,
        0.1,
        f32::MAX,
        f32::MIN,
        f32::MIN_POSITIVE,
        1e-45,
        -1e-45,
        3e-39,
        1.1754942e-38,
        f32::INFINITY,
        f32::NEG_INFINITY,
        16777216.0,
    ];
    for v in singles {
        assert_eq!(s(v).widen().bits, (v as f64).to_bits(), "{v:e}");
        assert_eq!(s(v).widen().narrow().bits, v.to_bits(), "{v:e}");
    }
    assert!(s(f32::NAN).widen().is_nan());
}

#[test]
fn integers_as_floats_agree_with_the_hardware() {
    let values: [u64; 14] = [
        0,
        1,
        2,
        3,
        255,
        16777215,
        16777216,
        4294967296,
        9007199254740991,
        9007199254740992,
        9007199254740993,
        9007199254740995,
        18014398509481983,
        18014398509481984,
    ];
    for v in values {
        assert_eq!(Float64::from_magnitude(false, v).bits, (v as f64).to_bits(), "{v}");
        assert_eq!(Float64::from_magnitude(true, v).bits, (-(v as f64)).to_bits(), "-{v}");
        if v <= 16777216 {
            assert_eq!(Float32::from_magnitude(false, v as u32).bits, (v as f32).to_bits(), "{v}");
            assert_eq!(Float32::from_magnitude(true, v as u32).bits, (-(v as f32)).to_bits());
        }
    }
}

#[test]
fn exact_integer_conversions_keep_to_the_safe_range() {
    assert_eq!(f64_from_i64_exact(42).unwrap(), d(42.0));
    assert_eq!(f64_from_i64_exact(-9007199254740992).unwrap(), d(-9007199254740992.0));
    assert_eq!(message(f64_from_i64_exact(9007199254740993)), "integer out of range for f64");
    assert_eq!(message(f64_from_i64_exact(i64::MIN)), "integer out of range for f64");
    assert_eq!(f64_from_u64_exact(18014398509481984).unwrap(), d(18014398509481984.0));
    assert_eq!(message(f64_from_u64_exact(18014398509481985)), "integer out of range for f64");
    assert_eq!(f32_from_i64_exact(-16777216).unwrap(), s(-16777216.0));
    assert_eq!(message(f32_from_i64_exact(16777217)), "integer out of range for f32");
    assert_eq!(message(f32_from_i64_exact(i64::MIN)), "integer out of range for f32");
    assert_eq!(f32_from_u64_exact(16777216).unwrap(), s(16777216.0));
    assert_eq!(message(f32_from_u64_exact(16777217)), "integer out of range for f32");
}

#[test]
fn floats_convert_to_integers_only_when_whole_and_in_range() {
    assert_eq!(i32_from_f64(d(42.0)).unwrap(), 42);
    assert_eq!(i32_from_f64(d(-0.0)).unwrap(), 0);
    assert_eq!(i32_from_f64(d(-2147483648.0)).unwrap(), i32::MIN);
    assert_eq!(message(i32_from_f64(d(42.5))), "invalid i32");
    assert_eq!(message(i32_from_f64(d(f64::NAN))), "invalid i32");
    assert_eq!(message(i32_from_f64(d(f64::INFINITY))), "invalid i32");
    assert_eq!(message(i32_from_f64(d(2147483648.0))), "i32 out of range");
    assert_eq!(message(i32_from_f64(d(1e300))), "i32 out of range");
    assert_eq!(u32_from_f64(d(4294967295.0)).unwrap(), u32::MAX);
    assert_eq!(message(u32_from_f64(d(-1.0))), "u32 out of range");
    assert_eq!(message(u32_from_f64(d(0.5))), "invalid u32");
    assert_eq!(i64_from_f64(d(9007199254740992.0)).unwrap(), 9007199254740992);
    assert_eq!(i64_from_f64(d(-9007199254740992.0)).unwrap(), -9007199254740992);
    assert_eq!(message(i64_from_f64(d(9007199254740994.0))), "i64 out of range");
    assert_eq!(message(i64_from_f64(d(1.5))), "invalid i64");
    assert_eq!(u64_from_f64(d(18014398509481984.0)).unwrap(), 18014398509481984);
    assert_eq!(message(u64_from_f64(d(18014398509481988.0))), "u64 out of range");
    assert_eq!(message(u64_from_f64(d(-2.0))), "u64 out of range");
    assert_eq!(message(u64_from_f64(d(f64::NEG_INFINITY))), "invalid u64");
}

#[test]
fn text_converts_to_integers_plainly_or_through_its_reading() {
    assert_eq!(i32_from_str("4.2e1", reading("4.2e1")).unwrap(), 42);
    assert_eq!(i32_from_str("42.0", reading("42.0")).unwrap(), 42);
    assert_eq!(i32_from_str("1e6", reading("1e6")).unwrap(), 1_000_000);
    assert_eq!(message(i32_from_str("4.2e1", None)), "invalid i32 string");
    assert_eq!(message(i32_from_str("abc", reading("abc"))), "invalid i32 string");
    assert_eq!(message(i32_from_str("1.5", reading("1.5"))), "invalid i32 string");
    assert_eq!(message(i32_from_str("NaN", reading("NaN"))), "invalid i32 string");
    assert_eq!(message(i32_from_str("1e400", reading("1e400"))), "invalid i32 string");
    assert_eq!(message(i32_from_str("2147483648", reading("2147483648"))), "i32 out of range");
    assert_eq!(u32_from_str("4294967295", None).unwrap(), u32::MAX);
    assert_eq!(u32_from_str("4.2e1", reading("4.2e1")).unwrap(), 42);
    assert_eq!(message(u32_from_str("-1", reading("-1"))), "u32 out of range");
    assert_eq!(message(u32_from_str("x", None)), "invalid u32 string");
    assert_eq!(i64_from_str("9007199254740993", None).unwrap(), 9007199254740993);
    assert_eq!(i64_from_str("-9223372036854775808", None).unwrap(), i64::MIN);
    assert_eq!(i64_from_str("4.2e1", reading("4.2e1")).unwrap(), 42);
    assert_eq!(message(i64_from_str("1e19", reading("1e19"))), "i64 out of range");
    assert_eq!(message(i64_from_str("", None)), "invalid i64 string");
    assert_eq!(u64_from_str("18446744073709551615", None).unwrap(), u64::MAX);
    assert_eq!(u64_from_str("1e3", reading("1e3")).unwrap(), 1000);
    assert_eq!(message(u64_from_str("1e19", reading("1e19"))), "u64 out of range");
    assert_eq!(message(u64_from_str("-", None)), "invalid u64 string");
}

#[test]
fn text_converts_to_floats() {
    assert!(parse_float("NaN", None).unwrap().is_nan());
    assert_eq!(parse_float("Infinity", None).unwrap(), d(f64::INFINITY));
    assert_eq!(parse_float("-Infinity", None).unwrap(), d(f64::NEG_INFINITY));
    assert_eq!(parse_float("1.5", reading("1.5")).unwrap(), d(1.5));
    assert_eq!(message(parse_float("x", reading("x"))), "invalid f64 string");
    assert_eq!(message(parse_float("inf", reading("inf"))), "float out of range");
    assert_eq!(message(parse_float("1e999", reading("1e999"))), "float out of range");
}

#[test]
fn f32_narrowing_of_the_largest_single_succeeds_and_beyond_it_fails() {
    assert_eq!(f32_from_f64(d(3.4028235e38)).unwrap(), s(f32::MAX));
    assert_eq!(f32_from_f64(d(-3.4028235e38)).unwrap(), s(f32::MIN));
    assert_eq!(message(f32_from_f64(d(3.5e38))), "float out of range");
    assert_eq!(message(f32_from_f64(d(-3.5e38))), "float out of range");
    assert_eq!(f32_from_f64(d(0.1)).unwrap(), s(0.1));
    assert_eq!(f32_from_f64(d(f64::INFINITY)).unwrap(), s(f32::INFINITY));
    assert_eq!(f32_from_f64(d(f64::NEG_INFINITY)).unwrap(), s(f32::NEG_INFINITY));
    assert!(f32_from_f64(d(f64::NAN)).unwrap().is_nan());
    let json = Json::Double(d(3.4028235e38));
    assert_eq!(Float32::deserialize_canonical(&json).unwrap(), s(f32::MAX));
    let json = Json::Double(d(3.5e38));
    assert_eq!(message(Float32::deserialize_canonical(&json)), "float out of range");
}

#[test]
fn floats_are_written_as_numbers_or_special_strings() {
    assert_eq!(serialize_float64(d(1.5)), Json::Double(d(1.5)));
    assert_eq!(serialize_float64(d(f64::NAN)), Json::string("NaN"));
    assert_eq!(serialize_float64(d(f64::INFINITY)), Json::string("Infinity"));
    assert_eq!(serialize_float64(d(f64::NEG_INFINITY)), Json::string("-Infinity"));
    assert_eq!(serialize_float32(s(1.5)), Json::Single(s(1.5)));
    assert_eq!(serialize_float32(s(f32::NAN)), Json::string("NaN"));
    assert_eq!(serialize_float32(s(f32::INFINITY)), Json::string("Infinity"));
    assert_eq!(serialize_float32(s(f32::NEG_INFINITY)), Json::string("-Infinity"));
}

#[test]
fn number_format_tolerance_for_integer_fields() {
    let forms = [
        Json::Uint(42),
        Json::Int(42),
        Json::Str("42".to_string(), reading("42")),
        Json::Double(d(42.0)),
        Json::Str("4.2e1".to_string(), reading("4.2e1")),
        Json::Single(s(42.0)),
    ];
    for form in &forms {
        assert_eq!(i32::deserialize_canonical(form).unwrap(), 42);
        assert_eq!(u32::deserialize_canonical(form).unwrap(), 42);
        assert_eq!(i64::deserialize_canonical(form).unwrap(), 42);
        assert_eq!(u64::deserialize_canonical(form).unwrap(), 42);
    }
    assert_eq!(message(i32::deserialize_canonical(&Json::Int(2147483648))), "i32 out of range");
    assert_eq!(message(i32::deserialize_canonical(&Json::Uint(2147483648))), "i32 out of range");
    assert_eq!(message(u32::deserialize_canonical(&Json::Int(-1))), "u32 out of range");
    assert_eq!(message(u32::deserialize_canonical(&Json::Uint(4294967296))), "u32 out of range");
    assert_eq!(
        message(i32::deserialize_canonical(&Json::Bool(true))),
        "invalid type, expected i32 or string"
    );
    assert_eq!(
        message(u32::deserialize_canonical(&Json::Null)),
        "invalid type, expected u32 or string"
    );
    assert_eq!(
        message(i64::deserialize_canonical(&Json::Array(vec![]))),
        "invalid type, expected i64 or string"
    );
    assert_eq!(
        message(u64::deserialize_canonical(&Json::Object(vec![]))),
        "invalid type, expected u64 or string"
    );
}

#[test]
fn int64_at_and_beyond_two_to_the_53() {
    let at = 9007199254740992i64;
    let beyond = 9007199254740993i64;
    assert_eq!(i64::deserialize_canonical(&Json::string("9007199254740992")).unwrap(), at);
    assert_eq!(i64::deserialize_canonical(&Json::string("9007199254740993")).unwrap(), beyond);
    assert_eq!(i64::deserialize_canonical(&Json::Uint(9007199254740992)).unwrap(), at);
    assert_eq!(i64::deserialize_canonical(&Json::Int(-9007199254740992)).unwrap(), -at);
    assert_eq!(message(i64::deserialize_canonical(&Json::Uint(9007199254740993))), "i64 out of range");
    assert_eq!(message(i64::deserialize_canonical(&Json::Int(-9007199254740993))), "i64 out of range");
    assert_eq!(u64::deserialize_canonical(&Json::Uint(18014398509481984)).unwrap(), 18014398509481984);
    assert_eq!(message(u64::deserialize_canonical(&Json::Uint(18014398509481985))), "u64 out of range");
    assert_eq!(message(u64::deserialize_canonical(&Json::Int(-1))), "u64 out of range");
    assert_eq!(u64::deserialize_canonical(&Json::string("18446744073709551615")).unwrap(), u64::MAX);
}

#[test]
fn scalars_are_written_in_their_canonical_form() {
    assert_eq!(true.serialize_canonical().unwrap(), Json::Bool(true));
    assert_eq!(7i32.serialize_canonical().unwrap(), Json::Int(7));
    assert_eq!(7u32.serialize_canonical().unwrap(), Json::Uint(7));
    assert_eq!(42i64.serialize_canonical().unwrap(), Json::string("42"));
    assert_eq!(i64::MIN.serialize_canonical().unwrap(), Json::string("-9223372036854775808"));
    assert_eq!(u64::MAX.serialize_canonical().unwrap(), Json::string("18446744073709551615"));
    assert_eq!(0u64.serialize_canonical().unwrap(), Json::string("0"));
    assert_eq!("hi".to_string().serialize_canonical().unwrap(), Json::string("hi"));
    assert_eq!(vec![0u8, 1, 255].serialize_canonical().unwrap(), Json::string("AAH/"));
    assert_eq!(vec![0u8, 1, 2, 255].serialize_canonical().unwrap(), Json::string("AAEC/w=="));
    assert_eq!(Vec::<u8>::new().serialize_canonical().unwrap(), Json::string(""));
}

#[test]
fn scalars_are_read_from_their_canonical_form() {
    assert!(bool::deserialize_canonical(&Json::Bool(true)).unwrap());
    assert_eq!(
        message(bool::deserialize_canonical(&Json::string("true"))),
        "invalid type, expected a boolean"
    );
    assert_eq!(String::deserialize_canonical(&Json::string("hi")).unwrap(), "hi");
    assert_eq!(
        message(String::deserialize_canonical(&Json::Uint(1))),
        "invalid type, expected a string"
    );
    assert_eq!(Vec::<u8>::deserialize_canonical(&Json::string("AAH/")).unwrap(), vec![0u8, 1, 255]);
    assert_eq!(Vec::<u8>::deserialize_canonical(&Json::string("AAEC/w==")).unwrap(), vec![0u8, 1, 2, 255]);
    assert_eq!(message(Vec::<u8>::deserialize_canonical(&Json::string("AAEC/w"))), "invalid base64");
    assert_eq!(message(Vec::<u8>::deserialize_canonical(&Json::string("AAH_"))), "invalid base64");
    assert_eq!(message(Vec::<u8>::deserialize_canonical(&Json::string("AAB="))), "invalid base64");
    assert_eq!(
        message(Vec::<u8>::deserialize_canonical(&Json::Null)),
        "invalid type, expected a string"
    );
    assert_eq!(Float64::deserialize_canonical(&Json::Double(d(1.5))).unwrap(), d(1.5));
    assert_eq!(Float64::deserialize_canonical(&Json::Int(-3)).unwrap(), d(-3.0));
    assert_eq!(Float64::deserialize_canonical(&Json::Uint(3)).unwrap(), d(3.0));
    assert_eq!(Float64::deserialize_canonical(&Json::Single(s(0.5))).unwrap(), d(0.5));
    assert_eq!(
        Float64::deserialize_canonical(&Json::Str("2.5".to_string(), reading("2.5"))).unwrap(),
        d(2.5)
    );
    assert!(Float64::deserialize_canonical(&Json::string("NaN")).unwrap().is_nan());
    assert_eq!(
        message(Float64::deserialize_canonical(&Json::Double(d(f64::INFINITY)))),
        "float must be finite"
    );
    assert_eq!(
        message(Float64::deserialize_canonical(&Json::Uint(18014398509481985))),
        "integer out of range for f64"
    );
    assert_eq!(
        message(Float64::deserialize_canonical(&Json::Bool(false))),
        "invalid type, expected f64 or string"
    );
    assert_eq!(Float32::deserialize_canonical(&Json::Int(-3)).unwrap(), s(-3.0));
    assert_eq!(Float32::deserialize_canonical(&Json::Single(s(0.1))).unwrap(), s(0.1));
    assert_eq!(Float32::deserialize_canonical(&Json::string("-Infinity")).unwrap(), s(f32::NEG_INFINITY));
    assert_eq!(
        message(Float32::deserialize_canonical(&Json::Uint(16777217))),
        "integer out of range for f32"
    );
    assert_eq!(
        message(Float32::deserialize_canonical(&Json::Single(s(f32::INFINITY)))),
        "float must be finite"
    );
    assert_eq!(
        message(Float32::deserialize_canonical(&Json::Null)),
        "invalid type, expected f32 or string"
    );
}
