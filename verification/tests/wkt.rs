use prost_canonical_serde::duration::{format_duration, parse_duration_string, Duration};
use prost_canonical_serde::field_mask::{lower_camel_to_snake, snake_to_lower_camel, FieldMask};
use prost_canonical_serde::float::Float64;
use prost_canonical_serde::text::{chars_of, join_chars, split_chars};
use prost_canonical_serde::timestamp::{
    format_civil, format_timestamp, parse_timestamp_string, timestamp_from_instant,
    validate_timestamp_format, Timestamp,
};
use prost_canonical_serde::value::{Any, Kind, ListValue, Struct, Value};
use prost_canonical_serde::{CanonicalDeserialize, CanonicalError, CanonicalSerialize, Json};

fn message<T>(r: Result<T, CanonicalError>) -> String {
    match r {
        Ok(_) => panic!("expected an error"),
        Err(e) => e.to_string(),
    }
}

fn ts(seconds: i64, nanos: i32) -> Timestamp {
    Timestamp { seconds, nanos }
}

fn dur(seconds: i64, nanos: i32) -> Duration {
    Duration { seconds, nanos }
}

fn number(v: f64) -> Value {
    Value { kind: Some(Kind::NumberValue(Float64 { bits: v.to_bits() })) }
}

fn text(v: &str) -> Value {
    Value { kind: Some(Kind::StringValue(v.to_string())) }
}

fn null() -> Value {
    Value { kind: Some(Kind::NullValue(0)) }
}

#[test]
fn error_carries_its_message() {
    let e = CanonicalError::new("boom");
    assert_eq!(e.message(), "boom");
    assert_eq!(e.to_string(), "boom");
    assert_eq!(e.clone().message(), "boom");
}

#[test]
fn timestamp_scenario() {
    let value = ts(1_640_995_200, 123_000_000);
    assert_eq!(format_timestamp(&value).unwrap(), "2022-01-01T00:00:00.123Z");
    assert_eq!(parse_timestamp_string("2022-01-01T00:00:00.123Z").unwrap(), value);
    assert_eq!(value.serialize_canonical().unwrap(), Json::string("2022-01-01T00:00:00.123Z"));
    assert_eq!(
        Timestamp::deserialize_canonical(&Json::string("2022-01-01T00:00:00.123Z")).unwrap(),
        value
    );
}

#[test]
fn timestamps_at_the_ends_of_the_range() {
    assert_eq!(format_timestamp(&ts(-62_135_596_800, 0)).unwrap(), "0001-01-01T00:00:00Z");
    assert_eq!(
        format_timestamp(&ts(253_402_300_799, 999_999_999)).unwrap(),
        "9999-12-31T23:59:59.999999999Z"
    );
    assert_eq!(parse_timestamp_string("0001-01-01T00:00:00Z").unwrap(), ts(-62_135_596_800, 0));
    assert_eq!(
        parse_timestamp_string("9999-12-31T23:59:59.999999999Z").unwrap(),
        ts(253_402_300_799, 999_999_999)
    );
    assert_eq!(message(format_timestamp(&ts(-62_135_596_801, 0))), "timestamp seconds out of range");
    assert_eq!(message(format_timestamp(&ts(253_402_300_800, 0))), "timestamp seconds out of range");
    assert_eq!(message(format_timestamp(&ts(0, -1))), "timestamp nanos out of range");
    assert_eq!(message(format_timestamp(&ts(0, 1_000_000_000))), "timestamp nanos out of range");
    assert_eq!(
        message(parse_timestamp_string("0000-12-31T23:59:59Z")),
        "timestamp seconds out of range"
    );
    assert_eq!(
        message(parse_timestamp_string("9999-12-31T23:59:59-01:00")),
        "timestamp seconds out of range"
    );
}

#[test]
fn timestamp_fraction_has_three_six_or_nine_digits() {
    assert_eq!(format_timestamp(&ts(0, 0)).unwrap(), "1970-01-01T00:00:00Z");
    assert_eq!(format_timestamp(&ts(0, 100_000_000)).unwrap(), "1970-01-01T00:00:00.100Z");
    assert_eq!(format_timestamp(&ts(0, 1_000)).unwrap(), "1970-01-01T00:00:00.000001Z");
    assert_eq!(format_timestamp(&ts(0, 123_456_000)).unwrap(), "1970-01-01T00:00:00.123456Z");
    assert_eq!(format_timestamp(&ts(0, 1)).unwrap(), "1970-01-01T00:00:00.000000001Z");
    assert_eq!(format_timestamp(&ts(1_136_214_245, 123_456_000)).unwrap(), "2006-01-02T15:04:05.123456Z");
}

#[test]
fn timestamp_text_with_lower_case_letters_is_rejected() {
    assert_eq!(message(parse_timestamp_string("2022-01-01t00:00:00Z")), "timestamp must use 'T'");
    assert_eq!(message(parse_timestamp_string("2022-01-01 00:00:00Z")), "timestamp must include 'T'");
    assert_eq!(message(parse_timestamp_string("2022-01-01T00:00:00z")), "timestamp must use 'Z'");
    assert_eq!(message(validate_timestamp_format("t")), "timestamp must use 'T'");
    assert_eq!(message(validate_timestamp_format("")), "timestamp must include 'T'");
    assert_eq!(message(validate_timestamp_format("Tz")), "timestamp must use 'Z'");
    assert!(validate_timestamp_format("T").is_ok());
}

#[test]
fn timestamp_text_is_read_by_the_calendar() {
    assert_eq!(parse_timestamp_string("1970-01-01T00:00:00Z").unwrap(), ts(0, 0));
    assert_eq!(parse_timestamp_string("1970-01-01T01:00:00+01:00").unwrap(), ts(0, 0));
    assert_eq!(parse_timestamp_string("1970-01-01T00:00:01.5Z").unwrap(), ts(1, 500_000_000));
    assert_eq!(parse_timestamp_string("1969-12-31T23:59:59.25Z").unwrap(), ts(-1, 250_000_000));
    assert_eq!(message(parse_timestamp_string("1970-01-01T00:00:00")), "invalid timestamp");
    assert_eq!(message(parse_timestamp_string("1970-13-01T00:00:00Z")), "invalid timestamp");
    assert_eq!(message(parse_timestamp_string("Tuesday")), "invalid timestamp");
    assert_eq!(
        message(parse_timestamp_string("2016-12-31T23:59:60Z")),
        "timestamp nanos out of range"
    );
    assert_eq!(
        message(Timestamp::deserialize_canonical(&Json::Uint(0))),
        "invalid type, expected a string"
    );
}

#[test]
fn civil_fields_and_instants_are_checked() {
    assert_eq!(
        format_civil(Some((2022, 1, 1, 0, 0, 0)), 123_000_000).unwrap(),
        "2022-01-01T00:00:00.123Z"
    );
    assert_eq!(format_civil(Some((7, 2, 3, 4, 5, 6)), 0).unwrap(), "0007-02-03T04:05:06Z");
    assert_eq!(message(format_civil(None, 0)), "timestamp out of range");
    assert_eq!(message(format_civil(Some((10000, 1, 1, 0, 0, 0)), 0)), "timestamp out of range");
    assert_eq!(message(format_civil(Some((-1, 1, 1, 0, 0, 0)), 0)), "timestamp out of range");
    assert_eq!(message(format_civil(Some((2000, 13, 1, 0, 0, 0)), 0)), "timestamp out of range");
    assert_eq!(message(format_civil(Some((2000, 1, 1, 24, 0, 0)), 0)), "timestamp out of range");
    assert_eq!(timestamp_from_instant(Some((5, 6))).unwrap(), ts(5, 6));
    assert_eq!(message(timestamp_from_instant(None)), "invalid timestamp");
    assert_eq!(
        message(timestamp_from_instant(Some((253_402_300_800, 0)))),
        "timestamp seconds out of range"
    );
    assert_eq!(
        message(timestamp_from_instant(Some((0, 1_000_000_000)))),
        "timestamp nanos out of range"
    );
}

#[test]
fn duration_scenario() {
    let value = dur(-1, -500_000_000);
    assert_eq!(format_duration(&value).unwrap(), "-1.500s");
    assert_eq!(parse_duration_string("-1.5s").unwrap(), value);
    assert_eq!(parse_duration_string("-1.500s").unwrap(), value);
    assert_eq!(value.serialize_canonical().unwrap(), Json::string("-1.500s"));
    assert_eq!(Duration::deserialize_canonical(&Json::string("-1.5s")).unwrap(), value);
}

#[test]
fn durations_at_the_boundaries() {
    assert_eq!(format_duration(&dur(0, 0)).unwrap(), "0s");
    assert_eq!(parse_duration_string("0s").unwrap(), dur(0, 0));
    assert_eq!(parse_duration_string("315576000000s").unwrap(), dur(315_576_000_000, 0));
    assert_eq!(parse_duration_string("-315576000000s").unwrap(), dur(-315_576_000_000, 0));
    assert_eq!(format_duration(&dur(315_576_000_000, 0)).unwrap(), "315576000000s");
    assert_eq!(
        format_duration(&dur(-315_576_000_000, -999_999_999)).unwrap(),
        "-315576000000.999999999s"
    );
    assert_eq!(message(parse_duration_string("315576000001s")), "duration seconds out of range");
    assert_eq!(message(parse_duration_string("1.5")), "duration must end with 's'");
    assert_eq!(message(parse_duration_string("")), "duration must end with 's'");
    assert_eq!(message(parse_duration_string("s")), "duration is empty");
    assert_eq!(message(parse_duration_string("1.s")), "invalid duration fractional");
    assert_eq!(message(parse_duration_string("1.0000000001s")), "invalid duration fractional");
    assert_eq!(message(parse_duration_string("1.5xs")), "invalid duration nanos");
    assert_eq!(message(parse_duration_string("1.+5s")), "invalid duration nanos");
    assert_eq!(message(parse_duration_string("xs")), "invalid duration seconds");
    assert_eq!(message(parse_duration_string("-s")), "invalid duration seconds");
    assert_eq!(message(parse_duration_string(".5s")), "invalid duration seconds");
    assert_eq!(
        message(parse_duration_string("--5.5s")),
        "duration seconds and nanos must have same sign"
    );
    assert_eq!(
        message(parse_duration_string("--9223372036854775808s")),
        "duration seconds out of range"
    );
    assert_eq!(
        message(Duration::deserialize_canonical(&Json::Null)),
        "invalid type, expected a string"
    );
}

#[test]
fn duration_fraction_has_three_six_or_nine_digits() {
    assert_eq!(format_duration(&dur(1, 500_000_000)).unwrap(), "1.500s");
    assert_eq!(format_duration(&dur(0, 1_000)).unwrap(), "0.000001s");
    assert_eq!(format_duration(&dur(0, -1)).unwrap(), "-0.000000001s");
    assert_eq!(format_duration(&dur(3, 0)).unwrap(), "3s");
    assert_eq!(parse_duration_string("1.000000001s").unwrap(), dur(1, 1));
    assert_eq!(parse_duration_string("-0.5s").unwrap(), dur(0, -500_000_000));
    assert_eq!(parse_duration_string("1.25s").unwrap(), dur(1, 250_000_000));
    assert_eq!(parse_duration_string("+2s").unwrap(), dur(2, 0));
}

#[test]
fn invalid_durations_are_not_written() {
    assert_eq!(message(format_duration(&dur(315_576_000_001, 0))), "duration seconds out of range");
    assert_eq!(message(format_duration(&dur(-315_576_000_001, 0))), "duration seconds out of range");
    assert_eq!(message(format_duration(&dur(0, 1_000_000_000))), "duration nanos out of range");
    assert_eq!(message(format_duration(&dur(0, -1_000_000_000))), "duration nanos out of range");
    assert_eq!(
        message(format_duration(&dur(1, -1))),
        "duration seconds and nanos must have same sign"
    );
    assert_eq!(
        message(format_duration(&dur(-1, 1))),
        "duration seconds and nanos must have same sign"
    );
}

#[test]
fn names_change_case() {
    assert_eq!(snake_to_lower_camel("foo_bar"), "fooBar");
    assert_eq!(snake_to_lower_camel("foo_bar_baz"), "fooBarBaz");
    assert_eq!(snake_to_lower_camel("Foo"), "foo");
    assert_eq!(snake_to_lower_camel("foo__bar"), "fooBar");
    assert_eq!(snake_to_lower_camel("_foo"), "Foo");
    assert_eq!(snake_to_lower_camel("foo_"), "foo");
    assert_eq!(snake_to_lower_camel("fooBar_baz"), "fooBarBaz");
    assert_eq!(snake_to_lower_camel(""), "");
    assert_eq!(snake_to_lower_camel("a_1b"), "a1b");
    assert_eq!(lower_camel_to_snake("fooBar"), "foo_bar");
    assert_eq!(lower_camel_to_snake("fooBarBaz"), "foo_bar_baz");
    assert_eq!(lower_camel_to_snake("Foo"), "foo");
    assert_eq!(lower_camel_to_snake("fooB"), "foo_b");
    assert_eq!(lower_camel_to_snake(""), "");
    assert_eq!(lower_camel_to_snake("é"), "é");
}

#[test]
fn text_splits_and_joins() {
    let parts = split_chars(&chars_of("a.b..c"), '.');
    let texts: Vec<String> = parts.iter().map(|p| p.iter().collect()).collect();
    assert_eq!(texts, vec!["a", "b", "", "c"]);
    assert_eq!(split_chars(&chars_of(""), '.'), vec![Vec::<char>::new()]);
    assert_eq!(join_chars(&parts, ','), chars_of("a,b,,c"));
    assert_eq!(join_chars(&Vec::new(), ','), Vec::<char>::new());
}

#[test]
fn field_mask_segments() {
    let mask = FieldMask { paths: vec!["foo_bar".to_string()] };
    assert_eq!(mask.serialize_canonical().unwrap(), Json::string("fooBar"));
    let mask = FieldMask { paths: vec!["fooBar_baz".to_string()] };
    assert_eq!(message(mask.serialize_canonical()), "field mask segment does not round trip");
    let mask = FieldMask { paths: vec!["foo_bar.baz_qux".to_string(), "a".to_string()] };
    assert_eq!(mask.serialize_canonical().unwrap(), Json::string("fooBar.bazQux,a"));
    assert_eq!(FieldMask::deserialize_canonical(&Json::string("fooBar.bazQux,a")).unwrap(), mask);
    let empty = FieldMask { paths: vec![] };
    assert_eq!(empty.serialize_canonical().unwrap(), Json::string(""));
    assert_eq!(FieldMask::deserialize_canonical(&Json::string("")).unwrap(), empty);
}

#[test]
fn field_mask_errors() {
    let mask = FieldMask { paths: vec!["".to_string()] };
    assert_eq!(message(mask.serialize_canonical()), "field mask path is empty");
    let mask = FieldMask { paths: vec!["a..b".to_string()] };
    assert_eq!(message(mask.serialize_canonical()), "field mask segment is empty");
    let mask = FieldMask { paths: vec!["a".to_string(), "B".to_string()] };
    assert_eq!(message(mask.serialize_canonical()), "field mask segment does not round trip");
    assert_eq!(message(FieldMask::deserialize_canonical(&Json::string("a,,b"))), "field mask path is empty");
    assert_eq!(message(FieldMask::deserialize_canonical(&Json::string("a,"))), "field mask path is empty");
    assert_eq!(message(FieldMask::deserialize_canonical(&Json::string("a.b."))), "field mask segment is empty");
    assert_eq!(
        message(FieldMask::deserialize_canonical(&Json::string("foo_bar"))),
        "field mask contains underscore"
    );
    assert_eq!(
        message(FieldMask::deserialize_canonical(&Json::Null)),
        "invalid type, expected a string"
    );
}

#[test]
fn struct_scenario() {
    let json = Json::Object(vec![
        ("a".to_string(), Json::Uint(1)),
        ("b".to_string(), Json::Array(vec![Json::Null, Json::string("x")])),
    ]);
    let value = Struct::deserialize_canonical(&json).unwrap();
    let expected = Struct {
        fields: vec![
            ("a".to_string(), number(1.0)),
            (
                "b".to_string(),
                Value {
                    kind: Some(Kind::ListValue(ListValue { values: vec![null(), text("x")] })),
                },
            ),
        ],
    };
    assert_eq!(value, expected);
    let written = value.serialize_canonical().unwrap();
    let again = Json::Object(vec![
        ("a".to_string(), Json::Double(Float64 { bits: 1.0f64.to_bits() })),
        ("b".to_string(), Json::Array(vec![Json::Null, Json::string("x")])),
    ]);
    assert_eq!(written, again);
    assert_eq!(Struct::deserialize_canonical(&written).unwrap(), expected);
}

#[test]
fn values_hold_any_json() {
    assert_eq!(Value::deserialize_canonical(&Json::Null).unwrap(), null());
    assert_eq!(
        Value::deserialize_canonical(&Json::Bool(true)).unwrap(),
        Value { kind: Some(Kind::BoolValue(true)) }
    );
    assert_eq!(Value::deserialize_canonical(&Json::Int(-2)).unwrap(), number(-2.0));
    assert_eq!(Value::deserialize_canonical(&Json::Uint(2)).unwrap(), number(2.0));
    assert_eq!(
        Value::deserialize_canonical(&Json::Double(Float64 { bits: 0.5f64.to_bits() })).unwrap(),
        number(0.5)
    );
    assert_eq!(Value::deserialize_canonical(&Json::string("s")).unwrap(), text("s"));
    assert_eq!(
        message(Value::deserialize_canonical(&Json::Uint(18014398509481985))),
        "integer out of range for f64"
    );
    assert_eq!(
        message(Value::deserialize_canonical(&Json::Array(vec![Json::Int(i64::MIN)]))),
        "integer out of range for f64"
    );
    assert_eq!(null().serialize_canonical().unwrap(), Json::Null);
    assert_eq!(text("s").serialize_canonical().unwrap(), Json::string("s"));
    assert_eq!(message(Value { kind: None }.serialize_canonical()), "Value.kind is missing");
    assert_eq!(
        message(number(f64::NAN).serialize_canonical()),
        "Value.number_value must be finite"
    );
    assert_eq!(
        message(number(f64::INFINITY).serialize_canonical()),
        "Value.number_value must be finite"
    );
    let list = ListValue { values: vec![number(1.0), Value { kind: None }] };
    assert_eq!(message(list.serialize_canonical()), "Value.kind is missing");
}

#[test]
fn a_key_that_comes_again_replaces_the_value() {
    let json = Json::Object(vec![
        ("a".to_string(), Json::Uint(1)),
        ("b".to_string(), Json::Uint(2)),
        ("a".to_string(), Json::Uint(3)),
    ]);
    let value = Struct::deserialize_canonical(&json).unwrap();
    assert_eq!(
        value,
        Struct { fields: vec![("a".to_string(), number(3.0)), ("b".to_string(), number(2.0))] }
    );
}

#[test]
fn lists_and_structs_check_the_json_type() {
    assert_eq!(ListValue::deserialize_canonical(&Json::Null).unwrap(), ListValue { values: vec![] });
    assert_eq!(
        ListValue::deserialize_canonical(&Json::Array(vec![Json::Null])).unwrap(),
        ListValue { values: vec![null()] }
    );
    assert_eq!(
        message(ListValue::deserialize_canonical(&Json::Object(vec![]))),
        "invalid type, expected an array"
    );
    assert_eq!(
        message(Struct::deserialize_canonical(&Json::Array(vec![]))),
        "invalid type, expected an object"
    );
}

#[test]
fn any_is_unsupported() {
    let any = Any { type_url: "type.googleapis.com/x".to_string(), value: vec![1] };
    assert_eq!(message(any.serialize_canonical()), "unsupported Any type");
    assert_eq!(message(Any::deserialize_canonical(&Json::Object(vec![]))), "unsupported Any type");
}
