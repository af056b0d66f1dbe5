use chrono::{TimeZone, Timelike, Utc};
use prost_canonical_serde::decode::{make_default_message, decode_element};
use prost_canonical_serde::encode::encode_element;
use prost_canonical_serde::float::{Float32, Float64};
use prost_canonical_serde::message::{Element, FieldValue, MapKey, Message};
use prost_canonical_serde::oneof::{deserialize_oneof, serialize_oneof, try_deserialize};
use prost_canonical_serde::schema::{
    lower_camel, to_json_name, EnumDescriptor, EnumVariant, FieldDescriptor, KeyKind, Kind,
    MessageDescriptor, Named, OneofMember, Schema, Shape, Slot,
};
use prost_canonical_serde::timestamp::Timestamp;
use prost_canonical_serde::value::Value;
use prost_canonical_serde::{decode_message, encode_message, CanonicalError, Json, OneofMatch};

fn to_value(json: &Json) -> serde_json::Value {
    match json {
        Json::Null => serde_json::Value::Null,
        Json::Bool(b) => serde_json::Value::Bool(*b),
        Json::Int(v) => serde_json::Value::Number(serde_json::Number::from(*v)),
        Json::Uint(v) => serde_json::Value::Number(serde_json::Number::from(*v)),
        Json::Double(f) => serde_json::Value::Number(
            serde_json::Number::from_f64(f64::from_bits(f.bits)).expect("finite"),
        ),
        Json::Single(f) => serde_json::Value::Number(
            serde_json::Number::from_f64(f32::from_bits(f.bits) as f64).expect("finite"),
        ),
        Json::Str(text, _) => serde_json::Value::String(text.clone()),
        Json::Array(items) => serde_json::Value::Array(items.iter().map(to_value).collect()),
        Json::Object(members) => {
            let mut map = serde_json::Map::new();
            for (key, value) in members {
                map.insert(key.clone(), to_value(value));
            }
            serde_json::Value::Object(map)
        }
    }
}

fn from_value(value: &serde_json::Value) -> Json {
    match value {
        serde_json::Value::Null => Json::Null,
        serde_json::Value::Bool(b) => Json::Bool(*b),
        serde_json::Value::Number(n) => {
            if let Some(v) = n.as_u64() {
                Json::Uint(v)
            } else if let Some(v) = n.as_i64() {
                Json::Int(v)
            } else {
                Json::Double(Float64 { bits: n.as_f64().expect("a number").to_bits() })
            }
        }
        serde_json::Value::String(text) => {
            let reading = text.parse::<f64>().ok().map(|v| Float64 { bits: v.to_bits() });
            Json::Str(text.clone(), reading)
        }
        serde_json::Value::Array(items) => Json::Array(items.iter().map(from_value).collect()),
        serde_json::Value::Object(map) => {
            Json::Object(map.iter().map(|(k, v)| (k.clone(), from_value(v))).collect())
        }
    }
}

fn parse(text: &str) -> Json {
    from_value(&serde_json::from_str::<serde_json::Value>(text).expect("valid JSON"))
}

fn same_json(json: &Json, text: &str) -> bool {
    to_value(json) == serde_json::from_str::<serde_json::Value>(text).expect("valid JSON")
}

fn failure<T>(r: Result<T, CanonicalError>) -> String {
    match r {
        Ok(_) => panic!("expected an error"),
        Err(e) => e.to_string(),
    }
}

fn field(name: &str, kind: Kind, shape: Shape) -> Slot {
    Slot::Field(FieldDescriptor::new(name, None, kind, shape))
}

fn double(v: f64) -> Float64 {
    Float64 { bits: v.to_bits() }
}

fn single(v: f32) -> Float32 {
    Float32 { bits: v.to_bits() }
}

fn text(v: &str) -> Element {
    Element::String(v.to_string())
}

const NESTED: usize = 0;
const KITCHEN_SINK: usize = 1;
const EXAMPLE: usize = 2;
const SCALARS: usize = 3;
const HOLDER: usize = 4;
const STATUS: usize = 0;
const NULL_VALUE: usize = 1;

fn schema() -> Schema {
    let nested = MessageDescriptor {
        slots: vec![
            field("id", Kind::Int32, Shape::Singular),
            field("note", Kind::String, Shape::Singular),
        ],
    };
    let kitchen_sink = MessageDescriptor {
        slots: vec![
            field("int32_field", Kind::Int32, Shape::Singular),
            field("int64_field", Kind::Int64, Shape::Singular),
            field("uint64_field", Kind::Uint64, Shape::Singular),
            field("bool_field", Kind::Bool, Shape::Singular),
            field("string_field", Kind::String, Shape::Singular),
            field("bytes_field", Kind::Bytes, Shape::Singular),
            field("float_field", Kind::Float, Shape::Singular),
            field("double_field", Kind::Double, Shape::Singular),
            field("status", Kind::Enum(STATUS), Shape::Singular),
            field("nested", Kind::Message(NESTED), Shape::Optional),
            field("repeated_nested", Kind::Message(NESTED), Shape::Repeated),
            field("string_to_int", Kind::Int32, Shape::Keyed(KeyKind::String)),
            field("int_to_string", Kind::String, Shape::Keyed(KeyKind::Int32)),
            Slot::Oneof(vec![
                OneofMember::new("Name", Some("name"), Some("name"), Kind::String),
                OneofMember::new("Value", Some("value"), Some("value"), Kind::Int32),
            ]),
            field("timestamp", Kind::Timestamp, Shape::Optional),
            field("optional_int32", Kind::Int32, Shape::Optional),
        ],
    };
    let example = MessageDescriptor {
        slots: vec![
            field("name", Kind::String, Shape::Singular),
            field("count", Kind::Int64, Shape::Singular),
            field("payload", Kind::Bytes, Shape::Singular),
            field("created_at", Kind::Timestamp, Shape::Optional),
        ],
    };
    let scalars = MessageDescriptor {
        slots: vec![
            field("int32_field", Kind::Int32, Shape::Singular),
            field("int64_field", Kind::Int64, Shape::Singular),
            field("bool_field", Kind::Bool, Shape::Singular),
            field("bytes_field", Kind::Bytes, Shape::Singular),
            field("items", Kind::Int32, Shape::Repeated),
        ],
    };
    let holder = MessageDescriptor {
        slots: vec![
            field("inner", Kind::Message(NESTED), Shape::Singular),
            field("stamp", Kind::Timestamp, Shape::Singular),
            field("null_field", Kind::Enum(NULL_VALUE), Shape::Singular),
            field("maybe_null", Kind::Enum(NULL_VALUE), Shape::Optional),
            field("any_value", Kind::Value, Shape::Optional),
            field("nulls", Kind::Enum(NULL_VALUE), Shape::Repeated),
            field("flags", Kind::Bool, Shape::Keyed(KeyKind::Bool)),
            field("self_held", Kind::Message(HOLDER), Shape::Optional),
        ],
    };
    let status = EnumDescriptor {
        variants: vec![
            EnumVariant { name: "STATUS_UNKNOWN".to_string(), number: 0 },
            EnumVariant { name: "STATUS_ACTIVE".to_string(), number: 1 },
            EnumVariant { name: "STATUS_INACTIVE".to_string(), number: 2 },
        ],
        null_value: false,
    };
    let null_value = EnumDescriptor {
        variants: vec![EnumVariant { name: "NULL_VALUE".to_string(), number: 0 }],
        null_value: true,
    };
    Schema {
        messages: vec![nested, kitchen_sink, example, scalars, holder],
        enums: vec![status, null_value],
    }
}

fn nested(id: i32, note: &str) -> Message {
    Message { fields: vec![FieldValue::Singular(Element::Int32(id)), FieldValue::Singular(text(note))] }
}

fn sample_message() -> Message {
    Message {
        fields: vec![
            FieldValue::Singular(Element::Int32(123)),
            FieldValue::Singular(Element::Int64(9_007_199_254_740_993)),
            FieldValue::Singular(Element::Uint64(u64::MAX)),
            FieldValue::Singular(Element::Bool(true)),
            FieldValue::Singular(text("hello")),
            FieldValue::Singular(Element::Bytes(vec![0, 1, 2, 255])),
            FieldValue::Singular(Element::Float(single(12.5))),
            FieldValue::Singular(Element::Double(double(-3.25))),
            FieldValue::Singular(Element::Enum(1)),
            FieldValue::Optional(Some(Element::Message(nested(42, "primary")))),
            FieldValue::Repeated(vec![
                Element::Message(nested(7, "first")),
                Element::Message(nested(8, "second")),
            ]),
            FieldValue::Keyed(vec![
                (MapKey::String("alpha".to_string()), Element::Int32(1)),
                (MapKey::String("beta".to_string()), Element::Int32(2)),
            ]),
            FieldValue::Keyed(vec![(MapKey::Int32(7), text("seven"))]),
            FieldValue::Oneof(Some((0, text("choice name")))),
            FieldValue::Optional(Some(Element::Timestamp(Timestamp {
                seconds: 1_640_995_200,
                nanos: 123_000_000,
            }))),
            FieldValue::Optional(None),
        ],
    }
}

fn scalars(int32: i32, int64: i64, flag: bool, bytes: Vec<u8>, items: Vec<i32>) -> Message {
    Message {
        fields: vec![
            FieldValue::Singular(Element::Int32(int32)),
            FieldValue::Singular(Element::Int64(int64)),
            FieldValue::Singular(Element::Bool(flag)),
            FieldValue::Singular(Element::Bytes(bytes)),
            FieldValue::Repeated(items.into_iter().map(Element::Int32).collect()),
        ],
    }
}

#[test]
fn kitchen_sink_canonical_json_roundtrip() {
    let schema = schema();
    let message = sample_message();
    let json = encode_message(&schema, KITCHEN_SINK, &message).expect("serialize canonical");
    let text = serde_json::to_string(&to_value(&json)).expect("serialize canonical");
    let decoded = decode_message(&schema, KITCHEN_SINK, &parse(&text)).expect("deserialize canonical");
    assert_eq!(message, decoded);
}

#[test]
fn example_canonical_json_roundtrip() {
    let chrono_dt = Utc
        .with_ymd_and_hms(2006, 1, 2, 15, 4, 5)
        .unwrap()
        .with_nanosecond(123_456_000)
        .unwrap();
    let created_at = Timestamp {
        seconds: chrono_dt.timestamp(),
        nanos: chrono_dt.timestamp_subsec_nanos() as i32,
    };

    let schema = schema();
    let message = Message {
        fields: vec![
            FieldValue::Singular(text("demo")),
            FieldValue::Singular(Element::Int64(42)),
            FieldValue::Singular(Element::Bytes(vec![0, 1, 2, 255])),
            FieldValue::Optional(Some(Element::Timestamp(created_at))),
        ],
    };

    let json = to_value(&encode_message(&schema, EXAMPLE, &message).expect("serialize example"));
    let count = json
        .get("count")
        .expect("count field")
        .as_str()
        .expect("count should be serialized as a string");
    assert_eq!(count, "42");
    let payload = json
        .get("payload")
        .expect("payload field")
        .as_str()
        .expect("payload should be serialized as a string");
    assert_eq!(payload, "AAEC/w==");
    let created_at = json
        .get("createdAt")
        .expect("createdAt field")
        .as_str()
        .expect("createdAt should be serialized as a string");
    assert_eq!(created_at, "2006-01-02T15:04:05.123456Z");

    let roundtrip = decode_message(&schema, EXAMPLE, &from_value(&json)).expect("deserialize example");
    assert_eq!(roundtrip, message);
}

#[test]
fn example_is_written_in_declaration_order() {
    let schema = schema();
    let message = Message {
        fields: vec![
            FieldValue::Singular(text("demo")),
            FieldValue::Singular(Element::Int64(42)),
            FieldValue::Singular(Element::Bytes(vec![0, 1, 2, 255])),
            FieldValue::Optional(Some(Element::Timestamp(Timestamp {
                seconds: 1_136_214_245,
                nanos: 123_456_000,
            }))),
        ],
    };
    let json = encode_message(&schema, EXAMPLE, &message).unwrap();
    let expected = Json::Object(vec![
        ("name".to_string(), Json::string("demo")),
        ("count".to_string(), Json::string("42")),
        ("payload".to_string(), Json::string("AAEC/w==")),
        ("createdAt".to_string(), Json::string("2006-01-02T15:04:05.123456Z")),
    ]);
    assert_eq!(json, expected);
}

#[test]
fn scalar_message_scenario() {
    let schema = schema();
    let message = scalars(7, 42, true, vec![0x00, 0x01, 0xFF], vec![]);
    let json = encode_message(&schema, SCALARS, &message).unwrap();
    let expected = r#"{"int32Field":7,"int64Field":"42","boolField":true,"bytesField":"AAH/"}"#;
    assert!(same_json(&json, expected));
    assert_eq!(decode_message(&schema, SCALARS, &parse(expected)).unwrap(), message);
    assert_eq!(decode_message(&schema, SCALARS, &json).unwrap(), message);
}

#[test]
fn repeated_scenario() {
    let schema = schema();
    let message = scalars(0, 0, false, vec![], vec![1, 2, 3]);
    let json = encode_message(&schema, SCALARS, &message).unwrap();
    assert!(same_json(&json, r#"{"items":[1,2,3]}"#));
    assert_eq!(decode_message(&schema, SCALARS, &json).unwrap(), message);
    let empty = scalars(0, 0, false, vec![], vec![]);
    let json = encode_message(&schema, SCALARS, &empty).unwrap();
    assert_eq!(json, Json::Object(vec![]));
    assert_eq!(decode_message(&schema, SCALARS, &parse(r#"{"items":null}"#)).unwrap(), empty);
    assert_eq!(
        failure(decode_message(&schema, SCALARS, &parse(r#"{"items":3}"#))),
        "invalid type, expected a sequence"
    );
    assert_eq!(
        failure(decode_message(&schema, SCALARS, &parse(r#"{"items":[1,null]}"#))),
        "invalid type, expected i32 or string"
    );
}

#[test]
fn oneof_scenario() {
    let schema = schema();
    let mut message = make_default_message(&schema, KITCHEN_SINK).unwrap();
    message.fields[13] = FieldValue::Oneof(Some((0, text("hi"))));
    let json = encode_message(&schema, KITCHEN_SINK, &message).unwrap();
    assert!(same_json(&json, r#"{"name":"hi"}"#));
    assert_eq!(decode_message(&schema, KITCHEN_SINK, &json).unwrap(), message);
    assert_eq!(
        failure(decode_message(&schema, KITCHEN_SINK, &parse(r#"{"name":"hi","value":7}"#))),
        "multiple oneof fields set"
    );
    assert_eq!(
        failure(decode_message(&schema, KITCHEN_SINK, &parse(r#"{"value":7,"name":"hi"}"#))),
        "multiple oneof fields set"
    );
}

#[test]
fn oneof_members_with_null_or_the_same_name_again() {
    let schema = schema();
    let mut expected = make_default_message(&schema, KITCHEN_SINK).unwrap();
    expected.fields[13] = FieldValue::Oneof(Some((1, Element::Int32(7))));
    let object = Json::Object(vec![
        ("name".to_string(), Json::Null),
        ("value".to_string(), Json::Uint(7)),
    ]);
    assert_eq!(decode_message(&schema, KITCHEN_SINK, &object).unwrap(), expected);
    let object = Json::Object(vec![
        ("value".to_string(), Json::Uint(7)),
        ("name".to_string(), Json::Null),
    ]);
    assert_eq!(decode_message(&schema, KITCHEN_SINK, &object).unwrap(), expected);
    let object = Json::Object(vec![
        ("value".to_string(), Json::Uint(1)),
        ("value".to_string(), Json::Uint(7)),
    ]);
    assert_eq!(decode_message(&schema, KITCHEN_SINK, &object).unwrap(), expected);
    let object = Json::Object(vec![
        ("value".to_string(), Json::Bool(true)),
        ("name".to_string(), Json::string("x")),
    ]);
    assert_eq!(
        failure(decode_message(&schema, KITCHEN_SINK, &object)),
        "invalid type, expected i32 or string"
    );
}

#[test]
fn default_message_is_written_as_the_empty_object() {
    let schema = schema();
    for index in [NESTED, KITCHEN_SINK, EXAMPLE, SCALARS] {
        let message = make_default_message(&schema, index).unwrap();
        assert_eq!(encode_message(&schema, index, &message).unwrap(), Json::Object(vec![]));
        assert_eq!(decode_message(&schema, index, &Json::Object(vec![])).unwrap(), message);
    }
    let mut message = make_default_message(&schema, KITCHEN_SINK).unwrap();
    message.fields[6] = FieldValue::Singular(Element::Float(single(-0.0)));
    message.fields[7] = FieldValue::Singular(Element::Double(double(-0.0)));
    assert_eq!(encode_message(&schema, KITCHEN_SINK, &message).unwrap(), Json::Object(vec![]));
    message.fields[15] = FieldValue::Optional(Some(Element::Int32(0)));
    let json = encode_message(&schema, KITCHEN_SINK, &message).unwrap();
    assert!(same_json(&json, r#"{"optionalInt32":0}"#));
}

#[test]
fn either_name_is_taken_on_input() {
    let schema = schema();
    let by_json = parse(r#"{"int32Field":7,"int64Field":"42","boolField":true,"bytesField":"AAH/","items":[5]}"#);
    let by_proto = parse(r#"{"int32_field":7,"int64_field":"42","bool_field":true,"bytes_field":"AAH/","items":[5]}"#);
    let expected = scalars(7, 42, true, vec![0, 1, 255], vec![5]);
    assert_eq!(decode_message(&schema, SCALARS, &by_json).unwrap(), expected);
    assert_eq!(decode_message(&schema, SCALARS, &by_proto).unwrap(), expected);
    let desc = &schema.messages[SCALARS];
    assert_eq!(desc.find("int32Field"), Named::Field(0));
    assert_eq!(desc.find("int32_field"), Named::Field(0));
    assert_eq!(desc.find("items"), Named::Field(4));
    assert_eq!(desc.find("Int32Field"), Named::Nothing);
    let desc = &schema.messages[KITCHEN_SINK];
    assert_eq!(desc.find("value"), Named::Member(13, 1));
    assert_eq!(desc.find("createdAt"), Named::Nothing);
}

#[test]
fn unknown_fields_are_ignored() {
    let schema = schema();
    let expected = scalars(7, 0, false, vec![], vec![]);
    for text in [
        r#"{"int32Field":7}"#,
        r#"{"mystery":{"deep":[1,2,{"x":null}]},"int32Field":7}"#,
        r#"{"int32Field":7,"mystery":"AAH/"}"#,
        r#"{"a":1,"int32Field":7,"b":2}"#,
    ] {
        assert_eq!(decode_message(&schema, SCALARS, &parse(text)).unwrap(), expected, "{text}");
    }
}

#[test]
fn null_leaves_or_empties_a_place() {
    let schema = schema();
    let text = r#"{"int32Field":7,"int32_field":null,"items":[1],"bytesField":null}"#;
    assert_eq!(
        decode_message(&schema, SCALARS, &parse(text)).unwrap(),
        scalars(7, 0, false, vec![], vec![1])
    );
    let object = Json::Object(vec![
        ("optionalInt32".to_string(), Json::Uint(3)),
        ("optional_int32".to_string(), Json::Null),
        ("nested".to_string(), parse(r#"{"id":1}"#)),
        ("nested".to_string(), Json::Null),
    ]);
    assert_eq!(
        decode_message(&schema, KITCHEN_SINK, &object).unwrap(),
        make_default_message(&schema, KITCHEN_SINK).unwrap()
    );
}

#[test]
fn a_member_that_comes_again_replaces_what_came_before() {
    let schema = schema();
    let object = Json::Object(vec![
        ("items".to_string(), parse("[1,2]")),
        ("int32Field".to_string(), Json::Uint(1)),
        ("items".to_string(), parse("[3]")),
        ("int32_field".to_string(), Json::Uint(2)),
    ]);
    assert_eq!(
        decode_message(&schema, SCALARS, &object).unwrap(),
        scalars(2, 0, false, vec![], vec![3])
    );
}

#[test]
fn enum_fields_are_open() {
    let schema = schema();
    let read = |text: &str| {
        decode_message(&schema, KITCHEN_SINK, &parse(text)).map(|m| match &m.fields[8] {
            FieldValue::Singular(Element::Enum(v)) => *v,
            other => panic!("unexpected {other:?}"),
        })
    };
    assert_eq!(read(r#"{"status":"STATUS_ACTIVE"}"#).unwrap(), 1);
    assert_eq!(read(r#"{"status":2}"#).unwrap(), 2);
    assert_eq!(read(r#"{"status":99}"#).unwrap(), 99);
    assert_eq!(read(r#"{"status":"1"}"#).unwrap(), 1);
    assert_eq!(failure(read(r#"{"status":"STATUS_NOPE"}"#)), "invalid enum string");
    assert_eq!(failure(read(r#"{"status":1.5}"#)), "invalid type, expected enum string or number");
    let mut message = make_default_message(&schema, KITCHEN_SINK).unwrap();
    message.fields[8] = FieldValue::Singular(Element::Enum(99));
    let json = encode_message(&schema, KITCHEN_SINK, &message).unwrap();
    assert!(same_json(&json, r#"{"status":99}"#));
    message.fields[8] = FieldValue::Singular(Element::Enum(2));
    let json = encode_message(&schema, KITCHEN_SINK, &message).unwrap();
    assert!(same_json(&json, r#"{"status":"STATUS_INACTIVE"}"#));
    let status = &schema.enums[STATUS];
    assert_eq!(status.from_i32(2), Some(2));
    assert_eq!(status.from_i32(3), None);
    assert_eq!(status.from_str_name("STATUS_ACTIVE"), Some(1));
    assert_eq!(status.from_str_name("status_active"), None);
    assert_eq!(status.to_json(1), Json::string("STATUS_ACTIVE"));
    assert_eq!(status.from_json(&Json::string("STATUS_INACTIVE")).unwrap(), 2);
}

#[test]
fn null_value_fields() {
    let schema = schema();
    let expected = make_default_message(&schema, HOLDER).unwrap();
    for text in [
        r#"{"nullField":null}"#,
        r#"{"nullField":"NULL_VALUE"}"#,
        r#"{"nullField":0}"#,
    ] {
        assert_eq!(decode_message(&schema, HOLDER, &parse(text)).unwrap(), expected, "{text}");
    }
    let nulls = schema.enums[NULL_VALUE].from_json(&Json::Null).unwrap();
    assert_eq!(nulls, 0);
    assert_eq!(schema.enums[NULL_VALUE].from_json(&Json::string("NULL_VALUE")).unwrap(), 0);
    assert_eq!(schema.enums[NULL_VALUE].from_json(&Json::Uint(0)).unwrap(), 0);
    assert_eq!(schema.enums[NULL_VALUE].to_json(0), Json::Null);
    assert_eq!(failure(schema.enums[STATUS].from_json(&Json::Null)), "invalid enum value");
    let read = decode_message(&schema, HOLDER, &parse(r#"{"nulls":[null,0,"NULL_VALUE"]}"#)).unwrap();
    assert_eq!(
        read.fields[5],
        FieldValue::Repeated(vec![Element::Enum(0), Element::Enum(0), Element::Enum(0)])
    );
    let read = decode_message(&schema, HOLDER, &parse(r#"{"anyValue":null,"maybeNull":null}"#)).unwrap();
    assert_eq!(
        read.fields[4],
        FieldValue::Optional(Some(Element::Value(Value {
            kind: Some(prost_canonical_serde::value::Kind::NullValue(0))
        })))
    );
    assert_eq!(read.fields[3], FieldValue::Optional(None));
}

#[test]
fn singular_messages_are_always_written() {
    let schema = schema();
    let message = make_default_message(&schema, HOLDER).unwrap();
    assert_eq!(message.fields[0], FieldValue::Singular(Element::Message(nested(0, ""))));
    let json = encode_message(&schema, HOLDER, &message).unwrap();
    assert!(same_json(&json, r#"{"inner":{},"stamp":"1970-01-01T00:00:00Z"}"#));
    assert_eq!(decode_message(&schema, HOLDER, &json).unwrap(), message);
}

#[test]
fn a_message_can_hold_itself_as_an_option() {
    let schema = schema();
    let text = r#"{"selfHeld":{"selfHeld":{"flags":{"true":false,"false":true}}}}"#;
    let read = decode_message(&schema, HOLDER, &parse(text)).unwrap();
    let json = encode_message(&schema, HOLDER, &read).unwrap();
    assert_eq!(decode_message(&schema, HOLDER, &json).unwrap(), read);
    let inner = match &read.fields[7] {
        FieldValue::Optional(Some(Element::Message(m))) => m,
        other => panic!("unexpected {other:?}"),
    };
    let innermost = match &inner.fields[7] {
        FieldValue::Optional(Some(Element::Message(m))) => m,
        other => panic!("unexpected {other:?}"),
    };
    // The JSON reader used here hands the members of an object over sorted by key.
    assert_eq!(
        innermost.fields[6],
        FieldValue::Keyed(vec![
            (MapKey::Bool(false), Element::Bool(true)),
            (MapKey::Bool(true), Element::Bool(false)),
        ])
    );
}

#[test]
fn maps_in_messages() {
    let schema = schema();
    let object = Json::Object(vec![
        ("stringToInt".to_string(), parse(r#"{"alpha":1,"beta":"2"}"#)),
        (
            "int_to_string".to_string(),
            Json::Object(vec![
                ("7".to_string(), Json::string("seven")),
                ("-1".to_string(), Json::string("x")),
                ("7".to_string(), Json::string("SEVEN")),
            ]),
        ),
    ]);
    let read = decode_message(&schema, KITCHEN_SINK, &object).unwrap();
    assert_eq!(
        read.fields[11],
        FieldValue::Keyed(vec![
            (MapKey::String("alpha".to_string()), Element::Int32(1)),
            (MapKey::String("beta".to_string()), Element::Int32(2)),
        ])
    );
    assert_eq!(
        read.fields[12],
        FieldValue::Keyed(vec![(MapKey::Int32(7), text_element("SEVEN")), (MapKey::Int32(-1), text_element("x"))])
    );
    let json = encode_message(&schema, KITCHEN_SINK, &read).unwrap();
    assert!(same_json(
        &json,
        r#"{"stringToInt":{"alpha":1,"beta":2},"intToString":{"7":"SEVEN","-1":"x"}}"#
    ));
    assert_eq!(
        failure(decode_message(&schema, KITCHEN_SINK, &parse(r#"{"intToString":{"x":"y"}}"#))),
        "invalid i32 map key"
    );
    assert_eq!(
        failure(decode_message(&schema, KITCHEN_SINK, &parse(r#"{"intToString":[]}"#))),
        "invalid type, expected a map"
    );
    assert_eq!(
        decode_message(&schema, KITCHEN_SINK, &parse(r#"{"intToString":null}"#)).unwrap(),
        make_default_message(&schema, KITCHEN_SINK).unwrap()
    );
}

fn text_element(v: &str) -> Element {
    text(v)
}

#[test]
fn messages_that_do_not_fit_are_refused() {
    let schema = schema();
    assert_eq!(failure(decode_message(&schema, 99, &Json::Object(vec![]))), "unknown message type");
    assert_eq!(
        failure(decode_message(&schema, NESTED, &Json::Array(vec![]))),
        "invalid type, expected a map"
    );
    assert_eq!(failure(decode_message(&schema, NESTED, &Json::Null)), "invalid type, expected a map");
    assert_eq!(
        failure(encode_message(&schema, 99, &Message { fields: vec![] })),
        "unknown message type"
    );
    assert_eq!(
        failure(encode_message(&schema, NESTED, &Message { fields: vec![] })),
        "message does not match its descriptor"
    );
    let wrong = Message {
        fields: vec![FieldValue::Singular(Element::Bool(true)), FieldValue::Singular(text(""))],
    };
    assert_eq!(failure(encode_message(&schema, NESTED, &wrong)), "message does not match its descriptor");
    let wrong = Message {
        fields: vec![FieldValue::Optional(None), FieldValue::Singular(text(""))],
    };
    assert_eq!(failure(encode_message(&schema, NESTED, &wrong)), "message does not match its descriptor");
    assert_eq!(
        failure(encode_element(&schema, Kind::Int32, &Element::Bool(true))),
        "value does not match its kind"
    );
    assert_eq!(
        failure(encode_element(&schema, Kind::Enum(9), &Element::Enum(1))),
        "unknown enum type"
    );
    assert_eq!(
        failure(decode_element(&schema, Kind::Enum(9), &Json::Uint(1))),
        "unknown enum type"
    );
    let looped = Schema {
        messages: vec![MessageDescriptor { slots: vec![field("me", Kind::Message(0), Shape::Singular)] }],
        enums: vec![],
    };
    assert_eq!(
        failure(make_default_message(&looped, 0)),
        "a message type holds itself directly"
    );
    assert_eq!(
        failure(decode_message(&looped, 0, &Json::Object(vec![]))),
        "a message type holds itself directly"
    );
}

#[test]
fn names_are_derived_where_none_is_given() {
    assert_eq!(to_json_name("foo_bar"), "fooBar");
    assert_eq!(to_json_name("foo__bar_"), "fooBar");
    assert_eq!(to_json_name("Foo_bar"), "FooBar");
    assert_eq!(to_json_name("foo_1"), "foo1");
    assert_eq!(to_json_name(""), "");
    assert_eq!(lower_camel("Name"), "name");
    assert_eq!(lower_camel("Foo_bar"), "fooBar");
    let f = FieldDescriptor::new("created_at", None, Kind::Timestamp, Shape::Optional);
    assert_eq!(f.json_name, "createdAt");
    assert_eq!(f.proto_name, "created_at");
    let f = FieldDescriptor::new("created_at", Some("when"), Kind::Timestamp, Shape::Optional);
    assert_eq!(f.json_name, "when");
    let m = OneofMember::new("Name", None, None, Kind::String);
    assert_eq!(m.json_name, "name");
    assert_eq!(m.proto_name, "name");
    assert!(Kind::Timestamp.message_like());
    assert!(Kind::Message(0).message_like());
    assert!(!Kind::Enum(0).message_like());
}

#[test]
fn a_oneof_on_its_own() {
    let schema = schema();
    let members = vec![
        OneofMember::new("Name", None, None, Kind::String),
        OneofMember::new("Value", Some("value_field"), Some("valueField"), Kind::Int32),
    ];
    let json = serialize_oneof(&schema, &members, &(1, Element::Int32(7))).unwrap();
    assert!(same_json(&json, r#"{"valueField":7}"#));
    assert_eq!(deserialize_oneof(&schema, &members, &json).unwrap(), (1, Element::Int32(7)));
    assert_eq!(
        deserialize_oneof(&schema, &members, &parse(r#"{"x":1,"value_field":"8","name":null}"#)).unwrap(),
        (1, Element::Int32(8))
    );
    assert_eq!(
        failure(deserialize_oneof(&schema, &members, &parse(r#"{"x":1}"#))),
        "expected oneof field"
    );
    assert_eq!(
        failure(deserialize_oneof(&schema, &members, &parse(r#"{"name":"a","valueField":1}"#))),
        "multiple oneof fields set"
    );
    assert_eq!(
        failure(deserialize_oneof(&schema, &members, &Json::Null)),
        "invalid type, expected a map"
    );
    assert_eq!(
        failure(serialize_oneof(&schema, &members, &(2, Element::Int32(7)))),
        "message does not match its descriptor"
    );
    assert!(matches!(
        try_deserialize(&schema, &members, "other", &Json::Uint(1)).unwrap(),
        OneofMatch::NoMatch
    ));
    assert!(matches!(
        try_deserialize(&schema, &members, "name", &Json::Null).unwrap(),
        OneofMatch::Matched(None)
    ));
    assert!(matches!(
        try_deserialize(&schema, &members, "name", &Json::string("n")).unwrap(),
        OneofMatch::Matched(Some((0, Element::String(_))))
    ));
}

#[test]
fn what_does_not_come_back() {
    let schema = schema();
    // A negative zero is at the default, is not written, and reads as zero.
    let mut message = make_default_message(&schema, KITCHEN_SINK).unwrap();
    message.fields[7] = FieldValue::Singular(Element::Double(double(-0.0)));
    let json = encode_message(&schema, KITCHEN_SINK, &message).unwrap();
    let read = decode_message(&schema, KITCHEN_SINK, &json).unwrap();
    assert_eq!(read.fields[7], FieldValue::Singular(Element::Double(double(0.0))));
    // An optional null value is written as `null`, which reads as nothing.
    let mut message = make_default_message(&schema, HOLDER).unwrap();
    message.fields[3] = FieldValue::Optional(Some(Element::Enum(0)));
    let json = encode_message(&schema, HOLDER, &message).unwrap();
    assert!(same_json(&json, r#"{"inner":{},"stamp":"1970-01-01T00:00:00Z","maybeNull":null}"#));
    let read = decode_message(&schema, HOLDER, &json).unwrap();
    assert_eq!(read.fields[3], FieldValue::Optional(None));
    // A NaN comes back as the default NaN.
    let odd = Float64 { bits: 0x7FF0_0000_0000_0001 };
    let json = encode_element(&schema, Kind::Double, &Element::Double(odd)).unwrap();
    assert_eq!(json, Json::string("NaN"));
    assert_eq!(
        decode_element(&schema, Kind::Double, &json).unwrap(),
        Element::Double(Float64 { bits: 0x7FF8_0000_0000_0000 })
    );
}
