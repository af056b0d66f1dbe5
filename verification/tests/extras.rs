use prost_canonical_serde::attributes::{
    add_json_name_attributes, add_message_field_attributes, attribute_for, attribute_with,
    join_path, FieldProto, FileProto, MessageProto,
};
use prost_canonical_serde::conformance::{
    failure_list_response, handle_message, handle_request, json_response, json_written,
    parse_error, protobuf_response, serialize_error, skipped, wire_format, ConformanceRequest,
    ConformanceResponse, Next, Payload, Step, TestMessage, WireFormat,
};
use prost_canonical_serde::schema::{
    EnumDescriptor, EnumVariant, FieldDescriptor, Kind, MessageDescriptor, OneofMember, Shape, Slot,
};
use prost_canonical_serde::Json;

fn named(name: &str) -> Option<String> {
    Some(name.to_string())
}

fn field_proto(name: &str, json_name: Option<&str>, oneof_index: Option<i32>) -> FieldProto {
    FieldProto { name: named(name), json_name: json_name.map(str::to_string), oneof_index }
}

fn pair(path: &str, attribute: &str) -> (String, String) {
    (path.to_string(), attribute.to_string())
}

#[test]
fn attributes_name_both_names_of_a_field() {
    assert_eq!(
        attribute_for("created_at", "createdAt"),
        "#[prost_canonical_serde(proto_name = \"created_at\", json_name = \"createdAt\")]"
    );
    assert_eq!(
        attribute_for("a\"b", "c\\d"),
        "#[prost_canonical_serde(proto_name = \"a\\\"b\", json_name = \"c\\\\d\")]"
    );
    assert_eq!(join_path("demo.Example", "name"), "demo.Example.name");
    assert_eq!(
        attribute_with("\"a\"", "\"b\""),
        "#[prost_canonical_serde(proto_name = \"a\", json_name = \"b\")]"
    );
}

#[test]
fn attributes_for_the_fields_of_every_message() {
    let nested = MessageProto {
        name: named("Inner"),
        fields: vec![field_proto("deep_field", Some("deepField"), None)],
        oneofs: vec![],
        nested: vec![],
    };
    let nameless = MessageProto {
        name: None,
        fields: vec![field_proto("lost", None, None)],
        oneofs: vec![],
        nested: vec![],
    };
    let message = MessageProto {
        name: named("Example"),
        fields: vec![
            field_proto("created_at", Some("createdAt"), None),
            FieldProto { name: None, json_name: named("ghost"), oneof_index: None },
            field_proto("count", None, None),
            field_proto("text", Some("text"), Some(0)),
            field_proto("number", Some("num"), Some(1)),
            field_proto("far", Some("far"), Some(7)),
            field_proto("before", Some("before"), Some(-1)),
        ],
        oneofs: vec![named("choice"), None],
        nested: vec![nested, nameless],
    };
    let top = MessageProto {
        name: named("Top"),
        fields: vec![field_proto("x", None, None)],
        oneofs: vec![],
        nested: vec![],
    };
    let files = vec![
        FileProto { package: named("demo"), messages: vec![message] },
        FileProto { package: None, messages: vec![top] },
        FileProto { package: named(""), messages: vec![] },
    ];
    let attribute = |proto: &str, json: &str| {
        format!("#[prost_canonical_serde(proto_name = {proto:?}, json_name = {json:?})]")
    };
    let expected = vec![
        pair("demo.Example.created_at", &attribute("created_at", "createdAt")),
        pair("demo.Example.count", &attribute("count", "count")),
        pair("demo.Example.text", &attribute("text", "text")),
        pair("demo.Example.choice.text", &attribute("text", "text")),
        pair("demo.Example.number", &attribute("number", "num")),
        pair("demo.Example.far", &attribute("far", "far")),
        pair("demo.Example.before", &attribute("before", "before")),
        pair("demo.Example.Inner.deep_field", &attribute("deep_field", "deepField")),
        pair("Top.x", &attribute("x", "x")),
    ];
    assert_eq!(add_json_name_attributes(&files), expected);
    let mut out = vec![pair("kept", "as it was")];
    add_message_field_attributes(&mut out, "pkg.Top", &files[1].messages[0]);
    assert_eq!(out, vec![pair("kept", "as it was"), pair("pkg.Top.x", &attribute("x", "x"))]);
}

fn request(message_type: &str, format: i32, payload: Option<Payload>) -> ConformanceRequest {
    ConformanceRequest {
        payload,
        requested_output_format: format,
        message_type: message_type.to_string(),
        test_category: 0,
    }
}

const PROTO2: &str = "protobuf_test_messages.proto2.TestAllTypesProto2";
const PROTO3: &str = "protobuf_test_messages.proto3.TestAllTypesProto3";

#[test]
fn responses_carry_what_they_are_given() {
    assert_eq!(skipped("why"), ConformanceResponse::Skipped("why".to_string()));
    assert_eq!(parse_error("bad"), ConformanceResponse::ParseError("bad".to_string()));
    assert_eq!(serialize_error("bad"), ConformanceResponse::SerializeError("bad".to_string()));
    assert_eq!(protobuf_response(vec![1, 2]), ConformanceResponse::ProtobufPayload(vec![1, 2]));
    assert_eq!(json_response("{}".to_string()), ConformanceResponse::JsonPayload("{}".to_string()));
    assert_eq!(failure_list_response(), ConformanceResponse::ProtobufPayload(vec![]));
    assert_eq!(json_written(Ok("{}".to_string())), ConformanceResponse::JsonPayload("{}".to_string()));
    assert_eq!(
        json_written(Err("no".to_string())),
        ConformanceResponse::SerializeError("no".to_string())
    );
}

#[test]
fn wire_formats_by_number() {
    assert_eq!(wire_format(0), WireFormat::Unspecified);
    assert_eq!(wire_format(1), WireFormat::Protobuf);
    assert_eq!(wire_format(2), WireFormat::Json);
    assert_eq!(wire_format(3), WireFormat::Jspb);
    assert_eq!(wire_format(4), WireFormat::TextFormat);
    assert_eq!(wire_format(5), WireFormat::Unspecified);
    assert_eq!(wire_format(-1), WireFormat::Unspecified);
}

#[test]
fn requests_are_answered_or_run() {
    assert_eq!(
        handle_request(request("conformance.FailureSet", 1, None)),
        Step::Respond(ConformanceResponse::ProtobufPayload(vec![]))
    );
    assert_eq!(
        handle_request(request(PROTO3, 2, None)),
        Step::Respond(skipped("no payload provided"))
    );
    assert_eq!(
        handle_request(request("other.Message", 2, Some(Payload::JsonPayload("{}".to_string())))),
        Step::Respond(skipped("unsupported message type"))
    );
    assert_eq!(
        handle_request(request(PROTO3, 2, Some(Payload::TextPayload("x".to_string())))),
        Step::Respond(skipped("text format input not supported"))
    );
    assert_eq!(
        handle_request(request(PROTO2, 2, Some(Payload::JspbPayload("x".to_string())))),
        Step::Respond(skipped("jspb input not supported"))
    );
    assert_eq!(
        handle_request(request(PROTO3, 2, Some(Payload::JsonPayload("{}".to_string())))),
        Step::Run(TestMessage::Proto3, Payload::JsonPayload("{}".to_string()), WireFormat::Json)
    );
    assert_eq!(
        handle_request(request(PROTO2, 1, Some(Payload::ProtobufPayload(vec![8, 1])))),
        Step::Run(TestMessage::Proto2, Payload::ProtobufPayload(vec![8, 1]), WireFormat::Protobuf)
    );
    assert_eq!(
        handle_request(request(PROTO2, 9, Some(Payload::ProtobufPayload(vec![])))),
        Step::Run(TestMessage::Proto2, Payload::ProtobufPayload(vec![]), WireFormat::Unspecified)
    );
}

#[test]
fn after_reading_the_message_is_written_or_the_request_answered() {
    assert_eq!(
        handle_message(Some("bad".to_string()), WireFormat::Json),
        Next::Respond(parse_error("bad"))
    );
    assert_eq!(handle_message(None, WireFormat::Json), Next::WriteJson);
    assert_eq!(handle_message(None, WireFormat::Protobuf), Next::WriteProtobuf);
    assert_eq!(
        handle_message(None, WireFormat::TextFormat),
        Next::Respond(skipped("text format output not supported"))
    );
    assert_eq!(
        handle_message(None, WireFormat::Jspb),
        Next::Respond(skipped("jspb output not supported"))
    );
    assert_eq!(
        handle_message(None, WireFormat::Unspecified),
        Next::Respond(skipped("unspecified output format"))
    );
}

fn status() -> EnumDescriptor {
    EnumDescriptor {
        variants: vec![
            EnumVariant { name: "UNKNOWN".to_string(), number: 0 },
            EnumVariant { name: "ACTIVE".to_string(), number: 1 },
            EnumVariant { name: "ALSO_ACTIVE".to_string(), number: 1 },
        ],
        null_value: false,
    }
}

#[test]
fn an_enum_held_by_its_variants_takes_known_numbers_only() {
    let status = status();
    assert_eq!(status.variant_from_json(&Json::string("ACTIVE")).unwrap(), 1);
    assert_eq!(status.variant_from_json(&Json::string("ALSO_ACTIVE")).unwrap(), 1);
    assert_eq!(status.variant_from_json(&Json::Uint(0)).unwrap(), 0);
    assert_eq!(
        status.variant_from_json(&Json::Uint(5)).unwrap_err().to_string(),
        "unknown enum number"
    );
    assert_eq!(
        status.variant_from_json(&Json::string("NOPE")).unwrap_err().to_string(),
        "invalid enum string"
    );
    assert_eq!(status.variant_to_json(2), Json::string("ALSO_ACTIVE"));
    assert_eq!(status.to_json(1), Json::string("ACTIVE"));
}

fn field(name: &str, json: &str) -> Slot {
    Slot::Field(FieldDescriptor::new(name, Some(json), Kind::Int32, Shape::Singular))
}

#[test]
fn names_of_a_message_type_are_checked() {
    let good = MessageDescriptor {
        slots: vec![
            field("foo_bar", "fooBar"),
            Slot::Oneof(vec![
                OneofMember::new("A", Some("a_member"), Some("aMember"), Kind::Bool),
                OneofMember::new("B", Some("b"), Some("b"), Kind::Bool),
            ]),
            field("baz", "baz"),
        ],
    };
    assert!(good.check_names());
    assert!(MessageDescriptor { slots: vec![] }.check_names());
    let same_json = MessageDescriptor { slots: vec![field("a", "x"), field("b", "x")] };
    assert!(!same_json.check_names());
    let crossed = MessageDescriptor { slots: vec![field("a", "b"), field("b", "c")] };
    assert!(!crossed.check_names());
    let shadowed = MessageDescriptor {
        slots: vec![
            field("name", "name"),
            Slot::Oneof(vec![OneofMember::new("Name", None, None, Kind::String)]),
        ],
    };
    assert!(!shadowed.check_names());
    let twice = MessageDescriptor {
        slots: vec![Slot::Oneof(vec![
            OneofMember::new("A", Some("a"), Some("a"), Kind::Bool),
            OneofMember::new("B", Some("b"), Some("a"), Kind::Bool),
        ])],
    };
    assert!(!twice.check_names());
}

#[test]
fn names_of_an_enum_are_checked() {
    assert!(status().check_names());
    let twice = EnumDescriptor {
        variants: vec![
            EnumVariant { name: "A".to_string(), number: 0 },
            EnumVariant { name: "A".to_string(), number: 1 },
        ],
        null_value: false,
    };
    assert!(!twice.check_names());
    let null = EnumDescriptor {
        variants: vec![EnumVariant { name: "NULL_VALUE".to_string(), number: 0 }],
        null_value: true,
    };
    assert!(null.check_names());
    let odd = EnumDescriptor {
        variants: vec![EnumVariant { name: "NULL_VALUE".to_string(), number: 3 }],
        null_value: true,
    };
    assert!(!odd.check_names());
    assert!(EnumDescriptor { variants: vec![], null_value: false }.check_names());
}
