use prost_canonical_serde::schema::KeyKind;
use prost_canonical_serde::typing::{
    apply_enum, classify_key, classify_type, extract_generic, extract_map_types, find_text,
    from_field, is_prost_value_type, parse_enum_path_from_map, path_ends_with, path_if_any,
    path_ends_with_ident, FieldKind, GenericArg, MapKind, RustType, ScalarKind, Segment,
};

fn plain(path: &[&str]) -> RustType {
    RustType::Path(
        path.iter().map(|ident| Segment { ident: ident.to_string(), arguments: None }).collect(),
    )
}

fn generic(path: &[&str], arguments: Vec<RustType>) -> RustType {
    let mut segments: Vec<Segment> =
        path.iter().map(|ident| Segment { ident: ident.to_string(), arguments: None }).collect();
    let last = segments.last_mut().expect("a path");
    last.arguments = Some(arguments.into_iter().map(GenericArg::Type).collect());
    RustType::Path(segments)
}

fn scalar(kind: ScalarKind) -> FieldKind {
    FieldKind::Scalar(kind)
}

fn boxed(kind: FieldKind) -> Box<FieldKind> {
    Box::new(kind)
}

#[test]
fn plain_types_are_told_by_their_last_name() {
    assert_eq!(classify_type(&plain(&["bool"])).unwrap(), scalar(ScalarKind::Bool));
    assert_eq!(classify_type(&plain(&["i32"])).unwrap(), scalar(ScalarKind::I32));
    assert_eq!(classify_type(&plain(&["u32"])).unwrap(), scalar(ScalarKind::U32));
    assert_eq!(classify_type(&plain(&["i64"])).unwrap(), scalar(ScalarKind::I64));
    assert_eq!(classify_type(&plain(&["u64"])).unwrap(), scalar(ScalarKind::U64));
    assert_eq!(classify_type(&plain(&["f32"])).unwrap(), scalar(ScalarKind::F32));
    assert_eq!(classify_type(&plain(&["f64"])).unwrap(), scalar(ScalarKind::F64));
    assert_eq!(
        classify_type(&plain(&["alloc", "string", "String"])).unwrap(),
        scalar(ScalarKind::String)
    );
    assert_eq!(classify_type(&plain(&["prost_types", "Timestamp"])).unwrap(), FieldKind::Timestamp);
    assert_eq!(
        classify_type(&plain(&["", "prost_types", "Duration"])).unwrap(),
        FieldKind::Duration
    );
    assert_eq!(classify_type(&plain(&["Timestamp"])).unwrap(), FieldKind::Message);
    assert_eq!(classify_type(&plain(&["Nested"])).unwrap(), FieldKind::Message);
    assert_eq!(classify_type(&RustType::Other).unwrap(), FieldKind::Message);
    assert_eq!(classify_type(&RustType::Path(vec![])).unwrap(), FieldKind::Message);
}

#[test]
fn containers_are_told_by_their_arguments() {
    let option = generic(&["core", "option", "Option"], vec![plain(&["i32"])]);
    assert_eq!(classify_type(&option).unwrap(), FieldKind::Optional(boxed(scalar(ScalarKind::I32))));
    let bytes = generic(&["Vec"], vec![plain(&["u8"])]);
    assert_eq!(classify_type(&bytes).unwrap(), FieldKind::Bytes);
    let list = generic(&["Vec"], vec![plain(&["Nested"])]);
    assert_eq!(classify_type(&list).unwrap(), FieldKind::Repeated(boxed(FieldKind::Message)));
    let map = generic(&["HashMap"], vec![plain(&["String"]), plain(&["i32"])]);
    assert_eq!(
        classify_type(&map).unwrap(),
        FieldKind::Keyed(MapKind::Hash, KeyKind::String, boxed(scalar(ScalarKind::I32)))
    );
    let map = generic(&["BTreeMap"], vec![plain(&["u64"]), generic(&["Vec"], vec![plain(&["u8"])])]);
    assert_eq!(
        classify_type(&map).unwrap(),
        FieldKind::Keyed(MapKind::BTree, KeyKind::Uint64, boxed(FieldKind::Bytes))
    );
    let bad = generic(&["HashMap"], vec![plain(&["f64"]), plain(&["i32"])]);
    assert_eq!(classify_type(&bad).unwrap_err().to_string(), "unsupported map key type");
    let nested = generic(&["Option"], vec![bad]);
    assert_eq!(classify_type(&nested).unwrap_err().to_string(), "unsupported map key type");
    let bare = plain(&["Option"]);
    assert_eq!(classify_type(&bare).unwrap(), FieldKind::Message);
    let one = generic(&["HashMap"], vec![plain(&["String"])]);
    assert_eq!(classify_type(&one).unwrap(), FieldKind::Message);
}

#[test]
fn arguments_are_taken_by_place() {
    let map = generic(&["HashMap"], vec![plain(&["String"]), plain(&["i32"])]);
    assert_eq!(extract_generic(&map, "HashMap", 1), Some(&plain(&["i32"])));
    assert_eq!(extract_generic(&map, "HashMap", 2), None);
    assert_eq!(extract_generic(&map, "BTreeMap", 0), None);
    assert_eq!(
        extract_map_types(&map),
        Some((MapKind::Hash, &plain(&["String"]), &plain(&["i32"])))
    );
    assert_eq!(extract_map_types(&plain(&["HashMap"])), None);
    let lifetime = RustType::Path(vec![Segment {
        ident: "Vec".to_string(),
        arguments: Some(vec![GenericArg::Other, GenericArg::Type(plain(&["u8"]))]),
    }]);
    assert_eq!(extract_generic(&lifetime, "Vec", 0), None);
    assert_eq!(extract_generic(&lifetime, "Vec", 1), Some(&plain(&["u8"])));
    assert!(path_ends_with_ident(&map, "HashMap"));
    assert!(!path_ends_with_ident(&RustType::Other, "HashMap"));
    assert!(path_ends_with(&plain(&["a", "prost_types", "Timestamp"]), "prost_types", "Timestamp"));
    assert!(!path_ends_with(&plain(&["Timestamp"]), "prost_types", "Timestamp"));
    assert!(!path_ends_with(&plain(&["prost_types", "x", "Timestamp"]), "prost_types", "Timestamp"));
}

#[test]
fn keys_are_of_six_kinds() {
    assert_eq!(classify_key(&plain(&["String"])).unwrap(), KeyKind::String);
    assert_eq!(classify_key(&plain(&["bool"])).unwrap(), KeyKind::Bool);
    assert_eq!(classify_key(&plain(&["i32"])).unwrap(), KeyKind::Int32);
    assert_eq!(classify_key(&plain(&["i64"])).unwrap(), KeyKind::Int64);
    assert_eq!(classify_key(&plain(&["u32"])).unwrap(), KeyKind::Uint32);
    assert_eq!(classify_key(&plain(&["u64"])).unwrap(), KeyKind::Uint64);
    assert_eq!(
        classify_key(&plain(&["f32"])).unwrap_err().to_string(),
        "unsupported map key type"
    );
}

#[test]
fn an_enum_is_an_i32_that_is_declared_one() {
    assert_eq!(apply_enum(scalar(ScalarKind::I32)), FieldKind::Enum);
    assert_eq!(
        apply_enum(FieldKind::Repeated(boxed(scalar(ScalarKind::I32)))),
        FieldKind::Repeated(boxed(FieldKind::Enum))
    );
    assert_eq!(
        apply_enum(FieldKind::Optional(boxed(scalar(ScalarKind::I32)))),
        FieldKind::Optional(boxed(FieldKind::Enum))
    );
    assert_eq!(
        apply_enum(FieldKind::Keyed(MapKind::Hash, KeyKind::Bool, boxed(scalar(ScalarKind::I32)))),
        FieldKind::Keyed(MapKind::Hash, KeyKind::Bool, boxed(FieldKind::Enum))
    );
    assert_eq!(apply_enum(scalar(ScalarKind::I64)), scalar(ScalarKind::I64));
    assert_eq!(
        apply_enum(FieldKind::Repeated(boxed(FieldKind::Message))),
        FieldKind::Repeated(boxed(FieldKind::Message))
    );
    assert_eq!(apply_enum(FieldKind::Bytes), FieldKind::Bytes);
}

#[test]
fn the_value_type_is_told_by_two_names() {
    assert!(is_prost_value_type(&plain(&["prost_types", "Value"])));
    assert!(is_prost_value_type(&plain(&["", "prost_types", "inner", "Value"])));
    assert!(!is_prost_value_type(&plain(&["Value"])));
    assert!(!is_prost_value_type(&plain(&["prost_types", "Struct"])));
    assert!(!is_prost_value_type(&RustType::Other));
}

#[test]
fn the_path_of_an_enum_is_read_out_of_a_map_description() {
    assert_eq!(
        parse_enum_path_from_map("string, enumeration(Status)").unwrap(),
        Some("Status".to_string())
    );
    assert_eq!(
        parse_enum_path_from_map("int32, enumeration(  super::Status\t)").unwrap(),
        Some("super::Status".to_string())
    );
    assert_eq!(parse_enum_path_from_map("string, int32").unwrap(), None);
    assert_eq!(parse_enum_path_from_map("").unwrap(), None);
    assert_eq!(parse_enum_path_from_map("enumeration(  )").unwrap(), None);
    assert_eq!(parse_enum_path_from_map("enumeration()").unwrap(), None);
    assert_eq!(
        parse_enum_path_from_map("enumeration(Status").unwrap_err().to_string(),
        "invalid map enum"
    );
    assert_eq!(
        parse_enum_path_from_map("x) enumeration(A) enumeration(B)").unwrap(),
        Some("A".to_string())
    );
    assert_eq!(path_if_any(String::new()), None);
    assert_eq!(path_if_any("a".to_string()), Some("a".to_string()));
    let text: Vec<char> = "abcabd".chars().collect();
    assert_eq!(find_text(&text, &"abd".chars().collect()), Some(3));
    assert_eq!(find_text(&text, &"abe".chars().collect()), None);
    assert_eq!(find_text(&text, &Vec::new()), Some(0));
    assert_eq!(find_text(&Vec::new(), &text), None);
}

#[test]
fn a_field_is_looked_at_as_a_whole() {
    let info = from_field("created_at", &plain(&["i32"]), false, true, None, None).unwrap();
    assert_eq!(info.kind, FieldKind::Enum);
    assert_eq!(info.proto_name, "created_at");
    assert_eq!(info.json_name, "createdAt");
    assert!(!info.is_oneof);
    let choice = generic(&["Option"], vec![plain(&["kitchen_sink", "Choice"])]);
    let info = from_field("choice", &choice, true, false, Some("pick"), Some("Pick")).unwrap();
    assert_eq!(info.kind, FieldKind::Optional(boxed(FieldKind::Message)));
    assert_eq!(info.proto_name, "pick");
    assert_eq!(info.json_name, "Pick");
    assert!(info.is_oneof);
    let info = from_field("raw", &plain(&["Choice"]), true, false, Some("the_raw"), None).unwrap();
    assert_eq!(info.kind, FieldKind::Message);
    assert_eq!(info.json_name, "theRaw");
    let bad = generic(&["BTreeMap"], vec![plain(&["Nested"]), plain(&["i32"])]);
    assert_eq!(
        from_field("m", &bad, false, false, None, None).unwrap_err().to_string(),
        "unsupported map key type"
    );
}
