use prost_canonical_serde::enums::NullValue;
use prost_canonical_serde::float::Float64;
use prost_canonical_serde::map::EntryMap;
use prost_canonical_serde::timestamp::Timestamp;
use prost_canonical_serde::{
    Canonical, CanonicalEnum, CanonicalEnumMap, CanonicalEnumMapRef, CanonicalEnumOption,
    CanonicalEnumSeq, CanonicalEnumValue, CanonicalEnumVec, CanonicalError, CanonicalMap,
    CanonicalMapKey, CanonicalMapRef, CanonicalMapType, CanonicalOption, CanonicalSeq,
    CanonicalValue, CanonicalVec, Json, ProstEnum,
};

#[derive(Clone, Copy, Debug, PartialEq)]
enum Status {
    Unknown,
    Active,
    Inactive,
}

impl ProstEnum for Status {
    fn from_i32(value: i32) -> Option<Self> {
        match value {
            0 => Some(Status::Unknown),
            1 => Some(Status::Active),
            2 => Some(Status::Inactive),
            _ => None,
        }
    }

    fn from_str_name(value: &str) -> Option<Self> {
        match value {
            "STATUS_UNKNOWN" => Some(Status::Unknown),
            "STATUS_ACTIVE" => Some(Status::Active),
            "STATUS_INACTIVE" => Some(Status::Inactive),
            _ => None,
        }
    }

    fn as_str_name(&self) -> &'static str {
        match self {
            Status::Unknown => "STATUS_UNKNOWN",
            Status::Active => "STATUS_ACTIVE",
            Status::Inactive => "STATUS_INACTIVE",
        }
    }

    fn as_i32(&self) -> i32 {
        *self as i32
    }

    fn is_null_value() -> bool {
        false
    }
}

fn message<T>(r: Result<T, CanonicalError>) -> String {
    match r {
        Ok(_) => panic!("expected an error"),
        Err(e) => e.to_string(),
    }
}

fn object(members: Vec<(&str, Json)>) -> Json {
    Json::Object(members.into_iter().map(|(k, v)| (k.to_string(), v)).collect())
}

#[test]
fn enum_is_written_by_name_where_known() {
    assert_eq!(CanonicalEnum::<Status>::new(1).serialize().unwrap(), Json::string("STATUS_ACTIVE"));
    assert_eq!(CanonicalEnum::<Status>::new(0).serialize().unwrap(), Json::string("STATUS_UNKNOWN"));
    assert_eq!(CanonicalEnum::<Status>::new(7).serialize().unwrap(), Json::Int(7));
    assert_eq!(CanonicalEnum::<Status>::new(-1).serialize().unwrap(), Json::Int(-1));
    assert_eq!(CanonicalEnum::<NullValue>::new(0).serialize().unwrap(), Json::Null);
    assert_eq!(CanonicalEnum::<NullValue>::new(3).serialize().unwrap(), Json::Int(3));
}

#[test]
fn enum_is_read_by_name_or_number() {
    let read = |json: &Json| CanonicalEnumValue::<Status>::deserialize(json).map(|v| v.0);
    assert_eq!(read(&Json::string("STATUS_INACTIVE")).unwrap(), 2);
    assert_eq!(read(&Json::Uint(1)).unwrap(), 1);
    assert_eq!(read(&Json::Int(-5)).unwrap(), -5);
    assert_eq!(read(&Json::Uint(99)).unwrap(), 99);
    assert_eq!(read(&Json::string("2")).unwrap(), 2);
    assert_eq!(message(read(&Json::string("STATUS_NOPE"))), "invalid enum string");
    assert_eq!(message(read(&Json::Null)), "invalid enum value");
    assert_eq!(message(read(&Json::Uint(2147483648))), "enum number out of range");
    assert_eq!(message(read(&Json::Int(-2147483649))), "enum number out of range");
    assert_eq!(
        message(read(&Json::Bool(true))),
        "invalid type, expected enum string or number"
    );
    assert_eq!(
        message(read(&Json::Double(Float64 { bits: 1.0f64.to_bits() }))),
        "invalid type, expected enum string or number"
    );
}

#[test]
fn unknown_enum_number_goes_out_as_it_came_in() {
    let read = CanonicalEnumValue::<Status>::deserialize(&Json::Uint(42)).unwrap().0;
    assert_eq!(read, 42);
    assert_eq!(CanonicalEnum::<Status>::new(read).serialize().unwrap(), Json::Int(42));
}

#[test]
fn null_value_is_read_from_null_its_name_and_zero() {
    let read = |json: &Json| CanonicalEnumValue::<NullValue>::deserialize(json).map(|v| v.0);
    assert_eq!(read(&Json::Null).unwrap(), 0);
    assert_eq!(read(&Json::string("NULL_VALUE")).unwrap(), 0);
    assert_eq!(read(&Json::Uint(0)).unwrap(), 0);
    assert_eq!(read(&Json::Int(0)).unwrap(), 0);
    assert_eq!(NullValue::from_i32(0), Some(NullValue::NullValue));
    assert_eq!(NullValue::from_i32(1), None);
    assert_eq!(NullValue::from_str_name("NULL_VALUE"), Some(NullValue::NullValue));
    assert_eq!(NullValue::from_str_name("null"), None);
    assert_eq!(NullValue::NullValue.as_str_name(), "NULL_VALUE");
    assert_eq!(NullValue::NullValue.as_i32(), 0);
    assert!(NullValue::is_null_value());
}

#[test]
fn optional_enum_takes_null_for_none() {
    assert_eq!(CanonicalEnumOption::<Status>::deserialize(&Json::Null).unwrap().0, None);
    assert_eq!(CanonicalEnumOption::<NullValue>::deserialize(&Json::Null).unwrap().0, None);
    assert_eq!(
        CanonicalEnumOption::<Status>::deserialize(&Json::string("STATUS_ACTIVE")).unwrap().0,
        Some(1)
    );
    assert_eq!(
        message(CanonicalEnumOption::<Status>::deserialize(&Json::string("x")).map(|v| v.0)),
        "invalid enum string"
    );
}

#[test]
fn enum_sequences() {
    let values = [1, 0, 9];
    assert_eq!(
        CanonicalEnumSeq::<Status>::new(&values).serialize().unwrap(),
        Json::Array(vec![Json::string("STATUS_ACTIVE"), Json::string("STATUS_UNKNOWN"), Json::Int(9)])
    );
    let json = Json::Array(vec![Json::string("STATUS_ACTIVE"), Json::Uint(9)]);
    assert_eq!(CanonicalEnumVec::<Status>::deserialize(&json).unwrap().0, vec![1, 9]);
    assert_eq!(CanonicalEnumVec::<Status>::deserialize(&Json::Null).unwrap().0, Vec::<i32>::new());
    let json = Json::Array(vec![Json::Uint(1), Json::string("x"), Json::Bool(true)]);
    assert_eq!(
        message(CanonicalEnumVec::<Status>::deserialize(&json).map(|v| v.0)),
        "invalid enum string"
    );
    assert_eq!(
        message(CanonicalEnumVec::<Status>::deserialize(&Json::Uint(1)).map(|v| v.0)),
        "invalid type, expected a sequence"
    );
    let json = Json::Array(vec![Json::Null]);
    assert_eq!(CanonicalEnumVec::<NullValue>::deserialize(&json).unwrap().0, vec![0]);
}

#[test]
fn values_options_and_sequences() {
    assert_eq!(Canonical::new(&42i64).serialize().unwrap(), Json::string("42"));
    assert_eq!(CanonicalValue::<i64>::deserialize(&Json::string("42")).unwrap().0, 42);
    assert_eq!(CanonicalOption::<i32>::deserialize(&Json::Null).unwrap().0, None);
    assert_eq!(CanonicalOption::<i32>::deserialize(&Json::Uint(3)).unwrap().0, Some(3));
    assert_eq!(
        message(CanonicalOption::<i32>::deserialize(&Json::Bool(true)).map(|v| v.0)),
        "invalid type, expected i32 or string"
    );
    let values = [1i32, 2, 3];
    assert_eq!(
        CanonicalSeq::new(&values).serialize().unwrap(),
        Json::Array(vec![Json::Int(1), Json::Int(2), Json::Int(3)])
    );
    let empty: [i32; 0] = [];
    assert_eq!(CanonicalSeq::new(&empty).serialize().unwrap(), Json::Array(vec![]));
    let json = Json::Array(vec![Json::Uint(1), Json::string("2"), Json::Int(3)]);
    assert_eq!(CanonicalVec::<i32>::deserialize(&json).unwrap().0, vec![1, 2, 3]);
    assert_eq!(CanonicalVec::<i32>::deserialize(&Json::Null).unwrap().0, Vec::<i32>::new());
    let json = Json::Array(vec![Json::Uint(1), Json::Null]);
    assert_eq!(
        message(CanonicalVec::<i32>::deserialize(&json).map(|v| v.0)),
        "invalid type, expected i32 or string"
    );
    assert_eq!(
        message(CanonicalVec::<i32>::deserialize(&Json::Uint(1)).map(|v| v.0)),
        "invalid type, expected a sequence"
    );
    let stamps = [Timestamp { seconds: 0, nanos: 0 }, Timestamp { seconds: 0, nanos: -1 }];
    assert_eq!(message(CanonicalSeq::new(&stamps).serialize()), "timestamp nanos out of range");
    let boxed = Box::new(5u64);
    assert_eq!(Canonical::new(&boxed).serialize().unwrap(), Json::string("5"));
    assert_eq!(*CanonicalValue::<Box<u64>>::deserialize(&Json::string("5")).unwrap().0, 5);
}

#[test]
fn map_keys_are_written_and_read_as_text() {
    assert_eq!(String::from_key("k").unwrap(), "k");
    assert!(bool::from_key("true").unwrap());
    assert!(!bool::from_key("false").unwrap());
    assert_eq!(message(bool::from_key("True")), "invalid bool map key");
    assert_eq!(i32::from_key("-7").unwrap(), -7);
    assert_eq!(message(i32::from_key("2147483648")), "invalid i32 map key");
    assert_eq!(message(i32::from_key("1.0")), "invalid i32 map key");
    assert_eq!(i64::from_key("-9223372036854775808").unwrap(), i64::MIN);
    assert_eq!(message(i64::from_key("x")), "invalid i64 map key");
    assert_eq!(u32::from_key("4294967295").unwrap(), u32::MAX);
    assert_eq!(message(u32::from_key("-1")), "invalid u32 map key");
    assert_eq!(u64::from_key("18446744073709551615").unwrap(), u64::MAX);
    assert_eq!(message(u64::from_key("")), "invalid u64 map key");
    assert_eq!("k".to_string().to_key(), "k");
    assert_eq!(true.to_key(), "true");
    assert_eq!(false.to_key(), "false");
    assert_eq!((-7i32).to_key(), "-7");
    assert_eq!(i64::MIN.to_key(), "-9223372036854775808");
    assert_eq!(7u32.to_key(), "7");
    assert_eq!(u64::MAX.to_key(), "18446744073709551615");
    assert!(5i32.same_key(&5));
    assert!(!"a".to_string().same_key(&"b".to_string()));
}

#[test]
fn maps_keep_their_entries_in_order() {
    let mut map: EntryMap<i32, String> = EntryMap::empty();
    map.insert(7, "seven".to_string());
    map.insert(-1, "minus one".to_string());
    map.insert(7, "SEVEN".to_string());
    assert_eq!(map.len(), 2);
    assert_eq!(*map.key_at(0), 7);
    assert_eq!(map.value_at(0), "SEVEN");
    assert_eq!(*map.key_at(1), -1);
    assert_eq!(
        CanonicalMapRef::new(&map).serialize().unwrap(),
        object(vec![("7", Json::string("SEVEN")), ("-1", Json::string("minus one"))])
    );
    let json = object(vec![("alpha", Json::Uint(1)), ("beta", Json::string("2")), ("alpha", Json::Uint(3))]);
    let read = CanonicalMap::<EntryMap<String, i32>>::deserialize(&json).unwrap().0;
    assert_eq!(read.entries, vec![("alpha".to_string(), 3), ("beta".to_string(), 2)]);
    let read = CanonicalMap::<EntryMap<String, i32>>::deserialize(&Json::Null).unwrap().0;
    assert_eq!(read.entries, vec![]);
    let json = object(vec![("x", Json::Uint(1))]);
    assert_eq!(
        message(CanonicalMap::<EntryMap<bool, i32>>::deserialize(&json).map(|m| m.0.entries)),
        "invalid bool map key"
    );
    let json = object(vec![("true", Json::Bool(true))]);
    assert_eq!(
        message(CanonicalMap::<EntryMap<bool, i32>>::deserialize(&json).map(|m| m.0.entries)),
        "invalid type, expected i32 or string"
    );
    assert_eq!(
        message(CanonicalMap::<EntryMap<bool, i32>>::deserialize(&Json::Array(vec![])).map(|m| m.0.entries)),
        "invalid type, expected a map"
    );
    let mut stamps: EntryMap<bool, Timestamp> = EntryMap::empty();
    stamps.insert(true, Timestamp { seconds: 0, nanos: -1 });
    assert_eq!(message(CanonicalMapRef::new(&stamps).serialize()), "timestamp nanos out of range");
}

#[test]
fn maps_of_enums() {
    let mut map: EntryMap<String, i32> = EntryMap::empty();
    map.insert("a".to_string(), 1);
    map.insert("b".to_string(), 5);
    assert_eq!(
        CanonicalEnumMapRef::<Status, _>::new(&map).serialize().unwrap(),
        object(vec![("a", Json::string("STATUS_ACTIVE")), ("b", Json::Int(5))])
    );
    let json = object(vec![("1", Json::string("STATUS_INACTIVE")), ("2", Json::Uint(8))]);
    let read = CanonicalEnumMap::<Status, EntryMap<u64, i32>>::deserialize(&json).unwrap().0;
    assert_eq!(read.entries, vec![(1, 2), (2, 8)]);
    let read = CanonicalEnumMap::<Status, EntryMap<u64, i32>>::deserialize(&Json::Null).unwrap().0;
    assert_eq!(read.entries, vec![]);
    let json = object(vec![("1", Json::string("NOPE"))]);
    assert_eq!(
        message(
            CanonicalEnumMap::<Status, EntryMap<u64, i32>>::deserialize(&json).map(|m| m.0.entries)
        ),
        "invalid enum string"
    );
    let json = object(vec![("-1", Json::Uint(1))]);
    assert_eq!(
        message(
            CanonicalEnumMap::<Status, EntryMap<u64, i32>>::deserialize(&json).map(|m| m.0.entries)
        ),
        "invalid u64 map key"
    );
    assert_eq!(
        message(
            CanonicalEnumMap::<Status, EntryMap<u64, i32>>::deserialize(&Json::Uint(1))
                .map(|m| m.0.entries)
        ),
        "invalid type, expected a map"
    );
}
