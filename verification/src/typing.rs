//! From the Rust type of a field of a generated message to the shape of
//! the field: what a code generator has to tell before it can pick the
//! codec of a field.
//!
//! A type is looked at by the last segment of its path: `Option`, `Vec`,
//! `HashMap` and `BTreeMap` with their arguments, the names of the scalar
//! types, and the two well-known types that generated code holds directly.
use crate::error::{CanonicalError, Outcome};
use crate::schema::KeyKind;
use crate::text::same_text;
use vstd::prelude::*;

verus! {

/// An argument between angle brackets.
#[derive(Debug, PartialEq)]
pub enum GenericArg {
    Type(RustType),
    /// A lifetime, a constant or a binding.
    Other,
}

/// One segment of a path, with the arguments between angle brackets that
/// follow it, if any do.
#[derive(Debug, PartialEq)]
pub struct Segment {
    pub ident: String,
    pub arguments: Option<Vec<GenericArg>>,
}

/// A Rust type: a path, or anything else.
#[derive(Debug, PartialEq)]
pub enum RustType {
    Path(Vec<Segment>),
    Other,
}

/// The scalar kinds.
#[derive(Clone, Copy, Debug, PartialEq, Eq, Structural)]
pub enum ScalarKind {
    Bool,
    I32,
    U32,
    I64,
    U64,
    F32,
    F64,
    String,
}

/// The two maps that generated code uses.
#[derive(Clone, Copy, Debug, PartialEq, Eq, Structural)]
pub enum MapKind {
    Hash,
    BTree,
}

/// The shape of a field as its Rust type tells it.
#[derive(Debug, PartialEq)]
pub enum FieldKind {
    Scalar(ScalarKind),
    Bytes,
    Repeated(Box<FieldKind>),
    Keyed(MapKind, KeyKind, Box<FieldKind>),
    Optional(Box<FieldKind>),
    Enum,
    Timestamp,
    Duration,
    Message,
}

/// Whether the type is a path whose last segment has the name.
pub open spec fn ends_with_ident(ty: RustType, ident: Seq<char>) -> bool {
    ty matches RustType::Path(segments) && segments@.len() > 0 && segments@.last().ident@ == ident
}

/// Whether the type is a path whose last two segments have the two names.
pub open spec fn ends_with_pair(ty: RustType, outer: Seq<char>, inner: Seq<char>) -> bool {
    ty matches RustType::Path(segments) && segments@.len() >= 2 && segments@[segments@.len()
        - 2].ident@ == outer && segments@.last().ident@ == inner
}

/// Whether the type is a path that ends in the name and has a type as its
/// argument at place `index`.
pub open spec fn has_generic(ty: RustType, name: Seq<char>, index: int) -> bool {
    &&& ends_with_ident(ty, name)
    &&& ty->Path_0@.last().arguments matches Some(arguments) && 0 <= index < arguments@.len()
        && arguments@[index] is Type
}

/// The argument at place `index` of the last segment of a path.
pub open spec fn generic_of(ty: RustType, index: int) -> RustType {
    ty->Path_0@.last().arguments->Some_0@[index]->Type_0
}

/// The map that a type is, if it is one with a key type and a value type.
pub open spec fn map_kind_of(ty: RustType) -> Option<MapKind> {
    if has_generic(ty, "HashMap"@, 0) && has_generic(ty, "HashMap"@, 1) {
        Some(MapKind::Hash)
    } else if has_generic(ty, "BTreeMap"@, 0) && has_generic(ty, "BTreeMap"@, 1) {
        Some(MapKind::BTree)
    } else {
        None
    }
}

/// The kind of key that a type is.
pub open spec fn key_kind(ty: RustType) -> Outcome<KeyKind> {
    if ends_with_ident(ty, "String"@) {
        Ok(KeyKind::String)
    } else if ends_with_ident(ty, "bool"@) {
        Ok(KeyKind::Bool)
    } else if ends_with_ident(ty, "i32"@) {
        Ok(KeyKind::Int32)
    } else if ends_with_ident(ty, "i64"@) {
        Ok(KeyKind::Int64)
    } else if ends_with_ident(ty, "u32"@) {
        Ok(KeyKind::Uint32)
    } else if ends_with_ident(ty, "u64"@) {
        Ok(KeyKind::Uint64)
    } else {
        Err("unsupported map key type"@)
    }
}

/// The shape of a type that is no `Option`, `Vec` or map.
pub open spec fn plain_kind(ty: RustType) -> FieldKind {
    if ends_with_ident(ty, "bool"@) {
        FieldKind::Scalar(ScalarKind::Bool)
    } else if ends_with_ident(ty, "i32"@) {
        FieldKind::Scalar(ScalarKind::I32)
    } else if ends_with_ident(ty, "u32"@) {
        FieldKind::Scalar(ScalarKind::U32)
    } else if ends_with_ident(ty, "i64"@) {
        FieldKind::Scalar(ScalarKind::I64)
    } else if ends_with_ident(ty, "u64"@) {
        FieldKind::Scalar(ScalarKind::U64)
    } else if ends_with_ident(ty, "f32"@) {
        FieldKind::Scalar(ScalarKind::F32)
    } else if ends_with_ident(ty, "f64"@) {
        FieldKind::Scalar(ScalarKind::F64)
    } else if ends_with_ident(ty, "String"@) {
        FieldKind::Scalar(ScalarKind::String)
    } else if ends_with_pair(ty, "prost_types"@, "Timestamp"@) {
        FieldKind::Timestamp
    } else if ends_with_pair(ty, "prost_types"@, "Duration"@) {
        FieldKind::Duration
    } else {
        FieldKind::Message
    }
}

/// The shape of a type: an `Option` of a shape, bytes for a `Vec<u8>`, a
/// `Vec` of a shape, a map of keys to a shape, or the shape of a plain
/// type. A type that is none of the others is a message.
pub open spec fn kind_of(ty: RustType) -> Outcome<FieldKind>
    decreases ty,
{
    if has_generic(ty, "Option"@, 0) {
        match kind_of(generic_of(ty, 0)) {
            Ok(inner) => Ok(FieldKind::Optional(Box::new(inner))),
            Err(m) => Err(m),
        }
    } else if has_generic(ty, "Vec"@, 0) {
        if ends_with_ident(generic_of(ty, 0), "u8"@) {
            Ok(FieldKind::Bytes)
        } else {
            match kind_of(generic_of(ty, 0)) {
                Ok(inner) => Ok(FieldKind::Repeated(Box::new(inner))),
                Err(m) => Err(m),
            }
        }
    } else {
        match map_kind_of(ty) {
            Some(map) => match key_kind(generic_of(ty, 0)) {
                Err(m) => Err(m),
                Ok(key) => match kind_of(generic_of(ty, 1)) {
                    Ok(value) => Ok(FieldKind::Keyed(map, key, Box::new(value))),
                    Err(m) => Err(m),
                },
            },
            None => Ok(plain_kind(ty)),
        }
    }
}

/// The shape of a field that is declared to hold an enum: an `i32` that is
/// held plainly, in an `Option`, in a `Vec` or as the value of a map is the
/// number of an enum; anything else stays what it is.
pub open spec fn with_enum(kind: FieldKind) -> FieldKind {
    match kind {
        FieldKind::Scalar(ScalarKind::I32) => FieldKind::Enum,
        FieldKind::Repeated(inner) => if *inner == FieldKind::Scalar(ScalarKind::I32) {
            FieldKind::Repeated(Box::new(FieldKind::Enum))
        } else {
            kind
        },
        FieldKind::Optional(inner) => if *inner == FieldKind::Scalar(ScalarKind::I32) {
            FieldKind::Optional(Box::new(FieldKind::Enum))
        } else {
            kind
        },
        FieldKind::Keyed(map, key, inner) => if *inner == FieldKind::Scalar(ScalarKind::I32) {
            FieldKind::Keyed(map, key, Box::new(FieldKind::Enum))
        } else {
            kind
        },
        _ => kind,
    }
}

/// Whether the type is `prost_types::Value`: a path that ends in `Value`
/// and has a segment `prost_types`.
pub open spec fn prost_value_type(ty: RustType) -> bool {
    ends_with_ident(ty, "Value"@) && exists|i: int|
        0 <= i < ty->Path_0@.len() && (#[trigger] ty->Path_0@[i]).ident@ == "prost_types"@
}

pub fn path_ends_with_ident(ty: &RustType, ident: &str) -> (r: bool)
    ensures
        r == ends_with_ident(*ty, ident@),
{
    match ty {
        RustType::Path(segments) => segments.len() > 0 && same_text(
            segments[segments.len() - 1].ident.as_str(),
            ident,
        ),
        RustType::Other => false,
    }
}

pub fn path_ends_with(ty: &RustType, outer: &str, inner: &str) -> (r: bool)
    ensures
        r == ends_with_pair(*ty, outer@, inner@),
{
    match ty {
        RustType::Path(segments) => segments.len() >= 2 && same_text(
            segments[segments.len() - 2].ident.as_str(),
            outer,
        ) && same_text(segments[segments.len() - 1].ident.as_str(), inner),
        RustType::Other => false,
    }
}

/// The type argument at place `index` of a type that ends in the name.
pub fn extract_generic<'a>(ty: &'a RustType, name: &str, index: usize) -> (r: Option<&'a RustType>)
    ensures
        match r {
            Some(inner) => has_generic(*ty, name@, index as int) && *inner == generic_of(
                *ty,
                index as int,
            ),
            None => !has_generic(*ty, name@, index as int),
        },
{
    if !path_ends_with_ident(ty, name) {
        return None;
    }
    match ty {
        RustType::Path(segments) => match &segments[segments.len() - 1].arguments {
            Some(arguments) => {
                if index < arguments.len() {
                    match &arguments[index] {
                        GenericArg::Type(inner) => Some(inner),
                        GenericArg::Other => None,
                    }
                } else {
                    None
                }
            },
            None => None,
        },
        RustType::Other => None,
    }
}

/// The kind of map that a type is, with its key type and its value type.
pub fn extract_map_types<'a>(ty: &'a RustType) -> (r: Option<(MapKind, &'a RustType, &'a RustType)>)
    ensures
        match r {
            Some((map, key, value)) => map_kind_of(*ty) == Some(map) && *key == generic_of(*ty, 0)
                && *value == generic_of(*ty, 1),
            None => map_kind_of(*ty) is None,
        },
{
    proof {
        reveal_strlit("HashMap");
        reveal_strlit("BTreeMap");
        assert("HashMap"@.len() == 7 && "BTreeMap"@.len() == 8);
    }
    match (extract_generic(ty, "HashMap", 0), extract_generic(ty, "HashMap", 1)) {
        (Some(key), Some(value)) => {
            return Some((MapKind::Hash, key, value));
        },
        _ => {},
    }
    match (extract_generic(ty, "BTreeMap", 0), extract_generic(ty, "BTreeMap", 1)) {
        (Some(key), Some(value)) => Some((MapKind::BTree, key, value)),
        _ => None,
    }
}

/// The kind of key that a type is.
pub fn classify_key(ty: &RustType) -> (r: Result<KeyKind, CanonicalError>)
    ensures
        crate::number::outcome_of(r) == key_kind(*ty),
{
    if path_ends_with_ident(ty, "String") {
        Ok(KeyKind::String)
    } else if path_ends_with_ident(ty, "bool") {
        Ok(KeyKind::Bool)
    } else if path_ends_with_ident(ty, "i32") {
        Ok(KeyKind::Int32)
    } else if path_ends_with_ident(ty, "i64") {
        Ok(KeyKind::Int64)
    } else if path_ends_with_ident(ty, "u32") {
        Ok(KeyKind::Uint32)
    } else if path_ends_with_ident(ty, "u64") {
        Ok(KeyKind::Uint64)
    } else {
        Err(CanonicalError::new("unsupported map key type"))
    }
}

/// The shape of a type that is no `Option`, `Vec` or map.
fn classify_plain(ty: &RustType) -> (r: FieldKind)
    ensures
        r == plain_kind(*ty),
{
    if path_ends_with_ident(ty, "bool") {
        FieldKind::Scalar(ScalarKind::Bool)
    } else if path_ends_with_ident(ty, "i32") {
        FieldKind::Scalar(ScalarKind::I32)
    } else if path_ends_with_ident(ty, "u32") {
        FieldKind::Scalar(ScalarKind::U32)
    } else if path_ends_with_ident(ty, "i64") {
        FieldKind::Scalar(ScalarKind::I64)
    } else if path_ends_with_ident(ty, "u64") {
        FieldKind::Scalar(ScalarKind::U64)
    } else if path_ends_with_ident(ty, "f32") {
        FieldKind::Scalar(ScalarKind::F32)
    } else if path_ends_with_ident(ty, "f64") {
        FieldKind::Scalar(ScalarKind::F64)
    } else if path_ends_with_ident(ty, "String") {
        FieldKind::Scalar(ScalarKind::String)
    } else if path_ends_with(ty, "prost_types", "Timestamp") {
        FieldKind::Timestamp
    } else if path_ends_with(ty, "prost_types", "Duration") {
        FieldKind::Duration
    } else {
        FieldKind::Message
    }
}

/// The shape of a field as its type tells it.
pub fn classify_type(ty: &RustType) -> (r: Result<FieldKind, CanonicalError>)
    ensures
        crate::number::outcome_of(r) == kind_of(*ty),
    decreases ty,
{
    if let Some(inner) = extract_generic(ty, "Option", 0) {
        return match classify_type(inner) {
            Ok(kind) => Ok(FieldKind::Optional(Box::new(kind))),
            Err(e) => Err(e),
        };
    }
    if let Some(inner) = extract_generic(ty, "Vec", 0) {
        if path_ends_with_ident(inner, "u8") {
            return Ok(FieldKind::Bytes);
        }
        return match classify_type(inner) {
            Ok(kind) => Ok(FieldKind::Repeated(Box::new(kind))),
            Err(e) => Err(e),
        };
    }
    if let Some((map, key, value)) = extract_map_types(ty) {
        let key = match classify_key(key) {
            Ok(key) => key,
            Err(e) => {
                return Err(e);
            },
        };
        return match classify_type(value) {
            Ok(kind) => Ok(FieldKind::Keyed(map, key, Box::new(kind))),
            Err(e) => Err(e),
        };
    }
    Ok(classify_plain(ty))
}

/// Whether a shape is that of a plain `i32`.
fn is_plain_i32(kind: &FieldKind) -> (r: bool)
    ensures
        r == (*kind == FieldKind::Scalar(ScalarKind::I32)),
{
    matches!(kind, FieldKind::Scalar(ScalarKind::I32))
}

/// The shape of a field that is declared to hold an enum.
pub fn apply_enum(kind: FieldKind) -> (r: FieldKind)
    ensures
        r == with_enum(kind),
{
    match kind {
        FieldKind::Scalar(ScalarKind::I32) => FieldKind::Enum,
        FieldKind::Repeated(inner) => {
            if is_plain_i32(&inner) {
                FieldKind::Repeated(Box::new(FieldKind::Enum))
            } else {
                FieldKind::Repeated(inner)
            }
        },
        FieldKind::Optional(inner) => {
            if is_plain_i32(&inner) {
                FieldKind::Optional(Box::new(FieldKind::Enum))
            } else {
                FieldKind::Optional(inner)
            }
        },
        FieldKind::Keyed(map, key, inner) => {
            if is_plain_i32(&inner) {
                FieldKind::Keyed(map, key, Box::new(FieldKind::Enum))
            } else {
                FieldKind::Keyed(map, key, inner)
            }
        },
        other => other,
    }
}

/// Whether the type is `prost_types::Value`.
pub fn is_prost_value_type(ty: &RustType) -> (r: bool)
    ensures
        r == prost_value_type(*ty),
{
    if !path_ends_with_ident(ty, "Value") {
        return false;
    }
    match ty {
        RustType::Path(segments) => {
            let mut i: usize = 0;
            while i < segments.len()
                invariant
                    i <= segments.len(),
                    *ty == RustType::Path(*segments),
                    ends_with_ident(*ty, "Value"@),
                    forall|j: int| 0 <= j < i ==> (#[trigger] segments@[j]).ident@ != "prost_types"@,
                decreases segments.len() - i,
            {
                if same_text(segments[i].ident.as_str(), "prost_types") {
                    assert((#[trigger] segments@[i as int]).ident@ == "prost_types"@);
                    return true;
                }
                i = i + 1;
            }
            false
        },
        RustType::Other => false,
    }
}

/// Whether `needle` stands in `text` at place `i`.
pub open spec fn stands_at(text: Seq<char>, needle: Seq<char>, i: int) -> bool {
    0 <= i && i + needle.len() <= text.len() && text.subrange(i, i + needle.len()) == needle
}

/// The first place at or after `from` where `needle` stands in `text`.
pub open spec fn first_match(text: Seq<char>, needle: Seq<char>, from: int) -> Option<int>
    decreases text.len() - from + 1,
{
    if from < 0 || from + needle.len() > text.len() {
        None
    } else if stands_at(text, needle, from) {
        Some(from)
    } else {
        first_match(text, needle, from + 1)
    }
}

/// Finds the first place where `needle` stands in `text`.
pub fn find_text(text: &Vec<char>, needle: &Vec<char>) -> (r: Option<usize>)
    ensures
        match r {
            Some(i) => first_match(text@, needle@, 0) == Some(i as int) && i + needle.len()
                <= text.len(),
            None => first_match(text@, needle@, 0) is None,
        },
{
    let mut i: usize = 0;
    while needle.len() <= text.len() && i <= text.len() - needle.len()
        invariant
            first_match(text@, needle@, 0) == first_match(text@, needle@, i as int),
        decreases text.len() - i,
    {
        let mut k: usize = 0;
        while k < needle.len() && text[i + k] == needle[k]
            invariant
                k <= needle.len(),
                i + needle.len() <= text.len(),
                forall|j: int| 0 <= j < k ==> text@[i + j] == needle@[j],
            decreases needle.len() - k,
        {
            k = k + 1;
        }
        if k == needle.len() {
            assert(text@.subrange(i as int, i + needle.len()) =~= needle@);
            return Some(i);
        }
        proof {
            assert(text@.subrange(i as int, i + needle.len())[k as int] == text@[i + k]);
        }
        i = i + 1;
    }
    None
}

/// What the standard library's `str::trim` leaves of a text.
pub uninterp spec fn trimmed(text: Seq<char>) -> Seq<char>;

/// `str::trim`: the text without white space at its ends. The result is
/// named.
#[verifier::external_body]
fn trim_text(text: &str) -> (r: String)
    ensures
        r@ == trimmed(text@),
{
    text.trim().to_owned()
}

/// The path of the enum that the description of a map names: what stands
/// between `enumeration(` and the next `)`, without white space at its
/// ends, if the description has such a part and it is not empty.
pub open spec fn enum_path_in(value: Seq<char>) -> Outcome<Option<Seq<char>>> {
    match first_match(value, "enumeration("@, 0) {
        None => Ok(None),
        Some(i) => {
            let rest = value.skip(i + "enumeration("@.len());
            let end = crate::text::find(rest, ')');
            if end >= rest.len() {
                Err("invalid map enum"@)
            } else if trimmed(rest.take(end)).len() == 0 {
                Ok(None)
            } else {
                Ok(Some(trimmed(rest.take(end))))
            }
        },
    }
}

/// A path, if it is not empty.
pub fn path_if_any(path: String) -> (r: Option<String>)
    ensures
        match r {
            Some(p) => path@.len() > 0 && p@ == path@,
            None => path@.len() == 0,
        },
{
    if path.as_str().unicode_len() == 0 {
        None
    } else {
        Some(path)
    }
}

/// Reads the path of an enum out of the description of a map.
pub fn parse_enum_path_from_map(value: &str) -> (r: Result<Option<String>, CanonicalError>)
    ensures
        match r {
            Ok(Some(path)) => enum_path_in(value@) == Ok::<Option<Seq<char>>, Seq<char>>(
                Some(path@),
            ),
            Ok(None) => enum_path_in(value@) == Ok::<Option<Seq<char>>, Seq<char>>(None),
            Err(e) => enum_path_in(value@) == Err::<Option<Seq<char>>, Seq<char>>(e@),
        },
{
    let text = crate::text::chars_of(value);
    let needle = crate::text::chars_of("enumeration(");
    let start = match find_text(&text, &needle) {
        Some(index) => index + needle.len(),
        None => {
            return Ok(None);
        },
    };
    let end = crate::text::find_from(&text, start, ')');
    if end >= text.len() {
        return Err(CanonicalError::new("invalid map enum"));
    }
    let inner = crate::text::slice_of(&text, start, end);
    assert(inner@ =~= text@.skip(start as int).take(end - start));
    Ok(path_if_any(trim_text(crate::text::string_of(&inner).as_str())))
}

/// What a generator knows of a field once it has looked at it.
#[derive(Debug, PartialEq)]
pub struct FieldInfo {
    pub kind: FieldKind,
    pub is_oneof: bool,
    pub json_name: String,
    pub proto_name: String,
}

/// Looks at a field: its shape from its type, seen as an enum where it is
/// declared as one, and as an optional message where it is a oneof held in
/// an `Option`; its protobuf name from its attribute or else its
/// identifier; its JSON name from its attribute or else derived from the
/// protobuf name.
pub fn from_field(
    ident: &str,
    ty: &RustType,
    is_oneof: bool,
    is_enum: bool,
    proto_name: Option<&str>,
    json_name: Option<&str>,
) -> (r: Result<FieldInfo, CanonicalError>)
    ensures
        match r {
            Ok(info) => {
                &&& kind_of(*ty) is Ok
                &&& info.kind == (if is_oneof && has_generic(*ty, "Option"@, 0) {
                    FieldKind::Optional(Box::new(FieldKind::Message))
                } else if is_enum {
                    with_enum(kind_of(*ty)->Ok_0)
                } else {
                    kind_of(*ty)->Ok_0
                })
                &&& info.is_oneof == is_oneof
                &&& info.proto_name@ == (match proto_name {
                    Some(n) => n@,
                    None => ident@,
                })
                &&& info.json_name@ == (match json_name {
                    Some(n) => n@,
                    None => crate::schema::json_name_of(info.proto_name@),
                })
            },
            Err(e) => kind_of(*ty) == Err::<FieldKind, Seq<char>>(e@),
        },
{
    let mut kind = match classify_type(ty) {
        Ok(kind) => kind,
        Err(e) => {
            return Err(e);
        },
    };
    if is_enum {
        kind = apply_enum(kind);
    }
    if is_oneof {
        if let Some(_) = extract_generic(ty, "Option", 0) {
            kind = FieldKind::Optional(Box::new(FieldKind::Message));
        }
    }
    let proto = match proto_name {
        Some(n) => n.to_owned(),
        None => ident.to_owned(),
    };
    let json = match json_name {
        Some(n) => n.to_owned(),
        None => crate::schema::to_json_name(proto.as_str()),
    };
    Ok(FieldInfo { kind, is_oneof, json_name: json, proto_name: proto })
}

} // verus!
