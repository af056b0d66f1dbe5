//! Field attributes for generated message types: for every field of every
//! message of a set of files, the attribute that tells a generated type the
//! protobuf name and the JSON name of the field.
//!
//! A code generator is handed each attribute together with the path of the
//! field it is for. A member of a oneof gets its attribute twice: at the
//! path of the field in the message, and at its path in the oneof.
use crate::text::{chars_of, push_all, string_of};
use vstd::prelude::*;

verus! {

/// What a file's descriptor says of a field.
#[derive(Debug, PartialEq)]
pub struct FieldProto {
    pub name: Option<String>,
    pub json_name: Option<String>,
    pub oneof_index: Option<i32>,
}

/// What a file's descriptor says of a message type.
#[derive(Debug, PartialEq)]
pub struct MessageProto {
    pub name: Option<String>,
    pub fields: Vec<FieldProto>,
    /// The names of the oneofs that the message declares.
    pub oneofs: Vec<Option<String>>,
    pub nested: Vec<MessageProto>,
}

/// What a descriptor says of a file.
#[derive(Debug, PartialEq)]
pub struct FileProto {
    pub package: Option<String>,
    pub messages: Vec<MessageProto>,
}

/// What the standard library's `Debug` makes of a string: the string
/// between double quotes, with escapes.
pub uninterp spec fn debug_quoted(text: Seq<char>) -> Seq<char>;

/// `format!` with `{:?}` on a `str`, which is `<str as core::fmt::Debug>::fmt`.
/// The result is named.
#[verifier::external_body]
fn quoted(text: &str) -> (r: String)
    ensures
        r@ == debug_quoted(text@),
{
    format!("{:?}", text)
}

/// The attribute for a field with the two names.
pub open spec fn attribute_text(proto_name: Seq<char>, json_name: Seq<char>) -> Seq<char> {
    "#[prost_canonical_serde(proto_name = "@ + debug_quoted(proto_name) + ", json_name = "@
        + debug_quoted(json_name) + ")]"@
}

/// The two parts of a path with a dot between them.
pub open spec fn dotted(a: Seq<char>, b: Seq<char>) -> Seq<char> {
    a + seq!['.'] + b
}

/// An attribute with the path of what it is for.
pub type Attributed = (Seq<char>, Seq<char>);

/// The attributes for one field of the message with the given full name:
/// none for a field without a name; else one at the field's path, and one
/// more at its path in its oneof where it has one and the oneof has a name.
pub open spec fn field_attributes(message: Seq<char>, oneofs: Seq<Option<String>>, field: FieldProto) -> Seq<
    Attributed,
> {
    match field.name {
        None => Seq::empty(),
        Some(name) => {
            let json = match field.json_name {
                Some(j) => j@,
                None => name@,
            };
            let attribute = attribute_text(name@, json);
            let first = seq![(dotted(message, name@), attribute)];
            match field.oneof_index {
                Some(i) if 0 <= i < oneofs.len() && oneofs[i as int] is Some => first.push(
                    (dotted(dotted(message, oneofs[i as int]->Some_0@), name@), attribute),
                ),
                _ => first,
            }
        },
    }
}

/// The attributes for the fields of a message, field after field.
pub open spec fn fields_attributes(
    message: Seq<char>,
    oneofs: Seq<Option<String>>,
    fields: Seq<FieldProto>,
) -> Seq<Attributed>
    decreases fields.len(),
{
    if fields.len() == 0 {
        Seq::empty()
    } else {
        fields_attributes(message, oneofs, fields.drop_last()) + field_attributes(
            message,
            oneofs,
            fields.last(),
        )
    }
}

/// The attributes for a message with the given full name: those for its
/// fields, then those for the messages nested in it.
pub open spec fn message_attributes(name: Seq<char>, message: MessageProto) -> Seq<Attributed>
    decreases message, 1nat,
{
    fields_attributes(name, message.oneofs@, message.fields@) + nested_attributes(
        name,
        message.nested@,
    )
}

/// The attributes for messages nested in the message with the given full
/// name, message after message. A message without a name gets none.
pub open spec fn nested_attributes(outer: Seq<char>, messages: Seq<MessageProto>) -> Seq<Attributed>
    decreases messages, 0nat,
{
    if messages.len() == 0 {
        Seq::empty()
    } else {
        nested_attributes(outer, messages.drop_last()) + match messages.last().name {
            Some(name) => message_attributes(dotted(outer, name@), messages.last()),
            None => Seq::empty(),
        }
    }
}

/// The full name of a message of a file: the package, where there is one,
/// a dot and the name.
pub open spec fn full_name(package: Option<String>, name: Seq<char>) -> Seq<char> {
    match package {
        Some(p) if p@.len() > 0 => dotted(p@, name),
        _ => name,
    }
}

/// The attributes for the messages of a file, message after message.
pub open spec fn top_attributes(package: Option<String>, messages: Seq<MessageProto>) -> Seq<
    Attributed,
>
    decreases messages.len(),
{
    if messages.len() == 0 {
        Seq::empty()
    } else {
        top_attributes(package, messages.drop_last()) + match messages.last().name {
            Some(name) => message_attributes(full_name(package, name@), messages.last()),
            None => Seq::empty(),
        }
    }
}

/// The attributes for the files of a set, file after file.
pub open spec fn files_attributes(files: Seq<FileProto>) -> Seq<Attributed>
    decreases files.len(),
{
    if files.len() == 0 {
        Seq::empty()
    } else {
        files_attributes(files.drop_last()) + top_attributes(
            files.last().package,
            files.last().messages@,
        )
    }
}

/// The models of a row of attributes with their paths.
pub open spec fn attributed(out: Seq<(String, String)>) -> Seq<Attributed> {
    Seq::new(out.len(), |i: int| (out[i].0@, out[i].1@))
}

/// The two parts of a path with a dot between them.
pub fn join_path(a: &str, b: &str) -> (r: String)
    ensures
        r@ == dotted(a@, b@),
{
    let mut out: Vec<char> = chars_of(a);
    out.push('.');
    push_all(&mut out, &chars_of(b));
    assert(out@ =~= dotted(a@, b@));
    string_of(&out)
}

/// The attribute around the two names as they are written in Rust source.
pub open spec fn attribute_around(proto_literal: Seq<char>, json_literal: Seq<char>) -> Seq<char> {
    "#[prost_canonical_serde(proto_name = "@ + proto_literal + ", json_name = "@ + json_literal
        + ")]"@
}

/// Writes the attribute around the two names, each given as a string
/// literal of Rust source.
pub fn attribute_with(proto_literal: &str, json_literal: &str) -> (r: String)
    ensures
        r@ == attribute_around(proto_literal@, json_literal@),
{
    let mut out: Vec<char> = chars_of("#[prost_canonical_serde(proto_name = ");
    push_all(&mut out, &chars_of(proto_literal));
    push_all(&mut out, &chars_of(", json_name = "));
    push_all(&mut out, &chars_of(json_literal));
    push_all(&mut out, &chars_of(")]"));
    assert(out@ =~= attribute_around(proto_literal@, json_literal@));
    string_of(&out)
}

/// Writes the attribute for a field with the two names.
pub fn attribute_for(proto_name: &str, json_name: &str) -> (r: String)
    ensures
        r@ == attribute_text(proto_name@, json_name@),
{
    attribute_with(quoted(proto_name).as_str(), quoted(json_name).as_str())
}

/// Adds the attributes for one field.
fn add_field_attributes(
    out: &mut Vec<(String, String)>,
    message: &str,
    oneofs: &Vec<Option<String>>,
    field: &FieldProto,
)
    ensures
        attributed(final(out)@) == attributed(old(out)@) + field_attributes(
            message@,
            oneofs@,
            *field,
        ),
{
    let ghost before = attributed(out@);
    let proto_name = match &field.name {
        None => {
            assert(attributed(out@) =~= before + field_attributes(message@, oneofs@, *field));
            return ;
        },
        Some(name) => name,
    };
    let json_name = match &field.json_name {
        Some(j) => j,
        None => proto_name,
    };
    let attribute = attribute_for(proto_name.as_str(), json_name.as_str());
    let path = join_path(message, proto_name.as_str());
    out.push((path, attribute.clone()));
    if let Some(index) = field.oneof_index {
        if index >= 0 && (index as usize) < oneofs.len() {
            if let Some(oneof) = &oneofs[index as usize] {
                let inner = join_path(message, oneof.as_str());
                let in_oneof = join_path(inner.as_str(), proto_name.as_str());
                out.push((in_oneof, attribute));
            }
        }
    }
    assert(attributed(out@) =~= before + field_attributes(message@, oneofs@, *field));
}

/// Adds the attributes for a message with the given full name and for the
/// messages nested in it.
pub fn add_message_field_attributes(
    out: &mut Vec<(String, String)>,
    fq_message_name: &str,
    message: &MessageProto,
)
    ensures
        attributed(final(out)@) == attributed(old(out)@) + message_attributes(
            fq_message_name@,
            *message,
        ),
    decreases message,
{
    let ghost before = attributed(out@);
    let mut i: usize = 0;
    while i < message.fields.len()
        invariant
            i <= message.fields.len(),
            attributed(out@) == before + fields_attributes(
                fq_message_name@,
                message.oneofs@,
                message.fields@.take(i as int),
            ),
        decreases message.fields.len() - i,
    {
        proof {
            let next = message.fields@.take(i + 1);
            assert(next.drop_last() =~= message.fields@.take(i as int));
            assert(next.last() == message.fields@[i as int]);
        }
        add_field_attributes(out, fq_message_name, &message.oneofs, &message.fields[i]);
        i = i + 1;
        assert(attributed(out@) =~= before + fields_attributes(
            fq_message_name@,
            message.oneofs@,
            message.fields@.take(i as int),
        ));
    }
    assert(message.fields@.take(message.fields.len() as int) =~= message.fields@);
    let ghost after_fields = attributed(out@);
    let mut j: usize = 0;
    while j < message.nested.len()
        invariant
            j <= message.nested.len(),
            attributed(out@) == after_fields + nested_attributes(
                fq_message_name@,
                message.nested@.take(j as int),
            ),
        decreases message.nested.len() - j,
    {
        proof {
            let next = message.nested@.take(j + 1);
            assert(next.drop_last() =~= message.nested@.take(j as int));
            assert(next.last() == message.nested@[j as int]);
        }
        let nested = &message.nested[j];
        if let Some(name) = &nested.name {
            let inner = join_path(fq_message_name, name.as_str());
            add_message_field_attributes(out, inner.as_str(), nested);
        }
        j = j + 1;
        assert(attributed(out@) =~= after_fields + nested_attributes(
            fq_message_name@,
            message.nested@.take(j as int),
        ));
    }
    assert(message.nested@.take(message.nested.len() as int) =~= message.nested@);
    assert(attributed(out@) =~= before + message_attributes(fq_message_name@, *message));
}

/// The `prost_canonical_serde` field attributes with protobuf and JSON
/// names, each with the path of the field it is for, for every message of
/// every file.
pub fn add_json_name_attributes(files: &Vec<FileProto>) -> (r: Vec<(String, String)>)
    ensures
        attributed(r@) == files_attributes(files@),
{
    let mut out: Vec<(String, String)> = Vec::new();
    let mut f: usize = 0;
    assert(attributed(out@) =~= files_attributes(files@.take(0)));
    while f < files.len()
        invariant
            f <= files.len(),
            attributed(out@) == files_attributes(files@.take(f as int)),
        decreases files.len() - f,
    {
        let file = &files[f];
        proof {
            let next = files@.take(f + 1);
            assert(next.drop_last() =~= files@.take(f as int));
            assert(next.last() == *file);
        }
        let ghost before = attributed(out@);
        let mut i: usize = 0;
        while i < file.messages.len()
            invariant
                i <= file.messages.len(),
                attributed(out@) == before + top_attributes(
                    file.package,
                    file.messages@.take(i as int),
                ),
            decreases file.messages.len() - i,
        {
            proof {
                let next = file.messages@.take(i + 1);
                assert(next.drop_last() =~= file.messages@.take(i as int));
                assert(next.last() == file.messages@[i as int]);
            }
            let message = &file.messages[i];
            if let Some(name) = &message.name {
                let no_package = match &file.package {
                    Some(p) => p.as_str().unicode_len() == 0,
                    None => true,
                };
                if no_package {
                    add_message_field_attributes(&mut out, name.as_str(), message);
                } else {
                    let package = match &file.package {
                        Some(p) => p.as_str(),
                        None => "",
                    };
                    let fq_name = join_path(package, name.as_str());
                    add_message_field_attributes(&mut out, fq_name.as_str(), message);
                }
            }
            i = i + 1;
            assert(attributed(out@) =~= before + top_attributes(
                file.package,
                file.messages@.take(i as int),
            ));
        }
        assert(file.messages@.take(file.messages.len() as int) =~= file.messages@);
        f = f + 1;
    }
    assert(files@.take(files.len() as int) =~= files@);
    out
}

} // verus!
