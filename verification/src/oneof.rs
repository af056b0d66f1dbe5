//! A oneof on its own: a JSON object with one member, which names the
//! active member of the oneof.
use crate::codec::json_outcome;
use crate::decode::{decode_element, element_from_json};
use crate::encode::{element_json, encode_element};
use crate::error::{CanonicalError, Outcome};
use crate::json::{lemma_members_view, members_view, Json, JsonValue};
use crate::message::{element_model, Element, ElementModel};
use crate::schema::{find_member, member_place, OneofMember, Schema};
use vstd::prelude::*;

verus! {

/// What a key of a JSON object is to a oneof.
pub enum OneofMatch<T> {
    /// The key did not match any oneof field.
    NoMatch,
    /// The key matched a oneof field; `None` means "skip value".
    Matched(Option<T>),
}

/// What a member of a JSON object is to a oneof: no match where the key
/// names no member of the oneof; a match without a value where the JSON is
/// `null`; else a match with the place of the member and the value read.
pub open spec fn oneof_match(
    schema: Schema,
    members: Seq<OneofMember>,
    key: Seq<char>,
    json: JsonValue,
) -> Outcome<OneofMatch<(usize, ElementModel)>> {
    let m = member_place(members, key);
    if !(0 <= m < members.len()) {
        Ok(OneofMatch::NoMatch)
    } else {
        match json {
            JsonValue::Null => Ok(OneofMatch::Matched(None)),
            _ => match element_from_json(schema, members[m].kind, json) {
                Ok(e) => Ok(OneofMatch::Matched(Some((m as usize, e)))),
                Err(msg) => Err(msg),
            },
        }
    }
}

/// A match as an outcome over models.
pub open spec fn match_outcome(r: Result<OneofMatch<(usize, Element)>, CanonicalError>) -> Outcome<
    OneofMatch<(usize, ElementModel)>,
> {
    match r {
        Ok(OneofMatch::NoMatch) => Ok(OneofMatch::NoMatch),
        Ok(OneofMatch::Matched(None)) => Ok(OneofMatch::Matched(None)),
        Ok(OneofMatch::Matched(Some((m, e)))) => Ok(
            OneofMatch::Matched(Some((m, element_model(e)))),
        ),
        Err(e) => Err(e@),
    }
}

/// Tries a member of a JSON object on a oneof.
pub fn try_deserialize(schema: &Schema, members: &Vec<OneofMember>, key: &str, json: &Json) -> (r:
    Result<OneofMatch<(usize, Element)>, CanonicalError>)
    ensures
        match_outcome(r) == oneof_match(*schema, members@, key@, json@),
{
    let m = find_member(members, key);
    if m >= members.len() {
        return Ok(OneofMatch::NoMatch);
    }
    match json {
        Json::Null => Ok(OneofMatch::Matched(None)),
        _ => match decode_element(schema, members[m].kind, json) {
            Ok(e) => Ok(OneofMatch::Matched(Some((m, e)))),
            Err(e) => Err(e),
        },
    }
}

/// The member of a JSON object that the active member of a oneof is
/// written as: its JSON name and its value.
pub open spec fn oneof_member_json(
    schema: Schema,
    members: Seq<OneofMember>,
    active: (usize, ElementModel),
) -> Outcome<(Seq<char>, JsonValue)> {
    if active.0 < members.len() {
        match element_json(schema, members[active.0 as int].kind, active.1) {
            Ok(j) => Ok((members[active.0 as int].json_name@, j)),
            Err(m) => Err(m),
        }
    } else {
        Err("message does not match its descriptor"@)
    }
}

/// Writes the active member of a oneof as a member of a JSON object.
pub fn serialize_field(schema: &Schema, members: &Vec<OneofMember>, active: &(usize, Element)) -> (r:
    Result<(String, Json), CanonicalError>)
    ensures
        match r {
            Ok(member) => oneof_member_json(
                *schema,
                members@,
                (active.0, element_model(active.1)),
            ) == Ok::<(Seq<char>, JsonValue), Seq<char>>((member.0@, member.1@)),
            Err(e) => oneof_member_json(*schema, members@, (active.0, element_model(active.1)))
                == Err::<(Seq<char>, JsonValue), Seq<char>>(e@),
        },
{
    if active.0 < members.len() {
        match encode_element(schema, members[active.0].kind, &active.1) {
            Ok(j) => Ok((members[active.0].json_name.clone(), j)),
            Err(e) => Err(e),
        }
    } else {
        Err(CanonicalError::new("message does not match its descriptor"))
    }
}

/// The JSON object of a oneof on its own: the one member that its active
/// member is written as.
pub open spec fn oneof_json(schema: Schema, members: Seq<OneofMember>, active: (
    usize,
    ElementModel,
)) -> Outcome<JsonValue> {
    match oneof_member_json(schema, members, active) {
        Ok(member) => Ok(JsonValue::Object(seq![member])),
        Err(m) => Err(m),
    }
}

/// Writes a oneof on its own as a JSON object.
pub fn serialize_oneof(schema: &Schema, members: &Vec<OneofMember>, active: &(usize, Element)) -> (r:
    Result<Json, CanonicalError>)
    ensures
        json_outcome(r) == oneof_json(*schema, members@, (active.0, element_model(active.1))),
{
    match serialize_field(schema, members, active) {
        Ok(member) => {
            let mut object: Vec<(String, Json)> = Vec::new();
            object.push(member);
            proof {
                lemma_members_view(object@);
                assert(members_view(object@) =~= seq![(member.0@, member.1@)]);
            }
            Ok(Json::Object(object))
        },
        Err(e) => Err(e),
    }
}

/// What is found of a oneof after one more member of the JSON object: a
/// member that matches with a value is found, unless another member was
/// found before.
pub open spec fn found_after(
    schema: Schema,
    members: Seq<OneofMember>,
    found: Option<(usize, ElementModel)>,
    entry: (Seq<char>, JsonValue),
) -> Outcome<Option<(usize, ElementModel)>> {
    match oneof_match(schema, members, entry.0, entry.1) {
        Err(m) => Err(m),
        Ok(OneofMatch::NoMatch) => Ok(found),
        Ok(OneofMatch::Matched(None)) => Ok(found),
        Ok(OneofMatch::Matched(Some(v))) => match found {
            Some(before) if before.0 != v.0 => Err("multiple oneof fields set"@),
            _ => Ok(Some(v)),
        },
    }
}

/// What is found of a oneof among the members of a JSON object.
pub open spec fn found_among(
    schema: Schema,
    members: Seq<OneofMember>,
    entries: Seq<(Seq<char>, JsonValue)>,
) -> Outcome<Option<(usize, ElementModel)>>
    decreases entries.len(),
{
    if entries.len() == 0 {
        Ok(None)
    } else {
        match found_among(schema, members, entries.drop_last()) {
            Err(m) => Err(m),
            Ok(found) => found_after(schema, members, found, entries.last()),
        }
    }
}

/// The oneof that a JSON object stands for: the member found among the
/// members of the object. One must be found.
pub open spec fn oneof_from_json(schema: Schema, members: Seq<OneofMember>, json: JsonValue) -> Outcome<
    (usize, ElementModel),
> {
    match json {
        JsonValue::Object(entries) => match found_among(schema, members, entries) {
            Err(m) => Err(m),
            Ok(None) => Err("expected oneof field"@),
            Ok(Some(v)) => Ok(v),
        },
        _ => Err("invalid type, expected a map"@),
    }
}

/// An error at one member of the object, with none before it, is the error
/// of the whole.
pub proof fn lemma_found_among_error(
    schema: Schema,
    members: Seq<OneofMember>,
    entries: Seq<(Seq<char>, JsonValue)>,
    i: int,
)
    requires
        0 <= i < entries.len(),
        found_among(schema, members, entries.take(i)) is Ok,
        found_after(
            schema,
            members,
            found_among(schema, members, entries.take(i))->Ok_0,
            entries[i],
        ) is Err,
    ensures
        found_among(schema, members, entries) == Err::<Option<(usize, ElementModel)>, Seq<char>>(
            found_after(
                schema,
                members,
                found_among(schema, members, entries.take(i))->Ok_0,
                entries[i],
            )->Err_0,
        ),
    decreases entries.len(),
{
    if i == entries.len() - 1 {
        assert(entries.drop_last() =~= entries.take(i));
    } else {
        assert(entries.drop_last().take(i) =~= entries.take(i));
        lemma_found_among_error(schema, members, entries.drop_last(), i);
    }
}

/// The model of what was found.
pub open spec fn found_model(found: Option<(usize, Element)>) -> Option<(usize, ElementModel)> {
    match found {
        Some((m, e)) => Some((m, element_model(e))),
        None => None,
    }
}

/// Reads a JSON object as a oneof on its own.
pub fn deserialize_oneof(schema: &Schema, members: &Vec<OneofMember>, json: &Json) -> (r: Result<
    (usize, Element),
    CanonicalError,
>)
    ensures
        match r {
            Ok(v) => oneof_from_json(*schema, members@, json@) == Ok::<
                (usize, ElementModel),
                Seq<char>,
            >((v.0, element_model(v.1))),
            Err(e) => oneof_from_json(*schema, members@, json@) == Err::<
                (usize, ElementModel),
                Seq<char>,
            >(e@),
        },
{
    let entries = match json {
        Json::Object(entries) => entries,
        _ => {
            return Err(CanonicalError::new("invalid type, expected a map"));
        },
    };
    let ghost all = members_view(entries@);
    let mut found: Option<(usize, Element)> = None;
    let mut i: usize = 0;
    proof {
        lemma_members_view(entries@);
        assert(all.take(0) =~= Seq::<(Seq<char>, JsonValue)>::empty());
    }
    while i < entries.len()
        invariant
            i <= entries.len(),
            json@ == JsonValue::Object(all),
            all == members_view(entries@),
            all.len() == entries.len(),
            forall|k: int|
                0 <= k < entries.len() ==> #[trigger] all[k] == (entries@[k].0@, entries@[k].1@),
            found_among(*schema, members@, all.take(i as int)) == Ok::<
                Option<(usize, ElementModel)>,
                Seq<char>,
            >(found_model(found)),
        decreases entries.len() - i,
    {
        proof {
            let next = all.take(i + 1);
            assert(next.drop_last() =~= all.take(i as int));
            assert(next.last() == all[i as int]);
        }
        match try_deserialize(schema, members, entries[i].0.as_str(), &entries[i].1) {
            Err(e) => {
                proof {
                    lemma_found_among_error(*schema, members@, all, i as int);
                }
                return Err(e);
            },
            Ok(OneofMatch::NoMatch) => {},
            Ok(OneofMatch::Matched(None)) => {},
            Ok(OneofMatch::Matched(Some(v))) => {
                let other = match &found {
                    Some(before) => before.0 != v.0,
                    None => false,
                };
                if other {
                    proof {
                        lemma_found_among_error(*schema, members@, all, i as int);
                    }
                    return Err(CanonicalError::new("multiple oneof fields set"));
                }
                found = Some(v);
            },
        }
        i = i + 1;
    }
    assert(all.take(entries.len() as int) =~= all);
    match found {
        Some(v) => Ok(v),
        None => Err(CanonicalError::new("expected oneof field")),
    }
}

} // verus!
