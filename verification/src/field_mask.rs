//! `google.protobuf.FieldMask`: a set of field paths, written in JSON as one
//! string. Paths are joined by commas; the segments of a path are joined by
//! dots; a segment is `snake_case` in the message and `lowerCamelCase` in
//! JSON.
use crate::codec::{CanonicalDeserialize, CanonicalSerialize};
use crate::error::{CanonicalError, Outcome};
use crate::json::{Json, JsonValue};
use crate::text::{
    all_without, chars_of, join, join_chars, rows, split, split_chars, string_of, without,
};
use crate::timestamp::has_char;
use vstd::prelude::*;

verus! {

/// A set of field paths.
#[derive(Debug, PartialEq)]
pub struct FieldMask {
    pub paths: Vec<String>,
}

/// The texts that a vector of strings holds.
pub open spec fn texts(v: Seq<String>) -> Seq<Seq<char>> {
    Seq::new(v.len(), |i: int| v[i]@)
}

impl DeepView for FieldMask {
    type V = Seq<Seq<char>>;

    open spec fn deep_view(&self) -> Seq<Seq<char>> {
        texts(self.paths@)
    }
}

pub open spec fn is_upper(c: char) -> bool {
    'A' <= c <= 'Z'
}

pub open spec fn is_lower(c: char) -> bool {
    'a' <= c <= 'z'
}

/// The lower case form of an ASCII letter; any other character unchanged.
pub open spec fn lowered(c: char) -> char {
    if is_upper(c) {
        ((c as u32) + 32) as char
    } else {
        c
    }
}

/// The upper case form of an ASCII letter; any other character unchanged.
pub open spec fn raised(c: char) -> char {
    if is_lower(c) {
        ((c as u32) - 32) as char
    } else {
        c
    }
}

/// One part of a `snake_case` name as it appears in `lowerCamelCase`: the
/// first part starts in lower case, every later part in upper case, and an
/// empty part leaves nothing.
pub open spec fn camel_part(part: Seq<char>, first: bool) -> Seq<char> {
    if part.len() == 0 {
        part
    } else {
        seq![if first { lowered(part[0]) } else { raised(part[0]) }] + part.skip(1)
    }
}

/// The parts of a name, each as it appears in `lowerCamelCase`, in a row.
pub open spec fn camel_parts(parts: Seq<Seq<char>>) -> Seq<char>
    decreases parts.len(),
{
    if parts.len() == 0 {
        Seq::empty()
    } else {
        camel_parts(parts.drop_last()) + camel_part(parts.last(), parts.len() == 1)
    }
}

/// The `lowerCamelCase` form of a `snake_case` name: the underscores go, and
/// the letter after each becomes upper case.
pub open spec fn camel(name: Seq<char>) -> Seq<char> {
    camel_parts(split(name, '_'))
}

/// One character of a `lowerCamelCase` name as it appears in `snake_case`:
/// an upper case letter becomes lower case, after an underscore unless it
/// starts the name.
pub open spec fn snake_piece(c: char, leading: bool) -> Seq<char> {
    if is_upper(c) {
        if leading {
            seq![lowered(c)]
        } else {
            seq!['_', lowered(c)]
        }
    } else {
        seq![c]
    }
}

/// The `snake_case` form of a `lowerCamelCase` name.
pub open spec fn snake(name: Seq<char>) -> Seq<char>
    decreases name.len(),
{
    if name.len() == 0 {
        Seq::empty()
    } else {
        snake(name.drop_last()) + snake_piece(name.last(), name.len() == 1)
    }
}

/// The JSON form of one segment of a path. A segment whose JSON form does
/// not lead back to it is refused.
pub open spec fn segment_json(segment: Seq<char>) -> Outcome<Seq<char>> {
    if segment.len() == 0 {
        Err("field mask segment is empty"@)
    } else if snake(camel(segment)) != segment {
        Err("field mask segment does not round trip"@)
    } else {
        Ok(camel(segment))
    }
}

/// The JSON forms of the segments of a path, or the first error among them.
pub open spec fn segments_json(segments: Seq<Seq<char>>) -> Outcome<Seq<Seq<char>>>
    decreases segments.len(),
{
    if segments.len() == 0 {
        Ok(Seq::empty())
    } else {
        match segments_json(segments.drop_last()) {
            Err(m) => Err(m),
            Ok(done) => match segment_json(segments.last()) {
                Err(m) => Err(m),
                Ok(c) => Ok(done.push(c)),
            },
        }
    }
}

/// The JSON form of one path.
pub open spec fn path_json(path: Seq<char>) -> Outcome<Seq<char>> {
    if path.len() == 0 {
        Err("field mask path is empty"@)
    } else {
        match segments_json(split(path, '.')) {
            Err(m) => Err(m),
            Ok(segments) => Ok(join(segments, '.')),
        }
    }
}

/// The JSON forms of the paths of a mask, or the first error among them.
pub open spec fn paths_json(paths: Seq<Seq<char>>) -> Outcome<Seq<Seq<char>>>
    decreases paths.len(),
{
    if paths.len() == 0 {
        Ok(Seq::empty())
    } else {
        match paths_json(paths.drop_last()) {
            Err(m) => Err(m),
            Ok(done) => match path_json(paths.last()) {
                Err(m) => Err(m),
                Ok(p) => Ok(done.push(p)),
            },
        }
    }
}

/// The canonical text of a mask.
pub open spec fn mask_text(paths: Seq<Seq<char>>) -> Outcome<Seq<char>> {
    match paths_json(paths) {
        Err(m) => Err(m),
        Ok(parts) => Ok(join(parts, ',')),
    }
}

/// The segment of a message path that a JSON segment stands for. A JSON
/// segment holds no underscore.
pub open spec fn segment_from_json(segment: Seq<char>) -> Outcome<Seq<char>> {
    if segment.len() == 0 {
        Err("field mask segment is empty"@)
    } else if segment.contains('_') {
        Err("field mask contains underscore"@)
    } else {
        Ok(snake(segment))
    }
}

pub open spec fn segments_from_json(segments: Seq<Seq<char>>) -> Outcome<Seq<Seq<char>>>
    decreases segments.len(),
{
    if segments.len() == 0 {
        Ok(Seq::empty())
    } else {
        match segments_from_json(segments.drop_last()) {
            Err(m) => Err(m),
            Ok(done) => match segment_from_json(segments.last()) {
                Err(m) => Err(m),
                Ok(c) => Ok(done.push(c)),
            },
        }
    }
}

/// The path that one JSON path stands for.
pub open spec fn path_from_json(path: Seq<char>) -> Outcome<Seq<char>> {
    if path.len() == 0 {
        Err("field mask path is empty"@)
    } else {
        match segments_from_json(split(path, '.')) {
            Err(m) => Err(m),
            Ok(segments) => Ok(join(segments, '.')),
        }
    }
}

pub open spec fn paths_from_json(paths: Seq<Seq<char>>) -> Outcome<Seq<Seq<char>>>
    decreases paths.len(),
{
    if paths.len() == 0 {
        Ok(Seq::empty())
    } else {
        match paths_from_json(paths.drop_last()) {
            Err(m) => Err(m),
            Ok(done) => match path_from_json(paths.last()) {
                Err(m) => Err(m),
                Ok(p) => Ok(done.push(p)),
            },
        }
    }
}

/// The paths that the text of a mask stands for. Empty text is the empty
/// mask.
pub open spec fn mask_from_text(text: Seq<char>) -> Outcome<Seq<Seq<char>>> {
    if text.len() == 0 {
        Ok(Seq::empty())
    } else {
        paths_from_json(split(text, ','))
    }
}

fn lower_char(c: char) -> (r: char)
    ensures
        r == lowered(c),
{
    if 'A' <= c && c <= 'Z' {
        ((c as u8) + 32u8) as char
    } else {
        c
    }
}

fn raise_char(c: char) -> (r: char)
    ensures
        r == raised(c),
{
    if 'a' <= c && c <= 'z' {
        ((c as u8) - 32u8) as char
    } else {
        c
    }
}

/// The `lowerCamelCase` form of the characters of a `snake_case` name.
pub fn camel_chars(name: &Vec<char>) -> (r: Vec<char>)
    ensures
        r@ == camel(name@),
{
    let parts = split_chars(name, '_');
    let ghost all = rows(parts@);
    let mut out: Vec<char> = Vec::new();
    let mut i: usize = 0;
    while i < parts.len()
        invariant
            i <= parts.len(),
            all == rows(parts@),
            out@ == camel_parts(all.take(i as int)),
        decreases parts.len() - i,
    {
        let part = &parts[i];
        let ghost before = out@;
        if part.len() > 0 {
            let head = if i == 0 { lower_char(part[0]) } else { raise_char(part[0]) };
            out.push(head);
            let mut k: usize = 1;
            while k < part.len()
                invariant
                    1 <= k <= part.len(),
                    out@ == before + seq![head] + part@.subrange(1, k as int),
                decreases part.len() - k,
            {
                out.push(part[k]);
                k = k + 1;
                assert(out@ =~= before + seq![head] + part@.subrange(1, k as int));
            }
            assert(part@.subrange(1, part.len() as int) =~= part@.skip(1));
        }
        proof {
            let next = all.take(i + 1);
            assert(next.drop_last() =~= all.take(i as int));
            assert(next.last() == part@);
            assert(out@ =~= before + camel_part(part@, i == 0));
        }
        i = i + 1;
    }
    assert(all.take(parts.len() as int) =~= all);
    out
}

/// The `snake_case` form of the characters of a `lowerCamelCase` name.
pub fn snake_chars(name: &Vec<char>) -> (r: Vec<char>)
    ensures
        r@ == snake(name@),
{
    let mut out: Vec<char> = Vec::new();
    let mut i: usize = 0;
    while i < name.len()
        invariant
            i <= name.len(),
            out@ == snake(name@.take(i as int)),
        decreases name.len() - i,
    {
        let c = name[i];
        let ghost before = out@;
        if 'A' <= c && c <= 'Z' {
            if i > 0 {
                out.push('_');
            }
            out.push(lower_char(c));
        } else {
            out.push(c);
        }
        proof {
            let next = name@.take(i + 1);
            assert(next.drop_last() =~= name@.take(i as int));
            assert(next.last() == c);
            assert(out@ =~= before + snake_piece(c, i == 0));
        }
        i = i + 1;
    }
    assert(name@.take(name.len() as int) =~= name@);
    out
}

/// Converts a `snake_case` name to `lowerCamelCase`.
pub fn snake_to_lower_camel(value: &str) -> (r: String)
    ensures
        r@ == camel(value@),
{
    string_of(&camel_chars(&chars_of(value)))
}

/// Converts a `lowerCamelCase` name to `snake_case`.
pub fn lower_camel_to_snake(value: &str) -> (r: String)
    ensures
        r@ == snake(value@),
{
    string_of(&snake_chars(&chars_of(value)))
}

/// Whether two character vectors hold the same text.
fn same_chars(a: &Vec<char>, b: &Vec<char>) -> (r: bool)
    ensures
        r == (a@ == b@),
{
    if a.len() != b.len() {
        return false;
    }
    let mut i: usize = 0;
    while i < a.len()
        invariant
            i <= a.len(),
            a.len() == b.len(),
            forall|j: int| 0 <= j < i ==> a@[j] == b@[j],
        decreases a.len() - i,
    {
        if a[i] != b[i] {
            return false;
        }
        i = i + 1;
    }
    assert(a@ =~= b@);
    true
}

/// The JSON form of one path of a mask.
fn path_to_json(path: &Vec<char>) -> (r: Result<Vec<char>, CanonicalError>)
    ensures
        match r {
            Ok(p) => path_json(path@) == Ok::<Seq<char>, Seq<char>>(p@),
            Err(e) => path_json(path@) == Err::<Seq<char>, Seq<char>>(e@),
        },
{
    if path.len() == 0 {
        return Err(CanonicalError::new("field mask path is empty"));
    }
    let segments = split_chars(path, '.');
    let ghost all = rows(segments@);
    let mut out: Vec<Vec<char>> = Vec::new();
    let mut i: usize = 0;
    proof {
        assert(all.take(0) =~= Seq::<Seq<char>>::empty());
        assert(rows(out@) =~= Seq::<Seq<char>>::empty());
    }
    while i < segments.len()
        invariant
            i <= segments.len(),
            all == rows(segments@),
            all == split(path@, '.'),
            path@.len() > 0,
            segments_json(all.take(i as int)) == Ok::<Seq<Seq<char>>, Seq<char>>(rows(out@)),
        decreases segments.len() - i,
    {
        let segment = &segments[i];
        proof {
            let next = all.take(i + 1);
            assert(next.drop_last() =~= all.take(i as int));
            assert(next.last() == segment@);
            assert(all[i as int] == segment@);
        }
        if segment.len() == 0 {
            proof {
                assert(all.take(segments.len() as int) =~= all);
                lemma_segments_json_error(all, i as int);
            }
            return Err(CanonicalError::new("field mask segment is empty"));
        }
        let json_segment = camel_chars(segment);
        let back = snake_chars(&json_segment);
        if !same_chars(&back, segment) {
            proof {
                lemma_segments_json_error(all, i as int);
            }
            return Err(CanonicalError::new("field mask segment does not round trip"));
        }
        let ghost before = rows(out@);
        out.push(json_segment);
        assert(rows(out@) =~= before.push(json_segment@));
        i = i + 1;
    }
    assert(all.take(segments.len() as int) =~= all);
    Ok(join_chars(&out, '.'))
}

/// An error at one segment, with none before it, is the error of the whole.
pub proof fn lemma_segments_json_error(segments: Seq<Seq<char>>, i: int)
    requires
        0 <= i < segments.len(),
        segments_json(segments.take(i)) is Ok,
        segment_json(segments[i]) is Err,
    ensures
        segments_json(segments) == Err::<Seq<Seq<char>>, Seq<char>>(
            segment_json(segments[i])->Err_0,
        ),
    decreases segments.len(),
{
    if i == segments.len() - 1 {
        assert(segments.drop_last() =~= segments.take(i));
    } else {
        assert(segments.drop_last().take(i) =~= segments.take(i));
        lemma_segments_json_error(segments.drop_last(), i);
    }
}

/// An error at one segment, with none before it, is the error of the whole.
pub proof fn lemma_segments_from_json_error(segments: Seq<Seq<char>>, i: int)
    requires
        0 <= i < segments.len(),
        segments_from_json(segments.take(i)) is Ok,
        segment_from_json(segments[i]) is Err,
    ensures
        segments_from_json(segments) == Err::<Seq<Seq<char>>, Seq<char>>(
            segment_from_json(segments[i])->Err_0,
        ),
    decreases segments.len(),
{
    if i == segments.len() - 1 {
        assert(segments.drop_last() =~= segments.take(i));
    } else {
        assert(segments.drop_last().take(i) =~= segments.take(i));
        lemma_segments_from_json_error(segments.drop_last(), i);
    }
}

/// An error at one path, with none before it, is the error of the whole.
pub proof fn lemma_paths_json_error(paths: Seq<Seq<char>>, i: int)
    requires
        0 <= i < paths.len(),
        paths_json(paths.take(i)) is Ok,
        path_json(paths[i]) is Err,
    ensures
        paths_json(paths) == Err::<Seq<Seq<char>>, Seq<char>>(path_json(paths[i])->Err_0),
    decreases paths.len(),
{
    if i == paths.len() - 1 {
        assert(paths.drop_last() =~= paths.take(i));
    } else {
        assert(paths.drop_last().take(i) =~= paths.take(i));
        lemma_paths_json_error(paths.drop_last(), i);
    }
}

/// An error at one path, with none before it, is the error of the whole.
pub proof fn lemma_paths_from_json_error(paths: Seq<Seq<char>>, i: int)
    requires
        0 <= i < paths.len(),
        paths_from_json(paths.take(i)) is Ok,
        path_from_json(paths[i]) is Err,
    ensures
        paths_from_json(paths) == Err::<Seq<Seq<char>>, Seq<char>>(
            path_from_json(paths[i])->Err_0,
        ),
    decreases paths.len(),
{
    if i == paths.len() - 1 {
        assert(paths.drop_last() =~= paths.take(i));
    } else {
        assert(paths.drop_last().take(i) =~= paths.take(i));
        lemma_paths_from_json_error(paths.drop_last(), i);
    }
}

/// The path that one JSON path of a mask stands for.
fn path_of_json(path: &Vec<char>) -> (r: Result<Vec<char>, CanonicalError>)
    ensures
        match r {
            Ok(p) => path_from_json(path@) == Ok::<Seq<char>, Seq<char>>(p@),
            Err(e) => path_from_json(path@) == Err::<Seq<char>, Seq<char>>(e@),
        },
{
    if path.len() == 0 {
        return Err(CanonicalError::new("field mask path is empty"));
    }
    let segments = split_chars(path, '.');
    let ghost all = rows(segments@);
    let mut out: Vec<Vec<char>> = Vec::new();
    let mut i: usize = 0;
    proof {
        assert(all.take(0) =~= Seq::<Seq<char>>::empty());
        assert(rows(out@) =~= Seq::<Seq<char>>::empty());
    }
    while i < segments.len()
        invariant
            i <= segments.len(),
            all == rows(segments@),
            all == split(path@, '.'),
            path@.len() > 0,
            segments_from_json(all.take(i as int)) == Ok::<Seq<Seq<char>>, Seq<char>>(rows(out@)),
        decreases segments.len() - i,
    {
        let segment = &segments[i];
        proof {
            let next = all.take(i + 1);
            assert(next.drop_last() =~= all.take(i as int));
            assert(next.last() == segment@);
            assert(all[i as int] == segment@);
        }
        if segment.len() == 0 {
            proof {
                lemma_segments_from_json_error(all, i as int);
            }
            return Err(CanonicalError::new("field mask segment is empty"));
        }
        if has_char(segment, '_') {
            proof {
                lemma_segments_from_json_error(all, i as int);
            }
            return Err(CanonicalError::new("field mask contains underscore"));
        }
        let ghost before = rows(out@);
        let plain = snake_chars(segment);
        out.push(plain);
        assert(rows(out@) =~= before.push(plain@));
        i = i + 1;
    }
    assert(all.take(segments.len() as int) =~= all);
    Ok(join_chars(&out, '.'))
}

impl CanonicalSerialize for FieldMask {
    open spec fn canonical_json(value: Seq<Seq<char>>) -> Outcome<JsonValue> {
        match mask_text(value) {
            Ok(text) => Ok(JsonValue::Str(text, None)),
            Err(m) => Err(m),
        }
    }

    fn serialize_canonical(&self) -> (r: Result<Json, CanonicalError>) {
        let ghost all = texts(self.paths@);
        let mut parts: Vec<Vec<char>> = Vec::new();
        let mut i: usize = 0;
        proof {
            assert(all.take(0) =~= Seq::<Seq<char>>::empty());
            assert(rows(parts@) =~= Seq::<Seq<char>>::empty());
        }
        while i < self.paths.len()
            invariant
                i <= self.paths.len(),
                all == texts(self.paths@),
                paths_json(all.take(i as int)) == Ok::<Seq<Seq<char>>, Seq<char>>(rows(parts@)),
            decreases self.paths.len() - i,
        {
            let path = chars_of(self.paths[i].as_str());
            proof {
                let next = all.take(i + 1);
                assert(next.drop_last() =~= all.take(i as int));
                assert(next.last() == path@);
                assert(all[i as int] == path@);
            }
            match path_to_json(&path) {
                Err(e) => {
                    proof {
                        lemma_paths_json_error(all, i as int);
                    }
                    return Err(e);
                },
                Ok(p) => {
                    let ghost before = rows(parts@);
                    parts.push(p);
                    assert(rows(parts@) =~= before.push(p@));
                },
            }
            i = i + 1;
        }
        assert(all.take(self.paths.len() as int) =~= all);
        Ok(Json::text(&join_chars(&parts, ',')))
    }
}

impl CanonicalDeserialize for FieldMask {
    open spec fn canonical_value(json: JsonValue) -> Outcome<Seq<Seq<char>>> {
        match json {
            JsonValue::Str(text, _) => mask_from_text(text),
            _ => Err("invalid type, expected a string"@),
        }
    }

    fn deserialize_canonical(json: &Json) -> (r: Result<Self, CanonicalError>) {
        let text = match json {
            Json::Str(text, _) => chars_of(text.as_str()),
            _ => {
                return Err(CanonicalError::new("invalid type, expected a string"));
            },
        };
        let mut paths: Vec<String> = Vec::new();
        if text.len() == 0 {
            assert(texts(paths@) =~= Seq::<Seq<char>>::empty());
            return Ok(FieldMask { paths });
        }
        let parts = split_chars(&text, ',');
        let ghost all = rows(parts@);
        let mut i: usize = 0;
        proof {
            assert(all.take(0) =~= Seq::<Seq<char>>::empty());
            assert(texts(paths@) =~= Seq::<Seq<char>>::empty());
        }
        while i < parts.len()
            invariant
                i <= parts.len(),
                all == rows(parts@),
                all == split(text@, ','),
                text@.len() > 0,
                json@ is Str,
                json@->Str_0 == text@,
                paths_from_json(all.take(i as int)) == Ok::<Seq<Seq<char>>, Seq<char>>(
                    texts(paths@),
                ),
            decreases parts.len() - i,
        {
            proof {
                let next = all.take(i + 1);
                assert(next.drop_last() =~= all.take(i as int));
                assert(next.last() == parts@[i as int]@);
                assert(all[i as int] == parts@[i as int]@);
            }
            match path_of_json(&parts[i]) {
                Err(e) => {
                    proof {
                        lemma_paths_from_json_error(all, i as int);
                    }
                    return Err(e);
                },
                Ok(p) => {
                    let ghost before = texts(paths@);
                    let path = string_of(&p);
                    paths.push(path);
                    assert(texts(paths@) =~= before.push(p@));
                },
            }
            i = i + 1;
        }
        assert(all.take(parts.len() as int) =~= all);
        Ok(FieldMask { paths })
    }
}

/// Whether a character is an ASCII letter.
pub open spec fn is_letter(c: char) -> bool {
    is_upper(c) || is_lower(c)
}

/// A part in `lowerCamelCase` holds no character, other than a letter, that
/// the part did not hold.
pub proof fn lemma_camel_part_without(part: Seq<char>, first: bool, x: char)
    requires
        without(part, x),
        !is_letter(x),
    ensures
        without(camel_part(part, first), x),
{
    if part.len() > 0 {
        let out = camel_part(part, first);
        assert forall|i: int| 0 <= i < out.len() implies out[i] != x by {
            if i > 0 {
                assert(out[i] == part[i]);
            } else {
                assert(part[0] != x);
            }
        }
    }
}

/// Parts in `lowerCamelCase` hold no character, other than a letter, that
/// the parts did not hold.
pub proof fn lemma_camel_parts_without(parts: Seq<Seq<char>>, x: char)
    requires
        all_without(parts, x),
        !is_letter(x),
    ensures
        without(camel_parts(parts), x),
    decreases parts.len(),
{
    if parts.len() > 0 {
        let before = parts.drop_last();
        assert(all_without(before, x)) by {
            assert forall|i: int| 0 <= i < before.len() implies without(#[trigger] before[i], x) by {
                assert(before[i] == parts[i]);
            }
        }
        lemma_camel_parts_without(before, x);
        assert(without(parts[parts.len() - 1], x));
        lemma_camel_part_without(parts.last(), parts.len() == 1, x);
        let a = camel_parts(before);
        let b = camel_part(parts.last(), parts.len() == 1);
        assert forall|i: int| 0 <= i < (a + b).len() implies (a + b)[i] != x by {
            if i < a.len() {
                assert((a + b)[i] == a[i]);
            } else {
                assert((a + b)[i] == b[i - a.len()]);
            }
        }
    }
}

/// A name in `lowerCamelCase` holds no underscore, and no character, other
/// than a letter, that the name did not hold.
pub proof fn lemma_camel_without(name: Seq<char>, x: char)
    requires
        !is_letter(x),
        x == '_' || without(name, x),
    ensures
        without(camel(name), x),
{
    crate::text::lemma_split_pieces_without(name, '_', x);
    lemma_camel_parts_without(split(name, '_'), x);
}

/// Where the segments of a path can be written, each can, and the JSON
/// forms stand in the same places.
pub proof fn lemma_segments_json_ok(segments: Seq<Seq<char>>)
    requires
        segments_json(segments) is Ok,
    ensures
        segments_json(segments)->Ok_0.len() == segments.len(),
        forall|i: int|
            0 <= i < segments.len() ==> segment_json(#[trigger] segments[i]) == Ok::<
                Seq<char>,
                Seq<char>,
            >(segments_json(segments)->Ok_0[i]),
    decreases segments.len(),
{
    if segments.len() > 0 {
        lemma_segments_json_ok(segments.drop_last());
        let done = segments_json(segments.drop_last())->Ok_0;
        assert forall|i: int| 0 <= i < segments.len() implies segment_json(
            #[trigger] segments[i],
        ) == Ok::<Seq<char>, Seq<char>>(segments_json(segments)->Ok_0[i]) by {
            if i < segments.len() - 1 {
                assert(segments.drop_last()[i] == segments[i]);
                assert(segments_json(segments)->Ok_0[i] == done[i]);
            }
        }
    }
}

/// Where every JSON segment reads as a segment, the row reads as the row
/// of those segments.
pub proof fn lemma_segments_from_json_all(json: Seq<Seq<char>>, segments: Seq<Seq<char>>)
    requires
        json.len() == segments.len(),
        forall|i: int|
            0 <= i < json.len() ==> segment_from_json(#[trigger] json[i]) == Ok::<
                Seq<char>,
                Seq<char>,
            >(segments[i]),
    ensures
        segments_from_json(json) == Ok::<Seq<Seq<char>>, Seq<char>>(segments),
    decreases json.len(),
{
    if json.len() > 0 {
        assert forall|i: int| 0 <= i < json.drop_last().len() implies segment_from_json(
            #[trigger] json.drop_last()[i],
        ) == Ok::<Seq<char>, Seq<char>>(segments.drop_last()[i]) by {
            assert(json.drop_last()[i] == json[i]);
        }
        lemma_segments_from_json_all(json.drop_last(), segments.drop_last());
        assert(segment_from_json(json[json.len() - 1]) == Ok::<Seq<char>, Seq<char>>(
            segments[json.len() - 1],
        ));
        assert(segments.drop_last().push(segments.last()) =~= segments);
    } else {
        assert(segments =~= Seq::<Seq<char>>::empty());
    }
}

/// Round trip for one path of a mask: what a path without a comma was
/// written as reads as the path, and holds no comma.
pub proof fn lemma_path_round_trip(path: Seq<char>)
    requires
        path_json(path) is Ok,
        without(path, ','),
    ensures
        path_from_json(path_json(path)->Ok_0) == Ok::<Seq<char>, Seq<char>>(path),
        without(path_json(path)->Ok_0, ','),
        path_json(path)->Ok_0.len() > 0,
{
    let segments = split(path, '.');
    let json = segments_json(segments)->Ok_0;
    let text = join(json, '.');
    crate::text::lemma_split_pieces_without(path, '.', '.');
    crate::text::lemma_split_pieces_without(path, '.', ',');
    lemma_segments_json_ok(segments);
    assert forall|i: int| 0 <= i < json.len() implies without(#[trigger] json[i], '.') && without(
        json[i],
        ',',
    ) && without(json[i], '_') && json[i].len() > 0 && segment_from_json(json[i]) == Ok::<
        Seq<char>,
        Seq<char>,
    >(segments[i]) by {
        assert(segment_json(segments[i]) == Ok::<Seq<char>, Seq<char>>(json[i]));
        assert(without(segments[i], '.'));
        assert(without(segments[i], ','));
        lemma_camel_without(segments[i], '.');
        lemma_camel_without(segments[i], ',');
        lemma_camel_without(segments[i], '_');
        assert(json[i] == camel(segments[i]));
        assert(snake(json[i]) == segments[i]);
        if json[i].len() == 0 {
            assert(snake(json[i]) =~= Seq::<char>::empty());
        }
        assert(!json[i].contains('_'));
    }
    assert(all_without(json, '.'));
    assert(all_without(json, ','));
    crate::text::lemma_split_join(json, '.');
    crate::text::lemma_join_without(json, '.', ',');
    assert(json[0].len() > 0);
    crate::text::lemma_join_not_empty(json, '.');
    lemma_segments_from_json_all(json, segments);
    crate::text::lemma_join_split(path, '.');
}

/// Where the paths of a mask can be written, each can, and the JSON forms
/// stand in the same places.
pub proof fn lemma_paths_json_ok(paths: Seq<Seq<char>>)
    requires
        paths_json(paths) is Ok,
    ensures
        paths_json(paths)->Ok_0.len() == paths.len(),
        forall|i: int|
            0 <= i < paths.len() ==> path_json(#[trigger] paths[i]) == Ok::<Seq<char>, Seq<char>>(
                paths_json(paths)->Ok_0[i],
            ),
    decreases paths.len(),
{
    if paths.len() > 0 {
        lemma_paths_json_ok(paths.drop_last());
        let done = paths_json(paths.drop_last())->Ok_0;
        assert forall|i: int| 0 <= i < paths.len() implies path_json(#[trigger] paths[i]) == Ok::<
            Seq<char>,
            Seq<char>,
        >(paths_json(paths)->Ok_0[i]) by {
            if i < paths.len() - 1 {
                assert(paths.drop_last()[i] == paths[i]);
                assert(paths_json(paths)->Ok_0[i] == done[i]);
            }
        }
    }
}

/// Where every JSON path reads as a path, the row reads as the row of those
/// paths.
pub proof fn lemma_paths_from_json_all(json: Seq<Seq<char>>, paths: Seq<Seq<char>>)
    requires
        json.len() == paths.len(),
        forall|i: int|
            0 <= i < json.len() ==> path_from_json(#[trigger] json[i]) == Ok::<
                Seq<char>,
                Seq<char>,
            >(paths[i]),
    ensures
        paths_from_json(json) == Ok::<Seq<Seq<char>>, Seq<char>>(paths),
    decreases json.len(),
{
    if json.len() > 0 {
        assert forall|i: int| 0 <= i < json.drop_last().len() implies path_from_json(
            #[trigger] json.drop_last()[i],
        ) == Ok::<Seq<char>, Seq<char>>(paths.drop_last()[i]) by {
            assert(json.drop_last()[i] == json[i]);
        }
        lemma_paths_from_json_all(json.drop_last(), paths.drop_last());
        assert(path_from_json(json[json.len() - 1]) == Ok::<Seq<char>, Seq<char>>(
            paths[json.len() - 1],
        ));
        assert(paths.drop_last().push(paths.last()) =~= paths);
    } else {
        assert(paths =~= Seq::<Seq<char>>::empty());
    }
}

/// Round trip for field masks: the text of a mask whose paths hold no comma
/// reads as the mask.
pub proof fn lemma_mask_round_trip(paths: Seq<Seq<char>>)
    requires
        mask_text(paths) is Ok,
        all_without(paths, ','),
    ensures
        mask_from_text(mask_text(paths)->Ok_0) == Ok::<Seq<Seq<char>>, Seq<char>>(paths),
{
    let json = paths_json(paths)->Ok_0;
    if paths.len() == 0 {
        assert(paths =~= Seq::<Seq<char>>::empty());
    } else {
        lemma_paths_json_ok(paths);
        assert forall|i: int| 0 <= i < json.len() implies without(#[trigger] json[i], ',')
            && json[i].len() > 0 && path_from_json(json[i]) == Ok::<Seq<char>, Seq<char>>(
            paths[i],
        ) by {
            assert(path_json(paths[i]) == Ok::<Seq<char>, Seq<char>>(json[i]));
            assert(without(paths[i], ','));
            lemma_path_round_trip(paths[i]);
        }
        assert(all_without(json, ','));
        crate::text::lemma_split_join(json, ',');
        assert(json[0].len() > 0);
        crate::text::lemma_join_not_empty(json, ',');
        lemma_paths_from_json_all(json, paths);
    }
}

} // verus!
