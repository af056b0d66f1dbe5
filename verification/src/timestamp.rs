//! `google.protobuf.Timestamp`: an instant as seconds and nanoseconds since
//! the Unix epoch, written in JSON as an RFC 3339 string in UTC.
//!
//! The calendar is the `chrono` crate's: it turns seconds into a civil date
//! and time, and RFC 3339 text into seconds and nanoseconds. What is done
//! with either is decided and proved here.
use crate::codec::{CanonicalDeserialize, CanonicalSerialize};
use crate::error::{CanonicalError, Outcome};
use crate::json::{Json, JsonValue};
use crate::text::{chars_of, padded, push_padded, string_of};
use chrono::{DateTime, Datelike, TimeZone, Timelike, Utc};
use vstd::prelude::*;

verus! {

/// Seconds of `0001-01-01T00:00:00Z`, the earliest timestamp.
pub const MIN_TIMESTAMP_SECONDS: i64 = -62_135_596_800;

/// Seconds of `9999-12-31T23:59:59Z`, the latest timestamp.
pub const MAX_TIMESTAMP_SECONDS: i64 = 253_402_300_799;

/// An instant: whole seconds since the Unix epoch, and nanoseconds that
/// count forward from there.
#[derive(Clone, Copy, Debug, PartialEq, Eq, Structural)]
pub struct Timestamp {
    pub seconds: i64,
    pub nanos: i32,
}

impl DeepView for Timestamp {
    type V = Timestamp;

    open spec fn deep_view(&self) -> Timestamp {
        *self
    }
}

impl Timestamp {
    /// Within the years 0001 to 9999, with nanoseconds below a second.
    pub open spec fn valid(self) -> bool {
        &&& MIN_TIMESTAMP_SECONDS <= self.seconds <= MAX_TIMESTAMP_SECONDS
        &&& 0 <= self.nanos < 1_000_000_000
    }
}

/// A civil date and time of day: year, month, day, hour, minute, second.
pub type Civil = (int, int, int, int, int, int);

/// The civil date and time in UTC of an instant given in seconds since the
/// Unix epoch, where the calendar can tell it.
pub uninterp spec fn utc_civil(seconds: int) -> Option<Civil>;

/// The instant that RFC 3339 text denotes, as seconds since the Unix epoch
/// and nanoseconds, where the text is RFC 3339.
pub uninterp spec fn rfc3339_instant(text: Seq<char>) -> Option<(int, int)>;

/// `chrono::TimeZone::timestamp_opt` on `chrono::Utc`, with no nanoseconds,
/// then `single`, then the six fields of the date and time that came back
/// (`Datelike::year`, `month`, `day`; `Timelike::hour`, `minute`, `second`).
/// The result is named; nothing more is claimed of it.
#[verifier::external_body]
fn utc_date_time(seconds: i64) -> (r: Option<(i32, u32, u32, u32, u32, u32)>)
    ensures
        match r {
            Some(c) => utc_civil(seconds as int) == Some(
                (c.0 as int, c.1 as int, c.2 as int, c.3 as int, c.4 as int, c.5 as int),
            ),
            None => utc_civil(seconds as int) is None,
        },
{
    let at = Utc.timestamp_opt(seconds, 0).single()?;
    Some((at.year(), at.month(), at.day(), at.hour(), at.minute(), at.second()))
}

/// `chrono::DateTime::parse_from_rfc3339`, then the instant that came back
/// in UTC as `timestamp` and `nanosecond` give it. The result is named; the
/// outside error is dropped.
#[verifier::external_body]
fn parse_rfc3339(text: &str) -> (r: Option<(i64, u32)>)
    ensures
        match r {
            Some(at) => rfc3339_instant(text@) == Some((at.0 as int, at.1 as int)),
            None => rfc3339_instant(text@) is None,
        },
{
    match DateTime::parse_from_rfc3339(text) {
        Ok(at) => Some((at.with_timezone(&Utc).timestamp(), at.with_timezone(&Utc).nanosecond())),
        Err(_) => None,
    }
}

/// The fraction of a second as text: nothing for zero, else a point and 3, 6
/// or 9 digits, as few as hold the value.
pub open spec fn fraction_text(nanos: nat) -> Seq<char> {
    if nanos == 0 {
        Seq::empty()
    } else if nanos % 1_000_000 == 0 {
        seq!['.'] + padded(nanos / 1_000_000, 3)
    } else if nanos % 1_000 == 0 {
        seq!['.'] + padded(nanos / 1_000, 6)
    } else {
        seq!['.'] + padded(nanos, 9)
    }
}

/// Whether the fields are those of a date and time that can be written with
/// a four-digit year.
pub open spec fn civil_writable(c: Civil) -> bool {
    &&& 0 <= c.0 <= 9999
    &&& 1 <= c.1 <= 12
    &&& 1 <= c.2 <= 31
    &&& 0 <= c.3 < 24
    &&& 0 <= c.4 < 60
    &&& 0 <= c.5 < 60
}

/// `YYYY-MM-DDTHH:MM:SS`, the fraction of a second, and `Z`.
pub open spec fn civil_text(c: Civil, nanos: nat) -> Seq<char> {
    padded(c.0 as nat, 4) + seq!['-'] + padded(c.1 as nat, 2) + seq!['-'] + padded(c.2 as nat, 2)
        + seq!['T'] + padded(c.3 as nat, 2) + seq![':'] + padded(c.4 as nat, 2) + seq![':']
        + padded(c.5 as nat, 2) + fraction_text(nanos) + seq!['Z']
}

/// The text of a civil date and time, which must be writable.
pub open spec fn civil_outcome(c: Option<Civil>, nanos: nat) -> Outcome<Seq<char>> {
    match c {
        Some(c) => if civil_writable(c) {
            Ok(civil_text(c, nanos))
        } else {
            Err("timestamp out of range"@)
        },
        None => Err("timestamp out of range"@),
    }
}

/// The canonical text of a timestamp: it must be valid, and the calendar
/// must give it a civil date and time.
pub open spec fn timestamp_text(value: Timestamp) -> Outcome<Seq<char>> {
    if !(MIN_TIMESTAMP_SECONDS <= value.seconds <= MAX_TIMESTAMP_SECONDS) {
        Err("timestamp seconds out of range"@)
    } else if !(0 <= value.nanos < 1_000_000_000) {
        Err("timestamp nanos out of range"@)
    } else {
        civil_outcome(utc_civil(value.seconds as int), value.nanos as nat)
    }
}

/// What a timestamp's text must look like before the calendar reads it: an
/// upper case `T`, no lower case `t`, no lower case `z`.
pub open spec fn timestamp_format_checked(text: Seq<char>) -> Outcome<()> {
    if text.contains('t') {
        Err("timestamp must use 'T'"@)
    } else if !text.contains('T') {
        Err("timestamp must include 'T'"@)
    } else if text.contains('z') {
        Err("timestamp must use 'Z'"@)
    } else {
        Ok(())
    }
}

/// The timestamp of an instant that was read from text: the text must have
/// been RFC 3339, and the instant must be a valid timestamp.
pub open spec fn instant_outcome(at: Option<(int, int)>) -> Outcome<Timestamp> {
    match at {
        None => Err("invalid timestamp"@),
        Some((seconds, nanos)) => if !(MIN_TIMESTAMP_SECONDS <= seconds
            <= MAX_TIMESTAMP_SECONDS) {
            Err("timestamp seconds out of range"@)
        } else if !(0 <= nanos < 1_000_000_000) {
            Err("timestamp nanos out of range"@)
        } else {
            Ok(Timestamp { seconds: seconds as i64, nanos: nanos as i32 })
        },
    }
}

/// The timestamp that text denotes.
pub open spec fn timestamp_from_text(text: Seq<char>) -> Outcome<Timestamp> {
    match timestamp_format_checked(text) {
        Err(m) => Err(m),
        Ok(_) => instant_outcome(rfc3339_instant(text)),
    }
}

/// Whether `c` occurs in `chars`.
pub fn has_char(chars: &Vec<char>, c: char) -> (r: bool)
    ensures
        r == chars@.contains(c),
{
    let mut i: usize = 0;
    while i < chars.len()
        invariant
            i <= chars.len(),
            forall|j: int| 0 <= j < i ==> chars@[j] != c,
        decreases chars.len() - i,
    {
        if chars[i] == c {
            return true;
        }
        i = i + 1;
    }
    false
}

/// Appends the fraction of a second to `out`.
pub fn push_fraction(out: &mut Vec<char>, nanos: u32)
    ensures
        final(out)@ == old(out)@ + fraction_text(nanos as nat),
{
    if nanos == 0 {
        assert(out@ =~= old(out)@ + fraction_text(nanos as nat));
    } else {
        out.push('.');
        if nanos % 1_000_000 == 0 {
            push_padded(out, (nanos / 1_000_000) as u64, 3);
        } else if nanos % 1_000 == 0 {
            push_padded(out, (nanos / 1_000) as u64, 6);
        } else {
            push_padded(out, nanos as u64, 9);
        }
        assert(out@ =~= old(out)@ + fraction_text(nanos as nat));
    }
}

/// Writes a civil date and time in UTC, with nanoseconds, as canonical
/// timestamp text. `None` stands for an instant the calendar cannot tell.
pub fn format_civil(civil: Option<(i32, u32, u32, u32, u32, u32)>, nanos: u32) -> (r: Result<
    String,
    CanonicalError,
>)
    ensures
        crate::codec::value_outcome(r) == civil_outcome(
            match civil {
                Some(c) => Some(
                    (c.0 as int, c.1 as int, c.2 as int, c.3 as int, c.4 as int, c.5 as int),
                ),
                None => None,
            },
            nanos as nat,
        ),
{
    match civil {
        None => Err(CanonicalError::new("timestamp out of range")),
        Some((year, month, day, hour, minute, second)) => {
            if year < 0 || year > 9999 || month < 1 || month > 12 || day < 1 || day > 31 || hour
                >= 24 || minute >= 60 || second >= 60 {
                return Err(CanonicalError::new("timestamp out of range"));
            }
            let mut out: Vec<char> = Vec::new();
            push_padded(&mut out, year as u64, 4);
            out.push('-');
            push_padded(&mut out, month as u64, 2);
            out.push('-');
            push_padded(&mut out, day as u64, 2);
            out.push('T');
            push_padded(&mut out, hour as u64, 2);
            out.push(':');
            push_padded(&mut out, minute as u64, 2);
            out.push(':');
            push_padded(&mut out, second as u64, 2);
            push_fraction(&mut out, nanos);
            out.push('Z');
            proof {
                let c: Civil = (
                    year as int,
                    month as int,
                    day as int,
                    hour as int,
                    minute as int,
                    second as int,
                );
                assert(out@ =~= civil_text(c, nanos as nat));
            }
            Ok(string_of(&out))
        },
    }
}

/// Formats a timestamp using canonical protojson rules.
pub fn format_timestamp(value: &Timestamp) -> (r: Result<String, CanonicalError>)
    ensures
        crate::codec::value_outcome(r) == timestamp_text(*value),
{
    if value.seconds < MIN_TIMESTAMP_SECONDS || value.seconds > MAX_TIMESTAMP_SECONDS {
        return Err(CanonicalError::new("timestamp seconds out of range"));
    }
    if value.nanos < 0 || value.nanos >= 1_000_000_000 {
        return Err(CanonicalError::new("timestamp nanos out of range"));
    }
    format_civil(utc_date_time(value.seconds), value.nanos as u32)
}

/// Checks the letters of timestamp text that the calendar would let pass.
pub fn validate_timestamp_format(value: &str) -> (r: Result<(), CanonicalError>)
    ensures
        crate::number::outcome_of(r) == timestamp_format_checked(value@),
{
    let chars = chars_of(value);
    if has_char(&chars, 't') {
        return Err(CanonicalError::new("timestamp must use 'T'"));
    }
    if !has_char(&chars, 'T') {
        return Err(CanonicalError::new("timestamp must include 'T'"));
    }
    if has_char(&chars, 'z') {
        return Err(CanonicalError::new("timestamp must use 'Z'"));
    }
    Ok(())
}

/// Makes a timestamp of an instant that was read from text; `None` stands
/// for text that was not RFC 3339.
pub fn timestamp_from_instant(at: Option<(i64, u32)>) -> (r: Result<Timestamp, CanonicalError>)
    ensures
        crate::number::outcome_of(r) == instant_outcome(
            match at {
                Some(at) => Some((at.0 as int, at.1 as int)),
                None => None,
            },
        ),
{
    match at {
        None => Err(CanonicalError::new("invalid timestamp")),
        Some((seconds, nanos)) => {
            if seconds < MIN_TIMESTAMP_SECONDS || seconds > MAX_TIMESTAMP_SECONDS {
                return Err(CanonicalError::new("timestamp seconds out of range"));
            }
            if nanos >= 1_000_000_000 {
                return Err(CanonicalError::new("timestamp nanos out of range"));
            }
            Ok(Timestamp { seconds, nanos: nanos as i32 })
        },
    }
}

/// Reads canonical timestamp text.
pub fn parse_timestamp_string(value: &str) -> (r: Result<Timestamp, CanonicalError>)
    ensures
        crate::number::outcome_of(r) == timestamp_from_text(value@),
{
    match validate_timestamp_format(value) {
        Err(e) => Err(e),
        Ok(_) => timestamp_from_instant(parse_rfc3339(value)),
    }
}

impl CanonicalSerialize for Timestamp {
    open spec fn canonical_json(value: Timestamp) -> Outcome<JsonValue> {
        match timestamp_text(value) {
            Ok(text) => Ok(JsonValue::Str(text, None)),
            Err(m) => Err(m),
        }
    }

    fn serialize_canonical(&self) -> (r: Result<Json, CanonicalError>) {
        match format_timestamp(self) {
            Ok(text) => Ok(Json::Str(text, None)),
            Err(e) => Err(e),
        }
    }
}

impl CanonicalDeserialize for Timestamp {
    open spec fn canonical_value(json: JsonValue) -> Outcome<Timestamp> {
        match json {
            JsonValue::Str(text, _) => timestamp_from_text(text),
            _ => Err("invalid type, expected a string"@),
        }
    }

    fn deserialize_canonical(json: &Json) -> (r: Result<Self, CanonicalError>) {
        match json {
            Json::Str(text, _) => parse_timestamp_string(text.as_str()),
            _ => Err(CanonicalError::new("invalid type, expected a string")),
        }
    }
}

} // verus!
