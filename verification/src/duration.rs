//! `google.protobuf.Duration`: a signed span of time as seconds and
//! nanoseconds, written in JSON as decimal seconds with the suffix `s`.
use crate::codec::{value_outcome, CanonicalDeserialize, CanonicalSerialize};
use crate::error::{CanonicalError, Outcome};
use crate::json::{Json, JsonValue};
use crate::number::outcome_of;
use crate::text::{
    chars_of, decimal, digits_value, find, find_from, is_digits, pow10, push_decimal, read_digits,
    signed_value, slice_of, string_of, within, parse_signed,
};
use crate::timestamp::{fraction_text, push_fraction};
use vstd::prelude::*;

verus! {

/// The largest magnitude of a duration in seconds: 10000 years.
pub const MAX_DURATION_SECONDS: i64 = 315_576_000_000;

/// A signed span of time: whole seconds, and nanoseconds of the same sign.
#[derive(Clone, Copy, Debug, PartialEq, Eq, Structural)]
pub struct Duration {
    pub seconds: i64,
    pub nanos: i32,
}

impl DeepView for Duration {
    type V = Duration;

    open spec fn deep_view(&self) -> Duration {
        *self
    }
}

impl Duration {
    /// Within 10000 years either way, the nanoseconds short of a second, and
    /// no disagreement in sign between seconds and nanoseconds.
    pub open spec fn valid(self) -> bool {
        &&& -MAX_DURATION_SECONDS <= self.seconds <= MAX_DURATION_SECONDS
        &&& -1_000_000_000 < self.nanos < 1_000_000_000
        &&& !(self.seconds < 0 && self.nanos > 0)
        &&& !(self.seconds > 0 && self.nanos < 0)
    }
}

/// The error, if any, that keeps seconds and nanoseconds from being a
/// duration.
pub open spec fn duration_fault(seconds: int, nanos: int) -> Option<Seq<char>> {
    if !(-MAX_DURATION_SECONDS <= seconds <= MAX_DURATION_SECONDS) {
        Some("duration seconds out of range"@)
    } else if !(-1_000_000_000 < nanos < 1_000_000_000) {
        Some("duration nanos out of range"@)
    } else if (seconds < 0 && nanos > 0) || (seconds > 0 && nanos < 0) {
        Some("duration seconds and nanos must have same sign"@)
    } else {
        None
    }
}

/// The canonical text of a duration: `0s` for zero; otherwise a `-` where
/// negative, the seconds, a fraction of 3, 6 or 9 digits where there are
/// nanoseconds, and `s`.
pub open spec fn duration_text(value: Duration) -> Outcome<Seq<char>> {
    match duration_fault(value.seconds as int, value.nanos as int) {
        Some(m) => Err(m),
        None => if value.seconds == 0 && value.nanos == 0 {
            Ok("0s"@)
        } else {
            let negative = value.seconds < 0 || value.nanos < 0;
            let seconds: nat = (if value.seconds < 0 { -value.seconds } else { value.seconds as int }) as nat;
            let nanos: nat = (if value.nanos < 0 { -value.nanos } else { value.nanos as int }) as nat;
            Ok(
                (if negative { seq!['-'] } else { Seq::empty() }) + decimal(seconds)
                    + fraction_text(nanos) + seq!['s'],
            )
        },
    }
}

/// The nanoseconds that the digits after the point stand for: there must be
/// one to nine of them.
pub open spec fn fraction_nanos(fraction: Seq<char>) -> Outcome<int> {
    if fraction.len() > 9 || fraction.len() == 0 {
        Err("invalid duration fractional"@)
    } else if !is_digits(fraction) {
        Err("invalid duration nanos"@)
    } else {
        Ok(digits_value(fraction) * pow10((9 - fraction.len()) as nat))
    }
}

/// The duration of a sign, seconds and nanoseconds that were read from text.
pub open spec fn signed_duration(negative: bool, seconds: int, nanos: int) -> Outcome<Duration> {
    let seconds = if negative { -seconds } else { seconds };
    let nanos = if negative { -nanos } else { nanos };
    match duration_fault(seconds, nanos) {
        Some(m) => Err(m),
        None => Ok(Duration { seconds: seconds as i64, nanos: nanos as i32 }),
    }
}

/// The duration that text denotes: an optional `-`, seconds as a decimal
/// integer, optionally a point and one to nine digits, and the suffix `s`.
pub open spec fn duration_from_text(text: Seq<char>) -> Outcome<Duration> {
    if text.len() == 0 || text.last() != 's' {
        Err("duration must end with 's'"@)
    } else if text.len() == 1 {
        Err("duration is empty"@)
    } else {
        let body = text.drop_last();
        let negative = body[0] == '-';
        let rest = if negative { body.skip(1) } else { body };
        let point = find(rest, '.');
        let whole = rest.take(point);
        match within(signed_value(whole), i64::MIN as int, i64::MAX as int) {
            None => Err("invalid duration seconds"@),
            Some(seconds) => if point < rest.len() {
                match fraction_nanos(rest.skip(point + 1)) {
                    Err(m) => Err(m),
                    Ok(nanos) => signed_duration(negative, seconds, nanos),
                }
            } else {
                signed_duration(negative, seconds, 0)
            },
        }
    }
}

/// Formats a duration using canonical protojson rules.
pub fn format_duration(value: &Duration) -> (r: Result<String, CanonicalError>)
    ensures
        value_outcome(r) == duration_text(*value),
{
    if value.seconds < -MAX_DURATION_SECONDS || value.seconds > MAX_DURATION_SECONDS {
        return Err(CanonicalError::new("duration seconds out of range"));
    }
    let nanos = value.nanos;
    if nanos <= -1_000_000_000 || nanos >= 1_000_000_000 {
        return Err(CanonicalError::new("duration nanos out of range"));
    }
    if (value.seconds < 0 && nanos > 0) || (value.seconds > 0 && nanos < 0) {
        return Err(CanonicalError::new("duration seconds and nanos must have same sign"));
    }
    if value.seconds == 0 && nanos == 0 {
        return Ok("0s".to_owned());
    }
    let negative = value.seconds < 0 || nanos < 0;
    let seconds: u64 = if value.seconds < 0 { (-value.seconds) as u64 } else { value.seconds as u64 };
    let nanos: u32 = if nanos < 0 { (-nanos) as u32 } else { nanos as u32 };
    let mut out: Vec<char> = Vec::new();
    if negative {
        out.push('-');
    }
    push_decimal(&mut out, seconds);
    push_fraction(&mut out, nanos);
    out.push('s');
    proof {
        assert(out@ =~= duration_text(*value)->Ok_0);
    }
    Ok(string_of(&out))
}

/// Ten to the power `n`, for `n` up to nine.
fn ten_to(n: usize) -> (r: u32)
    requires
        n <= 9,
    ensures
        r == pow10(n as nat),
        r <= 1_000_000_000,
{
    reveal_with_fuel(pow10, 11);
    let mut r: u32 = 1;
    let mut i: usize = 0;
    while i < n
        invariant
            i <= n <= 9,
            r == pow10(i as nat),
            r <= pow10(9),
            pow10(i as nat) * pow10((9 - i) as nat) == pow10(9),
            pow10(9) == 1_000_000_000,
        decreases n - i,
    {
        reveal_with_fuel(pow10, 11);
        assert(pow10((9 - i) as nat) == 10 * pow10((9 - i - 1) as nat));
        assert(pow10((i + 1) as nat) == 10 * pow10(i as nat));
        assert(pow10((i + 1) as nat) * pow10((9 - i - 1) as nat) == pow10(9)) by (nonlinear_arith)
            requires
                pow10(i as nat) * pow10((9 - i) as nat) == pow10(9),
                pow10((9 - i) as nat) == 10 * pow10((9 - i - 1) as nat),
                pow10((i + 1) as nat) == 10 * pow10(i as nat),
        ;
        assert(pow10((i + 1) as nat) <= pow10(9)) by (nonlinear_arith)
            requires
                pow10((i + 1) as nat) * pow10((9 - i - 1) as nat) == pow10(9),
                pow10((9 - i - 1) as nat) >= 1,
        ;
        r = r * 10;
        i = i + 1;
    }
    r
}

/// Ten to the `k` times ten to the `9 - k` is ten to the nine.
pub proof fn lemma_pow10_split(k: nat)
    requires
        k <= 9,
    ensures
        pow10(k) * pow10((9 - k) as nat) == 1_000_000_000,
        pow10(k) >= 1,
{
    reveal_with_fuel(pow10, 11);
    assert(pow10(0) == 1 && pow10(1) == 10 && pow10(2) == 100 && pow10(3) == 1_000);
    assert(pow10(4) == 10_000 && pow10(5) == 100_000 && pow10(6) == 1_000_000);
    assert(pow10(7) == 10_000_000 && pow10(8) == 100_000_000 && pow10(9) == 1_000_000_000);
    if k == 0 {
        assert(pow10(0) * pow10(9) == 1_000_000_000);
    } else if k == 1 {
        assert(pow10(1) * pow10(8) == 1_000_000_000);
    } else if k == 2 {
        assert(pow10(2) * pow10(7) == 1_000_000_000);
    } else if k == 3 {
        assert(pow10(3) * pow10(6) == 1_000_000_000);
    } else if k == 4 {
        assert(pow10(4) * pow10(5) == 1_000_000_000);
    } else if k == 5 {
        assert(pow10(5) * pow10(4) == 1_000_000_000);
    } else if k == 6 {
        assert(pow10(6) * pow10(3) == 1_000_000_000);
    } else if k == 7 {
        assert(pow10(7) * pow10(2) == 1_000_000_000);
    } else if k == 8 {
        assert(pow10(8) * pow10(1) == 1_000_000_000);
    } else {
        assert(pow10(9) * pow10(0) == 1_000_000_000);
    }
}

/// A run of `n` digits denotes a number below ten to the `n`.
pub proof fn lemma_digits_below_power(s: Seq<char>)
    requires
        forall|i: int| 0 <= i < s.len() ==> crate::text::is_digit(#[trigger] s[i]),
    ensures
        0 <= digits_value(s) < pow10(s.len()),
    decreases s.len(),
{
    if s.len() > 0 {
        lemma_digits_below_power(s.drop_last());
    }
}

/// Reads the digits after the point as nanoseconds.
fn read_fraction(chars: &Vec<char>, from: usize) -> (r: Result<i32, CanonicalError>)
    requires
        from <= chars.len(),
    ensures
        crate::number::outcome_i32(r) == fraction_nanos(chars@.skip(from as int)),
        r matches Ok(n) ==> 0 <= n < 1_000_000_000,
{
    let len = chars.len() - from;
    if len > 9 || len == 0 {
        return Err(CanonicalError::new("invalid duration fractional"));
    }
    proof {
        if is_digits(chars@.skip(from as int)) {
            lemma_digits_below_power(chars@.skip(from as int));
            reveal_with_fuel(pow10, 11);
        }
    }
    match read_digits(chars, from, 999_999_999) {
        None => {
            proof {
                reveal_with_fuel(pow10, 11);
            }
            Err(CanonicalError::new("invalid duration nanos"))
        },
        Some(v) => {
            let scale = ten_to(9 - len);
            proof {
                let body = chars@.skip(from as int);
                lemma_pow10_split(len as nat);
                assert(v * scale < 1_000_000_000) by (nonlinear_arith)
                    requires
                        v < pow10(len as nat),
                        scale == pow10((9 - len) as nat),
                        pow10(len as nat) * pow10((9 - len) as nat) == 1_000_000_000,
                        scale >= 1,
                ;
            }
            Ok((v as u32 * scale) as i32)
        },
    }
}

/// Makes a duration of a sign, seconds and nanoseconds that were read from
/// text.
pub fn duration_of(negative: bool, seconds: i64, nanos: i32) -> (r: Result<Duration, CanonicalError>)
    requires
        0 <= nanos < 1_000_000_000,
    ensures
        outcome_of(r) == signed_duration(negative, seconds as int, nanos as int),
{
    if seconds == i64::MIN {
        return Err(CanonicalError::new("duration seconds out of range"));
    }
    let seconds: i64 = if negative { -seconds } else { seconds };
    let nanos: i32 = if negative { -nanos } else { nanos };
    if seconds < -MAX_DURATION_SECONDS || seconds > MAX_DURATION_SECONDS {
        return Err(CanonicalError::new("duration seconds out of range"));
    }
    if (seconds < 0 && nanos > 0) || (seconds > 0 && nanos < 0) {
        return Err(CanonicalError::new("duration seconds and nanos must have same sign"));
    }
    Ok(Duration { seconds, nanos })
}

/// Reads canonical duration text.
pub fn parse_duration_string(value: &str) -> (r: Result<Duration, CanonicalError>)
    ensures
        outcome_of(r) == duration_from_text(value@),
{
    let chars = chars_of(value);
    let n = chars.len();
    if n == 0 || chars[n - 1] != 's' {
        return Err(CanonicalError::new("duration must end with 's'"));
    }
    if n == 1 {
        return Err(CanonicalError::new("duration is empty"));
    }
    let body = slice_of(&chars, 0, n - 1);
    assert(body@ =~= chars@.drop_last());
    let negative = body[0] == '-';
    let start: usize = if negative { 1 } else { 0 };
    let ghost rest = if negative { body@.skip(1) } else { body@ };
    assert(rest =~= body@.skip(start as int));
    let point = find_from(&body, start, '.');
    let whole = slice_of(&body, start, point);
    assert(whole@ =~= rest.take(point - start));
    let seconds = match parse_signed(&whole, i64::MIN, i64::MAX) {
        None => {
            return Err(CanonicalError::new("invalid duration seconds"));
        },
        Some(seconds) => seconds,
    };
    if point < body.len() {
        assert(rest.skip(point - start + 1) =~= body@.skip(point + 1));
        match read_fraction(&body, point + 1) {
            Err(e) => Err(e),
            Ok(nanos) => duration_of(negative, seconds, nanos),
        }
    } else {
        duration_of(negative, seconds, 0)
    }
}

impl CanonicalSerialize for Duration {
    open spec fn canonical_json(value: Duration) -> Outcome<JsonValue> {
        match duration_text(value) {
            Ok(text) => Ok(JsonValue::Str(text, None)),
            Err(m) => Err(m),
        }
    }

    fn serialize_canonical(&self) -> (r: Result<Json, CanonicalError>) {
        match format_duration(self) {
            Ok(text) => Ok(Json::Str(text, None)),
            Err(e) => Err(e),
        }
    }
}

impl CanonicalDeserialize for Duration {
    open spec fn canonical_value(json: JsonValue) -> Outcome<Duration> {
        match json {
            JsonValue::Str(text, _) => duration_from_text(text),
            _ => Err("invalid type, expected a string"@),
        }
    }

    fn deserialize_canonical(json: &Json) -> (r: Result<Self, CanonicalError>) {
        match json {
            Json::Str(text, _) => parse_duration_string(text.as_str()),
            _ => Err(CanonicalError::new("invalid type, expected a string")),
        }
    }
}

/// A row of zeros.
pub open spec fn zeros(k: nat) -> Seq<char> {
    Seq::new(k, |i: int| '0')
}

/// Zeros in front do not change what digits denote.
pub proof fn lemma_leading_zeros(k: nat, s: Seq<char>)
    ensures
        digits_value(zeros(k) + s) == digits_value(s),
    decreases s.len(), k,
{
    let all = zeros(k) + s;
    if s.len() > 0 {
        assert(all.drop_last() =~= zeros(k) + s.drop_last());
        assert(all.last() == s.last());
        lemma_leading_zeros(k, s.drop_last());
    } else if k > 0 {
        assert(all.drop_last() =~= zeros((k - 1) as nat) + s);
        assert(all.last() == '0');
        lemma_leading_zeros((k - 1) as nat, s);
    } else {
        assert(all =~= Seq::<char>::empty());
    }
}

/// A number below ten to the `w` is written with at most `w` digits.
pub proof fn lemma_decimal_len(m: nat, w: nat)
    requires
        m < pow10(w),
        w >= 1,
    ensures
        decimal(m).len() <= w,
    decreases w,
{
    reveal_with_fuel(pow10, 2);
    if m >= 10 {
        assert(w >= 2);
        lemma_decimal_len(m / 10, (w - 1) as nat);
    }
}

/// A number below ten to the `w`, written with zeros in front up to `w`
/// characters, is `w` digits that denote the number.
pub proof fn lemma_padded(m: nat, w: nat)
    requires
        m < pow10(w),
        w >= 1,
    ensures
        crate::text::padded(m, w).len() == w,
        is_digits(crate::text::padded(m, w)),
        digits_value(crate::text::padded(m, w)) == m,
{
    lemma_decimal_len(m, w);
    crate::text::lemma_decimal_round_trip(m);
    let body = decimal(m);
    let k = (w - body.len()) as nat;
    assert(crate::text::padded(m, w) =~= zeros(k) + body);
    lemma_leading_zeros(k, body);
    assert forall|i: int| 0 <= i < (zeros(k) + body).len() implies crate::text::is_digit(
        #[trigger] (zeros(k) + body)[i],
    ) by {
        if i >= k {
            assert((zeros(k) + body)[i] == body[i - k]);
        }
    }
}

/// The fraction of a second as text, for nanoseconds short of a second: a
/// point and digits that read as the nanoseconds.
pub proof fn lemma_fraction_text(nanos: nat)
    requires
        0 < nanos < 1_000_000_000,
    ensures
        fraction_text(nanos).len() >= 2,
        fraction_text(nanos)[0] == '.',
        fraction_nanos(fraction_text(nanos).skip(1)) == Ok::<int, Seq<char>>(nanos as int),
{
    reveal_with_fuel(pow10, 10);
    assert(pow10(0) == 1);
    assert(pow10(3) == 1_000);
    assert(pow10(6) == 1_000_000);
    assert(pow10(9) == 1_000_000_000);
    let text = fraction_text(nanos);
    if nanos % 1_000_000 == 0 {
        let m = nanos / 1_000_000;
        lemma_padded(m, 3);
        let digits = crate::text::padded(m, 3);
        assert(text =~= seq!['.'] + digits);
        assert(text.skip(1) =~= digits);
        assert(digits.len() == 3);
        assert(digits_value(digits) * pow10(6) == nanos);
        assert(fraction_nanos(digits) == Ok::<int, Seq<char>>(nanos as int));
    } else if nanos % 1_000 == 0 {
        let m = nanos / 1_000;
        lemma_padded(m, 6);
        let digits = crate::text::padded(m, 6);
        assert(text =~= seq!['.'] + digits);
        assert(text.skip(1) =~= digits);
        assert(digits.len() == 6);
        assert(digits_value(digits) * pow10(3) == nanos);
        assert(fraction_nanos(digits) == Ok::<int, Seq<char>>(nanos as int));
    } else {
        lemma_padded(nanos, 9);
        let digits = crate::text::padded(nanos, 9);
        assert(text =~= seq!['.'] + digits);
        assert(text.skip(1) =~= digits);
        assert(digits.len() == 9);
        assert(digits_value(digits) * pow10(0) == nanos);
        assert(fraction_nanos(digits) == Ok::<int, Seq<char>>(nanos as int));
    }
}

/// The seconds and the fraction of a second, written one after the other,
/// part at the point and read as they were.
pub proof fn lemma_seconds_and_fraction(seconds: nat, nanos: nat)
    requires
        nanos < 1_000_000_000,
    ensures
        ({
            let rest = decimal(seconds) + fraction_text(nanos);
            let point = find(rest, '.');
            &&& point == decimal(seconds).len()
            &&& rest.take(point) == decimal(seconds)
            &&& nanos == 0 ==> point == rest.len()
            &&& nanos > 0 ==> point < rest.len() && fraction_nanos(rest.skip(point + 1)) == Ok::<
                int,
                Seq<char>,
            >(nanos as int)
        }),
{
    let digits = decimal(seconds);
    let fraction = fraction_text(nanos);
    let rest = digits + fraction;
    crate::text::lemma_decimal_round_trip(seconds);
    assert forall|j: int| 0 <= j < digits.len() implies rest[j] != '.' by {
        assert(rest[j] == digits[j]);
        assert(crate::text::is_digit(digits[j]));
    }
    if nanos > 0 {
        lemma_fraction_text(nanos);
        assert(rest[digits.len() as int] == fraction[0]);
        crate::text::lemma_find(rest, '.', digits.len() as int);
        assert(rest.take(digits.len() as int) =~= digits);
        assert(rest.skip(digits.len() as int + 1) =~= fraction.skip(1));
    } else {
        assert(fraction =~= Seq::<char>::empty());
        assert(rest =~= digits);
        crate::text::lemma_find(rest, '.', digits.len() as int);
        assert(rest.take(digits.len() as int) =~= digits);
    }
}

/// Round trip for the duration zero.
pub proof fn lemma_zero_duration_round_trip()
    ensures
        duration_from_text("0s"@) == Ok::<Duration, Seq<char>>(Duration { seconds: 0, nanos: 0 }),
{
    let text = "0s"@;
    reveal_strlit("0s");
    assert(text.len() == 2 && text[0] == '0' && text[1] == 's');
    let body = text.drop_last();
    assert(body =~= seq!['0']);
    crate::text::lemma_find(body, '.', 1);
    assert(body.take(1) =~= body);
    reveal_with_fuel(digits_value, 3);
    assert(body.drop_last() =~= Seq::<char>::empty());
    assert(digits_value(body) == 0);
    assert(is_digits(body));
    assert(signed_value(body) == Some(0int));
}

/// Round trip for durations: the text of a duration reads as the duration.
pub proof fn lemma_duration_round_trip(d: Duration)
    requires
        duration_text(d) is Ok,
    ensures
        duration_from_text(duration_text(d)->Ok_0) == Ok::<Duration, Seq<char>>(d),
{
    let text = duration_text(d)->Ok_0;
    if d.seconds == 0 && d.nanos == 0 {
        lemma_zero_duration_round_trip();
    } else {
        let negative = d.seconds < 0 || d.nanos < 0;
        let seconds: nat = (if d.seconds < 0 { -d.seconds } else { d.seconds as int }) as nat;
        let nanos: nat = (if d.nanos < 0 { -d.nanos } else { d.nanos as int }) as nat;
        let sign: Seq<char> = if negative { seq!['-'] } else { Seq::empty() };
        let digits = decimal(seconds);
        let rest = digits + fraction_text(nanos);
        crate::text::lemma_decimal_round_trip(seconds);
        lemma_seconds_and_fraction(seconds, nanos);
        assert(text =~= sign + rest + seq!['s']);
        let body = text.drop_last();
        assert(body =~= sign + rest);
        assert(digits[0] != '-');
        if negative {
            assert(body[0] == '-');
            assert(body.skip(1) =~= rest);
        } else {
            assert(body[0] == digits[0]);
            assert(body =~= rest);
        }
        assert(signed_value(digits) == Some(seconds as int));
    }
}

} // verus!
