//! Text as sequences of characters, and decimal integers in text.
use vstd::prelude::*;

verus! {

/// The characters of `s`, in order.
pub fn chars_of(s: &str) -> (r: Vec<char>)
    ensures
        r@ == s@,
{
    let mut out: Vec<char> = Vec::new();
    for c in it: s.chars()
        invariant
            it.seq() == s@,
            out@ =~= it.seq().take(it.index() as int),
    {
        out.push(c);
    }
    assert(out@ =~= s@);
    out
}

/// Collects characters into a `String` with the standard library's
/// `FromIterator<char>`; the string holds exactly those characters.
#[verifier::external_body]
pub(crate) fn string_of(chars: &Vec<char>) -> (r: String)
    ensures
        r@ == chars@,
{
    chars.iter().collect()
}

/// Whether two pieces of text hold the same characters.
pub fn same_text(a: &str, b: &str) -> (r: bool)
    ensures
        r == (a@ == b@),
{
    a.to_owned() == b.to_owned()
}

/// Whether `c` is one of the ten ASCII digits.
pub open spec fn is_digit(c: char) -> bool {
    '0' <= c <= '9'
}

/// The number a digit stands for.
pub open spec fn digit_of(c: char) -> int {
    c as int - '0' as int
}

/// The digit that stands for `d`, for `0 <= d < 10`.
pub open spec fn digit_char(d: int) -> char {
    (d + '0' as int) as char
}

/// Whether `s` is a non-empty run of ASCII digits.
pub open spec fn is_digits(s: Seq<char>) -> bool {
    s.len() > 0 && forall|i: int| 0 <= i < s.len() ==> is_digit(#[trigger] s[i])
}

/// The number that a run of digits denotes in base ten.
pub open spec fn digits_value(s: Seq<char>) -> int
    decreases s.len(),
{
    if s.len() == 0 {
        0
    } else {
        digits_value(s.drop_last()) * 10 + digit_of(s.last())
    }
}

/// The shortest base-ten writing of `n`.
pub open spec fn decimal(n: nat) -> Seq<char>
    decreases n,
{
    if n < 10 {
        seq![digit_char(n as int)]
    } else {
        decimal(n / 10).push(digit_char((n % 10) as int))
    }
}

/// The base-ten writing of `v`, with a leading `-` when negative.
pub open spec fn signed_decimal(v: int) -> Seq<char> {
    if v < 0 {
        seq!['-'] + decimal((-v) as nat)
    } else {
        decimal(v as nat)
    }
}

/// The number that `s` denotes when read as an unsigned decimal integer: an
/// optional `+`, then one or more digits.
pub open spec fn unsigned_value(s: Seq<char>) -> Option<int> {
    let body = if s.len() > 0 && s[0] == '+' { s.skip(1) } else { s };
    if is_digits(body) {
        Some(digits_value(body))
    } else {
        None
    }
}

/// The number that `s` denotes when read as a signed decimal integer: an
/// optional `+` or `-`, then one or more digits.
pub open spec fn signed_value(s: Seq<char>) -> Option<int> {
    if s.len() > 0 && s[0] == '-' {
        if is_digits(s.skip(1)) {
            Some(-digits_value(s.skip(1)))
        } else {
            None
        }
    } else {
        unsigned_value(s)
    }
}

/// A value read from text, where it lies between `lo` and `hi`.
pub open spec fn within(v: Option<int>, lo: int, hi: int) -> Option<int> {
    match v {
        Some(n) if lo <= n <= hi => Some(n),
        _ => None,
    }
}

pub proof fn lemma_digits_value_bounds(s: Seq<char>)
    requires
        forall|i: int| 0 <= i < s.len() ==> is_digit(#[trigger] s[i]),
    ensures
        digits_value(s) >= 0,
    decreases s.len(),
{
    if s.len() > 0 {
        lemma_digits_value_bounds(s.drop_last());
    }
}

/// Reads the digits of `chars` from `start` on as a number no larger than
/// `limit`.
pub fn read_digits(chars: &Vec<char>, start: usize, limit: u64) -> (r: Option<u64>)
    requires
        start <= chars.len(),
    ensures
        r matches Some(v) ==> is_digits(chars@.skip(start as int)) && v == digits_value(
            chars@.skip(start as int),
        ) && v <= limit,
        r is None ==> !is_digits(chars@.skip(start as int)) || digits_value(
            chars@.skip(start as int),
        ) > limit,
{
    let ghost body = chars@.skip(start as int);
    if start == chars.len() {
        return None;
    }
    let mut i: usize = start;
    let mut acc: u64 = 0;
    let mut over: bool = false;
    while i < chars.len()
        invariant
            start <= i <= chars.len(),
            body == chars@.skip(start as int),
            forall|j: int| 0 <= j < i - start ==> is_digit(#[trigger] body[j]),
            !over ==> acc == digits_value(body.take(i - start)) && acc <= limit,
            over ==> digits_value(body.take(i - start)) > limit,
        decreases chars.len() - i,
    {
        let c = chars[i];
        if !('0' <= c && c <= '9') {
            proof {
                assert(body[i - start] == c);
            }
            return None;
        }
        let d: u64 = (c as u32 - '0' as u32) as u64;
        proof {
            let next = body.take(i - start + 1);
            assert(next.drop_last() =~= body.take(i - start));
            assert(next.last() == c);
            assert(body[i - start] == c);
            lemma_digits_value_bounds(body.take(i - start));
        }
        if !over {
            if limit < d || acc > (limit - d) / 10 {
                over = true;
            } else {
                acc = acc * 10 + d;
            }
        }
        i = i + 1;
    }
    proof {
        assert(body.take(i - start) =~= body);
    }
    if over {
        None
    } else {
        Some(acc)
    }
}

/// Reads `chars` as an unsigned decimal integer no larger than `limit`.
pub fn parse_unsigned(chars: &Vec<char>, limit: u64) -> (r: Option<u64>)
    ensures
        match r {
            Some(v) => within(unsigned_value(chars@), 0, limit as int) == Some(v as int),
            None => within(unsigned_value(chars@), 0, limit as int) is None,
        },
{
    let start: usize = if chars.len() > 0 && chars[0] == '+' { 1 } else { 0 };
    let r = read_digits(chars, start, limit);
    proof {
        if start == 0 {
            assert(chars@.skip(0) =~= chars@);
        }
        if is_digits(chars@.skip(start as int)) {
            lemma_digits_value_bounds(chars@.skip(start as int));
        }
    }
    r
}

/// Reads `chars` as a signed decimal integer between `min` and `max`.
pub fn parse_signed(chars: &Vec<char>, min: i64, max: i64) -> (r: Option<i64>)
    requires
        min <= 0 <= max,
    ensures
        match r {
            Some(v) => within(signed_value(chars@), min as int, max as int) == Some(v as int),
            None => within(signed_value(chars@), min as int, max as int) is None,
        },
{
    if chars.len() > 0 && chars[0] == '-' {
        let limit: u64 = if min == i64::MIN { 9_223_372_036_854_775_808u64 } else { (-min) as u64 };
        proof {
            if is_digits(chars@.skip(1)) {
                lemma_digits_value_bounds(chars@.skip(1));
            }
        }
        match read_digits(chars, 1, limit) {
            Some(m) => {
                if m == 9_223_372_036_854_775_808u64 {
                    Some(i64::MIN)
                } else {
                    Some(-(m as i64))
                }
            },
            None => None,
        }
    } else {
        proof {
            let body = if chars@.len() > 0 && chars@[0] == '+' { chars@.skip(1) } else { chars@ };
            if is_digits(body) {
                lemma_digits_value_bounds(body);
            }
        }
        match parse_unsigned(chars, max as u64) {
            Some(m) => Some(m as i64),
            None => None,
        }
    }
}

/// Appends the shortest base-ten writing of `v` to `out`.
pub fn push_decimal(out: &mut Vec<char>, v: u64)
    ensures
        final(out)@ == old(out)@ + decimal(v as nat),
    decreases v,
{
    if v >= 10 {
        push_decimal(out, v / 10);
    }
    let d: u8 = (v % 10) as u8;
    out.push((d + 48u8) as char);
    proof {
        if v >= 10 {
            assert(final(out)@ =~= old(out)@ + decimal(v as nat));
        } else {
            assert(final(out)@ =~= old(out)@ + decimal(v as nat));
        }
    }
}

/// Appends the base-ten writing of `v` to `out`, with a leading `-` when
/// `v` is negative.
pub fn push_signed_decimal(out: &mut Vec<char>, v: i64)
    ensures
        final(out)@ == old(out)@ + signed_decimal(v as int),
{
    if v < 0 {
        out.push('-');
        let m: u64 = if v == i64::MIN { 9_223_372_036_854_775_808u64 } else { (-v) as u64 };
        push_decimal(out, m);
        assert(final(out)@ =~= old(out)@ + signed_decimal(v as int));
    } else {
        push_decimal(out, v as u64);
    }
}

/// The base-ten writing of `n`, with zeros in front up to `width` characters.
pub open spec fn padded(n: nat, width: nat) -> Seq<char> {
    let body = decimal(n);
    if body.len() < width {
        Seq::new((width - body.len()) as nat, |i: int| '0') + body
    } else {
        body
    }
}

/// The number of digits in the shortest base-ten writing of `v`.
pub fn decimal_len(v: u64) -> (r: usize)
    ensures
        r == decimal(v as nat).len(),
        1 <= r <= 20,
    decreases v,
{
    if v >= 10 {
        let r = decimal_len(v / 10);
        proof {
            lemma_decimal_len_bound(v as nat);
        }
        r + 1
    } else {
        1
    }
}

/// A number below ten to the `k` has at most `k` digits; a `u64` has at most twenty.
pub proof fn lemma_decimal_len_bound(n: nat)
    requires
        n <= u64::MAX,
    ensures
        decimal(n).len() <= 20,
{
    reveal_with_fuel(decimal, 21);
}

/// Appends `v` to `out` in base ten, with zeros in front up to `width`
/// characters.
pub fn push_padded(out: &mut Vec<char>, v: u64, width: usize)
    ensures
        final(out)@ == old(out)@ + padded(v as nat, width as nat),
{
    let len = decimal_len(v);
    let ghost zeros = if len < width { (width - len) as nat } else { 0nat };
    let mut i: usize = len;
    while i < width
        invariant
            len <= i,
            i <= width || i == len,
            out@ == old(out)@ + Seq::new((i - len) as nat, |k: int| '0'),
        decreases width - i,
    {
        out.push('0');
        i = i + 1;
        assert(out@ =~= old(out)@ + Seq::new((i - len) as nat, |k: int| '0'));
    }
    push_decimal(out, v);
    assert(final(out)@ =~= old(out)@ + padded(v as nat, width as nat));
}

/// Reading the base-ten writing of a number gives the number back.
pub proof fn lemma_decimal_round_trip(n: nat)
    ensures
        is_digits(decimal(n)),
        digits_value(decimal(n)) == n,
        unsigned_value(decimal(n)) == Some(n as int),
    decreases n,
{
    if n >= 10 {
        lemma_decimal_round_trip(n / 10);
        let s = decimal(n);
        assert(s.drop_last() =~= decimal(n / 10));
        assert(s.last() == digit_char((n % 10) as int));
        assert forall|i: int| 0 <= i < s.len() implies is_digit(#[trigger] s[i]) by {
            if i < s.len() - 1 {
                assert(s[i] == decimal(n / 10)[i]);
            }
        }
    } else {
        let s = decimal(n);
        assert(s.drop_last() =~= Seq::<char>::empty());
        assert(digits_value(s.drop_last()) == 0);
    }
    assert(decimal(n)[0] != '+');
}

/// Reading the signed base-ten writing of an integer gives the integer back.
pub proof fn lemma_signed_decimal_round_trip(v: int)
    ensures
        signed_value(signed_decimal(v)) == Some(v),
{
    if v < 0 {
        let s = signed_decimal(v);
        lemma_decimal_round_trip((-v) as nat);
        assert(s.skip(1) =~= decimal((-v) as nat));
    } else {
        lemma_decimal_round_trip(v as nat);
        assert(decimal(v as nat)[0] != '-');
    }
}

/// The place of the first `c` in `s`, or the length of `s` where there is
/// none.
pub open spec fn find(s: Seq<char>, c: char) -> int
    decreases s.len(),
{
    if s.len() == 0 {
        0
    } else if s[0] == c {
        0
    } else {
        1 + find(s.skip(1), c)
    }
}

/// `find` is the first place that holds `c`.
pub proof fn lemma_find(s: Seq<char>, c: char, i: int)
    requires
        0 <= i <= s.len(),
        forall|j: int| 0 <= j < i ==> s[j] != c,
        i < s.len() ==> s[i] == c,
    ensures
        find(s, c) == i,
    decreases s.len(),
{
    if s.len() > 0 && i > 0 {
        assert forall|j: int| 0 <= j < i - 1 implies s.skip(1)[j] != c by {
            assert(s.skip(1)[j] == s[j + 1]);
        }
        lemma_find(s.skip(1), c, i - 1);
    }
}

/// `find` stays within the text and stops at a `c`.
pub proof fn lemma_find_bounds(s: Seq<char>, c: char)
    ensures
        0 <= find(s, c) <= s.len(),
        find(s, c) < s.len() ==> s[find(s, c)] == c,
        forall|j: int| 0 <= j < find(s, c) ==> s[j] != c,
    decreases s.len(),
{
    if s.len() > 0 && s[0] != c {
        lemma_find_bounds(s.skip(1), c);
        assert forall|j: int| 0 <= j < find(s, c) implies s[j] != c by {
            if j > 0 {
                assert(s.skip(1)[j - 1] == s[j]);
            }
        }
    }
}

/// The pieces of `s` between occurrences of `sep`: one more than there are
/// occurrences, empty pieces included.
pub open spec fn split(s: Seq<char>, sep: char) -> Seq<Seq<char>>
    decreases s.len(),
{
    let i = find(s, sep);
    if 0 <= i < s.len() {
        seq![s.take(i)] + split(s.skip(i + 1), sep)
    } else {
        seq![s]
    }
}

/// The pieces put together again with `sep` between them.
pub open spec fn join(parts: Seq<Seq<char>>, sep: char) -> Seq<char>
    decreases parts.len(),
{
    if parts.len() == 0 {
        Seq::empty()
    } else if parts.len() == 1 {
        parts[0]
    } else {
        parts[0] + seq![sep] + join(parts.skip(1), sep)
    }
}

/// The texts that a vector of character vectors holds.
pub open spec fn rows(v: Seq<Vec<char>>) -> Seq<Seq<char>> {
    Seq::new(v.len(), |i: int| v[i]@)
}

/// The place of the first `c` in `chars` at or after `from`, or the length.
pub fn find_from(chars: &Vec<char>, from: usize, c: char) -> (r: usize)
    requires
        from <= chars.len(),
    ensures
        from <= r <= chars.len(),
        r - from == find(chars@.skip(from as int), c),
        r < chars.len() ==> chars@[r as int] == c,
        forall|j: int| from <= j < r ==> chars@[j] != c,
{
    let mut i: usize = from;
    while i < chars.len() && chars[i] != c
        invariant
            from <= i <= chars.len(),
            forall|j: int| from <= j < i ==> chars@[j] != c,
        decreases chars.len() - i,
    {
        i = i + 1;
    }
    proof {
        lemma_find(chars@.skip(from as int), c, i - from);
    }
    i
}

/// A copy of the characters of `chars` from `from` up to `to`.
pub fn slice_of(chars: &Vec<char>, from: usize, to: usize) -> (r: Vec<char>)
    requires
        from <= to <= chars.len(),
    ensures
        r@ == chars@.subrange(from as int, to as int),
{
    let mut out: Vec<char> = Vec::new();
    let mut i: usize = from;
    while i < to
        invariant
            from <= i <= to <= chars.len(),
            out@ == chars@.subrange(from as int, i as int),
        decreases to - i,
    {
        out.push(chars[i]);
        i = i + 1;
        assert(out@ =~= chars@.subrange(from as int, i as int));
    }
    out
}

/// Splits `chars` at every `sep`.
pub fn split_chars(chars: &Vec<char>, sep: char) -> (r: Vec<Vec<char>>)
    ensures
        rows(r@) == split(chars@, sep),
        r.len() >= 1,
{
    let mut out: Vec<Vec<char>> = Vec::new();
    let mut start: usize = 0;
    proof {
        assert(chars@.skip(0) =~= chars@);
        assert(rows(out@) + split(chars@, sep) =~= split(chars@, sep));
    }
    loop
        invariant
            start <= chars.len(),
            split(chars@, sep) == rows(out@) + split(chars@.skip(start as int), sep),
        decreases chars.len() - start,
    {
        let end = find_from(chars, start, sep);
        let piece = slice_of(chars, start, end);
        let ghost rest = chars@.skip(start as int);
        let ghost before = rows(out@);
        assert(piece@ =~= rest.take(end - start));
        out.push(piece);
        assert(rows(out@) =~= before + seq![rest.take(end - start)]);
        if end == chars.len() {
            proof {
                assert(rest.take(end - start) =~= rest);
                assert(split(rest, sep) == seq![rest]);
                assert(rows(out@) =~= split(chars@, sep));
            }
            return out;
        }
        proof {
            assert(rest.skip(end - start + 1) =~= chars@.skip(end + 1));
            assert(split(rest, sep) == seq![rest.take(end - start)] + split(
                rest.skip(end - start + 1),
                sep,
            ));
            assert(split(chars@, sep) =~= rows(out@) + split(chars@.skip(end + 1), sep));
        }
        start = end + 1;
    }
}

/// Appends all of `piece` to `out`.
pub fn push_all(out: &mut Vec<char>, piece: &Vec<char>)
    ensures
        final(out)@ == old(out)@ + piece@,
{
    let mut i: usize = 0;
    while i < piece.len()
        invariant
            i <= piece.len(),
            out@ == old(out)@ + piece@.take(i as int),
        decreases piece.len() - i,
    {
        out.push(piece[i]);
        i = i + 1;
        assert(out@ =~= old(out)@ + piece@.take(i as int));
    }
    assert(piece@.take(piece.len() as int) =~= piece@);
}

/// Puts `parts` together with `sep` between them.
pub fn join_chars(parts: &Vec<Vec<char>>, sep: char) -> (r: Vec<char>)
    ensures
        r@ == join(rows(parts@), sep),
{
    let mut out: Vec<char> = Vec::new();
    if parts.len() == 0 {
        return out;
    }
    let ghost all = rows(parts@);
    // Built from the back, as `join` is defined from the front.
    let mut i: usize = parts.len();
    let mut pieces: Vec<char> = Vec::new();
    while i > 0
        invariant
            i <= parts.len(),
            all == rows(parts@),
            i < parts.len() ==> pieces@ == join(all.skip(i as int), sep),
            i == parts.len() ==> pieces@ == Seq::<char>::empty(),
        decreases i,
    {
        i = i - 1;
        let mut next: Vec<char> = Vec::new();
        push_all(&mut next, &parts[i]);
        proof {
            assert(all.skip(i as int)[0] == parts@[i as int]@);
            assert(all.skip(i as int).skip(1) =~= all.skip(i + 1));
        }
        if i + 1 < parts.len() {
            next.push(sep);
            push_all(&mut next, &pieces);
            assert(next@ =~= parts@[i as int]@ + seq![sep] + pieces@);
        } else {
            assert(all.skip(i as int).len() == 1);
        }
        pieces = next;
    }
    assert(all.skip(0) =~= all);
    pieces
}

/// Ten to the power `n`.
pub open spec fn pow10(n: nat) -> nat
    decreases n,
{
    if n == 0 {
        1
    } else {
        10 * pow10((n - 1) as nat)
    }
}

/// Whether `x` does not occur in `s`.
pub open spec fn without(s: Seq<char>, x: char) -> bool {
    forall|i: int| 0 <= i < s.len() ==> s[i] != x
}

/// Whether `x` occurs in none of the parts.
pub open spec fn all_without(parts: Seq<Seq<char>>, x: char) -> bool {
    forall|i: int| 0 <= i < parts.len() ==> without(#[trigger] parts[i], x)
}

/// The pieces of a text hold no separator, and no character that the text
/// does not hold.
pub proof fn lemma_split_pieces_without(s: Seq<char>, sep: char, x: char)
    requires
        x == sep || without(s, x),
    ensures
        split(s, sep).len() >= 1,
        all_without(split(s, sep), x),
    decreases s.len(),
{
    lemma_find_bounds(s, sep);
    let i = find(s, sep);
    if 0 <= i < s.len() {
        let rest = s.skip(i + 1);
        assert(x == sep || without(rest, x)) by {
            if x != sep {
                assert forall|j: int| 0 <= j < rest.len() implies rest[j] != x by {
                    assert(rest[j] == s[j + i + 1]);
                }
            }
        }
        lemma_split_pieces_without(rest, sep, x);
        let pieces = split(s, sep);
        assert(pieces == seq![s.take(i)] + split(rest, sep));
        assert forall|k: int| 0 <= k < pieces.len() implies without(#[trigger] pieces[k], x) by {
            if k == 0 {
                assert(pieces[0] == s.take(i));
                assert forall|j: int| 0 <= j < s.take(i).len() implies s.take(i)[j] != x by {
                    assert(s.take(i)[j] == s[j]);
                }
            } else {
                assert(pieces[k] == split(rest, sep)[k - 1]);
            }
        }
    } else {
        let pieces = split(s, sep);
        assert(pieces == seq![s]);
        assert forall|k: int| 0 <= k < pieces.len() implies without(#[trigger] pieces[k], x) by {
            assert(pieces[k] == s);
        }
    }
}

/// The pieces of a text, put together again, are the text.
pub proof fn lemma_join_split(s: Seq<char>, sep: char)
    ensures
        join(split(s, sep), sep) == s,
    decreases s.len(),
{
    lemma_find_bounds(s, sep);
    let i = find(s, sep);
    if 0 <= i < s.len() {
        let rest = s.skip(i + 1);
        lemma_join_split(rest, sep);
        lemma_split_pieces_without(rest, sep, sep);
        let pieces = split(s, sep);
        assert(pieces == seq![s.take(i)] + split(rest, sep));
        assert(pieces.len() > 1);
        assert(pieces[0] == s.take(i));
        assert(pieces.skip(1) =~= split(rest, sep));
        assert(s.take(i) + seq![sep] + rest =~= s);
    } else {
        assert(split(s, sep) == seq![s]);
    }
}

/// Parts without a separator in them, put together and split again, are the
/// parts.
pub proof fn lemma_split_join(parts: Seq<Seq<char>>, sep: char)
    requires
        parts.len() >= 1,
        all_without(parts, sep),
    ensures
        split(join(parts, sep), sep) == parts,
    decreases parts.len(),
{
    let first = parts[0];
    assert(without(first, sep));
    if parts.len() == 1 {
        lemma_find(first, sep, first.len() as int);
        assert(seq![first] =~= parts);
    } else {
        let rest = parts.skip(1);
        assert(all_without(rest, sep)) by {
            assert forall|i: int| 0 <= i < rest.len() implies without(#[trigger] rest[i], sep) by {
                assert(rest[i] == parts[i + 1]);
            }
        }
        lemma_split_join(rest, sep);
        let text = first + seq![sep] + join(rest, sep);
        assert(join(parts, sep) == text);
        assert forall|j: int| 0 <= j < first.len() implies text[j] != sep by {
            assert(text[j] == first[j]);
        }
        assert(text[first.len() as int] == sep);
        lemma_find(text, sep, first.len() as int);
        assert(text.take(first.len() as int) =~= first);
        assert(text.skip(first.len() as int + 1) =~= join(rest, sep));
        assert(seq![first] + rest =~= parts);
    }
}

/// Parts put together hold no character that neither a part nor the
/// separator is.
pub proof fn lemma_join_without(parts: Seq<Seq<char>>, sep: char, x: char)
    requires
        all_without(parts, x),
        sep != x,
    ensures
        without(join(parts, sep), x),
    decreases parts.len(),
{
    if parts.len() == 1 {
        assert(without(parts[0], x));
    } else if parts.len() > 1 {
        let rest = parts.skip(1);
        assert(all_without(rest, x)) by {
            assert forall|i: int| 0 <= i < rest.len() implies without(#[trigger] rest[i], x) by {
                assert(rest[i] == parts[i + 1]);
            }
        }
        lemma_join_without(rest, sep, x);
        assert(without(parts[0], x));
        let text = parts[0] + seq![sep] + join(rest, sep);
        assert forall|j: int| 0 <= j < text.len() implies text[j] != x by {
            if j < parts[0].len() {
                assert(text[j] == parts[0][j]);
            } else if j > parts[0].len() {
                assert(text[j] == join(rest, sep)[j - parts[0].len() - 1]);
            }
        }
    }
}

/// Parts put together are not empty where the first part is not.
pub proof fn lemma_join_not_empty(parts: Seq<Seq<char>>, sep: char)
    requires
        parts.len() >= 1,
        parts[0].len() > 0,
    ensures
        join(parts, sep).len() > 0,
{
}

} // verus!
