//! The timestamp grammar that both caption formats share.
//!
//! A timestamp is twelve characters, `HH:MM:SS` followed by a separator and
//! three digits of milliseconds. The separator is `.` in one format and `,`
//! in the other. A range is two timestamps with ` --> ` between them.

use crate::text::{
    char_is_digit, copy_range, digit_char, digit_value, is_digit, lemma_split_three,
    lemma_three_digits, lemma_two_digits, padded_decimal, push_padded_decimal, split, split_chars,
    value_of_digit, views,
};
use crate::time::{
    hours_of, lemma_millis_of_parts, millis_of, millis_part_of, minutes_of, parts_in_range,
    seconds_of, SimpleTime,
};
use vstd::prelude::*;

verus! {

/// The number that two digits write.
pub open spec fn two_digits(a: char, b: char) -> nat {
    digit_value(a) * 10 + digit_value(b)
}

/// The number that three digits write.
pub open spec fn three_digits(a: char, b: char, c: char) -> nat {
    digit_value(a) * 100 + digit_value(b) * 10 + digit_value(c)
}

/// Twelve characters: digits everywhere but for the colons at 2 and 5 and
/// the separator at 8.
pub open spec fn timestamp_shape(s: Seq<char>, sep: char) -> bool {
    &&& s.len() == 12
    &&& is_digit(s[0])
    &&& is_digit(s[1])
    &&& s[2] == ':'
    &&& is_digit(s[3])
    &&& is_digit(s[4])
    &&& s[5] == ':'
    &&& is_digit(s[6])
    &&& is_digit(s[7])
    &&& s[8] == sep
    &&& is_digit(s[9])
    &&& is_digit(s[10])
    &&& is_digit(s[11])
}

/// The time, in milliseconds, that a timestamp writes: it has the shape of
/// a timestamp, its minutes and seconds are below 60 and its milliseconds
/// below 999.
pub open spec fn spec_timestamp(s: Seq<char>, sep: char) -> Option<nat> {
    if timestamp_shape(s, sep) && parts_in_range(
        two_digits(s[3], s[4]),
        two_digits(s[6], s[7]),
        three_digits(s[9], s[10], s[11]),
    ) {
        Some(
            millis_of(
                two_digits(s[0], s[1]),
                two_digits(s[3], s[4]),
                two_digits(s[6], s[7]),
                three_digits(s[9], s[10], s[11]),
            ),
        )
    } else {
        None
    }
}

/// The arrow between the two timestamps of a range.
pub open spec fn arrow() -> Seq<char> {
    seq!['-', '-', '>']
}

/// The start and end, in milliseconds, that a range writes, or the text at
/// fault: the whole range where it is not three words with the arrow in the
/// middle, else the first word that is no timestamp.
pub open spec fn spec_range(s: Seq<char>, sep: char) -> Result<(nat, nat), Seq<char>> {
    let words = split(s, ' ');
    if words.len() == 3 && words[1] == arrow() {
        match spec_timestamp(words[0], sep) {
            None => Err(words[0]),
            Some(start) => match spec_timestamp(words[2], sep) {
                None => Err(words[2]),
                Some(end) => Ok((start, end)),
            },
        }
    } else {
        Err(s)
    }
}

/// A time as a timestamp: hours, minutes and seconds in at least two digits
/// and milliseconds in three.
pub open spec fn timestamp_text(t: nat, sep: char) -> Seq<char> {
    padded_decimal(hours_of(t), 2) + seq![':'] + padded_decimal(minutes_of(t), 2) + seq![':']
        + padded_decimal(seconds_of(t), 2) + seq![sep] + padded_decimal(millis_part_of(t), 3)
}

/// A start and an end as a range.
pub open spec fn range_text(start: nat, end: nat, sep: char) -> Seq<char> {
    timestamp_text(start, sep) + seq![' '] + arrow() + seq![' '] + timestamp_text(end, sep)
}

/// Reads the two digits at `i` and `i + 1`.
fn read_two(v: &Vec<char>, i: usize) -> (r: Option<usize>)
    requires
        i + 1 < v.len(),
    ensures
        r is Some <==> is_digit(v@[i as int]) && is_digit(v@[i + 1]),
        r matches Some(n) ==> n == two_digits(v@[i as int], v@[i + 1]) && n <= 99,
{
    if char_is_digit(v[i]) && char_is_digit(v[i + 1]) {
        Some(value_of_digit(v[i]) * 10 + value_of_digit(v[i + 1]))
    } else {
        None
    }
}

/// Reads the three digits at `i`, `i + 1` and `i + 2`.
fn read_three(v: &Vec<char>, i: usize) -> (r: Option<usize>)
    requires
        i + 2 < v.len(),
    ensures
        r is Some <==> is_digit(v@[i as int]) && is_digit(v@[i + 1]) && is_digit(v@[i + 2]),
        r matches Some(n) ==> n == three_digits(v@[i as int], v@[i + 1], v@[i + 2]) && n <= 999,
{
    if char_is_digit(v[i]) && char_is_digit(v[i + 1]) && char_is_digit(v[i + 2]) {
        Some(value_of_digit(v[i]) * 100 + value_of_digit(v[i + 1]) * 10 + value_of_digit(v[i + 2]))
    } else {
        None
    }
}

/// Reads a timestamp.
pub(crate) fn parse_timestamp(v: &Vec<char>, sep: char) -> (r: Option<SimpleTime>)
    ensures
        match r {
            Some(t) => spec_timestamp(v@, sep) == Some(t@),
            None => spec_timestamp(v@, sep) is None,
        },
{
    if v.len() != 12 {
        return None;
    }
    if v[2] != ':' || v[5] != ':' || v[8] != sep {
        return None;
    }
    let hours: usize = match read_two(v, 0) {
        Some(n) => n,
        None => {
            return None;
        },
    };
    let minutes: usize = match read_two(v, 3) {
        Some(n) => n,
        None => {
            return None;
        },
    };
    let seconds: usize = match read_two(v, 6) {
        Some(n) => n,
        None => {
            return None;
        },
    };
    let milliseconds: usize = match read_three(v, 9) {
        Some(n) => n,
        None => {
            return None;
        },
    };
    match SimpleTime::from_parts(hours, minutes, seconds, milliseconds) {
        Ok(t) => Some(t),
        Err(_) => None,
    }
}

/// Whether `w` is the arrow.
fn is_arrow(w: &Vec<char>) -> (r: bool)
    ensures
        r == (w@ == arrow()),
{
    let r = w.len() == 3 && w[0] == '-' && w[1] == '-' && w[2] == '>';
    proof {
        if r {
            assert(w@ =~= arrow());
        }
    }
    r
}

/// Reads a range. The error is the text at fault.
pub(crate) fn parse_range(v: &Vec<char>, sep: char) -> (r: Result<(SimpleTime, SimpleTime), Vec<char>>)
    ensures
        match r {
            Ok((start, end)) => spec_range(v@, sep) == Ok::<(nat, nat), Seq<char>>(
                (start@, end@),
            ),
            Err(at) => spec_range(v@, sep) == Err::<(nat, nat), Seq<char>>(at@),
        },
{
    let words = split_chars(v, ' ');
    assert(views(words@).len() == words.len());
    if words.len() != 3 || !is_arrow(&words[1]) {
        let at = copy_range(v, 0, v.len());
        assert(v@.subrange(0, v.len() as int) == v@);
        return Err(at);
    }
    let start = match parse_timestamp(&words[0], sep) {
        Some(t) => t,
        None => {
            let w = &words[0];
            let at = copy_range(w, 0, w.len());
            assert(w@.subrange(0, w.len() as int) == w@);
            return Err(at);
        },
    };
    let end = match parse_timestamp(&words[2], sep) {
        Some(t) => t,
        None => {
            let w = &words[2];
            let at = copy_range(w, 0, w.len());
            assert(w@.subrange(0, w.len() as int) == w@);
            return Err(at);
        },
    };
    Ok((start, end))
}

/// Appends a time as a timestamp.
pub(crate) fn push_timestamp(out: &mut String, t: &SimpleTime, sep: char)
    ensures
        final(out)@ == old(out)@ + timestamp_text(t@, sep),
{
    push_padded_decimal(out, t.hour(), 2);
    out.push(':');
    push_padded_decimal(out, t.minute(), 2);
    out.push(':');
    push_padded_decimal(out, t.second(), 2);
    out.push(sep);
    push_padded_decimal(out, t.millisecond(), 3);
    assert(out@ == old(out)@ + timestamp_text(t@, sep));
}

/// Appends a start and an end as a range.
pub(crate) fn push_range_text(out: &mut String, start: &SimpleTime, end: &SimpleTime, sep: char)
    ensures
        final(out)@ == old(out)@ + range_text(start@, end@, sep),
{
    push_timestamp(out, start, sep);
    out.push(' ');
    out.push('-');
    out.push('-');
    out.push('>');
    out.push(' ');
    push_timestamp(out, end, sep);
    assert(out@ == old(out)@ + range_text(start@, end@, sep));
}

/// The times that a timestamp of twelve characters can write and a reader
/// takes back: below a hundred hours, and not with 999 milliseconds.
pub open spec fn fits_timestamp(t: nat) -> bool {
    hours_of(t) <= 99 && millis_part_of(t) != 999
}

/// The twelve characters of a time below a hundred hours.
pub open spec fn twelve(t: nat, sep: char) -> Seq<char> {
    seq![
        digit_char(hours_of(t) / 10),
        digit_char(hours_of(t) % 10),
        ':',
        digit_char(minutes_of(t) / 10),
        digit_char(minutes_of(t) % 10),
        ':',
        digit_char(seconds_of(t) / 10),
        digit_char(seconds_of(t) % 10),
        sep,
        digit_char(millis_part_of(t) / 100),
        digit_char((millis_part_of(t) / 10) % 10),
        digit_char(millis_part_of(t) % 10),
    ]
}

/// A time below a hundred hours is written in twelve characters.
pub proof fn lemma_timestamp_text(t: nat, sep: char)
    requires
        hours_of(t) <= 99,
    ensures
        timestamp_text(t, sep) == twelve(t, sep),
{
    lemma_two_digits(hours_of(t));
    lemma_two_digits(minutes_of(t));
    lemma_two_digits(seconds_of(t));
    lemma_three_digits(millis_part_of(t));
    assert(timestamp_text(t, sep) =~= twelve(t, sep));
}

/// Two digits written from a number below a hundred write that number.
pub proof fn lemma_two_digits_value(n: nat)
    requires
        n <= 99,
    ensures
        is_digit(digit_char(n / 10)),
        is_digit(digit_char(n % 10)),
        two_digits(digit_char(n / 10), digit_char(n % 10)) == n,
{
}

/// Three digits written from a number below a thousand write that number.
pub proof fn lemma_three_digits_value(n: nat)
    requires
        n <= 999,
    ensures
        is_digit(digit_char(n / 100)),
        is_digit(digit_char((n / 10) % 10)),
        is_digit(digit_char(n % 10)),
        three_digits(digit_char(n / 100), digit_char((n / 10) % 10), digit_char(n % 10)) == n,
{
}

/// A timestamp that was written reads back as the time it was written from.
pub proof fn lemma_timestamp_round_trip(t: nat, sep: char)
    requires
        fits_timestamp(t),
    ensures
        spec_timestamp(timestamp_text(t, sep), sep) == Some(t),
{
    let h: nat = hours_of(t);
    let m: nat = minutes_of(t);
    let sec: nat = seconds_of(t);
    let ms: nat = millis_part_of(t);
    let s = timestamp_text(t, sep);
    assert(millis_of(h, m, sec, ms) == t && m < 60 && sec < 60 && ms < 999) by {
        lemma_millis_of_parts(t);
    }
    assert(s == twelve(t, sep)) by {
        lemma_timestamp_text(t, sep);
    }
    lemma_two_digits_value(h);
    lemma_two_digits_value(m);
    lemma_two_digits_value(sec);
    lemma_three_digits_value(ms);
    assert(s.len() == 12);
    assert(s[0] == digit_char(h / 10) && s[1] == digit_char(h % 10));
    assert(s[3] == digit_char(m / 10) && s[4] == digit_char(m % 10));
    assert(s[6] == digit_char(sec / 10) && s[7] == digit_char(sec % 10));
    assert(s[9] == digit_char(ms / 100) && s[10] == digit_char((ms / 10) % 10) && s[11]
        == digit_char(ms % 10));
    assert(s[2] == ':' && s[5] == ':' && s[8] == sep);
    assert(timestamp_shape(s, sep));
}

/// The characters of a written timestamp are digits, colons and the
/// separator; the first and the last are digits.
pub proof fn lemma_timestamp_chars(t: nat, sep: char)
    requires
        hours_of(t) <= 99,
    ensures
        timestamp_text(t, sep).len() == 12,
        is_digit(timestamp_text(t, sep)[0]),
        is_digit(timestamp_text(t, sep)[11]),
        forall|i: int|
            0 <= i < 12 ==> is_digit(#[trigger] timestamp_text(t, sep)[i]) || timestamp_text(
                t,
                sep,
            )[i] == ':' || timestamp_text(t, sep)[i] == sep,
{
    lemma_timestamp_text(t, sep);
    lemma_millis_of_parts(t);
    let s = twelve(t, sep);
    assert forall|i: int| 0 <= i < 12 implies is_digit(#[trigger] s[i]) || s[i] == ':' || s[i]
        == sep by {
        if i == 0 {
        } else if i == 1 {
        } else if i == 2 {
        } else if i == 3 {
        } else if i == 4 {
        } else if i == 5 {
        } else if i == 6 {
        } else if i == 7 {
        } else if i == 8 {
        } else if i == 9 {
        } else if i == 10 {
        } else {
        }
    }
}

/// The characters of a written range are digits, colons, the separator,
/// spaces and those of the arrow; the first and the last are digits.
pub proof fn lemma_range_chars(start: nat, end: nat, sep: char)
    requires
        hours_of(start) <= 99,
        hours_of(end) <= 99,
    ensures
        range_text(start, end, sep).len() == 29,
        is_digit(range_text(start, end, sep)[0]),
        is_digit(range_text(start, end, sep)[28]),
        forall|i: int|
            0 <= i < 29 ==> {
                let c = #[trigger] range_text(start, end, sep)[i];
                is_digit(c) || c == ':' || c == sep || c == ' ' || c == '-' || c == '>'
            },
{
    lemma_timestamp_chars(start, sep);
    lemma_timestamp_chars(end, sep);
    let a = timestamp_text(start, sep);
    let z = timestamp_text(end, sep);
    let r = range_text(start, end, sep);
    assert(r.len() == 29);
    assert forall|i: int| 0 <= i < 29 implies {
        let c = #[trigger] r[i];
        is_digit(c) || c == ':' || c == sep || c == ' ' || c == '-' || c == '>'
    } by {
        if i < 12 {
            assert(r[i] == a[i]);
        } else if i < 17 {
        } else {
            assert(r[i] == z[i - 17]);
        }
    }
    assert(r[0] == a[0]);
    assert(r[28] == z[11]);
}

/// A range that was written reads back as the start and end it was written
/// from.
pub proof fn lemma_range_round_trip(start: nat, end: nat, sep: char)
    requires
        fits_timestamp(start),
        fits_timestamp(end),
        sep != ' ',
    ensures
        spec_range(range_text(start, end, sep), sep) == Ok::<(nat, nat), Seq<char>>((start, end)),
{
    let a = timestamp_text(start, sep);
    let z = timestamp_text(end, sep);
    lemma_timestamp_chars(start, sep);
    lemma_timestamp_chars(end, sep);
    lemma_timestamp_round_trip(start, sep);
    lemma_timestamp_round_trip(end, sep);
    assert forall|i: int| 0 <= i < a.len() implies a[i] != ' ' by {
        assert(is_digit(a[i]) || a[i] == ':' || a[i] == sep);
    }
    assert forall|i: int| 0 <= i < z.len() implies z[i] != ' ' by {
        assert(is_digit(z[i]) || z[i] == ':' || z[i] == sep);
    }
    lemma_split_three(a, arrow(), z, ' ');
    assert(range_text(start, end, sep) == a + seq![' '] + arrow() + seq![' '] + z);
}

} // verus!
