//! Moving the timestamps that stand in a text, whatever else the text
//! holds.

use crate::stamp::{parse_timestamp, push_timestamp, spec_timestamp, timestamp_text};
use crate::text::{chars_of, copy_range};
use crate::time::{NegativeSimpleTime, SimpleTime};
use vstd::prelude::*;

verus! {

/// The timestamp that begins a text, with its separator: the first twelve
/// characters, where they write a time with a comma or with a dot.
pub open spec fn leading_stamp(s: Seq<char>) -> Option<(nat, char)> {
    if s.len() < 12 {
        None
    } else {
        match spec_timestamp(s.take(12), ',') {
            Some(t) => Some((t, ',')),
            None => match spec_timestamp(s.take(12), '.') {
                Some(t) => Some((t, '.')),
                None => None,
            },
        }
    }
}

/// A text put before the result of moving the rest.
pub open spec fn and_then_text(head: Seq<char>, rest: Option<Seq<char>>) -> Option<Seq<char>> {
    match rest {
        Some(r) => Some(head + r),
        None => None,
    }
}

/// The text with every timestamp moved by `n` milliseconds. The text is
/// read from the left; where a timestamp begins it is replaced by the moved
/// time, written with the same separator, and reading goes on behind it;
/// any other character stays as it is. There is no result where a moved
/// time would be negative.
pub open spec fn spec_offset_stamps(s: Seq<char>, n: int) -> Option<Seq<char>>
    decreases s.len(),
{
    if s.len() == 0 {
        Some(Seq::<char>::empty())
    } else {
        match leading_stamp(s) {
            Some((t, sep)) => if t + n < 0 {
                None
            } else {
                and_then_text(
                    timestamp_text((t + n) as nat, sep),
                    spec_offset_stamps(s.skip(12), n),
                )
            },
            None => and_then_text(seq![s[0]], spec_offset_stamps(s.skip(1), n)),
        }
    }
}

/// Reads the timestamp that begins at `i`.
fn stamp_at(v: &Vec<char>, i: usize) -> (r: Option<(SimpleTime, char)>)
    requires
        i <= v.len(),
    ensures
        match r {
            Some((t, sep)) => leading_stamp(v@.skip(i as int)) == Some((t@, sep)),
            None => leading_stamp(v@.skip(i as int)) is None,
        },
{
    if v.len() - i < 12 {
        return None;
    }
    let token = copy_range(v, i, i + 12);
    assert(token@ == v@.skip(i as int).take(12));
    match parse_timestamp(&token, ',') {
        Some(t) => Some((t, ',')),
        None => match parse_timestamp(&token, '.') {
            Some(t) => Some((t, '.')),
            None => None,
        },
    }
}

/// Moves every timestamp in a text by `offset` milliseconds and leaves the
/// rest of the text as it is. A move that would put a time below zero is
/// refused.
pub fn offset_str_stamps(text: &str, offset: isize) -> (r: Result<String, NegativeSimpleTime>)
    ensures
        match r {
            Ok(moved) => spec_offset_stamps(text@, offset as int) == Some(moved@),
            Err(_) => spec_offset_stamps(text@, offset as int) is None,
        },
{
    let v = chars_of(text);
    let mut out = String::new();
    let mut i: usize = 0;
    assert(v@.skip(0) == v@);
    proof {
        let whole = spec_offset_stamps(v@, offset as int);
        if whole is Some {
            assert(out@ + whole.unwrap() == whole.unwrap());
        }
    }
    while i < v.len()
        invariant
            i <= v.len(),
            v@ == text@,
            spec_offset_stamps(text@, offset as int) == and_then_text(
                out@,
                spec_offset_stamps(v@.skip(i as int), offset as int),
            ),
        decreases v.len() - i,
    {
        let ghost rest = v@.skip(i as int);
        let ghost before = out@;
        match stamp_at(&v, i) {
            Some((time, sep)) => {
                let mut moved = time;
                proof {
                    assert(time@ < 360_000_000);
                    assert(rest.skip(12) == v@.skip(i + 12));
                }
                match moved.offset(offset) {
                    Err(e) => {
                        return Err(e);
                    },
                    Ok(()) => {},
                }
                push_timestamp(&mut out, &moved, sep);
                proof {
                    let head = timestamp_text(moved@, sep);
                    let tail = spec_offset_stamps(rest.skip(12), offset as int);
                    if tail is Some {
                        assert(before + (head + tail.unwrap()) == (before + head) + tail.unwrap());
                    }
                }
                i += 12;
            },
            None => {
                out.push(v[i]);
                proof {
                    let head = seq![rest[0]];
                    let tail = spec_offset_stamps(rest.skip(1), offset as int);
                    assert(rest.skip(1) == v@.skip(i + 1));
                    assert(before.push(v@[i as int]) == before + head);
                    if tail is Some {
                        assert(before + (head + tail.unwrap()) == (before + head) + tail.unwrap());
                    }
                }
                i += 1;
            },
        }
    }
    assert(v@.skip(v.len() as int).len() == 0);
    assert(out@ + Seq::<char>::empty() == out@);
    Ok(out)
}

} // verus!
