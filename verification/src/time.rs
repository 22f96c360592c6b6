//! Time values with millisecond resolution.
//!
//! A [`SimpleTime`] stands for a non-negative number of milliseconds, its view.
//! The four stored components are the digits of that number in the mixed radix
//! hours / minutes / seconds / milliseconds.

use vstd::arithmetic::div_mod::{
    lemma_div_denominator, lemma_fundamental_div_mod, lemma_fundamental_div_mod_converse,
};
use vstd::prelude::*;
use vstd::string::StringExecFns;

verus! {

pub const MILLIS_PER_SECOND: usize = 1000;

pub const MILLIS_PER_MINUTE: usize = 60_000;

pub const MILLIS_PER_HOUR: usize = 3_600_000;

/// The millisecond count of a time given by its components.
pub open spec fn millis_of(hours: nat, minutes: nat, seconds: nat, milliseconds: nat) -> nat {
    hours * 3_600_000 + minutes * 60_000 + seconds * 1000 + milliseconds
}

/// The hour component of a millisecond count.
pub open spec fn hours_of(total: nat) -> nat {
    total / 3_600_000
}

/// The minute component of a millisecond count.
pub open spec fn minutes_of(total: nat) -> nat {
    (total / 60_000) % 60
}

/// The second component of a millisecond count.
pub open spec fn seconds_of(total: nat) -> nat {
    (total / 1000) % 60
}

/// The millisecond component of a millisecond count.
pub open spec fn millis_part_of(total: nat) -> nat {
    total % 1000
}

/// The components that `SimpleTime::from_parts` accepts. Milliseconds stop at
/// 998: the value 999 is refused there, although a time built from a
/// millisecond count may carry it.
pub open spec fn parts_in_range(minutes: nat, seconds: nat, milliseconds: nat) -> bool {
    minutes < 60 && seconds < 60 && milliseconds < 999
}

/// Splitting a millisecond count into components and putting them together
/// again gives the count back.
pub proof fn lemma_millis_of_parts(total: nat)
    ensures
        millis_of(hours_of(total), minutes_of(total), seconds_of(total), millis_part_of(total))
            == total,
        minutes_of(total) < 60,
        seconds_of(total) < 60,
        millis_part_of(total) < 1000,
{
    let t: int = total as int;
    let whole_seconds: int = t / 1000;
    let whole_minutes: int = whole_seconds / 60;
    let whole_hours: int = whole_minutes / 60;
    assert(whole_minutes == t / 60_000) by {
        lemma_div_denominator(t, 1000, 60);
    }
    assert(whole_hours == t / 3_600_000) by {
        lemma_div_denominator(t, 60_000, 60);
    }
    assert(t == 1000 * whole_seconds + t % 1000) by {
        lemma_fundamental_div_mod(t, 1000);
    }
    assert(whole_seconds == 60 * whole_minutes + whole_seconds % 60) by {
        lemma_fundamental_div_mod(whole_seconds, 60);
    }
    assert(whole_minutes == 60 * whole_hours + whole_minutes % 60) by {
        lemma_fundamental_div_mod(whole_minutes, 60);
    }
}

/// Components within their radix are recovered from their millisecond count.
pub proof fn lemma_parts_of_millis(hours: nat, minutes: nat, seconds: nat, milliseconds: nat)
    requires
        minutes < 60,
        seconds < 60,
        milliseconds < 1000,
    ensures
        hours_of(millis_of(hours, minutes, seconds, milliseconds)) == hours,
        minutes_of(millis_of(hours, minutes, seconds, milliseconds)) == minutes,
        seconds_of(millis_of(hours, minutes, seconds, milliseconds)) == seconds,
        millis_part_of(millis_of(hours, minutes, seconds, milliseconds)) == milliseconds,
{
    let t: int = millis_of(hours, minutes, seconds, milliseconds) as int;
    let h: int = hours as int;
    let m: int = minutes as int;
    let s: int = seconds as int;
    let ms: int = milliseconds as int;
    assert(t / 3_600_000 == h) by {
        lemma_fundamental_div_mod_converse(t, 3_600_000, h, m * 60_000 + s * 1000 + ms);
    }
    assert(t / 60_000 == h * 60 + m) by {
        lemma_fundamental_div_mod_converse(t, 60_000, h * 60 + m, s * 1000 + ms);
    }
    assert((h * 60 + m) % 60 == m) by {
        lemma_fundamental_div_mod_converse(h * 60 + m, 60, h, m);
    }
    assert(t / 1000 == h * 3600 + m * 60 + s && t % 1000 == ms) by {
        lemma_fundamental_div_mod_converse(t, 1000, h * 3600 + m * 60 + s, ms);
    }
    assert((h * 3600 + m * 60 + s) % 60 == s) by {
        lemma_fundamental_div_mod_converse(h * 3600 + m * 60 + s, 60, h * 60 + m, s);
    }
}

/// Hours, minutes, seconds and milliseconds.
///
/// Minutes and seconds stay below 60 and milliseconds below 1000, and the
/// whole time, counted in milliseconds, fits a `usize`. There is no
/// sub-millisecond resolution. Times are values: arithmetic goes through
/// [`SimpleTime::offset`], which either yields a valid time or leaves the
/// time as it was.
#[derive(Debug, Clone, Copy, PartialEq, Eq, Structural)]
pub struct SimpleTime {
    hours: usize,
    minutes: usize,
    seconds: usize,
    milliseconds: usize,
}

/// An offset would have moved a time below zero.
#[derive(Debug, Clone)]
pub struct NegativeSimpleTime;

/// A component handed to `SimpleTime::from_parts` was outside its range.
#[derive(Debug, Clone)]
pub struct OutOfRange;

impl NegativeSimpleTime {
    /// What `to_string` says.
    pub open spec fn spec_to_string(&self) -> Seq<char> {
        "attempted to create negative SimpleTime"@
    }

    /// The failure in words.
    pub fn to_string(&self) -> (r: String)
        ensures
            r@ == self.spec_to_string(),
    {
        String::from_str("attempted to create negative SimpleTime")
    }
}

impl OutOfRange {
    /// What `to_string` says.
    pub open spec fn spec_to_string(&self) -> Seq<char> {
        "SimpleTime requires minutes and seconds below 60 and milliseconds below 999"@
    }

    /// The failure in words.
    pub fn to_string(&self) -> (r: String)
        ensures
            r@ == self.spec_to_string(),
    {
        String::from_str(
            "SimpleTime requires minutes and seconds below 60 and milliseconds below 999",
        )
    }
}

impl View for SimpleTime {
    type V = nat;

    /// The time as a count of milliseconds.
    closed spec fn view(&self) -> nat {
        millis_of(
            self.hours as nat,
            self.minutes as nat,
            self.seconds as nat,
            self.milliseconds as nat,
        )
    }
}

impl SimpleTime {
    /// Every component is within its radix and the millisecond count fits a
    /// `usize`. It holds of every `SimpleTime` that executable code can hold.
    #[verifier::type_invariant]
    pub closed spec fn wf(self) -> bool {
        &&& self.minutes < 60
        &&& self.seconds < 60
        &&& self.milliseconds < 1000
        &&& self@ <= usize::MAX
    }

    /// The millisecond count of an optional time.
    pub open spec fn spec_millis(o: Option<SimpleTime>) -> Option<nat> {
        match o {
            Some(t) => Some(t@),
            None => None,
        }
    }

    /// The time that `from_milliseconds` builds from a count.
    pub closed spec fn spec_from_milliseconds(total: nat) -> SimpleTime {
        SimpleTime {
            hours: hours_of(total) as usize,
            minutes: minutes_of(total) as usize,
            seconds: seconds_of(total) as usize,
            milliseconds: millis_part_of(total) as usize,
        }
    }

    /// The time that `from_parts` builds from components in range.
    pub closed spec fn spec_from_parts(
        hours: nat,
        minutes: nat,
        seconds: nat,
        milliseconds: nat,
    ) -> SimpleTime {
        SimpleTime {
            hours: hours as usize,
            minutes: minutes as usize,
            seconds: seconds as usize,
            milliseconds: milliseconds as usize,
        }
    }

    /// A time built from a count that fits a `usize` is valid and stands for
    /// that count.
    pub proof fn lemma_from_milliseconds(total: nat)
        requires
            total <= usize::MAX,
        ensures
            Self::spec_from_milliseconds(total).wf(),
            Self::spec_from_milliseconds(total)@ == total,
    {
        lemma_millis_of_parts(total);
    }

    /// A time built from components in range, whose count fits a `usize`, is
    /// valid and stands for that count.
    pub proof fn lemma_from_parts(hours: nat, minutes: nat, seconds: nat, milliseconds: nat)
        requires
            minutes < 60,
            seconds < 60,
            milliseconds < 1000,
            millis_of(hours, minutes, seconds, milliseconds) <= usize::MAX,
        ensures
            Self::spec_from_parts(hours, minutes, seconds, milliseconds).wf(),
            Self::spec_from_parts(hours, minutes, seconds, milliseconds)@ == millis_of(
                hours,
                minutes,
                seconds,
                milliseconds,
            ),
    {
    }

    /// A valid time fits a `usize`.
    pub proof fn lemma_fits(self)
        requires
            self.wf(),
        ensures
            self@ <= usize::MAX,
    {
    }

    /// Two valid times with the same millisecond count are the same time.
    pub proof fn lemma_view_is_injective(a: SimpleTime, b: SimpleTime)
        requires
            a.wf(),
            b.wf(),
            a@ == b@,
        ensures
            a == b,
    {
        lemma_parts_of_millis(
            a.hours as nat,
            a.minutes as nat,
            a.seconds as nat,
            a.milliseconds as nat,
        );
        lemma_parts_of_millis(
            b.hours as nat,
            b.minutes as nat,
            b.seconds as nat,
            b.milliseconds as nat,
        );
    }

    /// Building a time from components in range and then rebuilding it from
    /// its millisecond count gives the same time.
    pub proof fn lemma_time_round_trip(hours: nat, minutes: nat, seconds: nat, milliseconds: nat)
        requires
            parts_in_range(minutes, seconds, milliseconds),
            millis_of(hours, minutes, seconds, milliseconds) <= usize::MAX,
        ensures
            Self::spec_from_milliseconds(
                Self::spec_from_parts(hours, minutes, seconds, milliseconds)@,
            ) == Self::spec_from_parts(hours, minutes, seconds, milliseconds),
    {
        lemma_parts_of_millis(hours, minutes, seconds, milliseconds);
    }

    /// Whether the millisecond count of these components fits a `usize`: what
    /// `from_parts` asks of its caller for components in range.
    pub fn parts_fit(hours: usize, minutes: usize, seconds: usize, milliseconds: usize) -> (r:
        bool)
        ensures
            r == (millis_of(hours as nat, minutes as nat, seconds as nat, milliseconds as nat)
                <= usize::MAX),
    {
        let total: u128 = hours as u128 * 3_600_000 + minutes as u128 * 60_000 + seconds as u128
            * 1000 + milliseconds as u128;
        total <= usize::MAX as u128
    }

    /// Builds a time from its components. Minutes and seconds of 60 or more
    /// and milliseconds of 999 or more are refused. Hours are bounded only by
    /// the machine: the millisecond count of the time must fit a `usize`.
    pub fn from_parts(hours: usize, minutes: usize, seconds: usize, milliseconds: usize) -> (r:
        Result<SimpleTime, OutOfRange>)
        requires
            parts_in_range(minutes as nat, seconds as nat, milliseconds as nat) ==> millis_of(
                hours as nat,
                minutes as nat,
                seconds as nat,
                milliseconds as nat,
            ) <= usize::MAX,
        ensures
            r is Ok <==> parts_in_range(minutes as nat, seconds as nat, milliseconds as nat),
            r matches Ok(t) ==> t == Self::spec_from_parts(
                hours as nat,
                minutes as nat,
                seconds as nat,
                milliseconds as nat,
            ) && t@ == millis_of(
                hours as nat,
                minutes as nat,
                seconds as nat,
                milliseconds as nat,
            ),
    {
        if minutes >= 60 || seconds >= 60 || milliseconds >= 999 {
            return Err(OutOfRange);
        }
        Ok(SimpleTime { hours, minutes, seconds, milliseconds })
    }

    /// Builds the time that stands for `m` milliseconds.
    pub fn from_milliseconds(m: usize) -> (t: SimpleTime)
        ensures
            t == Self::spec_from_milliseconds(m as nat),
            t@ == m,
    {
        let hours: usize = m / MILLIS_PER_HOUR;
        let minutes: usize = (m / MILLIS_PER_MINUTE) % 60;
        let seconds: usize = (m / MILLIS_PER_SECOND) % 60;
        let milliseconds: usize = m % MILLIS_PER_SECOND;
        proof {
            lemma_millis_of_parts(m as nat);
        }
        SimpleTime { hours, minutes, seconds, milliseconds }
    }

    /// The time as a count of milliseconds.
    pub fn to_milliseconds(&self) -> (m: usize)
        ensures
            m == self@,
    {
        proof {
            use_type_invariant(self);
        }
        self.hours * MILLIS_PER_HOUR + self.minutes * MILLIS_PER_MINUTE + self.seconds
            * MILLIS_PER_SECOND + self.milliseconds
    }

    /// The hour component.
    pub fn hour(&self) -> (h: usize)
        ensures
            h == hours_of(self@),
    {
        proof {
            use_type_invariant(self);
            lemma_parts_of_millis(
                self.hours as nat,
                self.minutes as nat,
                self.seconds as nat,
                self.milliseconds as nat,
            );
        }
        self.hours
    }

    /// The minute component.
    pub fn minute(&self) -> (m: usize)
        ensures
            m == minutes_of(self@),
            m < 60,
    {
        proof {
            use_type_invariant(self);
            lemma_parts_of_millis(
                self.hours as nat,
                self.minutes as nat,
                self.seconds as nat,
                self.milliseconds as nat,
            );
        }
        self.minutes
    }

    /// The second component.
    pub fn second(&self) -> (s: usize)
        ensures
            s == seconds_of(self@),
            s < 60,
    {
        proof {
            use_type_invariant(self);
            lemma_parts_of_millis(
                self.hours as nat,
                self.minutes as nat,
                self.seconds as nat,
                self.milliseconds as nat,
            );
        }
        self.seconds
    }

    /// The millisecond component.
    pub fn millisecond(&self) -> (ms: usize)
        ensures
            ms == millis_part_of(self@),
            ms < 1000,
    {
        proof {
            use_type_invariant(self);
            lemma_parts_of_millis(
                self.hours as nat,
                self.minutes as nat,
                self.seconds as nat,
                self.milliseconds as nat,
            );
        }
        self.milliseconds
    }

    /// Whether the time moved by `offset` milliseconds still fits a `usize`:
    /// what `offset` asks of its caller.
    pub fn offset_fits(&self, offset: isize) -> (r: bool)
        ensures
            r == (self@ + offset <= usize::MAX),
    {
        let now: usize = self.to_milliseconds();
        now as i128 + offset as i128 <= usize::MAX as i128
    }

    /// Moves the time by `offset` milliseconds, forwards or backwards. A move
    /// below zero is refused and leaves the time as it was. The sum is taken
    /// in 128 bits; the moved time must fit a `usize` again.
    pub fn offset(&mut self, offset: isize) -> (r: Result<(), NegativeSimpleTime>)
        requires
            old(self)@ + offset <= usize::MAX,
        ensures
            r is Ok <==> old(self)@ + offset >= 0,
            r is Ok ==> final(self)@ == old(self)@ + offset && *final(self)
                == Self::spec_from_milliseconds((old(self)@ + offset) as nat),
            r is Err ==> *final(self) == *old(self),
    {
        let now: usize = self.to_milliseconds();
        let moved: i128 = now as i128 + offset as i128;
        if moved < 0 {
            Err(NegativeSimpleTime)
        } else {
            *self = SimpleTime::from_milliseconds(moved as usize);
            Ok(())
        }
    }
}

} // verus!
