//! Times and offsets as a user writes them on a command line: as a count
//! of milliseconds or as a timestamp `HH:MM:SS.mmm`.

use crate::layout::ParseFailure;
use crate::text::{chars_of, parse_signed, parse_unsigned, slice_text, spec_signed, spec_unsigned};
use crate::time::SimpleTime;
use crate::vtt::{VttParser, VttParserError};
use vstd::prelude::*;
use vstd::string::StringExecFns;

verus! {

/// Why a text is neither a time nor an offset.
#[derive(Debug, Clone)]
pub enum TimeArgumentError {
    InvalidNumber(String),
    InvalidTimestamp(VttParserError),
}

/// Why a text is neither a time nor an offset, with the text at fault.
pub enum ArgumentFailure {
    InvalidNumber(Seq<char>),
    InvalidTimestamp(ParseFailure),
}

impl View for TimeArgumentError {
    type V = ArgumentFailure;

    open spec fn view(&self) -> ArgumentFailure {
        match self {
            TimeArgumentError::InvalidNumber(s) => ArgumentFailure::InvalidNumber(s@),
            TimeArgumentError::InvalidTimestamp(e) => ArgumentFailure::InvalidTimestamp(e@),
        }
    }
}

impl TimeArgumentError {
    /// What `to_string` says.
    pub open spec fn spec_to_string(&self) -> Seq<char> {
        match self {
            TimeArgumentError::InvalidNumber(s) => "invalid number of milliseconds "@ + s@,
            TimeArgumentError::InvalidTimestamp(e) => e.spec_to_string(),
        }
    }

    /// The failure in words.
    pub fn to_string(&self) -> (r: String)
        ensures
            r@ == self.spec_to_string(),
    {
        match self {
            TimeArgumentError::InvalidNumber(s) => String::from_str(
                "invalid number of milliseconds ",
            ).concat(s.as_str()),
            TimeArgumentError::InvalidTimestamp(e) => e.to_string(),
        }
    }
}

/// The time that an optional text writes, in milliseconds: a count of
/// milliseconds where `as_millis` is set, else a timestamp.
pub open spec fn spec_parse_time(time: Option<Seq<char>>, as_millis: bool) -> Result<
    Option<nat>,
    ArgumentFailure,
> {
    match time {
        None => Ok(None),
        Some(t) => if as_millis {
            match spec_unsigned(t) {
                Some(n) => Ok(Some(n)),
                None => Err(ArgumentFailure::InvalidNumber(t)),
            }
        } else {
            match VttParser::spec_block_timestamp(t) {
                Ok(n) => Ok(Some(n)),
                Err(e) => Err(ArgumentFailure::InvalidTimestamp(e)),
            }
        },
    }
}

/// The offset that a text writes, in milliseconds: a signed count of
/// milliseconds where `as_millis` is set, else a timestamp; its negative
/// where `subtract` is set. An offset outside `isize` is no offset.
pub open spec fn spec_parse_offset(s: Seq<char>, as_millis: bool, subtract: bool) -> Result<
    int,
    ArgumentFailure,
> {
    let amount: Result<int, ArgumentFailure> = if as_millis {
        match spec_signed(s) {
            Some(n) => Ok(n),
            None => Err(ArgumentFailure::InvalidNumber(s)),
        }
    } else {
        match VttParser::spec_block_timestamp(s) {
            Ok(n) => Ok(n as int),
            Err(e) => Err(ArgumentFailure::InvalidTimestamp(e)),
        }
    };
    match amount {
        Err(e) => Err(e),
        Ok(n) => if !subtract {
            Ok(n)
        } else if -n <= isize::MAX {
            Ok(-n)
        } else {
            Err(ArgumentFailure::InvalidNumber(s))
        },
    }
}

/// Reads an optional time.
pub fn parse_time(time: Option<&str>, as_millis: bool) -> (r: Result<
    Option<SimpleTime>,
    TimeArgumentError,
>)
    ensures
        match r {
            Ok(t) => spec_parse_time(slice_text(time), as_millis) == Ok::<
                Option<nat>,
                ArgumentFailure,
            >(SimpleTime::spec_millis(t)),
            Err(e) => spec_parse_time(slice_text(time), as_millis) == Err::<
                Option<nat>,
                ArgumentFailure,
            >(e@),
        },
{
    match time {
        None => Ok(None),
        Some(t) => {
            if as_millis {
                let chars = chars_of(t);
                match parse_unsigned(&chars) {
                    Some(n) => Ok(Some(SimpleTime::from_milliseconds(n))),
                    None => Err(TimeArgumentError::InvalidNumber(String::from_str(t))),
                }
            } else {
                match VttParser::block_timestamp(t) {
                    Ok(time) => Ok(Some(time)),
                    Err(e) => Err(TimeArgumentError::InvalidTimestamp(e)),
                }
            }
        },
    }
}

/// Reads an offset.
pub fn parse_offset(s: &str, as_millis: bool, subtract: bool) -> (r: Result<
    isize,
    TimeArgumentError,
>)
    ensures
        match r {
            Ok(n) => spec_parse_offset(s@, as_millis, subtract) == Ok::<int, ArgumentFailure>(
                n as int,
            ),
            Err(e) => spec_parse_offset(s@, as_millis, subtract) == Err::<int, ArgumentFailure>(
                e@,
            ),
        },
{
    let amount: isize = if as_millis {
        let chars = chars_of(s);
        match parse_signed(&chars) {
            Some(n) => n,
            None => {
                return Err(TimeArgumentError::InvalidNumber(String::from_str(s)));
            },
        }
    } else {
        match VttParser::block_timestamp(s) {
            Ok(time) => {
                let millis: usize = time.to_milliseconds();
                proof {
                    lemma_timestamp_bound(s@);
                }
                millis as isize
            },
            Err(e) => {
                return Err(TimeArgumentError::InvalidTimestamp(e));
            },
        }
    };
    if !subtract {
        Ok(amount)
    } else if amount == isize::MIN {
        Err(TimeArgumentError::InvalidNumber(String::from_str(s)))
    } else {
        Ok(0 - amount)
    }
}

/// A timestamp writes less than a hundred hours.
pub proof fn lemma_timestamp_bound(s: Seq<char>)
    ensures
        VttParser::spec_block_timestamp(s) matches Ok(t) ==> t < 360_000_000,
{
}

} // verus!
