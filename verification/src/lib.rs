//! Reading, changing and writing caption files.
//!
//! Two line-oriented formats are read and written: one with a `WEBVTT`
//! marker line and a dot before the milliseconds ([`vtt`]), one without a
//! marker and with a comma ([`srt`]). Both share the grammar of timestamps
//! ([`stamp`]) and the division of a file into blocks of four lines
//! ([`layout`]). A file that was read is a [`Caption`], whose blocks can be
//! moved in time, cropped to a window and put behind the blocks of other
//! captions ([`caption`]). Times are [`SimpleTime`]s ([`time`]).
//!
//! Every function states what it returns over plain mathematical values:
//! a time is a number of milliseconds, a text a sequence of characters, a
//! caption a header and a sequence of blocks. [`roundtrip`] proves that a
//! caption written to a file and read back is the caption that was written.

pub mod args;
pub mod caption;
pub mod format;
pub mod layout;
pub mod rewrite;
pub mod roundtrip;
pub mod srt;
pub mod stamp;
pub mod text;
pub mod time;
pub mod vtt;

pub use args::{parse_offset, parse_time, TimeArgumentError};
pub use caption::{Caption, CaptionBlock, CaptionBlockError, CaptionError};
pub use format::{
    format_of_file, parse_document, select_format, write_document, CaptionParserError, Format,
    ParseError,
};
pub use rewrite::offset_str_stamps;
pub use srt::{SrtParser, SrtParserError, SrtWriter};
pub use time::{NegativeSimpleTime, OutOfRange, SimpleTime};
pub use vtt::{VttParser, VttParserError, VttWriter};
