//! The two formats behind one door: which format a file name asks for, and
//! reading and writing in a format that is given as a value.

use crate::caption::{Caption, CaptionView};
use crate::layout::ParseFailure;
use crate::srt::{SrtParser, SrtParserError, SrtWriter};
use crate::text::slice_text;
use crate::vtt::{VttParser, VttParserError, VttWriter};
use vstd::prelude::*;
use vstd::string::StringExecFns;

verus! {

/// The formats: `Vtt` with a marker line and dots, `Srt` without a marker
/// line and with commas.
#[derive(Debug, Clone, Copy, PartialEq, Eq, Structural)]
pub enum Format {
    Vtt,
    Srt,
}

/// Why a file name asks for no format.
#[derive(Debug, Clone)]
pub enum CaptionParserError {
    UnsupportedFileType(String),
    UnknownExtension(String),
}

/// Why a text could not be read, in the format that was asked for.
#[derive(Debug, Clone)]
pub enum ParseError {
    Vtt(VttParserError),
    Srt(SrtParserError),
}

impl View for ParseError {
    type V = ParseFailure;

    open spec fn view(&self) -> ParseFailure {
        match self {
            ParseError::Vtt(e) => e@,
            ParseError::Srt(e) => e@,
        }
    }
}

impl ParseError {
    /// What `to_string` says.
    pub open spec fn spec_to_string(&self) -> Seq<char> {
        match self {
            ParseError::Vtt(e) => e.spec_to_string(),
            ParseError::Srt(e) => e.spec_to_string(),
        }
    }

    /// The failure in words.
    pub fn to_string(&self) -> (r: String)
        ensures
            r@ == self.spec_to_string(),
    {
        match self {
            ParseError::Vtt(e) => e.to_string(),
            ParseError::Srt(e) => e.to_string(),
        }
    }
}

impl CaptionParserError {
    /// What `to_string` says.
    pub open spec fn spec_to_string(&self) -> Seq<char> {
        match self {
            CaptionParserError::UnsupportedFileType(s) => "type "@ + s@ + " is unsupported"@,
            CaptionParserError::UnknownExtension(s) => "unknown extension for file "@ + s@,
        }
    }

    /// The failure in words.
    pub fn to_string(&self) -> (r: String)
        ensures
            r@ == self.spec_to_string(),
    {
        match self {
            CaptionParserError::UnsupportedFileType(s) => String::from_str("type ").concat(
                s.as_str(),
            ).concat(" is unsupported"),
            CaptionParserError::UnknownExtension(s) => String::from_str(
                "unknown extension for file ",
            ).concat(s.as_str()),
        }
    }
}

/// Why a file name asks for no format, with the text at fault.
pub enum DispatchFailure {
    UnsupportedFileType(Seq<char>),
    UnknownExtension(Seq<char>),
}

impl View for CaptionParserError {
    type V = DispatchFailure;

    open spec fn view(&self) -> DispatchFailure {
        match self {
            CaptionParserError::UnsupportedFileType(s) => DispatchFailure::UnsupportedFileType(s@),
            CaptionParserError::UnknownExtension(s) => DispatchFailure::UnknownExtension(s@),
        }
    }
}

/// The format that an extension asks for: `vtt` and `txt` ask for `Vtt`,
/// `srt` asks for `Srt`, and any other extension is unsupported.
pub open spec fn spec_select_format(extension: Seq<char>) -> Result<Format, DispatchFailure> {
    if extension == seq!['v', 't', 't'] || extension == seq!['t', 'x', 't'] {
        Ok(Format::Vtt)
    } else if extension == seq!['s', 'r', 't'] {
        Ok(Format::Srt)
    } else {
        Err(DispatchFailure::UnsupportedFileType(extension))
    }
}

/// The format for a file: the one that its extension asks for; a name
/// without extension asks for none.
pub open spec fn spec_format_of_file(name: Seq<char>, extension: Option<Seq<char>>) -> Result<
    Format,
    DispatchFailure,
> {
    match extension {
        Some(x) => spec_select_format(x),
        None => Err(DispatchFailure::UnknownExtension(name)),
    }
}

/// What `parse_document` returns.
pub open spec fn spec_parse_document(format: Format, text: Seq<char>) -> Result<
    CaptionView,
    ParseFailure,
> {
    match format {
        Format::Vtt => VttParser::spec_parse(text),
        Format::Srt => SrtParser::spec_parse(text),
    }
}

/// What `write_document` returns.
pub open spec fn spec_write_document(format: Format, doc: CaptionView) -> Seq<char> {
    match format {
        Format::Vtt => VttWriter::spec_write(doc),
        Format::Srt => SrtWriter::spec_write(doc),
    }
}

/// Whether `s` is the three characters `a`, `b`, `c`.
fn is_three(s: &str, a: char, b: char, c: char) -> (r: bool)
    ensures
        r == (s@ == seq![a, b, c]),
{
    let r = s.unicode_len() == 3 && s.get_char(0) == a && s.get_char(1) == b && s.get_char(2) == c;
    proof {
        if r {
            assert(s@ =~= seq![a, b, c]);
        }
    }
    r
}

/// Picks the format that an extension asks for. An extension that asks for
/// none is handed back in the error.
pub fn select_format(extension: &str) -> (r: Result<Format, CaptionParserError>)
    ensures
        match r {
            Ok(f) => spec_select_format(extension@) == Ok::<Format, DispatchFailure>(f),
            Err(e) => spec_select_format(extension@) == Err::<Format, DispatchFailure>(e@),
        },
{
    if is_three(extension, 'v', 't', 't') || is_three(extension, 't', 'x', 't') {
        Ok(Format::Vtt)
    } else if is_three(extension, 's', 'r', 't') {
        Ok(Format::Srt)
    } else {
        Err(CaptionParserError::UnsupportedFileType(String::from_str(extension)))
    }
}

/// Picks the format for a file from the extension of its name. A name
/// without extension is handed back in the error.
pub fn format_of_file(name: &str, extension: Option<&str>) -> (r: Result<
    Format,
    CaptionParserError,
>)
    ensures
        match r {
            Ok(f) => spec_format_of_file(name@, slice_text(extension)) == Ok::<
                Format,
                DispatchFailure,
            >(f),
            Err(e) => spec_format_of_file(name@, slice_text(extension)) == Err::<
                Format,
                DispatchFailure,
            >(e@),
        },
{
    match extension {
        Some(x) => select_format(x),
        None => Err(CaptionParserError::UnknownExtension(String::from_str(name))),
    }
}

/// Reads a caption from a text in the given format.
pub fn parse_document(format: Format, text: &str) -> (r: Result<Caption, ParseError>)
    ensures
        match r {
            Ok(c) => spec_parse_document(format, text@) == Ok::<CaptionView, ParseFailure>(c@),
            Err(e) => spec_parse_document(format, text@) == Err::<CaptionView, ParseFailure>(e@),
        },
        r matches Err(e) ==> (e is Vtt <==> format == Format::Vtt),
{
    match format {
        Format::Vtt => match VttParser::parse(text) {
            Ok(c) => Ok(c),
            Err(e) => Err(ParseError::Vtt(e)),
        },
        Format::Srt => match SrtParser::parse(text) {
            Ok(c) => Ok(c),
            Err(e) => Err(ParseError::Srt(e)),
        },
    }
}

/// Writes a caption as a text in the given format.
pub fn write_document(format: Format, doc: &Caption) -> (r: String)
    ensures
        r@ == spec_write_document(format, doc@),
{
    match format {
        Format::Vtt => VttWriter::write(doc),
        Format::Srt => SrtWriter::write(doc),
    }
}

} // verus!
