//! The format with a marker line and dots before the milliseconds.
//!
//! A file holds an optional header, two lines that are dropped, the marker
//! line `WEBVTT`, and then blocks of four lines each:
//! a blank line, the number of the block, the block header
//! `Speaker HH:MM:SS.mmm --> HH:MM:SS.mmm` (the speaker is optional), and the
//! text that is shown.

use crate::caption::{
    block_views, BlockView, Caption, CaptionBlock, CaptionBlockError, CaptionView,
};
use crate::layout::{
    lemma_blocks_failure_stays, lemma_blocks_none, lemma_blocks_step, spec_block_number,
    spec_blocks, spec_ordered, ParseFailure,
};
use crate::stamp::{
    parse_range, parse_timestamp, push_range_text, push_timestamp, range_text, spec_range,
    spec_timestamp, timestamp_text,
};
use crate::text::{
    char_is_digit, chars_of, copy_range, decimal_digits, digit, find_digit, first_where, is_digit,
    join, join_first, lemma_first_where, lemma_first_where_at, lemma_join_push, lemma_join_small,
    lines, parse_unsigned, push_decimal, split_lines, string_of, string_of_range, text_of, views,
};
use crate::time::SimpleTime;
use vstd::prelude::*;
use vstd::string::StringExecFns;

verus! {

/// The separator before the milliseconds.
pub const VTT_SEPARATOR: char = '.';

/// Reads captions in this format.
pub struct VttParser;

/// Writes captions in this format.
pub struct VttWriter;

/// Why a text could not be read in this format.
#[derive(Debug, Clone)]
pub enum VttParserError {
    UnexpectedEndOfFile,
    FileNotReadable(String),
    ExpectedBlankLine(String),
    ExpectedBlockNumber(String),
    BlockHeaderInvalid(String),
    InvalidTimestamp(String),
    EndsBeforeStart(SimpleTime, SimpleTime),
}

impl View for VttParserError {
    type V = ParseFailure;

    open spec fn view(&self) -> ParseFailure {
        match self {
            VttParserError::UnexpectedEndOfFile => ParseFailure::UnexpectedEndOfFile,
            VttParserError::FileNotReadable(s) => ParseFailure::FileNotReadable(s@),
            VttParserError::ExpectedBlankLine(s) => ParseFailure::ExpectedBlankLine(s@),
            VttParserError::ExpectedBlockNumber(s) => ParseFailure::ExpectedBlockNumber(s@),
            VttParserError::BlockHeaderInvalid(s) => ParseFailure::BlockHeaderInvalid(s@),
            VttParserError::InvalidTimestamp(s) => ParseFailure::InvalidTimestamp(s@),
            VttParserError::EndsBeforeStart(a, b) => ParseFailure::EndsBeforeStart(a@, b@),
        }
    }
}

impl VttParserError {
    /// What `to_string` says.
    pub open spec fn spec_to_string(&self) -> Seq<char> {
        match self {
            VttParserError::UnexpectedEndOfFile => "unexpected end of file"@,
            VttParserError::FileNotReadable(s) => "could not read file "@ + s@,
            VttParserError::ExpectedBlankLine(s) => "expected blank line, got "@ + s@,
            VttParserError::ExpectedBlockNumber(s) => "expected VTT block number, got "@ + s@,
            VttParserError::BlockHeaderInvalid(s) => "invalid VTT block from line "@ + s@,
            VttParserError::InvalidTimestamp(s) => "invalid VTT block from word "@ + s@,
            VttParserError::EndsBeforeStart(a, b) => "VTT block ends at "@ + timestamp_text(
                b@,
                '.',
            ) + " before it starts at "@ + timestamp_text(a@, '.'),
        }
    }

    /// The failure in words.
    pub fn to_string(&self) -> (r: String)
        ensures
            r@ == self.spec_to_string(),
    {
        match self {
            VttParserError::UnexpectedEndOfFile => String::from_str("unexpected end of file"),
            VttParserError::FileNotReadable(s) => String::from_str("could not read file ").concat(
                s.as_str(),
            ),
            VttParserError::ExpectedBlankLine(s) => String::from_str(
                "expected blank line, got ",
            ).concat(s.as_str()),
            VttParserError::ExpectedBlockNumber(s) => String::from_str(
                "expected VTT block number, got ",
            ).concat(s.as_str()),
            VttParserError::BlockHeaderInvalid(s) => String::from_str(
                "invalid VTT block from line ",
            ).concat(s.as_str()),
            VttParserError::InvalidTimestamp(s) => String::from_str(
                "invalid VTT block from word ",
            ).concat(s.as_str()),
            VttParserError::EndsBeforeStart(a, b) => {
                let mut out = String::from_str("VTT block ends at ");
                push_timestamp(&mut out, b, VTT_SEPARATOR);
                out.append(" before it starts at ");
                push_timestamp(&mut out, a, VTT_SEPARATOR);
                out
            },
        }
    }
}

/// The marker line.
pub open spec fn marker() -> Seq<char> {
    seq!['W', 'E', 'B', 'V', 'T', 'T']
}

/// The predicate "is the marker line".
pub open spec fn is_marker() -> spec_fn(Seq<char>) -> bool {
    |l: Seq<char>| l == marker()
}

/// The header that stands before a marker on line `n`: the lines before it
/// but for the last two, joined by line feeds. A marker on one of the first
/// three lines has no header before it.
pub open spec fn header_before(ls: Seq<Seq<char>>, n: int) -> Option<Seq<char>> {
    if n <= 2 {
        None
    } else {
        Some(join(ls.take(n - 2), '\n'))
    }
}

impl VttParser {
    /// The header of a text and the line of its marker, counted from zero.
    pub open spec fn spec_header(text: Seq<char>) -> Result<
        (Option<Seq<char>>, nat),
        ParseFailure,
    > {
        match first_where(lines(text), is_marker()) {
            None => Err(ParseFailure::UnexpectedEndOfFile),
            Some(n) => Ok((header_before(lines(text), n), n as nat)),
        }
    }

    /// The time that a timestamp writes.
    pub open spec fn spec_block_timestamp(s: Seq<char>) -> Result<nat, ParseFailure> {
        match spec_timestamp(s, '.') {
            Some(t) => Ok(t),
            None => Err(ParseFailure::InvalidTimestamp(s)),
        }
    }

    /// The start and end that a range writes.
    pub open spec fn spec_block_header_timestamps(s: Seq<char>) -> Result<
        (nat, nat),
        ParseFailure,
    > {
        match spec_range(s, '.') {
            Ok(times) => Ok(times),
            Err(at) => Err(ParseFailure::InvalidTimestamp(at)),
        }
    }

    /// The speaker, start and end that a block header writes. A header that
    /// begins with a digit is a range. Otherwise the range begins at the
    /// first digit, a space stands before it, and what stands before the
    /// space is the speaker.
    pub open spec fn spec_block_header(s: Seq<char>) -> Result<
        (Option<Seq<char>>, nat, nat),
        ParseFailure,
    > {
        if s.len() == 0 {
            Err(ParseFailure::UnexpectedEndOfFile)
        } else if is_digit(s[0]) {
            match Self::spec_block_header_timestamps(s) {
                Ok((start, end)) => Ok((None, start, end)),
                Err(e) => Err(e),
            }
        } else {
            match first_where(s, digit()) {
                None => Err(ParseFailure::BlockHeaderInvalid(s)),
                Some(k) => if s[k - 1] != ' ' {
                    Err(ParseFailure::BlockHeaderInvalid(s))
                } else {
                    match Self::spec_block_header_timestamps(s.skip(k)) {
                        Ok((start, end)) => Ok((Some(s.take(k - 1)), start, end)),
                        Err(e) => Err(e),
                    }
                },
            }
        }
    }

    /// The block that four lines write: a blank line, a number, a block
    /// header and the text.
    pub open spec fn spec_block_lines(g: Seq<Seq<char>>) -> Result<BlockView, ParseFailure> {
        if g.len() != 4 {
            Err(ParseFailure::UnexpectedEndOfFile)
        } else if g[0].len() != 0 {
            Err(ParseFailure::ExpectedBlankLine(g[0]))
        } else {
            match spec_block_number(g[1]) {
                Err(e) => Err(e),
                Ok(_) => match Self::spec_block_header(g[2]) {
                    Err(e) => Err(e),
                    Ok((speaker, start, end)) => spec_ordered(speaker, start, end, g[3]),
                },
            }
        }
    }

    /// The reader of one block.
    pub open spec fn block_reader() -> spec_fn(Seq<Seq<char>>) -> Result<BlockView, ParseFailure> {
        |g: Seq<Seq<char>>| Self::spec_block_lines(g)
    }

    /// The block that a text of four lines writes.
    pub open spec fn spec_block(text: Seq<char>) -> Result<BlockView, ParseFailure> {
        Self::spec_block_lines(lines(text))
    }

    /// The caption that lines write: the header before the first marker
    /// line, and after that line blocks of four lines each.
    pub open spec fn spec_parse_lines(ls: Seq<Seq<char>>) -> Result<CaptionView, ParseFailure> {
        match first_where(ls, is_marker()) {
            None => Err(ParseFailure::UnexpectedEndOfFile),
            Some(n) => {
                let rest = ls.skip(n + 1);
                if rest.len() % 4 != 0 {
                    Err(ParseFailure::UnexpectedEndOfFile)
                } else {
                    match spec_blocks(rest, Self::block_reader()) {
                        Err(e) => Err(e),
                        Ok(blocks) => Ok(CaptionView { header: header_before(ls, n), blocks }),
                    }
                }
            },
        }
    }

    /// The caption that a text writes: the one that its lines write.
    pub open spec fn spec_parse(text: Seq<char>) -> Result<CaptionView, ParseFailure> {
        Self::spec_parse_lines(lines(text))
    }

    /// Whether a line is the marker.
    fn line_is_marker(l: &Vec<char>) -> (r: bool)
        ensures
            r == is_marker()(l@),
    {
        let r = l.len() == 6 && l[0] == 'W' && l[1] == 'E' && l[2] == 'B' && l[3] == 'V' && l[4]
            == 'T' && l[5] == 'T';
        proof {
            if r {
                assert(l@ =~= marker());
            }
        }
        r
    }

    /// The line of the first marker.
    fn find_marker(ls: &Vec<Vec<char>>) -> (r: Option<usize>)
        ensures
            match r {
                Some(n) => first_where(views(ls@), is_marker()) == Some(n as int) && n < ls.len(),
                None => first_where(views(ls@), is_marker()) is None,
            },
    {
        let mut i: usize = 0;
        while i < ls.len()
            invariant
                i <= ls.len(),
                forall|j: int| 0 <= j < i ==> !is_marker()(views(ls@)[j]),
            decreases ls.len() - i,
        {
            if Self::line_is_marker(&ls[i]) {
                proof {
                    lemma_first_where_at(views(ls@), is_marker(), i as int);
                }
                return Some(i);
            }
            i += 1;
        }
        proof {
            lemma_first_where(views(ls@), is_marker());
        }
        None
    }

    /// The header before the marker on line `n`.
    fn header_of(ls: &Vec<Vec<char>>, n: usize) -> (r: Option<String>)
        requires
            n < ls.len(),
        ensures
            text_of(r) == header_before(views(ls@), n as int),
    {
        if n <= 2 {
            None
        } else {
            Some(join_first(ls, n - 2, '\n'))
        }
    }

    /// Reads the blocks that the lines from `first` on write.
    fn blocks_from(ls: &Vec<Vec<char>>, first: usize) -> (r: Result<
        Vec<CaptionBlock>,
        VttParserError,
    >)
        requires
            first <= ls.len(),
            (ls.len() - first) % 4 == 0,
        ensures
            match r {
                Ok(blocks) => spec_blocks(views(ls@).skip(first as int), Self::block_reader())
                    == Ok::<Seq<BlockView>, ParseFailure>(block_views(blocks@)),
                Err(e) => spec_blocks(views(ls@).skip(first as int), Self::block_reader()) == Err::<
                    Seq<BlockView>,
                    ParseFailure,
                >(e@),
            },
    {
        let count: usize = (ls.len() - first) / 4;
        let ghost rest = views(ls@).skip(first as int);
        let mut blocks: Vec<CaptionBlock> = Vec::new();
        let mut i: usize = 0;
        proof {
            lemma_blocks_none(rest.take(0), Self::block_reader());
        }
        assert(block_views(blocks@) == Seq::<BlockView>::empty());
        while i < count
            invariant
                i <= count,
                first + 4 * count == ls.len(),
                rest == views(ls@).skip(first as int),
                spec_blocks(rest.take(4 * i), Self::block_reader()) == Ok::<
                    Seq<BlockView>,
                    ParseFailure,
                >(block_views(blocks@)),
            decreases count - i,
        {
            let ghost group = rest.subrange(4 * i, 4 * i + 4);
            assert(group == views(ls@).subrange(first + 4 * i, first + 4 * i + 4));
            proof {
                lemma_blocks_step(rest, Self::block_reader(), i as int);
            }
            match Self::block_lines(ls, first + 4 * i) {
                Err(e) => {
                    proof {
                        lemma_blocks_failure_stays(rest, Self::block_reader(), i as int + 1);
                    }
                    return Err(e);
                },
                Ok(b) => {
                    let ghost before = blocks@;
                    blocks.push(b);
                    assert(block_views(blocks@) == block_views(before).push(b@));
                },
            }
            i += 1;
        }
        assert(rest.take(4 * count) == rest);
        Ok(blocks)
    }

    /// Reads a caption.
    pub fn parse(contents: &str) -> (r: Result<Caption, VttParserError>)
        ensures
            match r {
                Ok(c) => Self::spec_parse(contents@) == Ok::<CaptionView, ParseFailure>(c@),
                Err(e) => Self::spec_parse(contents@) == Err::<CaptionView, ParseFailure>(e@),
            },
    {
        let chars = chars_of(contents);
        let ls = split_lines(&chars);
        let n: usize = match Self::find_marker(&ls) {
            None => {
                return Err(VttParserError::UnexpectedEndOfFile);
            },
            Some(n) => n,
        };
        let header = Self::header_of(&ls, n);
        if (ls.len() - (n + 1)) % 4 != 0 {
            return Err(VttParserError::UnexpectedEndOfFile);
        }
        match Self::blocks_from(&ls, n + 1) {
            Err(e) => Err(e),
            Ok(blocks) => Ok(Caption { header, blocks }),
        }
    }

    /// Finds the marker line and the header before it.
    pub fn header(s: &str) -> (r: Result<(Option<String>, usize), VttParserError>)
        ensures
            match r {
                Ok((h, n)) => Self::spec_header(s@) == Ok::<
                    (Option<Seq<char>>, nat),
                    ParseFailure,
                >((text_of(h), n as nat)),
                Err(e) => Self::spec_header(s@) == Err::<(Option<Seq<char>>, nat), ParseFailure>(
                    e@,
                ),
            },
    {
        let chars = chars_of(s);
        let ls = split_lines(&chars);
        match Self::find_marker(&ls) {
            None => Err(VttParserError::UnexpectedEndOfFile),
            Some(n) => Ok((Self::header_of(&ls, n), n)),
        }
    }

    /// Reads the block that the four lines from `at` on write.
    fn block_lines(ls: &Vec<Vec<char>>, at: usize) -> (r: Result<CaptionBlock, VttParserError>)
        requires
            at + 4 <= ls.len(),
        ensures
            match r {
                Ok(b) => Self::spec_block_lines(views(ls@).subrange(at as int, at + 4)) == Ok::<
                    BlockView,
                    ParseFailure,
                >(b@),
                Err(e) => Self::spec_block_lines(views(ls@).subrange(at as int, at + 4)) == Err::<
                    BlockView,
                    ParseFailure,
                >(e@),
            },
    {
        let ghost g = views(ls@).subrange(at as int, at + 4);
        assert(g[0] == ls[at as int]@);
        assert(g[1] == ls[at + 1]@);
        assert(g[2] == ls[at + 2]@);
        assert(g[3] == ls[at + 3]@);
        if ls[at].len() != 0 {
            return Err(VttParserError::ExpectedBlankLine(string_of(&ls[at])));
        }
        match Self::number_of(&ls[at + 1]) {
            Err(e) => {
                return Err(e);
            },
            Ok(_) => {},
        }
        let (speaker, start, end) = match Self::header_line(&ls[at + 2]) {
            Err(e) => {
                return Err(e);
            },
            Ok(parts) => parts,
        };
        let text = string_of(&ls[at + 3]);
        match CaptionBlock::from(speaker, start, end, text) {
            Ok(b) => Ok(b),
            Err(CaptionBlockError::EndsBeforeStart(a, b)) => Err(
                VttParserError::EndsBeforeStart(a, b),
            ),
        }
    }

    /// Reads a block from a text of four lines.
    pub fn block(s: &str) -> (r: Result<CaptionBlock, VttParserError>)
        ensures
            match r {
                Ok(b) => Self::spec_block(s@) == Ok::<BlockView, ParseFailure>(b@),
                Err(e) => Self::spec_block(s@) == Err::<BlockView, ParseFailure>(e@),
            },
    {
        let chars = chars_of(s);
        let ls = split_lines(&chars);
        if ls.len() != 4 {
            return Err(VttParserError::UnexpectedEndOfFile);
        }
        assert(views(ls@).subrange(0, 4) == views(ls@));
        Self::block_lines(&ls, 0)
    }

    /// Reads the number of a block from its line.
    fn number_of(l: &Vec<char>) -> (r: Result<usize, VttParserError>)
        ensures
            match r {
                Ok(n) => spec_block_number(l@) == Ok::<nat, ParseFailure>(n as nat),
                Err(e) => spec_block_number(l@) == Err::<nat, ParseFailure>(e@),
            },
    {
        match parse_unsigned(l) {
            Some(n) => Ok(n),
            None => Err(VttParserError::ExpectedBlockNumber(string_of(l))),
        }
    }

    /// Reads the number of a block.
    pub fn block_number(s: &str) -> (r: Result<usize, VttParserError>)
        ensures
            match r {
                Ok(n) => spec_block_number(s@) == Ok::<nat, ParseFailure>(n as nat),
                Err(e) => spec_block_number(s@) == Err::<nat, ParseFailure>(e@),
            },
    {
        let chars = chars_of(s);
        Self::number_of(&chars)
    }

    /// Reads a timestamp.
    pub fn block_timestamp(s: &str) -> (r: Result<SimpleTime, VttParserError>)
        ensures
            match r {
                Ok(t) => Self::spec_block_timestamp(s@) == Ok::<nat, ParseFailure>(t@),
                Err(e) => Self::spec_block_timestamp(s@) == Err::<nat, ParseFailure>(e@),
            },
    {
        let chars = chars_of(s);
        match parse_timestamp(&chars, VTT_SEPARATOR) {
            Some(t) => Ok(t),
            None => Err(VttParserError::InvalidTimestamp(string_of(&chars))),
        }
    }

    /// Reads the range of a block header.
    fn range_of(l: &Vec<char>) -> (r: Result<(SimpleTime, SimpleTime), VttParserError>)
        ensures
            match r {
                Ok((start, end)) => Self::spec_block_header_timestamps(l@) == Ok::<
                    (nat, nat),
                    ParseFailure,
                >((start@, end@)),
                Err(e) => Self::spec_block_header_timestamps(l@) == Err::<
                    (nat, nat),
                    ParseFailure,
                >(e@),
            },
    {
        match parse_range(l, VTT_SEPARATOR) {
            Ok(times) => Ok(times),
            Err(at) => Err(VttParserError::InvalidTimestamp(string_of(&at))),
        }
    }

    /// Reads the start and end of a block from the range of its header.
    pub fn block_header_timestamps(s: &str) -> (r: Result<(SimpleTime, SimpleTime), VttParserError>)
        ensures
            match r {
                Ok((start, end)) => Self::spec_block_header_timestamps(s@) == Ok::<
                    (nat, nat),
                    ParseFailure,
                >((start@, end@)),
                Err(e) => Self::spec_block_header_timestamps(s@) == Err::<
                    (nat, nat),
                    ParseFailure,
                >(e@),
            },
    {
        let chars = chars_of(s);
        Self::range_of(&chars)
    }

    /// Reads a block header from its line.
    fn header_line(l: &Vec<char>) -> (r: Result<
        (Option<String>, SimpleTime, SimpleTime),
        VttParserError,
    >)
        ensures
            match r {
                Ok((speaker, start, end)) => Self::spec_block_header(l@) == Ok::<
                    (Option<Seq<char>>, nat, nat),
                    ParseFailure,
                >((text_of(speaker), start@, end@)),
                Err(e) => Self::spec_block_header(l@) == Err::<
                    (Option<Seq<char>>, nat, nat),
                    ParseFailure,
                >(e@),
            },
    {
        if l.len() == 0 {
            return Err(VttParserError::UnexpectedEndOfFile);
        }
        if char_is_digit(l[0]) {
            return match Self::range_of(l) {
                Ok((start, end)) => Ok((None, start, end)),
                Err(e) => Err(e),
            };
        }
        let k: usize = match find_digit(l) {
            None => {
                return Err(VttParserError::BlockHeaderInvalid(string_of(l)));
            },
            Some(k) => k,
        };
        proof {
            lemma_first_where(l@, digit());
        }
        if l[k - 1] != ' ' {
            return Err(VttParserError::BlockHeaderInvalid(string_of(l)));
        }
        let range = copy_range(l, k, l.len());
        assert(range@ == l@.skip(k as int));
        match Self::range_of(&range) {
            Ok((start, end)) => {
                let speaker = string_of_range(l, 0, k - 1);
                assert(speaker@ == l@.take(k - 1));
                Ok((Some(speaker), start, end))
            },
            Err(e) => Err(e),
        }
    }

    /// Reads the speaker, start and end of a block from its header.
    pub fn block_header(s: &str) -> (r: Result<
        (Option<String>, SimpleTime, SimpleTime),
        VttParserError,
    >)
        ensures
            match r {
                Ok((speaker, start, end)) => Self::spec_block_header(s@) == Ok::<
                    (Option<Seq<char>>, nat, nat),
                    ParseFailure,
                >((text_of(speaker), start@, end@)),
                Err(e) => Self::spec_block_header(s@) == Err::<
                    (Option<Seq<char>>, nat, nat),
                    ParseFailure,
                >(e@),
            },
    {
        let chars = chars_of(s);
        Self::header_line(&chars)
    }

    /// The text of a block is its line as it stands.
    pub fn block_text(s: &str) -> (r: String)
        ensures
            r@ == s@,
    {
        String::from_str(s)
    }
}

impl VttWriter {
    /// A time as this format writes it.
    pub open spec fn spec_timestamp(t: nat) -> Seq<char> {
        timestamp_text(t, '.')
    }

    /// The first part of a file: the marker line, after the header and a
    /// blank line where there is a header.
    pub open spec fn spec_header(header: Option<Seq<char>>) -> Seq<char> {
        match header {
            Some(h) => h + seq!['\n', '\n'] + marker() + seq!['\n'],
            None => marker() + seq!['\n'],
        }
    }

    /// The second line of a block: the range, after the speaker and a space
    /// where there is a speaker.
    pub open spec fn spec_block_header(b: BlockView) -> Seq<char> {
        match b.speaker {
            Some(p) => p + seq![' '] + range_text(b.start, b.end, '.'),
            None => range_text(b.start, b.end, '.'),
        }
    }

    /// Block number `n` as three lines: the number, the block header and the
    /// text.
    pub open spec fn spec_block(b: BlockView, n: nat) -> Seq<char> {
        decimal_digits(n) + seq!['\n'] + Self::spec_block_header(b) + seq!['\n'] + b.text
            + seq!['\n']
    }

    /// The parts of a file: the header part, then the blocks, numbered from
    /// one.
    pub open spec fn spec_parts(c: CaptionView) -> Seq<Seq<char>> {
        seq![Self::spec_header(c.header)] + Seq::new(
            c.blocks.len(),
            |i: int| Self::spec_block(c.blocks[i], (i + 1) as nat),
        )
    }

    /// A caption as a file: its parts with a line feed between each two.
    pub open spec fn spec_write(c: CaptionView) -> Seq<char> {
        join(Self::spec_parts(c), '\n')
    }

    /// Appends the marker line.
    fn push_marker(out: &mut String)
        ensures
            final(out)@ == old(out)@ + marker() + seq!['\n'],
    {
        out.push('W');
        out.push('E');
        out.push('B');
        out.push('V');
        out.push('T');
        out.push('T');
        out.push('\n');
        assert(out@ == old(out)@ + marker() + seq!['\n']);
    }

    /// Appends the first part of a file.
    fn push_header(out: &mut String, header: &Option<String>)
        ensures
            final(out)@ == old(out)@ + Self::spec_header(text_of(*header)),
    {
        match header {
            Some(h) => {
                out.append(h.as_str());
                out.push('\n');
                out.push('\n');
                Self::push_marker(out);
                assert(out@ == old(out)@ + (h@ + seq!['\n', '\n'] + marker() + seq!['\n']));
            },
            None => {
                Self::push_marker(out);
                assert(out@ == old(out)@ + (marker() + seq!['\n']));
            },
        }
    }

    /// Appends block number `n`.
    fn push_block(out: &mut String, cb: &CaptionBlock, n: usize)
        ensures
            final(out)@ == old(out)@ + Self::spec_block(cb@, n as nat),
    {
        push_decimal(out, n);
        out.push('\n');
        let ghost numbered = out@;
        match cb.speaker_ref() {
            Some(p) => {
                out.append(p.as_str());
                out.push(' ');
            },
            None => {},
        }
        push_range_text(out, &cb.start(), &cb.end(), VTT_SEPARATOR);
        assert(out@ == numbered + Self::spec_block_header(cb@));
        out.push('\n');
        out.append(cb.text_ref().as_str());
        out.push('\n');
        assert(out@ == old(out)@ + Self::spec_block(cb@, n as nat));
    }

    /// Writes a caption as a file.
    pub fn write(cap: &Caption) -> (r: String)
        ensures
            r@ == Self::spec_write(cap@),
    {
        let ghost parts = Self::spec_parts(cap@);
        let mut out = String::new();
        Self::push_header(&mut out, &cap.header);
        let mut i: usize = 0;
        assert(parts.take(1) == seq![parts[0]]);
        assert(out@ == parts[0]);
        proof {
            lemma_join_small(parts[0], '\n');
        }
        while i < cap.blocks.len()
            invariant
                i <= cap.blocks.len(),
                parts == Self::spec_parts(cap@),
                out@ == join(parts.take(i + 1), '\n'),
            decreases cap.blocks.len() - i,
        {
            out.push('\n');
            Self::push_block(&mut out, &cap.blocks[i], i + 1);
            proof {
                let written = Self::spec_block(cap@.blocks[i as int], (i + 1) as nat);
                lemma_join_push(parts.take(i + 1), written, '\n');
                assert(parts.take(i + 2) == parts.take(i + 1).push(written));
            }
            i += 1;
        }
        assert(parts.take(cap.blocks.len() + 1) == parts);
        out
    }

    /// Writes block number `n`.
    pub fn block(cb: &CaptionBlock, n: usize) -> (r: String)
        ensures
            r@ == Self::spec_block(cb@, n as nat),
    {
        let mut out = String::new();
        Self::push_block(&mut out, cb, n);
        out
    }

    /// Writes a time.
    pub fn timestamp(t: &SimpleTime) -> (r: String)
        ensures
            r@ == Self::spec_timestamp(t@),
    {
        let mut out = String::new();
        push_timestamp(&mut out, t, VTT_SEPARATOR);
        out
    }

    /// Writes the first part of a file.
    pub fn header(cap: &Caption) -> (r: String)
        ensures
            r@ == Self::spec_header(cap@.header),
    {
        let mut out = String::new();
        Self::push_header(&mut out, &cap.header);
        out
    }
}

} // verus!
