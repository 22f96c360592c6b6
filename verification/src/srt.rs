//! The format without a marker line and with commas before the
//! milliseconds.
//!
//! A file holds blocks of three lines each, with a blank line between each
//! two: the number of the block, the range
//! `HH:MM:SS,mmm --> HH:MM:SS,mmm`, and the text that is shown, which may
//! begin with the speaker in square brackets.

use crate::caption::{
    block_views, BlockView, Caption, CaptionBlock, CaptionBlockError, CaptionView,
};
use crate::layout::{
    lemma_blocks_failure_stays, lemma_blocks_none, lemma_blocks_step, spec_block_number,
    spec_blocks, spec_ordered, ParseFailure,
};
use crate::stamp::{
    parse_range, parse_timestamp, push_range_text, push_timestamp, range_text, spec_range,
    spec_timestamp, timestamp_text,
};
use crate::text::{
    chars_of, decimal_digits, find_char, first_where, is_char, join, lemma_first_where,
    lemma_join_push, lemma_join_small, lines, parse_unsigned, push_decimal, split_lines, string_of,
    string_of_range, text_of, views,
};
use crate::time::SimpleTime;
use vstd::prelude::*;
use vstd::string::StringExecFns;

verus! {

/// The separator before the milliseconds.
pub const SRT_SEPARATOR: char = ',';

/// Reads captions in this format.
pub struct SrtParser;

/// Writes captions in this format.
pub struct SrtWriter;

/// Why a text could not be read in this format.
#[derive(Debug, Clone)]
pub enum SrtParserError {
    UnexpectedEndOfFile,
    FileNotReadable(String),
    ExpectedBlankLine(String),
    ExpectedBlockNumber(String),
    BlockHeaderInvalid(String),
    InvalidTimestamp(String),
    InvalidSpeakerPlacement(String),
    EndsBeforeStart(SimpleTime, SimpleTime),
}

impl View for SrtParserError {
    type V = ParseFailure;

    open spec fn view(&self) -> ParseFailure {
        match self {
            SrtParserError::UnexpectedEndOfFile => ParseFailure::UnexpectedEndOfFile,
            SrtParserError::FileNotReadable(s) => ParseFailure::FileNotReadable(s@),
            SrtParserError::ExpectedBlankLine(s) => ParseFailure::ExpectedBlankLine(s@),
            SrtParserError::ExpectedBlockNumber(s) => ParseFailure::ExpectedBlockNumber(s@),
            SrtParserError::BlockHeaderInvalid(s) => ParseFailure::BlockHeaderInvalid(s@),
            SrtParserError::InvalidTimestamp(s) => ParseFailure::InvalidTimestamp(s@),
            SrtParserError::InvalidSpeakerPlacement(s) => ParseFailure::InvalidSpeakerPlacement(s@),
            SrtParserError::EndsBeforeStart(a, b) => ParseFailure::EndsBeforeStart(a@, b@),
        }
    }
}

impl SrtParserError {
    /// What `to_string` says.
    pub open spec fn spec_to_string(&self) -> Seq<char> {
        match self {
            SrtParserError::UnexpectedEndOfFile => "unexpected end of file"@,
            SrtParserError::FileNotReadable(s) => "could not read file "@ + s@,
            SrtParserError::ExpectedBlankLine(s) => "expected blank line, got "@ + s@,
            SrtParserError::ExpectedBlockNumber(s) => "expected SRT block number, got "@ + s@,
            SrtParserError::BlockHeaderInvalid(s) => "invalid SRT block from line "@ + s@,
            SrtParserError::InvalidTimestamp(s) => "invalid SRT block from word "@ + s@,
            SrtParserError::InvalidSpeakerPlacement(s) => "invalid SRT speaker placement in line "@
                + s@,
            SrtParserError::EndsBeforeStart(a, b) => "SRT block ends at "@ + timestamp_text(
                b@,
                ',',
            ) + " before it starts at "@ + timestamp_text(a@, ','),
        }
    }

    /// The failure in words.
    pub fn to_string(&self) -> (r: String)
        ensures
            r@ == self.spec_to_string(),
    {
        match self {
            SrtParserError::UnexpectedEndOfFile => String::from_str("unexpected end of file"),
            SrtParserError::FileNotReadable(s) => String::from_str("could not read file ").concat(
                s.as_str(),
            ),
            SrtParserError::ExpectedBlankLine(s) => String::from_str(
                "expected blank line, got ",
            ).concat(s.as_str()),
            SrtParserError::ExpectedBlockNumber(s) => String::from_str(
                "expected SRT block number, got ",
            ).concat(s.as_str()),
            SrtParserError::BlockHeaderInvalid(s) => String::from_str(
                "invalid SRT block from line ",
            ).concat(s.as_str()),
            SrtParserError::InvalidTimestamp(s) => String::from_str(
                "invalid SRT block from word ",
            ).concat(s.as_str()),
            SrtParserError::InvalidSpeakerPlacement(s) => String::from_str(
                "invalid SRT speaker placement in line ",
            ).concat(s.as_str()),
            SrtParserError::EndsBeforeStart(a, b) => {
                let mut out = String::from_str("SRT block ends at ");
                push_timestamp(&mut out, b, SRT_SEPARATOR);
                out.append(" before it starts at ");
                push_timestamp(&mut out, a, SRT_SEPARATOR);
                out
            },
        }
    }
}

impl SrtParser {
    /// The time that a timestamp writes.
    pub open spec fn spec_block_timestamp(s: Seq<char>) -> Result<nat, ParseFailure> {
        match spec_timestamp(s, ',') {
            Some(t) => Ok(t),
            None => Err(ParseFailure::InvalidTimestamp(s)),
        }
    }

    /// The start and end that a range writes.
    pub open spec fn spec_block_timestamps(s: Seq<char>) -> Result<(nat, nat), ParseFailure> {
        match spec_range(s, ',') {
            Ok(times) => Ok(times),
            Err(at) => Err(ParseFailure::InvalidTimestamp(at)),
        }
    }

    /// The speaker and the text that a text line writes. A line without `[`
    /// is text as it stands. Otherwise the `[` opens the line, the speaker
    /// stands between it and the first `]`, one more character is passed
    /// over, and the rest is the text. A `[` further in, a missing `]` and a
    /// line that ends with the `]` are misplaced speakers.
    pub open spec fn spec_block_text(s: Seq<char>) -> Result<
        (Option<Seq<char>>, Seq<char>),
        ParseFailure,
    > {
        match first_where(s, is_char('[')) {
            None => Ok((None, s)),
            Some(open) => if open != 0 {
                Err(ParseFailure::InvalidSpeakerPlacement(s))
            } else {
                match first_where(s, is_char(']')) {
                    None => Err(ParseFailure::InvalidSpeakerPlacement(s)),
                    Some(close) => if close + 2 <= s.len() {
                        Ok((Some(s.subrange(1, close)), s.skip(close + 2)))
                    } else {
                        Err(ParseFailure::InvalidSpeakerPlacement(s))
                    },
                }
            },
        }
    }

    /// The block that four lines write: a blank line, a number, a range and
    /// the text line.
    pub open spec fn spec_block_lines(g: Seq<Seq<char>>) -> Result<BlockView, ParseFailure> {
        if g.len() != 4 {
            Err(ParseFailure::UnexpectedEndOfFile)
        } else if g[0].len() != 0 {
            Err(ParseFailure::ExpectedBlankLine(g[0]))
        } else {
            match spec_block_number(g[1]) {
                Err(e) => Err(e),
                Ok(_) => match Self::spec_block_timestamps(g[2]) {
                    Err(e) => Err(e),
                    Ok((start, end)) => match Self::spec_block_text(g[3]) {
                        Err(e) => Err(e),
                        Ok((speaker, text)) => spec_ordered(speaker, start, end, text),
                    },
                },
            }
        }
    }

    /// The reader of one block.
    pub open spec fn block_reader() -> spec_fn(Seq<Seq<char>>) -> Result<BlockView, ParseFailure> {
        |g: Seq<Seq<char>>| Self::spec_block_lines(g)
    }

    /// The block that a text of four lines writes.
    pub open spec fn spec_block(text: Seq<char>) -> Result<BlockView, ParseFailure> {
        Self::spec_block_lines(lines(text))
    }

    /// The caption that lines write: blocks of four lines each, and no
    /// header.
    pub open spec fn spec_parse_lines(ls: Seq<Seq<char>>) -> Result<CaptionView, ParseFailure> {
        if ls.len() % 4 != 0 {
            Err(ParseFailure::UnexpectedEndOfFile)
        } else {
            match spec_blocks(ls, Self::block_reader()) {
                Err(e) => Err(e),
                Ok(blocks) => Ok(CaptionView { header: None, blocks }),
            }
        }
    }

    /// The caption that a text writes. A blank line is put before the text,
    /// so that the first block begins with one as the others do; then the
    /// lines are read.
    pub open spec fn spec_parse(text: Seq<char>) -> Result<CaptionView, ParseFailure> {
        Self::spec_parse_lines(lines(seq!['\n'] + text))
    }

    /// Reads the blocks that the lines write.
    fn blocks_of(ls: &Vec<Vec<char>>) -> (r: Result<Vec<CaptionBlock>, SrtParserError>)
        requires
            ls.len() % 4 == 0,
        ensures
            match r {
                Ok(blocks) => spec_blocks(views(ls@), Self::block_reader()) == Ok::<
                    Seq<BlockView>,
                    ParseFailure,
                >(block_views(blocks@)),
                Err(e) => spec_blocks(views(ls@), Self::block_reader()) == Err::<
                    Seq<BlockView>,
                    ParseFailure,
                >(e@),
            },
    {
        let count: usize = ls.len() / 4;
        let ghost all = views(ls@);
        let mut blocks: Vec<CaptionBlock> = Vec::new();
        let mut i: usize = 0;
        proof {
            lemma_blocks_none(all.take(0), Self::block_reader());
        }
        assert(block_views(blocks@) == Seq::<BlockView>::empty());
        while i < count
            invariant
                i <= count,
                4 * count == ls.len(),
                all == views(ls@),
                spec_blocks(all.take(4 * i), Self::block_reader()) == Ok::<
                    Seq<BlockView>,
                    ParseFailure,
                >(block_views(blocks@)),
            decreases count - i,
        {
            proof {
                lemma_blocks_step(all, Self::block_reader(), i as int);
            }
            match Self::block_lines(ls, 4 * i) {
                Err(e) => {
                    proof {
                        lemma_blocks_failure_stays(all, Self::block_reader(), i as int + 1);
                    }
                    return Err(e);
                },
                Ok(b) => {
                    let ghost before = blocks@;
                    blocks.push(b);
                    assert(block_views(blocks@) == block_views(before).push(b@));
                },
            }
            i += 1;
        }
        assert(all.take(4 * count) == all);
        Ok(blocks)
    }

    /// Reads a caption.
    pub fn parse(contents: &str) -> (r: Result<Caption, SrtParserError>)
        ensures
            match r {
                Ok(c) => Self::spec_parse(contents@) == Ok::<CaptionView, ParseFailure>(c@),
                Err(e) => Self::spec_parse(contents@) == Err::<CaptionView, ParseFailure>(e@),
            },
    {
        let mut chars: Vec<char> = Vec::new();
        chars.push('\n');
        for c in it: contents.chars()
            invariant
                chars@ == seq!['\n'] + it.seq().take(it.index() as int),
                it.seq() == contents@,
        {
            chars.push(c);
        }
        assert(chars@ == seq!['\n'] + contents@);
        let ls = split_lines(&chars);
        if ls.len() % 4 != 0 {
            return Err(SrtParserError::UnexpectedEndOfFile);
        }
        match Self::blocks_of(&ls) {
            Err(e) => Err(e),
            Ok(blocks) => Ok(Caption { header: None, blocks }),
        }
    }

    /// Reads the block that the four lines from `at` on write.
    fn block_lines(ls: &Vec<Vec<char>>, at: usize) -> (r: Result<CaptionBlock, SrtParserError>)
        requires
            at + 4 <= ls.len(),
        ensures
            match r {
                Ok(b) => Self::spec_block_lines(views(ls@).subrange(at as int, at + 4)) == Ok::<
                    BlockView,
                    ParseFailure,
                >(b@),
                Err(e) => Self::spec_block_lines(views(ls@).subrange(at as int, at + 4)) == Err::<
                    BlockView,
                    ParseFailure,
                >(e@),
            },
    {
        let ghost g = views(ls@).subrange(at as int, at + 4);
        assert(g[0] == ls[at as int]@);
        assert(g[1] == ls[at + 1]@);
        assert(g[2] == ls[at + 2]@);
        assert(g[3] == ls[at + 3]@);
        if ls[at].len() != 0 {
            return Err(SrtParserError::ExpectedBlankLine(string_of(&ls[at])));
        }
        match Self::number_of(&ls[at + 1]) {
            Err(e) => {
                return Err(e);
            },
            Ok(_) => {},
        }
        let (start, end) = match Self::range_of(&ls[at + 2]) {
            Err(e) => {
                return Err(e);
            },
            Ok(times) => times,
        };
        let (speaker, text) = match Self::text_line(&ls[at + 3]) {
            Err(e) => {
                return Err(e);
            },
            Ok(parts) => parts,
        };
        match CaptionBlock::from(speaker, start, end, text) {
            Ok(b) => Ok(b),
            Err(CaptionBlockError::EndsBeforeStart(a, b)) => Err(
                SrtParserError::EndsBeforeStart(a, b),
            ),
        }
    }

    /// Reads a block from a text of four lines.
    pub fn block(s: &str) -> (r: Result<CaptionBlock, SrtParserError>)
        ensures
            match r {
                Ok(b) => Self::spec_block(s@) == Ok::<BlockView, ParseFailure>(b@),
                Err(e) => Self::spec_block(s@) == Err::<BlockView, ParseFailure>(e@),
            },
    {
        let chars = chars_of(s);
        let ls = split_lines(&chars);
        if ls.len() != 4 {
            return Err(SrtParserError::UnexpectedEndOfFile);
        }
        assert(views(ls@).subrange(0, 4) == views(ls@));
        Self::block_lines(&ls, 0)
    }

    /// Reads the number of a block from its line.
    fn number_of(l: &Vec<char>) -> (r: Result<usize, SrtParserError>)
        ensures
            match r {
                Ok(n) => spec_block_number(l@) == Ok::<nat, ParseFailure>(n as nat),
                Err(e) => spec_block_number(l@) == Err::<nat, ParseFailure>(e@),
            },
    {
        match parse_unsigned(l) {
            Some(n) => Ok(n),
            None => Err(SrtParserError::ExpectedBlockNumber(string_of(l))),
        }
    }

    /// Reads the number of a block.
    pub fn block_number(s: &str) -> (r: Result<usize, SrtParserError>)
        ensures
            match r {
                Ok(n) => spec_block_number(s@) == Ok::<nat, ParseFailure>(n as nat),
                Err(e) => spec_block_number(s@) == Err::<nat, ParseFailure>(e@),
            },
    {
        let chars = chars_of(s);
        Self::number_of(&chars)
    }

    /// Reads a timestamp.
    pub fn block_timestamp(s: &str) -> (r: Result<SimpleTime, SrtParserError>)
        ensures
            match r {
                Ok(t) => Self::spec_block_timestamp(s@) == Ok::<nat, ParseFailure>(t@),
                Err(e) => Self::spec_block_timestamp(s@) == Err::<nat, ParseFailure>(e@),
            },
    {
        let chars = chars_of(s);
        match parse_timestamp(&chars, SRT_SEPARATOR) {
            Some(t) => Ok(t),
            None => Err(SrtParserError::InvalidTimestamp(string_of(&chars))),
        }
    }

    /// Reads the range of a block from its line.
    fn range_of(l: &Vec<char>) -> (r: Result<(SimpleTime, SimpleTime), SrtParserError>)
        ensures
            match r {
                Ok((start, end)) => Self::spec_block_timestamps(l@) == Ok::<
                    (nat, nat),
                    ParseFailure,
                >((start@, end@)),
                Err(e) => Self::spec_block_timestamps(l@) == Err::<(nat, nat), ParseFailure>(e@),
            },
    {
        match parse_range(l, SRT_SEPARATOR) {
            Ok(times) => Ok(times),
            Err(at) => Err(SrtParserError::InvalidTimestamp(string_of(&at))),
        }
    }

    /// Reads the start and end of a block from its range.
    pub fn block_timestamps(s: &str) -> (r: Result<(SimpleTime, SimpleTime), SrtParserError>)
        ensures
            match r {
                Ok((start, end)) => Self::spec_block_timestamps(s@) == Ok::<
                    (nat, nat),
                    ParseFailure,
                >((start@, end@)),
                Err(e) => Self::spec_block_timestamps(s@) == Err::<(nat, nat), ParseFailure>(e@),
            },
    {
        let chars = chars_of(s);
        Self::range_of(&chars)
    }

    /// Reads the speaker and the text from a text line.
    fn text_line(l: &Vec<char>) -> (r: Result<(Option<String>, String), SrtParserError>)
        ensures
            match r {
                Ok((speaker, text)) => Self::spec_block_text(l@) == Ok::<
                    (Option<Seq<char>>, Seq<char>),
                    ParseFailure,
                >((text_of(speaker), text@)),
                Err(e) => Self::spec_block_text(l@) == Err::<
                    (Option<Seq<char>>, Seq<char>),
                    ParseFailure,
                >(e@),
            },
    {
        let open: usize = match find_char(l, '[') {
            None => {
                return Ok((None, string_of(l)));
            },
            Some(open) => open,
        };
        if open != 0 {
            return Err(SrtParserError::InvalidSpeakerPlacement(string_of(l)));
        }
        let close: usize = match find_char(l, ']') {
            None => {
                return Err(SrtParserError::InvalidSpeakerPlacement(string_of(l)));
            },
            Some(close) => close,
        };
        proof {
            lemma_first_where(l@, is_char('['));
            lemma_first_where(l@, is_char(']'));
        }
        if l.len() - close < 2 {
            return Err(SrtParserError::InvalidSpeakerPlacement(string_of(l)));
        }
        let speaker = string_of_range(l, 1, close);
        let text = string_of_range(l, close + 2, l.len());
        assert(text@ == l@.skip(close + 2));
        Ok((Some(speaker), text))
    }

    /// Reads the speaker and the text of a block.
    pub fn block_text(s: &str) -> (r: Result<(Option<String>, String), SrtParserError>)
        ensures
            match r {
                Ok((speaker, text)) => Self::spec_block_text(s@) == Ok::<
                    (Option<Seq<char>>, Seq<char>),
                    ParseFailure,
                >((text_of(speaker), text@)),
                Err(e) => Self::spec_block_text(s@) == Err::<
                    (Option<Seq<char>>, Seq<char>),
                    ParseFailure,
                >(e@),
            },
    {
        let chars = chars_of(s);
        Self::text_line(&chars)
    }
}

impl SrtWriter {
    /// A time as this format writes it.
    pub open spec fn spec_timestamp(t: nat) -> Seq<char> {
        timestamp_text(t, ',')
    }

    /// The third line of a block: the text, after the speaker in square
    /// brackets and a space where there is a speaker.
    pub open spec fn spec_block_text(b: BlockView) -> Seq<char> {
        match b.speaker {
            Some(p) => seq!['['] + p + seq![']', ' '] + b.text,
            None => b.text,
        }
    }

    /// Block number `n` as three lines: the number, the range and the text
    /// line.
    pub open spec fn spec_block(b: BlockView, n: nat) -> Seq<char> {
        decimal_digits(n) + seq!['\n'] + range_text(b.start, b.end, ',') + seq!['\n']
            + Self::spec_block_text(b) + seq!['\n']
    }

    /// The parts of a file: the blocks, numbered from one.
    pub open spec fn spec_parts(c: CaptionView) -> Seq<Seq<char>> {
        Seq::new(c.blocks.len(), |i: int| Self::spec_block(c.blocks[i], (i + 1) as nat))
    }

    /// A caption as a file: its blocks with a line feed between each two.
    /// The header is not written.
    pub open spec fn spec_write(c: CaptionView) -> Seq<char> {
        join(Self::spec_parts(c), '\n')
    }

    /// Appends block number `n`.
    fn push_block(out: &mut String, cb: &CaptionBlock, n: usize)
        ensures
            final(out)@ == old(out)@ + Self::spec_block(cb@, n as nat),
    {
        push_decimal(out, n);
        out.push('\n');
        push_range_text(out, &cb.start(), &cb.end(), SRT_SEPARATOR);
        out.push('\n');
        let ghost ranged = out@;
        match cb.speaker_ref() {
            Some(p) => {
                out.push('[');
                out.append(p.as_str());
                out.push(']');
                out.push(' ');
            },
            None => {},
        }
        out.append(cb.text_ref().as_str());
        assert(out@ == ranged + Self::spec_block_text(cb@));
        out.push('\n');
        assert(out@ == old(out)@ + Self::spec_block(cb@, n as nat));
    }

    /// Writes a caption as a file.
    pub fn write(cap: &Caption) -> (r: String)
        ensures
            r@ == Self::spec_write(cap@),
    {
        let ghost parts = Self::spec_parts(cap@);
        let mut out = String::new();
        let mut i: usize = 0;
        proof {
            lemma_join_small(Seq::<char>::empty(), '\n');
            assert(parts.take(0) == Seq::<Seq<char>>::empty());
        }
        while i < cap.blocks.len()
            invariant
                i <= cap.blocks.len(),
                parts == Self::spec_parts(cap@),
                out@ == join(parts.take(i as int), '\n'),
            decreases cap.blocks.len() - i,
        {
            if i > 0 {
                out.push('\n');
            }
            Self::push_block(&mut out, &cap.blocks[i], i + 1);
            proof {
                let written = Self::spec_block(cap@.blocks[i as int], (i + 1) as nat);
                assert(parts.take(i + 1) == parts.take(i as int).push(written));
                if i > 0 {
                    lemma_join_push(parts.take(i as int), written, '\n');
                } else {
                    lemma_join_small(written, '\n');
                    assert(parts.take(0) == Seq::<Seq<char>>::empty());
                    assert(parts.take(1) == seq![written]);
                    assert(Seq::<char>::empty() + written == written);
                }
            }
            i += 1;
        }
        assert(parts.take(cap.blocks.len() as int) == parts);
        out
    }

    /// Writes block number `n`.
    pub fn block(cb: &CaptionBlock, n: usize) -> (r: String)
        ensures
            r@ == Self::spec_block(cb@, n as nat),
    {
        let mut out = String::new();
        Self::push_block(&mut out, cb, n);
        out
    }

    /// Writes a time.
    pub fn timestamp(t: &SimpleTime) -> (r: String)
        ensures
            r@ == Self::spec_timestamp(t@),
    {
        let mut out = String::new();
        push_timestamp(&mut out, t, SRT_SEPARATOR);
        out
    }
}

} // verus!
