//! Writing a caption and reading it back.
//!
//! Not every caption survives the trip through a file. The predicates here
//! say which do, for each format, and the two laws prove that those come
//! back unchanged.

use crate::caption::{BlockView, CaptionView};
use crate::format::{spec_parse_document, spec_write_document, Format};
use crate::layout::{
    lemma_blocks_none, lemma_blocks_push, spec_block_number, spec_blocks, ParseFailure,
};
use crate::srt::{SrtParser, SrtWriter};
use crate::stamp::{fits_timestamp, lemma_range_chars, lemma_range_round_trip, range_text};
use crate::text::{
    decimal_digits, digit, is_char, is_clean_line, is_digit, join, lemma_decimal_digits,
    lemma_first_where, lemma_first_where_at, lemma_join_push, lemma_join_small, lemma_lines_unlines,
    lemma_push_then_add, lemma_unlines_block, lemma_unlines_concat, lemma_unlines_push, lines,
    unlines,
};
use crate::vtt::{is_marker, marker, VttParser, VttWriter};
use vstd::prelude::*;

verus! {

/// Texts put together from the left or from the right are the same text.
proof fn lemma_add_thrice(a: Seq<char>, b: Seq<char>, c: Seq<char>)
    ensures
        a + (b + c) == (a + b) + c,
{
    assert(a + (b + c) =~= (a + b) + c);
}

/// The number of a block, written in decimal, reads back.
proof fn lemma_block_number_round_trip(n: nat)
    requires
        n <= usize::MAX,
    ensures
        spec_block_number(decimal_digits(n)) == Ok::<nat, ParseFailure>(n),
        is_clean_line(decimal_digits(n)),
{
    lemma_decimal_digits(n);
    let s = decimal_digits(n);
    assert(is_digit(s[0]));
    assert(is_digit(s.last()));
    assert forall|i: int| 0 <= i < s.len() implies s[i] != '\n' by {
        assert(is_digit(s[i]));
    }
}

/// The blocks of a caption that the dotted format gives back as they were:
/// the block starts no later than it ends, both times fit a timestamp, the
/// text is one clean line, and the speaker holds neither digit nor line
/// feed.
pub open spec fn vtt_block_round_trips(b: BlockView) -> bool {
    &&& b.start <= b.end
    &&& fits_timestamp(b.start)
    &&& fits_timestamp(b.end)
    &&& is_clean_line(b.text)
    &&& (b.speaker matches Some(p) ==> forall|i: int|
        0 <= i < p.len() ==> !is_digit(#[trigger] p[i]) && p[i] != '\n')
}

/// The captions that the dotted format gives back as they were: there is no
/// header, the blocks can be numbered in a `usize`, and every block comes
/// back.
pub open spec fn vtt_round_trips(c: CaptionView) -> bool {
    &&& c.header is None
    &&& c.blocks.len() <= usize::MAX
    &&& forall|i: int| 0 <= i < c.blocks.len() ==> vtt_block_round_trips(#[trigger] c.blocks[i])
}

/// The four lines of block number `n` in the dotted format.
pub open spec fn vtt_block_as_lines(b: BlockView, n: nat) -> Seq<Seq<char>> {
    seq![Seq::<char>::empty(), decimal_digits(n), VttWriter::spec_block_header(b), b.text]
}

/// The lines of the first `k` blocks in the dotted format.
pub open spec fn vtt_blocks_as_lines(bs: Seq<BlockView>, k: int) -> Seq<Seq<char>>
    decreases k,
{
    if k <= 0 {
        Seq::<Seq<char>>::empty()
    } else {
        vtt_blocks_as_lines(bs, k - 1) + vtt_block_as_lines(bs[k - 1], k as nat)
    }
}

/// The header line of a block in the dotted format reads back.
proof fn lemma_vtt_block_header_round_trip(b: BlockView)
    requires
        vtt_block_round_trips(b),
    ensures
        VttParser::spec_block_header(VttWriter::spec_block_header(b)) == Ok::<
            (Option<Seq<char>>, nat, nat),
            ParseFailure,
        >((b.speaker, b.start, b.end)),
        is_clean_line(VttWriter::spec_block_header(b)),
{
    let range = range_text(b.start, b.end, '.');
    lemma_range_chars(b.start, b.end, '.');
    lemma_range_round_trip(b.start, b.end, '.');
    let line = VttWriter::spec_block_header(b);
    match b.speaker {
        None => {
            assert(line == range);
        },
        Some(p) => {
            let k: int = p.len() as int + 1;
            assert(line == p + seq![' '] + range);
            assert(line[k] == range[0]);
            assert forall|j: int| 0 <= j < k implies !digit()(line[j]) by {
                if j < p.len() {
                    assert(line[j] == p[j]);
                }
            }
            lemma_first_where_at(line, digit(), k);
            assert(line.skip(k) == range);
            assert(line.take(k - 1) == p);
            assert(line[k - 1] == ' ');
            assert(!is_digit(line[0]));
        },
    }
    assert(line.last() == range[28]);
    assert forall|i: int| 0 <= i < line.len() implies line[i] != '\n' by {
        match b.speaker {
            None => {
                let c = range[i];
                assert(is_digit(c) || c == ':' || c == '.' || c == ' ' || c == '-' || c == '>');
            },
            Some(p) => {
                if i < p.len() {
                    assert(line[i] == p[i]);
                } else if i == p.len() {
                } else {
                    let c = range[i - p.len() - 1];
                    assert(line[i] == c);
                    assert(is_digit(c) || c == ':' || c == '.' || c == ' ' || c == '-' || c
                        == '>');
                }
            },
        }
    }
}

/// Four lines of which the first is blank, the second a number and the
/// third a block header with its times in order are a block.
proof fn lemma_vtt_four_lines(
    g: Seq<Seq<char>>,
    speaker: Option<Seq<char>>,
    start: nat,
    end: nat,
)
    requires
        g.len() == 4,
        g[0].len() == 0,
        spec_block_number(g[1]) is Ok,
        VttParser::spec_block_header(g[2]) == Ok::<(Option<Seq<char>>, nat, nat), ParseFailure>(
            (speaker, start, end),
        ),
        start <= end,
    ensures
        VttParser::spec_block_lines(g) == Ok::<BlockView, ParseFailure>(
            (BlockView { speaker, start, end, text: g[3] }),
        ),
{
}

/// The four lines of a block in the dotted format read back as the block.
proof fn lemma_vtt_block_round_trip(b: BlockView, n: nat)
    requires
        vtt_block_round_trips(b),
        n <= usize::MAX,
    ensures
        VttParser::spec_block_lines(vtt_block_as_lines(b, n)) == Ok::<BlockView, ParseFailure>(b),
{
    lemma_block_number_round_trip(n);
    lemma_vtt_block_header_round_trip(b);
    lemma_vtt_four_lines(vtt_block_as_lines(b, n), b.speaker, b.start, b.end);
}

/// The four lines of a block in the dotted format are clean.
proof fn lemma_vtt_block_lines_clean(b: BlockView, n: nat)
    requires
        vtt_block_round_trips(b),
        n <= usize::MAX,
    ensures
        forall|k: int| 0 <= k < 4 ==> is_clean_line(#[trigger] vtt_block_as_lines(b, n)[k]),
{
    lemma_block_number_round_trip(n);
    lemma_vtt_block_header_round_trip(b);
    let g = vtt_block_as_lines(b, n);
    assert(is_clean_line(g[0]));
    assert(is_clean_line(g[1]));
    assert(is_clean_line(g[2]));
    assert(is_clean_line(g[3]));
}

/// Clean lines behind clean lines are clean lines.
proof fn lemma_clean_concat(a: Seq<Seq<char>>, b: Seq<Seq<char>>)
    requires
        forall|j: int| 0 <= j < a.len() ==> is_clean_line(#[trigger] a[j]),
        forall|j: int| 0 <= j < b.len() ==> is_clean_line(#[trigger] b[j]),
    ensures
        forall|j: int| 0 <= j < (a + b).len() ==> is_clean_line(#[trigger] (a + b)[j]),
{
    assert forall|j: int| 0 <= j < (a + b).len() implies is_clean_line(#[trigger] (a + b)[j]) by {
        if j < a.len() {
            assert((a + b)[j] == a[j]);
        } else {
            assert((a + b)[j] == b[j - a.len()]);
        }
    }
}

/// The lines of the first `k` blocks in the dotted format read back as
/// those blocks.
proof fn lemma_vtt_blocks_round_trip(bs: Seq<BlockView>, k: int)
    requires
        0 <= k <= bs.len(),
        bs.len() <= usize::MAX,
        forall|i: int| 0 <= i < bs.len() ==> vtt_block_round_trips(#[trigger] bs[i]),
    ensures
        vtt_blocks_as_lines(bs, k).len() == 4 * k,
        spec_blocks(vtt_blocks_as_lines(bs, k), VttParser::block_reader()) == Ok::<
            Seq<BlockView>,
            ParseFailure,
        >(bs.take(k)),
    decreases k,
{
    if k == 0 {
        assert(bs.take(0) == Seq::<BlockView>::empty());
        lemma_blocks_none(vtt_blocks_as_lines(bs, 0), VttParser::block_reader());
    } else {
        lemma_vtt_blocks_round_trip(bs, k - 1);
        let b = bs[k - 1];
        assert(vtt_block_round_trips(b));
        lemma_vtt_block_round_trip(b, k as nat);
        lemma_blocks_push(
            vtt_blocks_as_lines(bs, k - 1),
            vtt_block_as_lines(b, k as nat),
            VttParser::block_reader(),
            bs.take(k - 1),
            b,
        );
        assert(bs.take(k - 1).push(b) == bs.take(k));
    }
}

/// The lines of the first `k` blocks in the dotted format are clean.
proof fn lemma_vtt_blocks_clean(bs: Seq<BlockView>, k: int)
    requires
        0 <= k <= bs.len(),
        bs.len() <= usize::MAX,
        forall|i: int| 0 <= i < bs.len() ==> vtt_block_round_trips(#[trigger] bs[i]),
    ensures
        forall|j: int|
            0 <= j < vtt_blocks_as_lines(bs, k).len() ==> is_clean_line(
                #[trigger] vtt_blocks_as_lines(bs, k)[j],
            ),
    decreases k,
{
    if k > 0 {
        lemma_vtt_blocks_clean(bs, k - 1);
        let b = bs[k - 1];
        assert(vtt_block_round_trips(b));
        lemma_vtt_block_lines_clean(b, k as nat);
        lemma_clean_concat(vtt_blocks_as_lines(bs, k - 1), vtt_block_as_lines(b, k as nat));
    }
}

/// The four lines of a block, each ended by a line feed, are a line feed
/// and the block as the dotted format writes it.
proof fn lemma_vtt_block_as_text(b: BlockView, n: nat)
    ensures
        unlines(vtt_block_as_lines(b, n)) == seq!['\n'] + VttWriter::spec_block(b, n),
{
    lemma_unlines_block(decimal_digits(n), VttWriter::spec_block_header(b), b.text);
}

/// The parts that the dotted format writes, one block at a time.
proof fn lemma_vtt_parts(c: CaptionView, k: int)
    requires
        1 <= k <= c.blocks.len(),
    ensures
        VttWriter::spec_parts(c).take(k + 1) == VttWriter::spec_parts(c).take(k).push(
            VttWriter::spec_block(c.blocks[k - 1], k as nat),
        ),
        VttWriter::spec_parts(c).take(k).len() >= 1,
        VttWriter::spec_parts(c).take(1) == seq![VttWriter::spec_header(c.header)],
        VttWriter::spec_parts(c).take(c.blocks.len() as int + 1) == VttWriter::spec_parts(c),
{
}

/// What the dotted format writes for the first `k` blocks is the marker
/// line and the lines of those blocks, each ended by a line feed.
proof fn lemma_vtt_write_as_lines(c: CaptionView, k: int)
    requires
        c.header is None,
        0 <= k <= c.blocks.len(),
    ensures
        join(VttWriter::spec_parts(c).take(k + 1), '\n') == unlines(
            seq![marker()] + vtt_blocks_as_lines(c.blocks, k),
        ),
    decreases k,
{
    let parts = VttWriter::spec_parts(c);
    if k == 0 {
        let first = seq![marker()];
        assert(first + vtt_blocks_as_lines(c.blocks, 0) == first);
        lemma_unlines_push(Seq::<Seq<char>>::empty(), marker());
        assert(Seq::<Seq<char>>::empty().push(marker()) == first);
        assert(unlines(first) == marker().push('\n'));
        assert(parts.take(1) == seq![parts[0]]);
        lemma_join_small(parts[0], '\n');
        assert(parts[0] == marker() + seq!['\n']);
        assert(marker() + seq!['\n'] == marker().push('\n'));
    } else {
        lemma_vtt_write_as_lines(c, k - 1);
        let b = c.blocks[k - 1];
        let shorter = seq![marker()] + vtt_blocks_as_lines(c.blocks, k - 1);
        let four = vtt_block_as_lines(b, k as nat);
        let written = VttWriter::spec_block(b, k as nat);
        lemma_unlines_concat(shorter, four);
        lemma_vtt_block_as_text(b, k as nat);
        lemma_vtt_parts(c, k);
        lemma_join_push(parts.take(k), written, '\n');
        assert(seq![marker()] + vtt_blocks_as_lines(c.blocks, k) == shorter + four);
        lemma_push_then_add(join(parts.take(k), '\n'), '\n', written);
    }
}

/// The lines of what the dotted format writes are the marker line and the
/// lines of the blocks.
proof fn lemma_vtt_written_lines(c: CaptionView)
    requires
        vtt_round_trips(c),
    ensures
        lines(VttWriter::spec_write(c)) == seq![marker()] + vtt_blocks_as_lines(
            c.blocks,
            c.blocks.len() as int,
        ),
{
    let n: int = c.blocks.len() as int;
    let block_lines = vtt_blocks_as_lines(c.blocks, n);
    lemma_vtt_write_as_lines(c, n);
    lemma_vtt_blocks_clean(c.blocks, n);
    assert(VttWriter::spec_parts(c).take(n + 1) == VttWriter::spec_parts(c));
    assert(is_clean_line(marker()));
    lemma_clean_concat(seq![marker()], block_lines);
    lemma_lines_unlines(seq![marker()] + block_lines);
}

/// Lines that begin with the marker line and go on with blocks are a
/// caption without a header.
proof fn lemma_vtt_marker_first(block_lines: Seq<Seq<char>>, bs: Seq<BlockView>)
    requires
        block_lines.len() % 4 == 0,
        spec_blocks(block_lines, VttParser::block_reader()) == Ok::<Seq<BlockView>, ParseFailure>(
            bs,
        ),
    ensures
        VttParser::spec_parse_lines(seq![marker()] + block_lines) == Ok::<
            CaptionView,
            ParseFailure,
        >((CaptionView { header: None, blocks: bs })),
{
    let all = seq![marker()] + block_lines;
    assert(is_marker()(all[0]));
    lemma_first_where_at(all, is_marker(), 0);
    assert(all.skip(1) == block_lines);
}

/// A caption that the dotted format can carry comes back from its file as
/// it went in: the same blocks in the same order, each with its speaker,
/// its times and its text, and no header.
pub proof fn lemma_vtt_round_trip(c: CaptionView)
    requires
        vtt_round_trips(c),
    ensures
        VttParser::spec_parse(VttWriter::spec_write(c)) == Ok::<CaptionView, ParseFailure>(c),
{
    let n: int = c.blocks.len() as int;
    lemma_vtt_written_lines(c);
    lemma_vtt_blocks_round_trip(c.blocks, n);
    assert(c.blocks.take(n) == c.blocks);
    lemma_vtt_marker_first(vtt_blocks_as_lines(c.blocks, n), c.blocks);
}

/// The blocks of a caption that the comma format gives back as they were:
/// the block starts no later than it ends, both times fit a timestamp and
/// the text is one clean line; without a speaker the text holds no `[`, and
/// a speaker holds neither `]` nor line feed.
pub open spec fn srt_block_round_trips(b: BlockView) -> bool {
    &&& b.start <= b.end
    &&& fits_timestamp(b.start)
    &&& fits_timestamp(b.end)
    &&& is_clean_line(b.text)
    &&& match b.speaker {
        None => forall|i: int| 0 <= i < b.text.len() ==> #[trigger] b.text[i] != '[',
        Some(p) => forall|i: int| 0 <= i < p.len() ==> #[trigger] p[i] != ']' && p[i] != '\n',
    }
}

/// The captions that the comma format gives back as they were: there is no
/// header, there is at least one block, the blocks can be numbered in a
/// `usize`, and every block comes back.
pub open spec fn srt_round_trips(c: CaptionView) -> bool {
    &&& c.header is None
    &&& 1 <= c.blocks.len() <= usize::MAX
    &&& forall|i: int| 0 <= i < c.blocks.len() ==> srt_block_round_trips(#[trigger] c.blocks[i])
}

/// The four lines of block number `n` in the comma format.
pub open spec fn srt_block_as_lines(b: BlockView, n: nat) -> Seq<Seq<char>> {
    seq![
        Seq::<char>::empty(),
        decimal_digits(n),
        range_text(b.start, b.end, ','),
        SrtWriter::spec_block_text(b),
    ]
}

/// The lines of the first `k` blocks in the comma format.
pub open spec fn srt_blocks_as_lines(bs: Seq<BlockView>, k: int) -> Seq<Seq<char>>
    decreases k,
{
    if k <= 0 {
        Seq::<Seq<char>>::empty()
    } else {
        srt_blocks_as_lines(bs, k - 1) + srt_block_as_lines(bs[k - 1], k as nat)
    }
}

/// The text line of a block in the comma format reads back.
proof fn lemma_srt_text_round_trip(b: BlockView)
    requires
        srt_block_round_trips(b),
    ensures
        SrtParser::spec_block_text(SrtWriter::spec_block_text(b)) == Ok::<
            (Option<Seq<char>>, Seq<char>),
            ParseFailure,
        >((b.speaker, b.text)),
        is_clean_line(SrtWriter::spec_block_text(b)),
{
    let line = SrtWriter::spec_block_text(b);
    match b.speaker {
        None => {
            lemma_first_where(line, is_char('['));
        },
        Some(p) => {
            let close: int = p.len() as int + 1;
            assert(line == seq!['['] + p + seq![']', ' '] + b.text);
            assert(line[0] == '[');
            lemma_first_where_at(line, is_char('['), 0);
            assert(line[close] == ']');
            assert forall|j: int| 0 <= j < close implies !is_char(']')(line[j]) by {
                if j > 0 {
                    assert(line[j] == p[j - 1]);
                }
            }
            lemma_first_where_at(line, is_char(']'), close);
            assert(line.subrange(1, close) == p);
            assert(line.skip(close + 2) == b.text);
            assert forall|i: int| 0 <= i < line.len() implies line[i] != '\n' by {
                if 0 < i && i < close {
                    assert(line[i] == p[i - 1]);
                } else if i >= close + 2 {
                    assert(line[i] == b.text[i - close - 2]);
                }
            }
            if b.text.len() > 0 {
                assert(line.last() == b.text.last());
            } else {
                assert(line.last() == ' ');
            }
        },
    }
}

/// The range line of a block in the comma format reads back.
proof fn lemma_srt_range_round_trip(start: nat, end: nat)
    requires
        fits_timestamp(start),
        fits_timestamp(end),
    ensures
        SrtParser::spec_block_timestamps(range_text(start, end, ',')) == Ok::<
            (nat, nat),
            ParseFailure,
        >((start, end)),
        is_clean_line(range_text(start, end, ',')),
{
    let range = range_text(start, end, ',');
    lemma_range_chars(start, end, ',');
    lemma_range_round_trip(start, end, ',');
    assert(range.last() == range[28]);
    assert forall|i: int| 0 <= i < range.len() implies range[i] != '\n' by {
        let c = range[i];
        assert(is_digit(c) || c == ':' || c == ',' || c == ' ' || c == '-' || c == '>');
    }
}

/// Four lines of which the first is blank, the second a number, the third
/// a range with its times in order and the fourth a text line are a block.
proof fn lemma_srt_four_lines(
    g: Seq<Seq<char>>,
    speaker: Option<Seq<char>>,
    start: nat,
    end: nat,
    text: Seq<char>,
)
    requires
        g.len() == 4,
        g[0].len() == 0,
        spec_block_number(g[1]) is Ok,
        SrtParser::spec_block_timestamps(g[2]) == Ok::<(nat, nat), ParseFailure>((start, end)),
        SrtParser::spec_block_text(g[3]) == Ok::<(Option<Seq<char>>, Seq<char>), ParseFailure>(
            (speaker, text),
        ),
        start <= end,
    ensures
        SrtParser::spec_block_lines(g) == Ok::<BlockView, ParseFailure>(
            (BlockView { speaker, start, end, text }),
        ),
{
}

/// The four lines of a block in the comma format read back as the block.
proof fn lemma_srt_block_round_trip(b: BlockView, n: nat)
    requires
        srt_block_round_trips(b),
        n <= usize::MAX,
    ensures
        SrtParser::spec_block_lines(srt_block_as_lines(b, n)) == Ok::<BlockView, ParseFailure>(b),
{
    lemma_block_number_round_trip(n);
    lemma_srt_range_round_trip(b.start, b.end);
    lemma_srt_text_round_trip(b);
    lemma_srt_four_lines(srt_block_as_lines(b, n), b.speaker, b.start, b.end, b.text);
}

/// The four lines of a block in the comma format are clean.
proof fn lemma_srt_block_lines_clean(b: BlockView, n: nat)
    requires
        srt_block_round_trips(b),
        n <= usize::MAX,
    ensures
        forall|k: int| 0 <= k < 4 ==> is_clean_line(#[trigger] srt_block_as_lines(b, n)[k]),
{
    lemma_block_number_round_trip(n);
    lemma_srt_range_round_trip(b.start, b.end);
    lemma_srt_text_round_trip(b);
    let g = srt_block_as_lines(b, n);
    assert(is_clean_line(g[0]));
    assert(is_clean_line(g[1]));
    assert(is_clean_line(g[2]));
    assert(is_clean_line(g[3]));
}

/// The lines of the first `k` blocks in the comma format read back as
/// those blocks.
proof fn lemma_srt_blocks_round_trip(bs: Seq<BlockView>, k: int)
    requires
        0 <= k <= bs.len(),
        bs.len() <= usize::MAX,
        forall|i: int| 0 <= i < bs.len() ==> srt_block_round_trips(#[trigger] bs[i]),
    ensures
        srt_blocks_as_lines(bs, k).len() == 4 * k,
        spec_blocks(srt_blocks_as_lines(bs, k), SrtParser::block_reader()) == Ok::<
            Seq<BlockView>,
            ParseFailure,
        >(bs.take(k)),
    decreases k,
{
    if k == 0 {
        assert(bs.take(0) == Seq::<BlockView>::empty());
        lemma_blocks_none(srt_blocks_as_lines(bs, 0), SrtParser::block_reader());
    } else {
        lemma_srt_blocks_round_trip(bs, k - 1);
        let b = bs[k - 1];
        assert(srt_block_round_trips(b));
        lemma_srt_block_round_trip(b, k as nat);
        lemma_blocks_push(
            srt_blocks_as_lines(bs, k - 1),
            srt_block_as_lines(b, k as nat),
            SrtParser::block_reader(),
            bs.take(k - 1),
            b,
        );
        assert(bs.take(k - 1).push(b) == bs.take(k));
    }
}

/// The lines of the first `k` blocks in the comma format are clean.
proof fn lemma_srt_blocks_clean(bs: Seq<BlockView>, k: int)
    requires
        0 <= k <= bs.len(),
        bs.len() <= usize::MAX,
        forall|i: int| 0 <= i < bs.len() ==> srt_block_round_trips(#[trigger] bs[i]),
    ensures
        forall|j: int|
            0 <= j < srt_blocks_as_lines(bs, k).len() ==> is_clean_line(
                #[trigger] srt_blocks_as_lines(bs, k)[j],
            ),
    decreases k,
{
    if k > 0 {
        lemma_srt_blocks_clean(bs, k - 1);
        let b = bs[k - 1];
        assert(srt_block_round_trips(b));
        lemma_srt_block_lines_clean(b, k as nat);
        lemma_clean_concat(srt_blocks_as_lines(bs, k - 1), srt_block_as_lines(b, k as nat));
    }
}

/// The four lines of a block, each ended by a line feed, are a line feed
/// and the block as the comma format writes it.
proof fn lemma_srt_block_as_text(b: BlockView, n: nat)
    ensures
        unlines(srt_block_as_lines(b, n)) == seq!['\n'] + SrtWriter::spec_block(b, n),
{
    lemma_unlines_block(
        decimal_digits(n),
        range_text(b.start, b.end, ','),
        SrtWriter::spec_block_text(b),
    );
}

/// The parts that the comma format writes, one block at a time.
proof fn lemma_srt_parts(c: CaptionView, k: int)
    requires
        1 <= k <= c.blocks.len(),
    ensures
        SrtWriter::spec_parts(c).take(k) == SrtWriter::spec_parts(c).take(k - 1).push(
            SrtWriter::spec_block(c.blocks[k - 1], k as nat),
        ),
        SrtWriter::spec_parts(c).take(k - 1).len() == k - 1,
        SrtWriter::spec_parts(c).take(c.blocks.len() as int) == SrtWriter::spec_parts(c),
{
}

/// A line feed and what the comma format writes for the first `k` blocks
/// are the lines of those blocks, each ended by a line feed.
proof fn lemma_srt_write_as_lines(c: CaptionView, k: int)
    requires
        1 <= k <= c.blocks.len(),
    ensures
        seq!['\n'] + join(SrtWriter::spec_parts(c).take(k), '\n') == unlines(
            srt_blocks_as_lines(c.blocks, k),
        ),
    decreases k,
{
    let parts = SrtWriter::spec_parts(c);
    let b = c.blocks[k - 1];
    let four = srt_block_as_lines(b, k as nat);
    let written = SrtWriter::spec_block(b, k as nat);
    let shorter = srt_blocks_as_lines(c.blocks, k - 1);
    lemma_srt_block_as_text(b, k as nat);
    lemma_srt_parts(c, k);
    lemma_unlines_concat(shorter, four);
    if k == 1 {
        lemma_join_small(written, '\n');
        assert(parts.take(1) == seq![written]);
        lemma_unlines_push(Seq::<Seq<char>>::empty(), four[0]);
        assert(shorter == Seq::<Seq<char>>::empty());
        assert(unlines(shorter) + unlines(four) == unlines(four));
    } else {
        lemma_srt_write_as_lines(c, k - 1);
        lemma_join_push(parts.take(k - 1), written, '\n');
        lemma_push_then_add(join(parts.take(k - 1), '\n'), '\n', written);
        lemma_add_thrice(seq!['\n'], join(parts.take(k - 1), '\n'), seq!['\n'] + written);
    }
}

/// The lines of a line feed and what the comma format writes are the lines
/// of the blocks.
proof fn lemma_srt_written_lines(c: CaptionView)
    requires
        srt_round_trips(c),
    ensures
        lines(seq!['\n'] + SrtWriter::spec_write(c)) == srt_blocks_as_lines(
            c.blocks,
            c.blocks.len() as int,
        ),
{
    let n: int = c.blocks.len() as int;
    lemma_srt_write_as_lines(c, n);
    lemma_srt_blocks_clean(c.blocks, n);
    assert(SrtWriter::spec_parts(c).take(n) == SrtWriter::spec_parts(c));
    lemma_lines_unlines(srt_blocks_as_lines(c.blocks, n));
}

/// Lines that are blocks are a caption without a header.
proof fn lemma_srt_all_blocks(block_lines: Seq<Seq<char>>, bs: Seq<BlockView>)
    requires
        block_lines.len() % 4 == 0,
        spec_blocks(block_lines, SrtParser::block_reader()) == Ok::<Seq<BlockView>, ParseFailure>(
            bs,
        ),
    ensures
        SrtParser::spec_parse_lines(block_lines) == Ok::<CaptionView, ParseFailure>(
            (CaptionView { header: None, blocks: bs }),
        ),
{
}

/// A caption that the comma format can carry comes back from its file as it
/// went in: the same blocks in the same order, each with its speaker, its
/// times and its text, and no header.
pub proof fn lemma_srt_round_trip(c: CaptionView)
    requires
        srt_round_trips(c),
    ensures
        SrtParser::spec_parse(SrtWriter::spec_write(c)) == Ok::<CaptionView, ParseFailure>(c),
{
    let n: int = c.blocks.len() as int;
    lemma_srt_written_lines(c);
    lemma_srt_blocks_round_trip(c.blocks, n);
    assert(c.blocks.take(n) == c.blocks);
    lemma_srt_all_blocks(srt_blocks_as_lines(c.blocks, n), c.blocks);
}

/// The captions that a format gives back as they were.
pub open spec fn round_trips(format: Format, c: CaptionView) -> bool {
    match format {
        Format::Vtt => vtt_round_trips(c),
        Format::Srt => srt_round_trips(c),
    }
}

/// Writing a caption that the format can carry and reading the text back in
/// the same format gives the caption back: the same blocks in the same
/// order, each with its speaker, its times and its text, and the same
/// header. The numbers of the blocks are not part of a caption: they are
/// written afresh, from one.
pub proof fn lemma_round_trip(format: Format, c: CaptionView)
    requires
        round_trips(format, c),
    ensures
        spec_parse_document(format, spec_write_document(format, c)) == Ok::<
            CaptionView,
            ParseFailure,
        >(c),
{
    match format {
        Format::Vtt => lemma_vtt_round_trip(c),
        Format::Srt => lemma_srt_round_trip(c),
    }
}

} // verus!
