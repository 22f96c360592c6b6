//! What the two caption formats have in common above the timestamp: the
//! failures of a parse and the division of a file into blocks of four lines.

use crate::caption::BlockView;
use crate::text::spec_unsigned;
use vstd::prelude::*;

verus! {

/// Why a text is no caption file, with the text or the times at fault.
pub enum ParseFailure {
    UnexpectedEndOfFile,
    FileNotReadable(Seq<char>),
    ExpectedBlankLine(Seq<char>),
    ExpectedBlockNumber(Seq<char>),
    BlockHeaderInvalid(Seq<char>),
    InvalidTimestamp(Seq<char>),
    InvalidSpeakerPlacement(Seq<char>),
    EndsBeforeStart(nat, nat),
}

/// The number of a block, as its line writes it.
pub open spec fn spec_block_number(s: Seq<char>) -> Result<nat, ParseFailure> {
    match spec_unsigned(s) {
        Some(n) => Ok(n),
        None => Err(ParseFailure::ExpectedBlockNumber(s)),
    }
}

/// The block with these parts, which must not end before it starts.
pub open spec fn spec_ordered(
    speaker: Option<Seq<char>>,
    start: nat,
    end: nat,
    text: Seq<char>,
) -> Result<BlockView, ParseFailure> {
    if start <= end {
        Ok(BlockView { speaker, start, end, text })
    } else {
        Err(ParseFailure::EndsBeforeStart(start, end))
    }
}

/// The blocks that `ls` writes, four lines to a block, each read by `read`.
/// The first block that fails decides the failure.
#[verifier::opaque]
pub open spec fn spec_blocks(
    ls: Seq<Seq<char>>,
    read: spec_fn(Seq<Seq<char>>) -> Result<BlockView, ParseFailure>,
) -> Result<Seq<BlockView>, ParseFailure>
    decreases ls.len(),
{
    if ls.len() < 4 {
        Ok(Seq::<BlockView>::empty())
    } else {
        match spec_blocks(ls.take(ls.len() - 4), read) {
            Err(e) => Err(e),
            Ok(bs) => match read(ls.skip(ls.len() - 4)) {
                Err(e) => Err(e),
                Ok(b) => Ok(bs.push(b)),
            },
        }
    }
}

/// A failure among the first `4 * k` lines is the failure of the whole.
pub proof fn lemma_blocks_failure_stays(
    ls: Seq<Seq<char>>,
    read: spec_fn(Seq<Seq<char>>) -> Result<BlockView, ParseFailure>,
    k: int,
)
    requires
        0 <= 4 * k <= ls.len(),
        ls.len() % 4 == 0,
        spec_blocks(ls.take(4 * k), read) is Err,
    ensures
        spec_blocks(ls, read) == spec_blocks(ls.take(4 * k), read),
    decreases ls.len(),
{
    reveal(spec_blocks);
    if 4 * k == ls.len() {
        assert(ls.take(4 * k) == ls);
    } else {
        let shorter = ls.take(ls.len() - 4);
        assert(shorter.take(4 * k) == ls.take(4 * k));
        lemma_blocks_failure_stays(shorter, read, k);
    }
}

/// One more block of four lines, read after the first `4 * k`.
pub proof fn lemma_blocks_step(
    ls: Seq<Seq<char>>,
    read: spec_fn(Seq<Seq<char>>) -> Result<BlockView, ParseFailure>,
    k: int,
)
    requires
        0 <= k,
        4 * k + 4 <= ls.len(),
    ensures
        spec_blocks(ls.take(4 * k + 4), read) == (match spec_blocks(ls.take(4 * k), read) {
            Err(e) => Err(e),
            Ok(bs) => match read(ls.subrange(4 * k, 4 * k + 4)) {
                Err(e) => Err(e),
                Ok(b) => Ok(bs.push(b)),
            },
        }),
{
    reveal(spec_blocks);
    let longer = ls.take(4 * k + 4);
    assert(longer.take(longer.len() - 4) == ls.take(4 * k));
    assert(longer.skip(longer.len() - 4) == ls.subrange(4 * k, 4 * k + 4));
}

/// Fewer than four lines hold no block.
pub proof fn lemma_blocks_none(
    ls: Seq<Seq<char>>,
    read: spec_fn(Seq<Seq<char>>) -> Result<BlockView, ParseFailure>,
)
    requires
        ls.len() < 4,
    ensures
        spec_blocks(ls, read) == Ok::<Seq<BlockView>, ParseFailure>(Seq::<BlockView>::empty()),
{
    reveal(spec_blocks);
}

/// One more block of four lines behind lines that read back.
pub proof fn lemma_blocks_push(
    shorter: Seq<Seq<char>>,
    four: Seq<Seq<char>>,
    read: spec_fn(Seq<Seq<char>>) -> Result<BlockView, ParseFailure>,
    bs: Seq<BlockView>,
    b: BlockView,
)
    requires
        four.len() == 4,
        spec_blocks(shorter, read) == Ok::<Seq<BlockView>, ParseFailure>(bs),
        read(four) == Ok::<BlockView, ParseFailure>(b),
    ensures
        spec_blocks(shorter + four, read) == Ok::<Seq<BlockView>, ParseFailure>(bs.push(b)),
{
    reveal(spec_blocks);
    let all = shorter + four;
    assert(all.take(all.len() - 4) == shorter);
    assert(all.skip(all.len() - 4) == four);
}

} // verus!
