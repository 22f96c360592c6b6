//! Captions: blocks of text with a start and an end time, and the operations
//! on whole captions.

use crate::text::text_of;
use crate::time::{NegativeSimpleTime, SimpleTime};
use vstd::pervasive::unreached;
use vstd::prelude::*;

verus! {

/// What a block is: who speaks, from when to when (in milliseconds), and what
/// is shown.
pub struct BlockView {
    pub speaker: Option<Seq<char>>,
    pub start: nat,
    pub end: nat,
    pub text: Seq<char>,
}

/// What a caption is: an optional header and its blocks in presentation
/// order.
pub struct CaptionView {
    pub header: Option<Seq<char>>,
    pub blocks: Seq<BlockView>,
}

/// The block moved by `n` milliseconds.
pub open spec fn shifted(b: BlockView, n: int) -> BlockView {
    BlockView {
        speaker: b.speaker,
        start: (b.start + n) as nat,
        end: (b.end + n) as nat,
        text: b.text,
    }
}

/// Every block moved by `n` milliseconds.
pub open spec fn shifted_blocks(bs: Seq<BlockView>, n: int) -> Seq<BlockView> {
    bs.map_values(|b: BlockView| shifted(b, n))
}

/// Whether the block's interval meets the window, both taken with their end
/// points. A bound that is absent leaves that side open.
pub open spec fn overlaps(b: BlockView, from: Option<nat>, to: Option<nat>) -> bool {
    &&& (from matches Some(f) ==> b.end >= f)
    &&& (to matches Some(t) ==> b.start <= t)
}

/// The predicate "meets the window from `from` to `to`".
pub open spec fn in_window(from: Option<nat>, to: Option<nat>) -> spec_fn(BlockView) -> bool {
    |b: BlockView| overlaps(b, from, to)
}

/// The end time of the last block; zero where there is no block.
pub open spec fn last_end(c: CaptionView) -> nat {
    if c.blocks.len() > 0 {
        c.blocks.last().end
    } else {
        0
    }
}

/// The sum of the last end times of the first `i` captions: the time at
/// which caption `i` starts in the concatenation.
pub open spec fn running_end(docs: Seq<CaptionView>, i: int) -> nat
    decreases i,
{
    if i <= 0 {
        0
    } else {
        running_end(docs, i - 1) + last_end(docs[i - 1])
    }
}

/// The blocks of the first `i` captions, those of each caption moved to
/// start where the caption before it ended.
pub open spec fn joined_blocks(docs: Seq<CaptionView>, i: int) -> Seq<BlockView>
    decreases i,
{
    if i <= 0 {
        Seq::<BlockView>::empty()
    } else {
        joined_blocks(docs, i - 1) + shifted_blocks(
            docs[i - 1].blocks,
            running_end(docs, i - 1) as int,
        )
    }
}

/// The machine's limits on caption `i` of a concatenation: the time at which
/// it starts fits an `isize`, the type of an offset, and every one of its
/// blocks, moved to that time, still ends within a `usize`.
pub open spec fn fits_at(docs: Seq<CaptionView>, i: int) -> bool {
    &&& running_end(docs, i) <= isize::MAX
    &&& forall|j: int|
        0 <= j < docs[i].blocks.len() ==> (#[trigger] docs[i].blocks[j]).end + running_end(docs, i)
            <= usize::MAX
}

/// The machine's limits on a concatenation: those on each of its captions.
pub open spec fn concatenation_fits(docs: Seq<CaptionView>) -> bool {
    forall|i: int| 0 <= i < docs.len() ==> #[trigger] fits_at(docs, i)
}

/// An optional speaker, start and end times, and the text shown on screen
/// between them. The start is never after the end.
#[derive(Debug)]
pub struct CaptionBlock {
    speaker: Option<String>,
    start: SimpleTime,
    end: SimpleTime,
    text: String,
}

/// Why a block could not be built.
#[derive(Debug)]
pub enum CaptionBlockError {
    EndsBeforeStart(SimpleTime, SimpleTime),
}

/// Why a question about a caption has no answer.
#[derive(Debug)]
pub enum CaptionError {
    EmptyDocument,
}

/// A caption: an optional header and blocks in presentation order.
#[derive(Debug)]
pub struct Caption {
    pub header: Option<String>,
    pub blocks: Vec<CaptionBlock>,
}

impl View for CaptionBlock {
    type V = BlockView;

    closed spec fn view(&self) -> BlockView {
        BlockView {
            speaker: text_of(self.speaker),
            start: self.start@,
            end: self.end@,
            text: self.text@,
        }
    }
}

/// The views of a sequence of blocks.
pub open spec fn block_views(bs: Seq<CaptionBlock>) -> Seq<BlockView> {
    bs.map_values(|b: CaptionBlock| b@)
}

impl View for Caption {
    type V = CaptionView;

    open spec fn view(&self) -> CaptionView {
        CaptionView { header: text_of(self.header), blocks: block_views(self.blocks@) }
    }
}

/// The views of a sequence of captions.
pub open spec fn caption_views(cs: Seq<Caption>) -> Seq<CaptionView> {
    cs.map_values(|c: Caption| c@)
}

impl Clone for CaptionBlock {
    fn clone(&self) -> (r: Self)
        ensures
            r == *self,
    {
        self.duplicate()
    }
}

impl CaptionBlock {
    /// The start is not after the end, and both are valid times. It holds of
    /// every block that executable code can hold.
    #[verifier::type_invariant]
    pub closed spec fn wf(self) -> bool {
        &&& self.start.wf()
        &&& self.end.wf()
        &&& self.start@ <= self.end@
    }

    /// A valid block starts no later than it ends, within a `usize`.
    pub proof fn lemma_ordered(self)
        requires
            self.wf(),
        ensures
            self@.start <= self@.end <= usize::MAX,
    {
        self.end.lemma_fits();
    }

    /// Builds a block from its parts. A block that would end before it
    /// starts is refused.
    pub fn from(speaker: Option<String>, start: SimpleTime, end: SimpleTime, text: String) -> (r:
        Result<CaptionBlock, CaptionBlockError>)
        ensures
            r is Ok <==> start@ <= end@,
            r matches Ok(b) ==> b@ == (BlockView {
                speaker: text_of(speaker),
                start: start@,
                end: end@,
                text: text@,
            }),
            r matches Err(e) ==> e == CaptionBlockError::EndsBeforeStart(start, end),
    {
        proof {
            use_type_invariant(&start);
            use_type_invariant(&end);
        }
        if end.to_milliseconds() < start.to_milliseconds() {
            Err(CaptionBlockError::EndsBeforeStart(start, end))
        } else {
            Ok(CaptionBlock { speaker, start, end, text })
        }
    }

    /// A copy of the text.
    pub fn text(&self) -> (r: String)
        ensures
            r@ == self@.text,
    {
        self.text.clone()
    }

    /// A copy of the speaker.
    pub fn speaker(&self) -> (r: Option<String>)
        ensures
            text_of(r) == self@.speaker,
    {
        match &self.speaker {
            Some(s) => Some(s.clone()),
            None => None,
        }
    }

    /// The start time.
    pub fn start(&self) -> (r: SimpleTime)
        ensures
            r@ == self@.start,
            r@ <= self@.end,
    {
        proof {
            use_type_invariant(self);
        }
        self.start
    }

    /// The end time.
    pub fn end(&self) -> (r: SimpleTime)
        ensures
            r@ == self@.end,
            self@.start <= r@,
    {
        proof {
            use_type_invariant(self);
        }
        self.end
    }

    /// The text, borrowed.
    pub fn text_ref(&self) -> (r: &String)
        ensures
            r@ == self@.text,
    {
        &self.text
    }

    /// The speaker, borrowed.
    pub fn speaker_ref(&self) -> (r: &Option<String>)
        ensures
            text_of(*r) == self@.speaker,
    {
        &self.speaker
    }

    /// A block with the same speaker, times and text.
    pub fn duplicate(&self) -> (r: CaptionBlock)
        ensures
            r == *self,
    {
        proof {
            use_type_invariant(self);
        }
        CaptionBlock {
            speaker: match &self.speaker {
                Some(s) => Some(s.clone()),
                None => None,
            },
            start: self.start,
            end: self.end,
            text: self.text.clone(),
        }
    }

    /// Whether the block moved by `n` milliseconds still ends within a
    /// `usize`: what `offset_milliseconds` asks of its caller.
    pub fn offset_fits(&self, n: isize) -> (r: bool)
        ensures
            r == (self@.end + n <= usize::MAX),
    {
        self.end.offset_fits(n)
    }

    /// Moves start and end by `n` milliseconds. A move that would put the
    /// start below zero is refused and leaves the block as it was. The moved
    /// end must fit a `usize`.
    pub fn offset_milliseconds(&mut self, n: isize) -> (r: Result<(), NegativeSimpleTime>)
        requires
            old(self)@.end + n <= usize::MAX,
        ensures
            r is Ok <==> old(self)@.start + n >= 0,
            r is Ok ==> final(self)@ == shifted(old(self)@, n as int),
            r is Err ==> *final(self) == *old(self),
    {
        proof {
            use_type_invariant(&*self);
        }
        let mut start = self.start;
        let mut end = self.end;
        match start.offset(n) {
            Err(e) => {
                return Err(e);
            },
            Ok(()) => {},
        }
        match end.offset(n) {
            Err(e) => {
                return Err(e);
            },
            Ok(()) => {},
        }
        proof {
            use_type_invariant(&start);
            use_type_invariant(&end);
        }
        if n >= 0 {
            self.end = end;
            self.start = start;
        } else {
            self.start = start;
            self.end = end;
        }
        Ok(())
    }
}

/// Appends to `out` a copy of every block of `blocks`, moved by `n`
/// milliseconds. It stops at the first block that would start below zero.
fn push_shifted(out: &mut Vec<CaptionBlock>, blocks: &Vec<CaptionBlock>, n: isize) -> (r: Result<
    (),
    NegativeSimpleTime,
>)
    requires
        forall|i: int|
            0 <= i < blocks.len() ==> (#[trigger] block_views(blocks@)[i]).end + n <= usize::MAX,
    ensures
        r is Ok <==> forall|i: int|
            0 <= i < blocks.len() ==> (#[trigger] block_views(blocks@)[i]).start + n >= 0,
        r is Ok ==> block_views(final(out)@) == block_views(old(out)@) + shifted_blocks(
            block_views(blocks@),
            n as int,
        ),
{
    let mut i: usize = 0;
    while i < blocks.len()
        invariant
            i <= blocks.len(),
            forall|k: int|
                0 <= k < blocks.len() ==> (#[trigger] block_views(blocks@)[k]).end + n
                    <= usize::MAX,
            forall|k: int| 0 <= k < i ==> (#[trigger] block_views(blocks@)[k]).start + n >= 0,
            block_views(out@) == block_views(old(out)@) + shifted_blocks(
                block_views(blocks@).take(i as int),
                n as int,
            ),
        decreases blocks.len() - i,
    {
        let mut b = blocks[i].duplicate();
        assert(b@ == block_views(blocks@)[i as int]);
        match b.offset_milliseconds(n) {
            Err(e) => {
                return Err(e);
            },
            Ok(()) => {},
        }
        let ghost before = out@;
        out.push(b);
        proof {
            let views = block_views(blocks@);
            assert(block_views(out@) == block_views(before).push(b@));
            assert(views.take(i + 1) == views.take(i as int).push(views[i as int]));
            assert(shifted_blocks(views.take(i + 1), n as int) == shifted_blocks(
                views.take(i as int),
                n as int,
            ).push(shifted(views[i as int], n as int)));
        }
        i += 1;
    }
    proof {
        let views = block_views(blocks@);
        assert(views.take(blocks.len() as int) == views);
    }
    Ok(())
}

impl Caption {
    /// Builds a caption from a header and blocks.
    pub fn from(header_str: Option<&str>, blocks: Vec<CaptionBlock>) -> (r: Caption)
        ensures
            r@.header == (match header_str {
                Some(s) => Some(s@),
                None => None,
            }),
            r.blocks == blocks,
    {
        Caption {
            header: match header_str {
                Some(s) => Some(s.to_string()),
                None => None,
            },
            blocks,
        }
    }

    /// The caption with every block moved by `n` milliseconds.
    pub open spec fn spec_offset(c: CaptionView, n: int) -> CaptionView {
        CaptionView { header: c.header, blocks: shifted_blocks(c.blocks, n) }
    }

    /// Whether every block moved by `n` milliseconds still ends within a
    /// `usize`: what `offset_milliseconds` asks of its caller.
    pub fn offset_fits(&self, n: isize) -> (r: bool)
        ensures
            r == forall|i: int|
                0 <= i < self@.blocks.len() ==> (#[trigger] self@.blocks[i]).end + n <= usize::MAX,
    {
        let mut i: usize = 0;
        while i < self.blocks.len()
            invariant
                i <= self.blocks.len(),
                forall|k: int| 0 <= k < i ==> (#[trigger] self@.blocks[k]).end + n <= usize::MAX,
            decreases self.blocks.len() - i,
        {
            if !self.blocks[i].offset_fits(n) {
                assert(self@.blocks[i as int].end + n > usize::MAX);
                return false;
            }
            i += 1;
        }
        true
    }

    /// Moves every block by `n` milliseconds. If any block would start below
    /// zero the move is refused as a whole: the caption stays as it was. Every
    /// moved block must still end within a `usize`.
    pub fn offset_milliseconds(&mut self, n: isize) -> (r: Result<(), NegativeSimpleTime>)
        requires
            forall|i: int|
                0 <= i < old(self)@.blocks.len() ==> (#[trigger] old(self)@.blocks[i]).end + n
                    <= usize::MAX,
        ensures
            r is Ok <==> forall|i: int|
                0 <= i < old(self)@.blocks.len() ==> (#[trigger] old(self)@.blocks[i]).start + n
                    >= 0,
            r is Ok ==> final(self)@ == Self::spec_offset(old(self)@, n as int),
            r is Err ==> *final(self) == *old(self),
    {
        let mut moved: Vec<CaptionBlock> = Vec::new();
        match push_shifted(&mut moved, &self.blocks, n) {
            Err(e) => Err(e),
            Ok(()) => {
                assert(block_views(moved@) == shifted_blocks(block_views(self.blocks@), n as int));
                self.blocks = moved;
                Ok(())
            },
        }
    }

    /// The start of the first block, in milliseconds.
    pub fn time_head(&self) -> (r: Result<usize, CaptionError>)
        ensures
            r is Ok <==> self@.blocks.len() > 0,
            r matches Ok(t) ==> t == self@.blocks[0].start,
            r matches Err(e) ==> e is EmptyDocument,
    {
        if self.blocks.len() == 0 {
            Err(CaptionError::EmptyDocument)
        } else {
            Ok(self.blocks[0].start().to_milliseconds())
        }
    }

    /// The end of the last block, in milliseconds.
    pub fn time_tail(&self) -> (r: Result<usize, CaptionError>)
        ensures
            r is Ok <==> self@.blocks.len() > 0,
            r matches Ok(t) ==> t == self@.blocks.last().end && t == last_end(self@),
            r matches Err(e) ==> e is EmptyDocument,
    {
        let n: usize = self.blocks.len();
        if n == 0 {
            Err(CaptionError::EmptyDocument)
        } else {
            Ok(self.blocks[n - 1].end().to_milliseconds())
        }
    }

    /// Keeps the blocks whose interval meets the window from `from` to `to`,
    /// both ends included, and drops the others. A bound that is absent leaves
    /// that side open, so with no bound at all every block is kept. Blocks
    /// that are kept keep their times: nothing is clipped to the window and
    /// nothing is moved to start at zero.
    pub fn crop(&mut self, from: Option<SimpleTime>, to: Option<SimpleTime>)
        ensures
            final(self)@.header == old(self)@.header,
            final(self)@.blocks == old(self)@.blocks.filter(
                in_window(SimpleTime::spec_millis(from), SimpleTime::spec_millis(to)),
            ),
    {
        let ghost keep = in_window(SimpleTime::spec_millis(from), SimpleTime::spec_millis(to));
        let mut kept: Vec<CaptionBlock> = Vec::new();
        let mut i: usize = 0;
        proof {
            reveal(Seq::filter);
            assert(block_views(self.blocks@).take(0) == Seq::<BlockView>::empty());
        }
        while i < self.blocks.len()
            invariant
                i <= self.blocks.len(),
                keep == in_window(SimpleTime::spec_millis(from), SimpleTime::spec_millis(to)),
                block_views(kept@) == block_views(self.blocks@).take(i as int).filter(keep),
            decreases self.blocks.len() - i,
        {
            let b = &self.blocks[i];
            let after_from = match &from {
                Some(f) => b.end().to_milliseconds() >= f.to_milliseconds(),
                None => true,
            };
            let before_to = match &to {
                Some(t) => b.start().to_milliseconds() <= t.to_milliseconds(),
                None => true,
            };
            proof {
                reveal(Seq::filter);
                let views = block_views(self.blocks@);
                assert(views.take(i + 1).drop_last() == views.take(i as int));
                assert(views.take(i + 1).last() == b@);
                assert(keep(b@) == (after_from && before_to));
            }
            if after_from && before_to {
                let ghost before = kept@;
                kept.push(b.duplicate());
                assert(block_views(kept@) == block_views(before).push(b@));
            }
            i += 1;
        }
        proof {
            let views = block_views(self.blocks@);
            assert(views.take(self.blocks.len() as int) == views);
        }
        self.blocks = kept;
    }

    /// What `concatenate` returns: with every caption holding a block, one
    /// caption without a header that holds all the blocks, those of each
    /// caption moved by the sum of the last end times of the captions before
    /// it.
    pub open spec fn spec_concatenate(docs: Seq<CaptionView>) -> Result<CaptionView, CaptionError> {
        if forall|i: int| 0 <= i < docs.len() ==> (#[trigger] docs[i]).blocks.len() > 0 {
            Ok(CaptionView { header: None, blocks: joined_blocks(docs, docs.len() as int) })
        } else {
            Err(CaptionError::EmptyDocument)
        }
    }

    /// Whether a concatenation stays within the machine's limits: what
    /// `concatenate` asks of its caller.
    pub fn concatenation_fits(captions: &Vec<Caption>) -> (r: bool)
        ensures
            r == concatenation_fits(caption_views(captions@)),
    {
        let ghost docs = caption_views(captions@);
        let most: usize = isize::MAX as usize;
        let mut last_ts: usize = 0;
        let mut i: usize = 0;
        while i < captions.len()
            invariant
                i <= captions.len(),
                docs == caption_views(captions@),
                most == isize::MAX,
                last_ts == running_end(docs, i as int),
                forall|k: int| 0 <= k < i ==> #[trigger] fits_at(docs, k),
            decreases captions.len() - i,
        {
            let cap = &captions[i];
            assert(cap@ == docs[i as int]);
            if last_ts > most {
                assert(!fits_at(docs, i as int));
                return false;
            }
            let mut j: usize = 0;
            while j < cap.blocks.len()
                invariant
                    j <= cap.blocks.len(),
                    i < captions.len(),
                    docs == caption_views(captions@),
                    cap@ == docs[i as int],
                    last_ts <= isize::MAX,
                    last_ts == running_end(docs, i as int),
                    forall|k: int|
                        0 <= k < j ==> (#[trigger] docs[i as int].blocks[k]).end + last_ts
                            <= usize::MAX,
                decreases cap.blocks.len() - j,
            {
                if !cap.blocks[j].offset_fits(last_ts as isize) {
                    assert(docs[i as int].blocks[j as int].end + running_end(docs, i as int)
                        > usize::MAX);
                    assert(!fits_at(docs, i as int));
                    return false;
                }
                j += 1;
            }
            assert(fits_at(docs, i as int));
            let tail: usize = match cap.time_tail() {
                Ok(t) => t,
                Err(_) => 0,
            };
            assert(tail == last_end(docs[i as int]));
            last_ts = last_ts + tail;
            i += 1;
        }
        true
    }

    /// Puts captions one after the other. The result has no header. The
    /// blocks keep their order; the blocks of each caption are moved so that
    /// the caption starts where the one before it ended. A caption without
    /// blocks has no end, and the concatenation is refused. Every offset is
    /// non-negative, so no block can be moved below zero.
    pub fn concatenate(captions: Vec<Caption>) -> (r: Result<Caption, CaptionError>)
        requires
            concatenation_fits(caption_views(captions@)),
        ensures
            match r {
                Ok(c) => Self::spec_concatenate(caption_views(captions@)) == Ok::<
                    CaptionView,
                    CaptionError,
                >(c@),
                Err(e) => Self::spec_concatenate(caption_views(captions@)) == Err::<
                    CaptionView,
                    CaptionError,
                >(e),
            },
    {
        let ghost docs = caption_views(captions@);
        let mut out: Vec<CaptionBlock> = Vec::new();
        let mut last_ts: usize = 0;
        let mut i: usize = 0;
        while i < captions.len()
            invariant
                i <= captions.len(),
                docs == caption_views(captions@),
                concatenation_fits(docs),
                forall|k: int| 0 <= k < i ==> (#[trigger] docs[k]).blocks.len() > 0,
                last_ts == running_end(docs, i as int),
                block_views(out@) == joined_blocks(docs, i as int),
            decreases captions.len() - i,
        {
            let cap = &captions[i];
            assert(cap@ == docs[i as int]);
            assert(fits_at(docs, i as int));
            let tail: usize = match cap.time_tail() {
                Err(e) => {
                    return Err(e);
                },
                Ok(t) => t,
            };
            match push_shifted(&mut out, &cap.blocks, last_ts as isize) {
                Err(_) => unreached(),
                Ok(()) => {},
            }
            assert(docs[i as int].blocks.last().end + running_end(docs, i as int) <= usize::MAX);
            last_ts = last_ts + tail;
            i += 1;
        }
        Ok(Caption { header: None, blocks: out })
    }
}

} // verus!
