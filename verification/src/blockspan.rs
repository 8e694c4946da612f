//! The block heights that bracket a span of time.
//!
//! The store answers one question per span: the height of the last block at
//! or before the span's later instant, and the height of the first block at
//! or after its earlier instant. Here that question is stated over a list of
//! blocks, answered for a list held in memory, and its answer turned into a
//! range of heights or a resolution failure.
use vstd::prelude::*;
use crate::error::ResolveError;
use crate::instant::Instant;
use crate::timespan::{TimeSpan, ToDateTimeUtc};

verus! {

/// The statement that asks the store for the two heights in one round trip.
/// Its first parameter is the later instant of the span, its second the
/// earlier one; its one row holds `high` and `low`, each null where no block
/// qualifies.
pub const BLOCKSPAN_QUERY: &'static str =
    "with max as (select height from blocks where timestamp <= $1 order by timestamp desc limit 1), min as (select height from blocks where timestamp >= $2 order by timestamp limit 1) select (select height from max) as high, (select height from min) as low";

/// A block of the chain as the resolution sees it.
#[derive(Clone, Copy, Debug, PartialEq, Eq, Structural)]
pub struct Block {
    pub height: i64,
    pub timestamp: Instant,
}

/// A range of block heights. `low` may exceed `high`: such a range holds no
/// block.
#[derive(Clone, Copy, Debug, PartialEq, Eq, Structural)]
pub struct BlockSpan {
    pub low: i64,
    pub high: i64,
}

/// Some block lies at or after `at`.
pub open spec fn has_block_at_or_after(blocks: Seq<Block>, at: Instant) -> bool {
    exists|i: int| 0 <= i < blocks.len() && at.le(#[trigger] blocks[i].timestamp)
}

/// Some block lies at or before `at`.
pub open spec fn has_block_at_or_before(blocks: Seq<Block>, at: Instant) -> bool {
    exists|i: int| 0 <= i < blocks.len() && (#[trigger] blocks[i].timestamp).le(at)
}

/// `height` is the smallest height of a block at or after `at`.
pub open spec fn is_lowest_at_or_after(blocks: Seq<Block>, at: Instant, height: i64) -> bool {
    &&& exists|i: int|
        0 <= i < blocks.len() && at.le(#[trigger] blocks[i].timestamp) && blocks[i].height == height
    &&& forall|i: int|
        0 <= i < blocks.len() && at.le(#[trigger] blocks[i].timestamp) ==> height <= blocks[i].height
}

/// `height` is the largest height of a block at or before `at`.
pub open spec fn is_highest_at_or_before(blocks: Seq<Block>, at: Instant, height: i64) -> bool {
    &&& exists|i: int|
        0 <= i < blocks.len() && (#[trigger] blocks[i].timestamp).le(at) && blocks[i].height == height
    &&& forall|i: int|
        0 <= i < blocks.len() && (#[trigger] blocks[i].timestamp).le(at) ==> blocks[i].height <= height
}

/// `height` belongs to a block that is earliest among the blocks at or
/// after `at`: what the store's statement selects for `low`.
pub open spec fn is_earliest_at_or_after(blocks: Seq<Block>, at: Instant, height: i64) -> bool {
    exists|i: int|
        0 <= i < blocks.len() && at.le(#[trigger] blocks[i].timestamp) && blocks[i].height == height
            && forall|j: int|
            0 <= j < blocks.len() && at.le(#[trigger] blocks[j].timestamp) ==> blocks[i].timestamp.le(
                blocks[j].timestamp,
            )
}

/// `height` belongs to a block that is latest among the blocks at or
/// before `at`: what the store's statement selects for `high`.
pub open spec fn is_latest_at_or_before(blocks: Seq<Block>, at: Instant, height: i64) -> bool {
    exists|i: int|
        0 <= i < blocks.len() && (#[trigger] blocks[i].timestamp).le(at) && blocks[i].height == height
            && forall|j: int|
            0 <= j < blocks.len() && (#[trigger] blocks[j].timestamp).le(at) ==> blocks[j].timestamp.le(
                blocks[i].timestamp,
            )
}

/// Later blocks are higher: of two blocks, the one whose height is not
/// larger is not later.
pub open spec fn chronological(blocks: Seq<Block>) -> bool {
    forall|i: int, j: int|
        0 <= i < blocks.len() && 0 <= j < blocks.len() && (#[trigger] blocks[i]).height <= (
        #[trigger] blocks[j]).height ==> blocks[i].timestamp.le(blocks[j].timestamp)
}

/// The outcome that the two heights of a row stand for: a range where both
/// are there, else the failure that says which side of the chain the span
/// misses.
pub open spec fn row_outcome(low: Option<i64>, high: Option<i64>) -> Result<BlockSpan, ResolveError> {
    match (low, high) {
        (Some(low), Some(high)) => Ok(BlockSpan { low, high }),
        (Some(_), None) => Err(ResolveError::BeforeFirstBlock),
        (None, Some(_)) => Err(ResolveError::AfterLastBlock),
        (None, None) => Err(ResolveError::NoBlocks),
    }
}

/// The height of the first block at or after `at`: the smallest such height,
/// or `None` where no block qualifies.
pub fn first_at_or_after(blocks: &[Block], at: &Instant) -> (r: Option<i64>)
    ensures
        match r {
            Some(height) => is_lowest_at_or_after(blocks@, *at, height),
            None => !has_block_at_or_after(blocks@, *at),
        },
{
    let mut best: Option<i64> = None;
    let mut i: usize = 0;
    while i < blocks.len()
        invariant
            i <= blocks.len(),
            match best {
                Some(height) => is_lowest_at_or_after(blocks@.take(i as int), *at, height),
                None => !has_block_at_or_after(blocks@.take(i as int), *at),
            },
        decreases blocks.len() - i,
    {
        let block: Block = blocks[i];
        let ghost seen = blocks@.take(i as int);
        let ghost next = blocks@.take(i + 1);
        assert(forall|j: int| 0 <= j < i ==> next[j] == seen[j]);
        assert(next[i as int] == block);
        if at.is_at_or_before(&block.timestamp) {
            match best {
                Some(height) => {
                    if block.height < height {
                        best = Some(block.height);
                        assert(at.le(next[i as int].timestamp) && next[i as int].height == block.height);
                    } else {
                        let ghost k = choose|k: int|
                            0 <= k < seen.len() && at.le(#[trigger] seen[k].timestamp) && seen[k].height
                                == height;
                        assert(at.le(next[k].timestamp) && next[k].height == height);
                    }
                },
                None => {
                    best = Some(block.height);
                    assert(at.le(next[i as int].timestamp) && next[i as int].height == block.height);
                    assert forall|j: int| 0 <= j < next.len() && at.le(
                        #[trigger] next[j].timestamp,
                    ) implies block.height <= next[j].height by {
                        if j < i {
                            assert(at.le(seen[j].timestamp));
                        }
                    }
                },
            }
        } else {
            match best {
                Some(height) => {
                    let ghost k = choose|k: int|
                        0 <= k < seen.len() && at.le(#[trigger] seen[k].timestamp) && seen[k].height
                            == height;
                    assert(at.le(next[k].timestamp) && next[k].height == height);
                },
                None => {
                    assert forall|j: int| 0 <= j < next.len() implies !at.le(
                        #[trigger] next[j].timestamp,
                    ) by {
                        if j < i {
                            assert(next[j] == seen[j]);
                            assert(!at.le(seen[j].timestamp));
                        }
                    }
                },
            }
        }
        i += 1;
    }
    assert(blocks@.take(blocks.len() as int) =~= blocks@);
    best
}

/// The height of the last block at or before `at`: the largest such height,
/// or `None` where no block qualifies.
pub fn last_at_or_before(blocks: &[Block], at: &Instant) -> (r: Option<i64>)
    ensures
        match r {
            Some(height) => is_highest_at_or_before(blocks@, *at, height),
            None => !has_block_at_or_before(blocks@, *at),
        },
{
    let mut best: Option<i64> = None;
    let mut i: usize = 0;
    while i < blocks.len()
        invariant
            i <= blocks.len(),
            match best {
                Some(height) => is_highest_at_or_before(blocks@.take(i as int), *at, height),
                None => !has_block_at_or_before(blocks@.take(i as int), *at),
            },
        decreases blocks.len() - i,
    {
        let block: Block = blocks[i];
        let ghost seen = blocks@.take(i as int);
        let ghost next = blocks@.take(i + 1);
        assert(forall|j: int| 0 <= j < i ==> next[j] == seen[j]);
        assert(next[i as int] == block);
        if block.timestamp.is_at_or_before(at) {
            match best {
                Some(height) => {
                    if block.height > height {
                        best = Some(block.height);
                        assert(next[i as int].timestamp.le(*at) && next[i as int].height == block.height);
                    } else {
                        let ghost k = choose|k: int|
                            0 <= k < seen.len() && (#[trigger] seen[k].timestamp).le(*at) && seen[k].height
                                == height;
                        assert(next[k].timestamp.le(*at) && next[k].height == height);
                    }
                },
                None => {
                    best = Some(block.height);
                    assert(next[i as int].timestamp.le(*at) && next[i as int].height == block.height);
                    assert forall|j: int| 0 <= j < next.len() && (#[trigger] next[j].timestamp).le(
                        *at,
                    ) implies next[j].height <= block.height by {
                        if j < i {
                            assert(seen[j].timestamp.le(*at));
                        }
                    }
                },
            }
        } else {
            match best {
                Some(height) => {
                    let ghost k = choose|k: int|
                        0 <= k < seen.len() && (#[trigger] seen[k].timestamp).le(*at) && seen[k].height
                            == height;
                    assert(next[k].timestamp.le(*at) && next[k].height == height);
                },
                None => {
                    assert forall|j: int| 0 <= j < next.len() implies !(#[trigger] next[j].timestamp).le(
                        *at,
                    ) by {
                        if j < i {
                            assert(next[j] == seen[j]);
                            assert(!seen[j].timestamp.le(*at));
                        }
                    }
                },
            }
        }
        i += 1;
    }
    assert(blocks@.take(blocks.len() as int) =~= blocks@);
    best
}

impl BlockSpan {
    /// The range brackets the span in the given blocks: its low height is
    /// the smallest at or after the span's start, its high height the
    /// largest at or before the span's end.
    pub open spec fn brackets(self, blocks: Seq<Block>, timespan: TimeSpan) -> bool {
        &&& is_lowest_at_or_after(blocks, timespan.low, self.low)
        &&& is_highest_at_or_before(blocks, timespan.high, self.high)
    }

    /// The failure of a span that no range brackets, if there is one.
    pub open spec fn failure(blocks: Seq<Block>, timespan: TimeSpan) -> Option<ResolveError> {
        let after = has_block_at_or_after(blocks, timespan.low);
        let before = has_block_at_or_before(blocks, timespan.high);
        if after && before {
            None
        } else if after {
            Some(ResolveError::BeforeFirstBlock)
        } else if before {
            Some(ResolveError::AfterLastBlock)
        } else {
            Some(ResolveError::NoBlocks)
        }
    }

    /// The parameters of the store's statement for a span, in the order in
    /// which the statement takes them: the later instant, then the earlier.
    pub fn query_parameters(timespan: &TimeSpan) -> (r: (Instant, Instant))
        ensures
            r.0 == timespan.high,
            r.1 == timespan.low,
    {
        (timespan.high, timespan.low)
    }

    /// Reads the one row that the store returns. A height that is missing
    /// is a resolution failure, never a range with a made-up bound.
    pub fn from_row(low: Option<i64>, high: Option<i64>) -> (r: Result<BlockSpan, ResolveError>)
        ensures
            r == row_outcome(low, high),
    {
        match (low, high) {
            (Some(low), Some(high)) => Ok(BlockSpan { low, high }),
            (Some(_), None) => Err(ResolveError::BeforeFirstBlock),
            (None, Some(_)) => Err(ResolveError::AfterLastBlock),
            (None, None) => Err(ResolveError::NoBlocks),
        }
    }

    /// Resolves the span that starts at `date` and reaches `days` days from
    /// it, forward or back.
    pub fn from_date<S: ToDateTimeUtc>(blocks: &[Block], date: S, days: i64) -> (r: Result<
        BlockSpan,
        ResolveError,
    >)
        requires
            date.instant().can_add_days(days as int),
        ensures
            match r {
                Ok(span) => span.brackets(blocks@, TimeSpan::starting(date.instant(), days as int)),
                Err(e) => BlockSpan::failure(blocks@, TimeSpan::starting(date.instant(), days as int))
                    == Some(e),
            },
    {
        let timespan = TimeSpan::new(date, days);
        BlockSpan::for_timespan(blocks, &timespan)
    }

    /// Resolves the span between two date-like values, given in either
    /// order.
    pub fn for_date_range<S: ToDateTimeUtc, E: ToDateTimeUtc>(blocks: &[Block], start: S, end: E) -> (r:
        Result<BlockSpan, ResolveError>)
        ensures
            match r {
                Ok(span) => span.brackets(blocks@, TimeSpan::between(start.instant(), end.instant())),
                Err(e) => BlockSpan::failure(blocks@, TimeSpan::between(start.instant(), end.instant()))
                    == Some(e),
            },
    {
        let timespan = TimeSpan::for_date_range(start, end);
        BlockSpan::for_timespan(blocks, &timespan)
    }

    /// Resolves a span against the given blocks: the range that brackets
    /// it, or the failure that says on which side of the chain no block
    /// qualifies.
    pub fn for_timespan(blocks: &[Block], timespan: &TimeSpan) -> (r: Result<BlockSpan, ResolveError>)
        ensures
            match r {
                Ok(span) => span.brackets(blocks@, *timespan),
                Err(e) => BlockSpan::failure(blocks@, *timespan) == Some(e),
            },
    {
        let (later, earlier) = BlockSpan::query_parameters(timespan);
        let high = last_at_or_before(blocks, &later);
        let low = first_at_or_after(blocks, &earlier);
        BlockSpan::from_row(low, high)
    }
}

/// At most one range brackets a span, and a span with a range has no
/// failure.
pub proof fn lemma_bracket_is_unique(blocks: Seq<Block>, timespan: TimeSpan, a: BlockSpan, b: BlockSpan)
    requires
        a.brackets(blocks, timespan),
        b.brackets(blocks, timespan),
    ensures
        a == b,
        BlockSpan::failure(blocks, timespan).is_none(),
{
}

/// Every block whose timestamp lies in the span has its height in the
/// range.
pub proof fn lemma_blocks_in_span_are_in_range(
    blocks: Seq<Block>,
    timespan: TimeSpan,
    span: BlockSpan,
    i: int,
)
    requires
        span.brackets(blocks, timespan),
        0 <= i < blocks.len(),
        timespan.contains(blocks[i].timestamp),
    ensures
        span.low <= blocks[i].height <= span.high,
{
}

/// A range whose low height exceeds its high height holds no block, and
/// no block lies in its span: the span falls between two blocks.
pub proof fn lemma_empty_range_has_no_block_in_span(blocks: Seq<Block>, timespan: TimeSpan, span: BlockSpan)
    requires
        span.brackets(blocks, timespan),
        span.low > span.high,
    ensures
        forall|i: int| 0 <= i < blocks.len() ==> !timespan.contains(#[trigger] blocks[i].timestamp),
        forall|i: int| 0 <= i < blocks.len() ==> !(span.low <= (#[trigger] blocks[i]).height <= span.high),
{
}

/// In a chain whose later blocks are higher, every block whose height lies
/// in the range has its timestamp in the span.
pub proof fn lemma_blocks_in_range_are_in_span(
    blocks: Seq<Block>,
    timespan: TimeSpan,
    span: BlockSpan,
    i: int,
)
    requires
        chronological(blocks),
        span.brackets(blocks, timespan),
        0 <= i < blocks.len(),
        span.low <= blocks[i].height <= span.high,
    ensures
        timespan.contains(blocks[i].timestamp),
{
    let lo = choose|k: int|
        0 <= k < blocks.len() && timespan.low.le(#[trigger] blocks[k].timestamp) && blocks[k].height
            == span.low;
    let hi = choose|k: int|
        0 <= k < blocks.len() && (#[trigger] blocks[k].timestamp).le(timespan.high) && blocks[k].height
            == span.high;
    assert(blocks[lo].timestamp.le(blocks[i].timestamp));
    assert(blocks[i].timestamp.le(blocks[hi].timestamp));
}

/// In a chain whose later blocks are higher, the heights that bracket a
/// span belong to the earliest block at or after its start and to the
/// latest block at or before its end: selecting by timestamp, as the
/// store's statement does, finds blocks of these heights.
pub proof fn lemma_bracket_selects_by_timestamp(blocks: Seq<Block>, timespan: TimeSpan, span: BlockSpan)
    requires
        chronological(blocks),
        span.brackets(blocks, timespan),
    ensures
        is_earliest_at_or_after(blocks, timespan.low, span.low),
        is_latest_at_or_before(blocks, timespan.high, span.high),
{
    let lo = choose|k: int|
        0 <= k < blocks.len() && timespan.low.le(#[trigger] blocks[k].timestamp) && blocks[k].height
            == span.low;
    assert forall|j: int| 0 <= j < blocks.len() && timespan.low.le(
        #[trigger] blocks[j].timestamp,
    ) implies blocks[lo].timestamp.le(blocks[j].timestamp) by {
        assert(blocks[lo].height <= blocks[j].height);
    }
    let hi = choose|k: int|
        0 <= k < blocks.len() && (#[trigger] blocks[k].timestamp).le(timespan.high) && blocks[k].height
            == span.high;
    assert forall|j: int| 0 <= j < blocks.len() && (#[trigger] blocks[j].timestamp).le(
        timespan.high,
    ) implies blocks[j].timestamp.le(blocks[hi].timestamp) by {
        assert(blocks[j].height <= blocks[hi].height);
    }
}

/// A span whose bounds are in order misses both sides only where there is
/// no block: each block lies at or after its start or at or before its end.
pub proof fn lemma_both_sides_fail_only_without_blocks(blocks: Seq<Block>, timespan: TimeSpan)
    requires
        timespan.wf(),
    ensures
        BlockSpan::failure(blocks, timespan) == Some(ResolveError::NoBlocks) <==> blocks.len() == 0,
{
    if blocks.len() > 0 {
        let at = blocks[0].timestamp;
        if !timespan.low.le(at) {
            assert(at.le(timespan.high));
        }
    }
}

} // verus!
