use etl_exporter::blockspan::{first_at_or_after, last_at_or_before, Block, BlockSpan, BLOCKSPAN_QUERY};
use etl_exporter::error::ResolveError;
use etl_exporter::instant::{Date, Instant};
use etl_exporter::timespan::{TimeSpan, ToDateTimeUtc};

const T0: i64 = 1_000;
const T1: i64 = 2_000;
const T2: i64 = 3_000;

fn at(secs: i64) -> Instant {
    Instant::new(secs, 0)
}

fn chain() -> Vec<Block> {
    vec![
        Block { height: 0, timestamp: at(T0) },
        Block { height: 1, timestamp: at(T1) },
        Block { height: 2, timestamp: at(T2) },
    ]
}

#[test]
fn span_over_the_whole_chain() {
    let span = TimeSpan::for_date_range(at(T0), at(T2));
    assert_eq!(BlockSpan::for_timespan(&chain(), &span), Ok(BlockSpan { low: 0, high: 2 }));
}

#[test]
fn span_of_one_block() {
    let span = TimeSpan::for_date_range(at(T1), at(T1));
    assert_eq!(BlockSpan::for_timespan(&chain(), &span), Ok(BlockSpan { low: 1, high: 1 }));
}

#[test]
fn span_before_the_first_block_fails() {
    let span = TimeSpan::for_date_range(at(T0 - 500), at(T0 - 1));
    assert_eq!(BlockSpan::for_timespan(&chain(), &span), Err(ResolveError::BeforeFirstBlock));
}

#[test]
fn span_after_the_last_block_fails() {
    let span = TimeSpan::for_date_range(at(T2 + 1), at(T2 + 500));
    assert_eq!(BlockSpan::for_timespan(&chain(), &span), Err(ResolveError::AfterLastBlock));
}

#[test]
fn span_without_blocks_fails() {
    let span = TimeSpan::for_date_range(at(T0), at(T2));
    assert_eq!(BlockSpan::for_timespan(&[], &span), Err(ResolveError::NoBlocks));
}

#[test]
fn span_between_two_blocks_is_an_empty_range() {
    let span = TimeSpan::for_date_range(at(T0 + 1), at(T1 - 1));
    let range = BlockSpan::for_timespan(&chain(), &span).unwrap();
    assert_eq!(range, BlockSpan { low: 1, high: 0 });
    assert!(range.low > range.high);
}

#[test]
fn span_reaching_past_both_ends_takes_the_whole_chain() {
    let span = TimeSpan::for_date_range(at(T0 - 10), at(T2 + 10));
    assert_eq!(BlockSpan::for_timespan(&chain(), &span), Ok(BlockSpan { low: 0, high: 2 }));
}

#[test]
fn span_bounds_include_blocks_on_the_bounds() {
    let span = TimeSpan::for_date_range(at(T1), at(T2));
    assert_eq!(BlockSpan::for_timespan(&chain(), &span), Ok(BlockSpan { low: 1, high: 2 }));
    let span = TimeSpan::for_date_range(at(T1 + 1), at(T2 - 1));
    assert_eq!(BlockSpan::for_timespan(&chain(), &span), Ok(BlockSpan { low: 2, high: 1 }));
}

#[test]
fn span_heights_do_not_depend_on_the_order_of_the_list() {
    let mut blocks = chain();
    blocks.reverse();
    let span = TimeSpan::for_date_range(at(T0), at(T1));
    assert_eq!(BlockSpan::for_timespan(&blocks, &span), Ok(BlockSpan { low: 0, high: 1 }));
}

#[test]
fn span_compares_nanoseconds() {
    let blocks = vec![
        Block { height: 7, timestamp: Instant::new(10, 5) },
        Block { height: 8, timestamp: Instant::new(10, 6) },
    ];
    let span = TimeSpan::for_date_range(Instant::new(10, 6), Instant::new(10, 6));
    assert_eq!(BlockSpan::for_timespan(&blocks, &span), Ok(BlockSpan { low: 8, high: 8 }));
    let span = TimeSpan::for_date_range(Instant::new(10, 0), Instant::new(10, 5));
    assert_eq!(BlockSpan::for_timespan(&blocks, &span), Ok(BlockSpan { low: 7, high: 7 }));
}

#[test]
fn first_and_last_heights() {
    let blocks = chain();
    assert_eq!(first_at_or_after(&blocks, &at(T0)), Some(0));
    assert_eq!(first_at_or_after(&blocks, &at(T0 + 1)), Some(1));
    assert_eq!(first_at_or_after(&blocks, &at(T2 + 1)), None);
    assert_eq!(last_at_or_before(&blocks, &at(T2)), Some(2));
    assert_eq!(last_at_or_before(&blocks, &at(T2 - 1)), Some(1));
    assert_eq!(last_at_or_before(&blocks, &at(T0 - 1)), None);
}

#[test]
fn from_row_reads_both_heights() {
    assert_eq!(BlockSpan::from_row(Some(3), Some(9)), Ok(BlockSpan { low: 3, high: 9 }));
    assert_eq!(BlockSpan::from_row(Some(9), Some(3)), Ok(BlockSpan { low: 9, high: 3 }));
}

#[test]
fn from_row_reports_a_missing_height() {
    assert_eq!(BlockSpan::from_row(Some(0), None), Err(ResolveError::BeforeFirstBlock));
    assert_eq!(BlockSpan::from_row(None, Some(5)), Err(ResolveError::AfterLastBlock));
    assert_eq!(BlockSpan::from_row(None, None), Err(ResolveError::NoBlocks));
}

#[test]
fn query_parameters_are_the_later_then_the_earlier_instant() {
    let span = TimeSpan::for_date_range(at(50), at(40));
    assert_eq!(BlockSpan::query_parameters(&span), (at(50), at(40)));
}

#[test]
fn query_text_selects_both_heights_in_one_statement() {
    assert!(BLOCKSPAN_QUERY.contains("timestamp <= $1 order by timestamp desc limit 1"));
    assert!(BLOCKSPAN_QUERY.contains("timestamp >= $2 order by timestamp limit 1"));
    assert!(BLOCKSPAN_QUERY.contains("as high"));
    assert!(BLOCKSPAN_QUERY.contains("as low"));
    assert_eq!(BLOCKSPAN_QUERY.matches(';').count(), 0);
}

#[test]
fn from_date_resolves_a_day() {
    let day = Date::from_ymd(2023, 1, 2).unwrap();
    let midnight = day.to_datetime().secs;
    let blocks = vec![
        Block { height: 10, timestamp: at(midnight - 30) },
        Block { height: 11, timestamp: at(midnight + 30) },
        Block { height: 12, timestamp: at(midnight + 86_400 - 30) },
        Block { height: 13, timestamp: at(midnight + 86_400 + 30) },
    ];
    assert_eq!(BlockSpan::from_date(&blocks, day, 1), Ok(BlockSpan { low: 11, high: 12 }));
    assert_eq!(BlockSpan::from_date(&blocks, day, -1), Ok(BlockSpan { low: 10, high: 10 }));
    let eve = Date::from_ymd(2023, 1, 1).unwrap();
    assert_eq!(BlockSpan::from_date(&blocks, eve, -2), Err(ResolveError::BeforeFirstBlock));
    assert_eq!(BlockSpan::from_date(&blocks, eve, 1), Ok(BlockSpan { low: 10, high: 10 }));
}

#[test]
fn for_date_range_resolves_in_either_order() {
    let blocks = chain();
    let forward = BlockSpan::for_date_range(&blocks, at(T0), at(T1));
    let backward = BlockSpan::for_date_range(&blocks, at(T1), at(T0));
    assert_eq!(forward, Ok(BlockSpan { low: 0, high: 1 }));
    assert_eq!(backward, forward);
}
