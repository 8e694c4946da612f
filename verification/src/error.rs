//! The failures a report run can end with.
use vstd::prelude::*;

verus! {

/// Why a time span could not be resolved to block heights.
#[derive(Clone, Copy, Debug, PartialEq, Eq, Structural)]
pub enum ResolveError {
    /// The span lies below the chain: it ends before the first block, so no
    /// block lies at or before its later instant.
    BeforeFirstBlock,
    /// The span lies above the chain: it starts after the last block, so no
    /// block lies at or after its earlier instant.
    AfterLastBlock,
    /// The store holds no block at all.
    NoBlocks,
}

/// Why a row could not be laid out.
#[derive(Clone, Copy, Debug, PartialEq, Eq, Structural)]
pub enum EncodeError {
    /// A CSV row does not have as many fields as the header has names.
    FieldCount { expected: usize, found: usize },
    /// The CSV writer refused the record.
    Refused,
    /// The output was already finished or aborted.
    Closed,
}

/// A failure of a report run. None of them is retried.
#[derive(Clone, Debug, PartialEq, Eq)]
pub enum Error {
    /// No block brackets a requested bound.
    Resolution(ResolveError),
    /// The data store failed; the text is what it reported.
    Store(String),
    /// The output could not take a row.
    Encoding(EncodeError),
    /// An argument is malformed; the text is the argument as given.
    Input(String),
}

} // verus!
