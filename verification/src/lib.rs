//! Time-to-block resolution and streaming report output for a block-indexing
//! data store.
//!
//! The crate holds the decisions of a report run: how date-like inputs become
//! an ordered time span, which block heights bracket a span, how rows are laid
//! out as a JSON array or as CSV, and in which order a bounded window of
//! concurrent lookups is launched and emitted. Store round trips and the
//! destination stream belong to the caller.
pub mod blockspan;
pub mod cmd;
pub mod error;
pub mod instant;
pub mod timespan;

pub use blockspan::{Block, BlockSpan};
pub use error::{EncodeError, Error, ResolveError};
pub use instant::{Date, Instant};
pub use timespan::{TimeSpan, ToDateTimeUtc};
