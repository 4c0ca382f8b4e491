//! Errors surfaced by the transaction layer.

use vstd::prelude::*;

verus! {

/// A recoverable transaction failure.
#[derive(Clone, Copy, Debug, PartialEq, Eq, Structural)]
pub enum Error {
    /// Serializable-snapshot validation failed at commit: a key read by the
    /// transaction was overwritten by a commit after its snapshot instant.
    /// The transaction's writes were discarded.
    Conflict,
    /// The sparse index's top-level block grew past the 32-bit frame bound
    /// of the block format, so the finished segment has no top-level index
    /// block and must not be surfaced to readers.
    IndexTooLarge,
}

} // verus!
