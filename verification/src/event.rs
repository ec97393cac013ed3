//! Cache events as they are read from a log.

use crate::time::Timestamp;
use vstd::prelude::*;

verus! {

/// Identifies one block of the cache: the table file it belongs to and its
/// position in that file. Two keys name the same block exactly when both
/// parts are equal.
#[derive(Clone, Copy, Debug, PartialEq, Eq, Hash, Structural)]
pub struct BlockKey {
    pub sst_id: u64,
    pub block_idx: u64,
}

/// What happened to a block.
#[derive(Clone, Copy, Debug, PartialEq, Eq, Structural)]
pub enum EventKind {
    /// The cache discarded the block.
    Evicted,
    /// The block was asked for and was not in the cache.
    Missed,
}

/// One event of a log: a block, the time, and what happened.
#[derive(Clone, Copy, Debug, PartialEq, Eq, Structural)]
pub struct Event {
    pub key: BlockKey,
    pub time: Timestamp,
    pub kind: EventKind,
}

} // verus!
