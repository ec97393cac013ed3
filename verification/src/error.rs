//! Why a log block could not be turned into events.

use vstd::prelude::*;

verus! {

/// The ways in which reading events from a block fails. Text that does not
/// look like an event is no failure: it is passed over.
#[derive(Clone, Copy, Debug, PartialEq, Eq, Structural)]
pub enum ExtractError {
    /// The matcher did not accept the event pattern.
    InvalidPattern,
    /// A match came without one of the four numeric fields.
    MissingField,
    /// A field holds a character other than `0` to `9`, or nothing at all.
    InvalidDigit,
    /// A field is a number too large for its integer type, or the time it
    /// gives lies beyond the last point that can be held.
    NumericOverflow,
}

} // verus!
