//! Correlates block-cache misses with earlier evictions of the same block.
//!
//! A log block is scanned for eviction and miss events, the events of all
//! blocks are ordered newest first, an index keeps one eviction time per block,
//! and every miss is classified by the time that passed since that eviction.
//!
//! The stages, in the order in which the data passes through them:
//!
//! - [`extract`] reads the events of one block ([`extract::parse`]);
//!   [`decimal`] reads the numbers of an event line, and [`matcher`] is the
//!   boundary to the `regex` crate, which finds the lines.
//! - [`pipeline::append_batch`] gathers the events of all blocks.
//! - [`sort`] orders them newest first by a stable sort.
//! - [`index`] walks the ordered events and keeps one eviction time per block.
//! - [`correlate`] gives every miss its line and counts the lines.
//! - [`pipeline::analyze`] runs the last three stages on the gathered events.
//!
//! Every function is verified against its contract, except the one in
//! [`matcher`], whose contract is taken on trust.

pub mod correlate;
pub mod decimal;
pub mod error;
pub mod event;
pub mod extract;
pub mod index;
pub mod matcher;
pub mod pipeline;
pub mod sort;
pub mod time;
