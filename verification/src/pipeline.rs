//! From the events of all blocks to the finished analysis.

use crate::correlate::{correlate_all, correlations_of, is_tally_of, Correlation, OutcomeTally};
use crate::event::Event;
use crate::index::{eviction_index, EvictionIndex};
use crate::sort::{is_stable_sort_of, sort_newest_first};
use vstd::prelude::*;

verus! {

/// What an analysis hands out: the events newest first, the eviction index
/// over them, one line for every miss, and the tally of the lines.
pub struct Analysis {
    pub events: Vec<Event>,
    pub index: EvictionIndex,
    pub lines: Vec<Correlation>,
    pub tally: OutcomeTally,
}

/// Whether `analysis` is the analysis of `events`: the events in a stable
/// order newest first, the index of a walk over them in that order, and the
/// lines and the tally that the misses get under that finished index.
pub open spec fn is_analysis_of(analysis: Analysis, events: Seq<Event>) -> bool {
    &&& is_stable_sort_of(analysis.events@, events)
    &&& analysis.index@ == eviction_index(analysis.events@)
    &&& analysis.lines@ == correlations_of(analysis.events@, analysis.index@)
    &&& is_tally_of(analysis.tally, analysis.lines@)
}

/// Adds the events of one more block to those gathered so far. They go to
/// the end, in their own order; nothing that is there is touched or dropped.
pub fn append_batch(stream: &mut Vec<Event>, batch: Vec<Event>)
    ensures
        final(stream)@ == old(stream)@ + batch@,
{
    let mut batch = batch;
    stream.append(&mut batch);
}

/// Analyses the events gathered from all blocks: orders them newest first,
/// builds the eviction index over the whole order, and only then gives every
/// miss its line.
pub fn analyze(events: Vec<Event>) -> (analysis: Analysis)
    ensures
        is_analysis_of(analysis, events@),
{
    let sorted = sort_newest_first(events);
    let index = EvictionIndex::build(&sorted);
    let (lines, tally) = correlate_all(&sorted, &index);
    Analysis { events: sorted, index, lines, tally }
}

} // verus!
