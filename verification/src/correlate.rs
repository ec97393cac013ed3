//! Matching every miss with the eviction kept for its block.

use crate::event::{BlockKey, Event, EventKind};
use crate::index::{eviction_index, is_eviction_of, lemma_last_eviction_wins, EvictionIndex};
use crate::time::{Span, Timestamp};
use vstd::pervasive::unreached;
use vstd::prelude::*;

verus! {

/// A miss that follows the eviction by less than this many seconds came soon.
pub const SHORT_LIMIT_SECS: u64 = 10;

/// How soon after its eviction a block was missed.
#[derive(Clone, Copy, Debug, PartialEq, Eq, Structural)]
pub enum Bucket {
    /// Less than ten seconds after.
    Short,
    /// Ten seconds after, or more.
    Long,
}

/// What the index says about one miss.
#[derive(Clone, Copy, Debug, PartialEq, Eq, Structural)]
pub enum CorrelationResult {
    /// The eviction kept for the block happened after the miss, by this much.
    Inverted(Span),
    /// The eviction kept for the block happened this long before the miss,
    /// or at the same time.
    Resolved(Span, Bucket),
    /// No eviction is kept for the block.
    Unmatched,
}

/// One miss and what the index says about it.
#[derive(Clone, Copy, Debug, PartialEq, Eq, Structural)]
pub struct Correlation {
    pub key: BlockKey,
    pub miss_time: Timestamp,
    pub result: CorrelationResult,
}

/// How many misses came long after the eviction, how many soon after, and
/// how many without one. Misses that came before the eviction are not
/// counted.
#[derive(Clone, Copy, Debug, PartialEq, Eq, Structural)]
pub struct OutcomeTally {
    pub long: u64,
    pub short: u64,
    pub none: u64,
}

/// The bucket of a miss that came `nanos` nanoseconds after the eviction.
pub open spec fn bucket_of(nanos: nat) -> Bucket {
    if nanos < 10_000_000_000 {
        Bucket::Short
    } else {
        Bucket::Long
    }
}

/// What a miss at `miss` makes of the eviction time kept for its block.
pub open spec fn correlation_of(miss: Timestamp, eviction: Option<Timestamp>) -> CorrelationResult {
    match eviction {
        None => CorrelationResult::Unmatched,
        Some(evicted) => if evicted@ > miss@ {
            CorrelationResult::Inverted(Span::of_nanos((evicted@ - miss@) as nat))
        } else {
            CorrelationResult::Resolved(
                Span::of_nanos((miss@ - evicted@) as nat),
                bucket_of((miss@ - evicted@) as nat),
            )
        },
    }
}

/// The eviction time that `index` keeps for `key`, if any.
pub open spec fn kept_for(index: Map<BlockKey, Timestamp>, key: BlockKey) -> Option<Timestamp> {
    if index.contains_key(key) {
        Some(index[key])
    } else {
        None
    }
}

/// The line that the miss `event` gets under `index`.
pub open spec fn correlation_for(index: Map<BlockKey, Timestamp>) -> spec_fn(Event) -> Correlation {
    |event: Event|
        Correlation {
            key: event.key,
            miss_time: event.time,
            result: correlation_of(event.time, kept_for(index, event.key)),
        }
}

/// The test for a miss.
pub open spec fn is_miss() -> spec_fn(Event) -> bool {
    |event: Event| event.kind == EventKind::Missed
}

/// One line for every miss of `events`, in the order of the misses.
pub open spec fn correlations_of(events: Seq<Event>, index: Map<BlockKey, Timestamp>) -> Seq<
    Correlation,
> {
    events.filter(is_miss()).map_values(correlation_for(index))
}

/// The test for a line with the result `Resolved` in the bucket `bucket`.
pub open spec fn is_resolved_in(bucket: Bucket) -> spec_fn(Correlation) -> bool {
    |line: Correlation|
        match line.result {
            CorrelationResult::Resolved(_, b) => b == bucket,
            _ => false,
        }
}

/// The test for a line with the result `Unmatched`.
pub open spec fn is_unmatched() -> spec_fn(Correlation) -> bool {
    |line: Correlation| line.result == CorrelationResult::Unmatched
}

/// Whether `tally` counts the lines of `lines`: the resolved ones by their
/// bucket, the unmatched ones, and the inverted ones not at all.
pub open spec fn is_tally_of(tally: OutcomeTally, lines: Seq<Correlation>) -> bool {
    &&& tally.long == lines.filter(is_resolved_in(Bucket::Long)).len()
    &&& tally.short == lines.filter(is_resolved_in(Bucket::Short)).len()
    &&& tally.none == lines.filter(is_unmatched()).len()
}

/// A miss of a block that no event evicts is unmatched: its line under the
/// index of the events says so, and it is one of the lines.
pub proof fn lemma_miss_without_eviction(events: Seq<Event>, m: int)
    requires
        0 <= m < events.len(),
        events[m].kind == EventKind::Missed,
        forall|i: int| !is_eviction_of(events, i, events[m].key),
    ensures
        !eviction_index(events).contains_key(events[m].key),
        correlation_for(eviction_index(events))(events[m]).result == CorrelationResult::Unmatched,
        correlations_of(events, eviction_index(events)).contains(
            correlation_for(eviction_index(events))(events[m]),
        ),
{
    lemma_last_eviction_wins(events, events[m].key);
    let index = eviction_index(events);
    let misses = events.filter(is_miss());
    events.lemma_filter_contains(is_miss(), m);
    let at = choose|at: int| 0 <= at < misses.len() && misses[at] == events[m];
    assert(correlations_of(events, index)[at] == correlation_for(index)(events[m]));
}

/// What one more line does to the tally: an unmatched line adds one to
/// `none`, a resolved line adds one to the count of its bucket, an inverted
/// line adds nothing, and no line touches a count that is not its own.
pub proof fn lemma_tally_after_line(
    before: OutcomeTally,
    after: OutcomeTally,
    lines: Seq<Correlation>,
    line: Correlation,
)
    requires
        is_tally_of(before, lines),
        is_tally_of(after, lines.push(line)),
    ensures
        after.long == before.long + if line.result matches CorrelationResult::Resolved(
            _,
            Bucket::Long,
        ) {
            1int
        } else {
            0int
        },
        after.short == before.short + if line.result matches CorrelationResult::Resolved(
            _,
            Bucket::Short,
        ) {
            1int
        } else {
            0int
        },
        after.none == before.none + if line.result == CorrelationResult::Unmatched {
            1int
        } else {
            0int
        },
{
    lines.lemma_filter_push(line, is_resolved_in(Bucket::Long));
    lines.lemma_filter_push(line, is_resolved_in(Bucket::Short));
    lines.lemma_filter_push(line, is_unmatched());
}

/// Classifies one miss against the eviction time kept for its block.
pub fn correlate(miss: &Timestamp, eviction: Option<Timestamp>) -> (r: CorrelationResult)
    ensures
        r == correlation_of(*miss, eviction),
{
    let evicted = match eviction {
        Some(evicted) => evicted,
        None => { return CorrelationResult::Unmatched; },
    };
    if evicted.is_after(miss) {
        match evicted.duration_since(miss) {
            Ok(delta) => CorrelationResult::Inverted(delta),
            Err(_) => unreached(),
        }
    } else {
        match miss.duration_since(&evicted) {
            Ok(delta) => {
                let bucket = if delta.secs() < SHORT_LIMIT_SECS {
                    Bucket::Short
                } else {
                    Bucket::Long
                };
                CorrelationResult::Resolved(delta, bucket)
            },
            Err(_) => unreached(),
        }
    }
}

/// Goes through `events` in order and gives every miss its line, with the
/// tally of all lines. Evictions are passed over. `index` is read only.
pub fn correlate_all(events: &Vec<Event>, index: &EvictionIndex) -> (r: (
    Vec<Correlation>,
    OutcomeTally,
))
    ensures
        r.0@ == correlations_of(events@, index@),
        is_tally_of(r.1, r.0@),
{
    let mut lines: Vec<Correlation> = Vec::new();
    let mut tally = OutcomeTally { long: 0, short: 0, none: 0 };
    proof {
        events@.take(0).lemma_filter_len(is_miss());
        lines@.lemma_filter_len(is_resolved_in(Bucket::Long));
        lines@.lemma_filter_len(is_resolved_in(Bucket::Short));
        lines@.lemma_filter_len(is_unmatched());
    }
    for i in 0..events.len()
        invariant
            lines@ == correlations_of(events@.take(i as int), index@),
            is_tally_of(tally, lines@),
            lines@.len() <= i,
    {
        let event = events[i];
        proof {
            assert(events@.take(i + 1) =~= events@.take(i as int).push(event));
            events@.take(i as int).lemma_filter_push(event, is_miss());
        }
        if event.kind == EventKind::Missed {
            let result = correlate(&event.time, index.get(&event.key));
            let line = Correlation { key: event.key, miss_time: event.time, result };
            proof {
                lines@.lemma_filter_len(is_resolved_in(Bucket::Long));
                lines@.lemma_filter_len(is_resolved_in(Bucket::Short));
                lines@.lemma_filter_len(is_unmatched());
                let misses = events@.take(i as int).filter(is_miss());
                assert(misses.push(event).map_values(correlation_for(index@)) =~= misses.map_values(
                    correlation_for(index@),
                ).push(line));
                lines@.lemma_filter_push(line, is_resolved_in(Bucket::Long));
                lines@.lemma_filter_push(line, is_resolved_in(Bucket::Short));
                lines@.lemma_filter_push(line, is_unmatched());
            }
            match result {
                CorrelationResult::Resolved(_, Bucket::Long) => { tally.long = tally.long + 1; },
                CorrelationResult::Resolved(_, Bucket::Short) => { tally.short = tally.short + 1; },
                CorrelationResult::Unmatched => { tally.none = tally.none + 1; },
                CorrelationResult::Inverted(_) => {},
            }
            lines.push(line);
        }
    }
    assert(events@.take(events.len() as int) =~= events@);
    (lines, tally)
}

} // verus!
