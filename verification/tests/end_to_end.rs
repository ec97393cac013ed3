use cache_churn::correlate::{Bucket, Correlation, CorrelationResult, OutcomeTally};
use cache_churn::event::{BlockKey, Event, EventKind};
use cache_churn::extract::parse;
use cache_churn::pipeline::{analyze, append_batch};
use cache_churn::time::{Span, Timestamp};

const EVICTED: &str = "========== EVICTED DATA BLOCKS ==========";
const MISSED: &str = "========== MISSED DATA BLOCKS ==========";

fn line(sst: u64, blk: u64, sec: u64, nsec: u32) -> String {
    format!(
        "SstableBlockIndex {{ sst_id: {sst}, block_idx: {blk} }}, SystemTime {{ tv_sec: {sec}, tv_nsec: {nsec} }}"
    )
}

fn at(secs: u64, nanos: u32) -> Timestamp {
    Timestamp::new(secs, nanos).unwrap()
}

fn event(sst_id: u64, block_idx: u64, secs: u64, kind: EventKind) -> Event {
    Event { key: BlockKey { sst_id, block_idx }, time: at(secs, 0), kind }
}

#[test]
fn eviction_then_miss_five_seconds_later() {
    let blocks = vec![
        format!("{EVICTED}\n{}\n", line(1, 1, 1000, 0)),
        format!("{MISSED}\n{}\n", line(1, 1, 1005, 0)),
    ];
    let mut stream = Vec::new();
    for block in &blocks {
        append_batch(&mut stream, parse(block).unwrap());
    }
    let analysis = analyze(stream);
    assert_eq!(
        analysis.events,
        vec![event(1, 1, 1005, EventKind::Missed), event(1, 1, 1000, EventKind::Evicted)]
    );
    assert_eq!(analysis.index.len(), 1);
    assert_eq!(analysis.index.get(&BlockKey { sst_id: 1, block_idx: 1 }), Some(at(1000, 0)));
    assert_eq!(analysis.index.get(&BlockKey { sst_id: 1, block_idx: 2 }), None);
    assert_eq!(
        analysis.lines,
        vec![Correlation {
            key: BlockKey { sst_id: 1, block_idx: 1 },
            miss_time: at(1005, 0),
            result: CorrelationResult::Resolved(Span::new(5, 0).unwrap(), Bucket::Short),
        }]
    );
    assert_eq!(analysis.tally, OutcomeTally { long: 0, short: 1, none: 0 });
}

#[test]
fn batches_are_added_at_the_end() {
    let mut stream = vec![event(1, 1, 10, EventKind::Missed)];
    append_batch(
        &mut stream,
        vec![event(2, 2, 30, EventKind::Evicted), event(3, 3, 20, EventKind::Missed)],
    );
    append_batch(&mut stream, vec![]);
    append_batch(&mut stream, vec![event(1, 1, 10, EventKind::Missed)]);
    assert_eq!(
        stream,
        vec![
            event(1, 1, 10, EventKind::Missed),
            event(2, 2, 30, EventKind::Evicted),
            event(3, 3, 20, EventKind::Missed),
            event(1, 1, 10, EventKind::Missed),
        ]
    );
}

#[test]
fn repeated_eviction_counts_from_the_earliest() {
    let blocks = vec![
        format!("{MISSED}\n{}\n{}\n", line(7, 9, 1020, 0), line(8, 8, 1001, 500)),
        format!(
            "{EVICTED}\n{}\n{}\n{}\n",
            line(7, 9, 1015, 0),
            line(7, 9, 1000, 0),
            line(7, 9, 1030, 0)
        ),
        String::from("a block of another kind"),
    ];
    let mut stream = Vec::new();
    for block in &blocks {
        append_batch(&mut stream, parse(block).unwrap());
    }
    assert_eq!(stream.len(), 5);
    let analysis = analyze(stream);
    let times: Vec<u64> = analysis.events.iter().map(|e| e.time.secs()).collect();
    assert_eq!(times, vec![1030, 1020, 1015, 1001, 1000]);
    assert_eq!(analysis.index.get(&BlockKey { sst_id: 7, block_idx: 9 }), Some(at(1000, 0)));
    assert_eq!(
        analysis.lines,
        vec![
            Correlation {
                key: BlockKey { sst_id: 7, block_idx: 9 },
                miss_time: at(1020, 0),
                result: CorrelationResult::Resolved(Span::new(20, 0).unwrap(), Bucket::Long),
            },
            Correlation {
                key: BlockKey { sst_id: 8, block_idx: 8 },
                miss_time: at(1001, 500),
                result: CorrelationResult::Unmatched,
            },
        ]
    );
    assert_eq!(analysis.tally, OutcomeTally { long: 1, short: 0, none: 1 });
}

#[test]
fn analysis_of_nothing_is_empty() {
    let analysis = analyze(vec![]);
    assert_eq!(analysis.events, vec![]);
    assert_eq!(analysis.index.len(), 0);
    assert_eq!(analysis.lines, vec![]);
    assert_eq!(analysis.tally, OutcomeTally { long: 0, short: 0, none: 0 });
}
