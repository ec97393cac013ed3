//! Reading the events of one log block.
//!
//! A block belongs to the eviction section or to the miss section of a log,
//! told apart by a marker line, and holds any number of event lines. Text that
//! is no event line is passed over.

use crate::decimal::{number_in, parse_number};
use crate::error::ExtractError;
use crate::event::{BlockKey, Event, EventKind};
use crate::matcher::{capture_all, regex_captures};
use crate::time::{representable, total_nanos, Timestamp};
use vstd::prelude::*;

verus! {

/// The line that opens the section of evicted blocks.
pub const EVICTED_MARKER: &'static str = "========== EVICTED DATA BLOCKS ==========";

/// The line that opens the section of missed blocks.
pub const MISSED_MARKER: &'static str = "========== MISSED DATA BLOCKS ==========";

/// The shape of an event line. Its four groups are, in this order, the table
/// file's id, the block's index, and the seconds and nanoseconds of the time.
pub const EVENT_PATTERN: &'static str =
    r"SstableBlockIndex \{ sst_id: (\d+), block_idx: (\d+) \}, SystemTime \{ tv_sec: (\d+), tv_nsec: (\d+) \}";

/// Whether `needle` stands somewhere in `text`.
pub open spec fn occurs_in(needle: Seq<char>, text: Seq<char>) -> bool {
    exists|at: int| occurs_at(needle, text, at)
}

/// Whether `needle` stands in `text` from position `at` on.
pub open spec fn occurs_at(needle: Seq<char>, text: Seq<char>, at: int) -> bool {
    &&& 0 <= at
    &&& at + needle.len() <= text.len()
    &&& text.subrange(at, at + needle.len()) == needle
}

/// The section that a block belongs to: the eviction section where its marker
/// occurs, else the miss section where that marker occurs, else none.
pub open spec fn section_kind(text: Seq<char>) -> Option<EventKind> {
    if occurs_in(EVICTED_MARKER@, text) {
        Some(EventKind::Evicted)
    } else if occurs_in(MISSED_MARKER@, text) {
        Some(EventKind::Missed)
    } else {
        None
    }
}

/// Whether a match has its four fields: groups 1 to 4 are there and each
/// took part in the match.
pub open spec fn has_fields(groups: Seq<Option<Seq<char>>>) -> bool {
    &&& groups.len() >= 5
    &&& groups[1] is Some
    &&& groups[2] is Some
    &&& groups[3] is Some
    &&& groups[4] is Some
}

/// The event that the groups of one match describe, or the first thing
/// wrong with them, fields taken in the order of the line.
pub open spec fn event_of_groups(kind: EventKind, groups: Seq<Option<Seq<char>>>) -> Result<
    Event,
    ExtractError,
> {
    if !has_fields(groups) {
        Err(ExtractError::MissingField)
    } else {
        match number_in(groups[1]->0, u64::MAX) {
            Err(e) => Err(e),
            Ok(sst_id) => match number_in(groups[2]->0, u64::MAX) {
                Err(e) => Err(e),
                Ok(block_idx) => match number_in(groups[3]->0, u64::MAX) {
                    Err(e) => Err(e),
                    Ok(secs) => match number_in(groups[4]->0, u32::MAX as u64) {
                        Err(e) => Err(e),
                        Ok(nanos) => if representable(total_nanos(secs, nanos as u32)) {
                            Ok(
                                Event {
                                    key: BlockKey { sst_id, block_idx },
                                    time: Timestamp::of_nanos(total_nanos(secs, nanos as u32)),
                                    kind,
                                },
                            )
                        } else {
                            Err(ExtractError::NumericOverflow)
                        },
                    },
                },
            },
        }
    }
}

/// Whether `outcome` is what the matches `found` give for a block of section
/// `kind`: one event per match, in the order of the matches, where every
/// match describes an event; else the error of the first match that does not.
pub open spec fn is_extraction_of(
    kind: EventKind,
    found: Seq<Seq<Option<Seq<char>>>>,
    outcome: Result<Vec<Event>, ExtractError>,
) -> bool {
    match outcome {
        Ok(events) => {
            &&& events@.len() == found.len()
            &&& forall|i: int|
                0 <= i < found.len() ==> event_of_groups(kind, #[trigger] found[i]) == Ok::<
                    Event,
                    ExtractError,
                >(events@[i])
        },
        Err(e) => exists|bad: int|
            {
                &&& 0 <= bad < found.len()
                &&& event_of_groups(kind, #[trigger] found[bad]) == Err::<Event, ExtractError>(e)
                &&& forall|i: int| 0 <= i < bad ==> event_of_groups(kind, #[trigger] found[i]) is Ok
            },
    }
}

/// The text of field `i` of a match, where it has one.
fn field<'a>(groups: &'a Vec<Option<String>>, i: usize) -> (r: Option<&'a str>)
    ensures
        match r {
            Some(text) => i < groups.len() && groups.deep_view()[i as int] == Some(text@),
            None => i >= groups.len() || groups.deep_view()[i as int] is None,
        },
{
    if i >= groups.len() {
        return None;
    }
    match &groups[i] {
        Some(text) => Some(text.as_str()),
        None => None,
    }
}

/// Turns the groups of one match into an event of the given kind.
pub fn event_from_groups(kind: EventKind, groups: &Vec<Option<String>>) -> (r: Result<
    Event,
    ExtractError,
>)
    ensures
        r == event_of_groups(kind, groups.deep_view()),
{
    let (sst_text, block_text, secs_text, nanos_text) = match (
        field(groups, 1),
        field(groups, 2),
        field(groups, 3),
        field(groups, 4),
    ) {
        (Some(a), Some(b), Some(c), Some(d)) => (a, b, c, d),
        _ => { return Err(ExtractError::MissingField); },
    };
    let sst_id = match parse_number(sst_text, u64::MAX) {
        Ok(n) => n,
        Err(e) => { return Err(e); },
    };
    let block_idx = match parse_number(block_text, u64::MAX) {
        Ok(n) => n,
        Err(e) => { return Err(e); },
    };
    let secs = match parse_number(secs_text, u64::MAX) {
        Ok(n) => n,
        Err(e) => { return Err(e); },
    };
    let nanos = match parse_number(nanos_text, u32::MAX as u64) {
        Ok(n) => n,
        Err(e) => { return Err(e); },
    };
    match Timestamp::new(secs, nanos as u32) {
        Some(time) => Ok(Event { key: BlockKey { sst_id, block_idx }, time, kind }),
        None => Err(ExtractError::NumericOverflow),
    }
}

/// Turns the matches found in a block of section `kind` into its events.
pub fn events_from_captures(kind: EventKind, found: &Vec<Vec<Option<String>>>) -> (r: Result<
    Vec<Event>,
    ExtractError,
>)
    ensures
        is_extraction_of(kind, found.deep_view(), r),
{
    let mut events: Vec<Event> = Vec::new();
    for i in 0..found.len()
        invariant
            events@.len() == i,
            forall|j: int|
                0 <= j < i ==> event_of_groups(kind, #[trigger] found.deep_view()[j]) == Ok::<
                    Event,
                    ExtractError,
                >(events@[j]),
    {
        assert(found.deep_view()[i as int] == found@[i as int].deep_view());
        match event_from_groups(kind, &found[i]) {
            Ok(event) => events.push(event),
            Err(e) => { return Err(e); },
        }
    }
    Ok(events)
}

/// The characters of `text`, one by one.
fn chars_of(text: &str) -> (out: Vec<char>)
    ensures
        out@ == text@,
{
    let mut out: Vec<char> = Vec::new();
    for c in it: text.chars()
        invariant
            it.seq() == text@,
            out@ == text@.take(it.index() as int),
    {
        out.push(c);
    }
    out
}

/// Whether `needle` stands in `text` from position `at` on.
fn stands_at(needle: &Vec<char>, text: &Vec<char>, at: usize) -> (r: bool)
    requires
        at + needle.len() <= text.len(),
    ensures
        r == occurs_at(needle@, text@, at as int),
{
    let ghost window = text@.subrange(at as int, at + needle.len());
    for k in 0..needle.len()
        invariant
            at + needle.len() <= text.len(),
            window == text@.subrange(at as int, at + needle.len()),
            forall|j: int| 0 <= j < k ==> window[j] == needle@[j],
    {
        if text[at + k] != needle[k] {
            assert(window[k as int] != needle@[k as int]);
            return false;
        }
    }
    assert(window =~= needle@);
    true
}

/// Whether `needle` stands somewhere in `text`.
fn occurs(needle: &Vec<char>, text: &Vec<char>) -> (r: bool)
    ensures
        r == occurs_in(needle@, text@),
{
    if needle.len() > text.len() {
        return false;
    }
    let last: usize = text.len() - needle.len();
    let mut at: usize = 0;
    while at < last
        invariant
            last == text.len() - needle.len(),
            at <= last,
            forall|k: int| 0 <= k < at ==> !occurs_at(needle@, text@, k),
        decreases last - at,
    {
        if stands_at(needle, text, at) {
            return true;
        }
        at += 1;
    }
    stands_at(needle, text, last)
}

/// Tells which section a block belongs to, by the marker it holds. A block
/// with both markers counts as part of the eviction section.
pub fn detect_section(text: &str) -> (r: Option<EventKind>)
    ensures
        r == section_kind(text@),
{
    let body = chars_of(text);
    let evicted = chars_of(EVICTED_MARKER);
    if occurs(&evicted, &body) {
        return Some(EventKind::Evicted);
    }
    let missed = chars_of(MISSED_MARKER);
    if occurs(&missed, &body) {
        Some(EventKind::Missed)
    } else {
        None
    }
}

/// Reads the events of a block that is known to belong to the section `kind`
/// and whose event lines have the shape `pattern`.
///
/// The lines are found by the pattern matcher, so the result is stated over
/// `regex_captures`; `InvalidPattern` stands for a matcher that would not
/// take the pattern.
pub fn events_in(kind: EventKind, pattern: &str, text: &str) -> (r: Result<
    Vec<Event>,
    ExtractError,
>)
    ensures
        r != Err::<Vec<Event>, ExtractError>(ExtractError::InvalidPattern) ==> is_extraction_of(
            kind,
            regex_captures(pattern@, text@),
            r,
        ),
{
    match capture_all(pattern, text) {
        Ok(found) => events_from_captures(kind, &found),
        Err(_) => Err(ExtractError::InvalidPattern),
    }
}

/// Reads the events of one block.
///
/// A block without a section marker holds no events, whatever else it holds.
/// In a block with a marker every event line gives one event of the section's
/// kind, in the order of the lines; other text is passed over. A field that
/// is no number of its type fails the whole block.
pub fn parse(text: &str) -> (r: Result<Vec<Event>, ExtractError>)
    ensures
        match section_kind(text@) {
            None => r matches Ok(events) && events@.len() == 0,
            Some(kind) => r != Err::<Vec<Event>, ExtractError>(ExtractError::InvalidPattern)
                ==> is_extraction_of(kind, regex_captures(EVENT_PATTERN@, text@), r),
        },
{
    match detect_section(text) {
        Some(kind) => events_in(kind, EVENT_PATTERN, text),
        None => Ok(Vec::new()),
    }
}

} // verus!
