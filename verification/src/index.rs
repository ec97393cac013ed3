//! The eviction index: for every block that was evicted, one eviction time.
//!
//! The index is filled by walking the events in order and writing down the
//! time of every eviction over whatever stood there for its block. What
//! stays for a block is therefore the time of its last eviction in the walk.
//! Over events ordered newest first that is the earliest eviction of the
//! block, not the most recent one.

use crate::event::{BlockKey, Event, EventKind};
use crate::sort::newest_first;
use crate::time::Timestamp;
use std::collections::HashMap;
use vstd::prelude::*;

verus! {

/// Whether position `i` of `events` holds an eviction of the block `key`.
pub open spec fn is_eviction_of(events: Seq<Event>, i: int, key: BlockKey) -> bool {
    &&& 0 <= i < events.len()
    &&& events[i].kind == EventKind::Evicted
    &&& events[i].key == key
}

/// The time of the last eviction of `key` in `events`, if it has one.
pub open spec fn last_eviction_time(events: Seq<Event>, key: BlockKey) -> Option<Timestamp>
    decreases events.len(),
{
    if events.len() == 0 {
        None
    } else if events.last().kind == EventKind::Evicted && events.last().key == key {
        Some(events.last().time)
    } else {
        last_eviction_time(events.drop_last(), key)
    }
}

/// The index that a walk over `events` leaves behind: every block with an
/// eviction, each with the time of its last one.
pub open spec fn eviction_index(events: Seq<Event>) -> Map<BlockKey, Timestamp> {
    Map::new(
        |key: BlockKey| last_eviction_time(events, key) is Some,
        |key: BlockKey| last_eviction_time(events, key)->0,
    )
}

/// One more event changes the index only where it is an eviction, and then
/// only the entry of its block.
pub proof fn lemma_index_after_event(events: Seq<Event>, event: Event)
    ensures
        eviction_index(events.push(event)) == if event.kind == EventKind::Evicted {
            eviction_index(events).insert(event.key, event.time)
        } else {
            eviction_index(events)
        },
{
    let longer = events.push(event);
    assert(longer.drop_last() =~= events);
    assert(eviction_index(longer) =~= if event.kind == EventKind::Evicted {
        eviction_index(events).insert(event.key, event.time)
    } else {
        eviction_index(events)
    });
}

/// A block is in the index exactly when some event evicts it, and its entry
/// is the time of the eviction that no other eviction of the block follows.
pub proof fn lemma_last_eviction_wins(events: Seq<Event>, key: BlockKey)
    ensures
        match last_eviction_time(events, key) {
            None => forall|i: int| !is_eviction_of(events, i, key),
            Some(time) => exists|i: int|
                {
                    &&& #[trigger] is_eviction_of(events, i, key)
                    &&& events[i].time == time
                    &&& forall|j: int| i < j ==> !is_eviction_of(events, j, key)
                },
        },
    decreases events.len(),
{
    if events.len() == 0 {
    } else if events.last().kind == EventKind::Evicted && events.last().key == key {
        assert(is_eviction_of(events, events.len() - 1, key));
    } else {
        let shorter = events.drop_last();
        lemma_last_eviction_wins(shorter, key);
        match last_eviction_time(shorter, key) {
            None => {
                assert forall|i: int| !is_eviction_of(events, i, key) by {
                    if 0 <= i < shorter.len() {
                        assert(!is_eviction_of(shorter, i, key));
                    }
                }
            },
            Some(time) => {
                let i = choose|i: int|
                    {
                        &&& #[trigger] is_eviction_of(shorter, i, key)
                        &&& shorter[i].time == time
                        &&& forall|j: int| i < j ==> !is_eviction_of(shorter, j, key)
                    };
                assert(is_eviction_of(events, i, key));
                assert forall|j: int| i < j implies !is_eviction_of(events, j, key) by {
                    if j < shorter.len() {
                        assert(!is_eviction_of(shorter, j, key));
                    }
                }
            },
        }
    }
}

/// Over events ordered newest first, the entry of a block is its earliest
/// eviction: the time of one of its evictions, and none of them happened
/// before it.
pub proof fn lemma_earliest_eviction_stays(events: Seq<Event>, key: BlockKey, i: int)
    requires
        newest_first(events),
        is_eviction_of(events, i, key),
    ensures
        eviction_index(events).contains_key(key),
        eviction_index(events)[key]@ <= events[i].time@,
        exists|j: int| #[trigger]
            is_eviction_of(events, j, key) && events[j].time == eviction_index(events)[key],
{
    lemma_last_eviction_wins(events, key);
}

/// The eviction time kept for each block.
pub struct EvictionIndex {
    times: HashMap<u128, Timestamp>,
}

/// The number under which the entry of a block is filed: the two parts of
/// its key side by side.
spec fn slot(key: BlockKey) -> u128 {
    (key.sst_id as u128 * 0x1_0000_0000_0000_0000 + key.block_idx as u128) as u128
}

/// The block whose entry is filed under `slot`.
spec fn block_at(slot: u128) -> BlockKey {
    BlockKey {
        sst_id: (slot / 0x1_0000_0000_0000_0000) as u64,
        block_idx: (slot % 0x1_0000_0000_0000_0000) as u64,
    }
}

/// Slots and blocks stand one to one.
proof fn lemma_slot_of_block(key: BlockKey, at: u128)
    ensures
        block_at(slot(key)) == key,
        slot(block_at(at)) == at,
{
}

/// The slot of `key`.
fn slot_of(key: &BlockKey) -> (s: u128)
    ensures
        s == slot(*key),
{
    key.sst_id as u128 * 0x1_0000_0000_0000_0000 + key.block_idx as u128
}

impl View for EvictionIndex {
    type V = Map<BlockKey, Timestamp>;

    closed spec fn view(&self) -> Map<BlockKey, Timestamp> {
        Map::new(
            |key: BlockKey| self.times@.contains_key(slot(key)),
            |key: BlockKey| self.times@[slot(key)],
        )
    }
}

impl EvictionIndex {
    /// An index without entries.
    pub fn new() -> (index: EvictionIndex)
        ensures
            index@ == Map::<BlockKey, Timestamp>::empty(),
    {
        EvictionIndex { times: HashMap::new() }
    }

    /// Writes `time` down for `key`, over what stood there.
    pub fn record(&mut self, key: BlockKey, time: Timestamp)
        ensures
            final(self)@ == old(self)@.insert(key, time),
    {
        broadcast use vstd::std_specs::hash::group_hash_axioms;

        self.times.insert(slot_of(&key), time);
        proof {
            assert forall|other: BlockKey| other != key implies slot(other) != slot(key) by {
                lemma_slot_of_block(other, 0);
                lemma_slot_of_block(key, 0);
            }
            assert(self@ =~= old(self)@.insert(key, time));
        }
    }

    /// The time written down for `key`, if there is one.
    pub fn get(&self, key: &BlockKey) -> (time: Option<Timestamp>)
        ensures
            time == if self@.contains_key(*key) {
                Some(self@[*key])
            } else {
                None
            },
    {
        broadcast use vstd::std_specs::hash::group_hash_axioms;

        let at = slot_of(key);
        match self.times.get(&at) {
            Some(time) => Some(*time),
            None => None,
        }
    }

    /// The number of blocks that have an entry.
    pub fn len(&self) -> (n: usize)
        ensures
            self@.dom().finite(),
            n == self@.dom().len(),
    {
        broadcast use vstd::std_specs::hash::group_hash_axioms;

        proof {
            let slots = self.times@.dom();
            let blocks = self@.dom();
            let to_block = |at: u128| block_at(at);
            assert(vstd::relations::injective_on(to_block, slots)) by {
                assert forall|a: u128, b: u128| #[trigger]
                    to_block(a) == #[trigger] to_block(b) implies a == b by {
                    lemma_slot_of_block(block_at(a), a);
                    lemma_slot_of_block(block_at(b), b);
                }
            }
            assert(slots.map(to_block) =~= blocks) by {
                assert forall|key: BlockKey| blocks.contains(key) implies slots.map(
                    to_block,
                ).contains(key) by {
                    lemma_slot_of_block(key, 0);
                    assert(slots.contains(slot(key)) && to_block(slot(key)) == key);
                }
                assert forall|key: BlockKey| slots.map(to_block).contains(key) implies blocks.contains(
                    key,
                ) by {
                    let at = choose|at: u128| slots.contains(at) && to_block(at) == key;
                    lemma_slot_of_block(key, at);
                }
            }
            vstd::set_lib::lemma_map_size(slots, blocks, to_block);
        }
        self.times.len()
    }

    /// Walks `events` once, from first to last, and writes down the time of
    /// every eviction. Misses are not looked at.
    pub fn build(events: &Vec<Event>) -> (index: EvictionIndex)
        ensures
            index@ == eviction_index(events@),
    {
        let mut index = EvictionIndex::new();
        assert(eviction_index(events@.take(0)) =~= Map::<BlockKey, Timestamp>::empty());
        for i in 0..events.len()
            invariant
                index@ == eviction_index(events@.take(i as int)),
        {
            let event = events[i];
            proof {
                assert(events@.take(i + 1) =~= events@.take(i as int).push(event));
                lemma_index_after_event(events@.take(i as int), event);
            }
            if event.kind == EventKind::Evicted {
                index.record(event.key, event.time);
            }
        }
        assert(events@.take(events.len() as int) =~= events@);
        index
    }
}

} // verus!
