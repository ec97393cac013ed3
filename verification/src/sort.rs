//! Ordering events newest first, ties left in the order they came in.

use crate::event::Event;
use vstd::prelude::*;

verus! {

/// Whether no event stands before a later one.
pub open spec fn newest_first(events: Seq<Event>) -> bool {
    forall|i: int, j: int| 0 <= i <= j < events.len() ==> events[i].time@ >= events[j].time@
}

/// The events that happened `nanos` nanoseconds after the epoch, in the order
/// in which they stand in `events`.
pub open spec fn events_at(events: Seq<Event>, nanos: nat) -> Seq<Event> {
    events.filter(happened_at(nanos))
}

/// The test for an event that happened `nanos` nanoseconds after the epoch.
pub open spec fn happened_at(nanos: nat) -> spec_fn(Event) -> bool {
    |e: Event| e.time@ == nanos
}

/// Whether `sorted` is `events` ordered newest first by a stable sort: it
/// holds the same events, none before a later one, and the events of any one
/// time stand in the order they had in `events`.
pub open spec fn is_stable_sort_of(sorted: Seq<Event>, events: Seq<Event>) -> bool {
    &&& newest_first(sorted)
    &&& sorted.to_multiset() == events.to_multiset()
    &&& forall|nanos: nat| #[trigger] events_at(sorted, nanos) == events_at(events, nanos)
}

/// Where no event happened at a time, the events of that time are none.
proof fn lemma_none_at(events: Seq<Event>, nanos: nat)
    requires
        forall|k: int| 0 <= k < events.len() ==> events[k].time@ != nanos,
    ensures
        events_at(events, nanos) == Seq::<Event>::empty(),
    decreases events.len(),
{
    reveal(Seq::filter);
    if events.len() > 0 {
        lemma_none_at(events.drop_last(), nanos);
    }
}

/// What one more event adds to the events of a time.
proof fn lemma_push_at(events: Seq<Event>, event: Event, nanos: nat)
    ensures
        events_at(events.push(event), nanos) == if event.time@ == nanos {
            events_at(events, nanos).push(event)
        } else {
            events_at(events, nanos)
        },
{
    events.lemma_filter_push(event, happened_at(nanos));
}

/// Two events that a filter keeps stand in the kept events in the order in
/// which they stood before.
proof fn lemma_kept_in_order(events: Seq<Event>, keep: spec_fn(Event) -> bool, a: int, b: int)
    requires
        0 <= a < b < events.len(),
        keep(events[a]),
        keep(events[b]),
    ensures
        exists|p: int, q: int|
            {
                &&& 0 <= p < q < events.filter(keep).len()
                &&& #[trigger] events.filter(keep)[p] == events[a]
                &&& #[trigger] events.filter(keep)[q] == events[b]
            },
    decreases events.len(),
{
    reveal(Seq::filter);
    let shorter = events.drop_last();
    let kept = events.filter(keep);
    if b == events.len() - 1 {
        lemma_kept_once(shorter, keep, a);
        let p = choose|p: int|
            0 <= p < shorter.filter(keep).len() && #[trigger] shorter.filter(keep)[p] == shorter[a];
        let q = kept.len() - 1;
        assert(kept[p] == events[a] && kept[q] == events[b]);
    } else {
        lemma_kept_in_order(shorter, keep, a, b);
        let (p, q) = choose|p: int, q: int|
            {
                &&& 0 <= p < q < shorter.filter(keep).len()
                &&& #[trigger] shorter.filter(keep)[p] == shorter[a]
                &&& #[trigger] shorter.filter(keep)[q] == shorter[b]
            };
        assert(kept[p] == events[a] && kept[q] == events[b]);
    }
}

/// An event that a filter keeps stands among the kept events.
proof fn lemma_kept_once(events: Seq<Event>, keep: spec_fn(Event) -> bool, a: int)
    requires
        0 <= a < events.len(),
        keep(events[a]),
    ensures
        exists|p: int|
            0 <= p < events.filter(keep).len() && #[trigger] events.filter(keep)[p] == events[a],
    decreases events.len(),
{
    reveal(Seq::filter);
    let shorter = events.drop_last();
    let kept = events.filter(keep);
    if a == events.len() - 1 {
        assert(kept[kept.len() - 1] == events[a]);
    } else {
        lemma_kept_once(shorter, keep, a);
        let p = choose|p: int|
            0 <= p < shorter.filter(keep).len() && #[trigger] shorter.filter(keep)[p] == shorter[a];
        assert(kept[p] == events[a]);
    }
}

/// Two of the events that a filter kept stood, before the filter, in the
/// order in which they stand after it.
proof fn lemma_order_before_filter(events: Seq<Event>, keep: spec_fn(Event) -> bool, p: int, q: int)
    requires
        0 <= p < q < events.filter(keep).len(),
    ensures
        exists|a: int, b: int|
            {
                &&& 0 <= a < b < events.len()
                &&& #[trigger] events[a] == events.filter(keep)[p]
                &&& #[trigger] events[b] == events.filter(keep)[q]
            },
    decreases events.len(),
{
    reveal(Seq::filter);
    let shorter = events.drop_last();
    let kept = events.filter(keep);
    if events.len() == 0 {
    } else if keep(events.last()) && q == kept.len() - 1 {
        lemma_place_before_filter(shorter, keep, p);
        let a = choose|a: int| 0 <= a < shorter.len() && #[trigger] shorter[a] == shorter.filter(keep)[p];
        let b = events.len() - 1;
        assert(events[a] == kept[p] && events[b] == kept[q]);
    } else {
        lemma_order_before_filter(shorter, keep, p, q);
        let (a, b) = choose|a: int, b: int|
            {
                &&& 0 <= a < b < shorter.len()
                &&& #[trigger] shorter[a] == shorter.filter(keep)[p]
                &&& #[trigger] shorter[b] == shorter.filter(keep)[q]
            };
        assert(events[a] == kept[p] && events[b] == kept[q]);
    }
}

/// Every event that a filter kept stood among the events before the filter.
proof fn lemma_place_before_filter(events: Seq<Event>, keep: spec_fn(Event) -> bool, p: int)
    requires
        0 <= p < events.filter(keep).len(),
    ensures
        exists|a: int| 0 <= a < events.len() && #[trigger] events[a] == events.filter(keep)[p],
    decreases events.len(),
{
    reveal(Seq::filter);
    let shorter = events.drop_last();
    let kept = events.filter(keep);
    if events.len() == 0 {
    } else if keep(events.last()) && p == kept.len() - 1 {
        assert(events[events.len() - 1] == kept[p]);
    } else {
        lemma_place_before_filter(shorter, keep, p);
        let a = choose|a: int| 0 <= a < shorter.len() && #[trigger] shorter[a] == shorter.filter(keep)[p];
        assert(events[a] == kept[p]);
    }
}

/// A stable sort leaves ties as they were: of two events of the same time,
/// the one that stood first before the sort stands first after it.
pub proof fn lemma_ties_keep_order(events: Seq<Event>, sorted: Seq<Event>, a: int, b: int)
    requires
        is_stable_sort_of(sorted, events),
        0 <= a < b < events.len(),
        events[a].time@ == events[b].time@,
    ensures
        exists|i: int, j: int|
            {
                &&& 0 <= i < j < sorted.len()
                &&& #[trigger] sorted[i] == events[a]
                &&& #[trigger] sorted[j] == events[b]
            },
{
    let nanos = events[a].time@;
    let keep = happened_at(nanos);
    lemma_kept_in_order(events, keep, a, b);
    let (p, q) = choose|p: int, q: int|
        {
            &&& 0 <= p < q < events.filter(keep).len()
            &&& #[trigger] events.filter(keep)[p] == events[a]
            &&& #[trigger] events.filter(keep)[q] == events[b]
        };
    assert(events_at(sorted, nanos) == events_at(events, nanos));
    lemma_order_before_filter(sorted, keep, p, q);
}

/// Two orders newest first of the same events, with ties in the same order,
/// are one order.
proof fn lemma_same_order(first: Seq<Event>, second: Seq<Event>)
    requires
        newest_first(first),
        newest_first(second),
        first.to_multiset() == second.to_multiset(),
        forall|nanos: nat| #[trigger] events_at(first, nanos) == events_at(second, nanos),
    ensures
        first == second,
    decreases first.len(),
{
    first.to_multiset_ensures();
    second.to_multiset_ensures();
    if first.len() == 0 {
        assert(first =~= second);
    } else {
        let a = first.last();
        let b = second.last();
        assert(second.contains(a)) by {
            assert(first[first.len() - 1] == a);
            assert(first.to_multiset().count(a) > 0);
            assert(second.to_multiset().count(a) > 0);
        }
        assert(first.contains(b)) by {
            assert(second[second.len() - 1] == b);
            assert(second.to_multiset().count(b) > 0);
            assert(first.to_multiset().count(b) > 0);
        }
        let nanos = a.time@;
        assert(b.time@ == nanos);
        let first_rest = first.drop_last();
        let second_rest = second.drop_last();
        assert(first =~= first_rest.push(a));
        assert(second =~= second_rest.push(b));
        lemma_push_at(first_rest, a, nanos);
        lemma_push_at(second_rest, b, nanos);
        assert(a == b) by {
            assert(events_at(first, nanos).last() == a);
            assert(events_at(second, nanos).last() == b);
        }
        assert forall|other: nat| #[trigger]
            events_at(first_rest, other) == events_at(second_rest, other) by {
            lemma_push_at(first_rest, a, other);
            lemma_push_at(second_rest, b, other);
            assert(events_at(first, other) == events_at(second, other));
            if other == nanos {
                assert(events_at(first_rest, other) =~= events_at(first, other).drop_last());
                assert(events_at(second_rest, other) =~= events_at(second, other).drop_last());
            }
        }
        first_rest.to_multiset_ensures();
        second_rest.to_multiset_ensures();
        assert(first_rest.to_multiset() =~= second_rest.to_multiset()) by {
            assert(first.to_multiset() =~= first_rest.to_multiset().insert(a));
            assert(second.to_multiset() =~= second_rest.to_multiset().insert(a));
            assert forall|e: Event|
                first_rest.to_multiset().count(e) == second_rest.to_multiset().count(e) by {
                assert(first_rest.to_multiset().insert(a).count(e) == second_rest.to_multiset().insert(
                    a,
                ).count(e));
            }
        }
        lemma_same_order(first_rest, second_rest);
    }
}

/// The stable order newest first is the only one: whatever meets
/// `is_stable_sort_of` for the same events is the same sequence.
pub proof fn lemma_stable_sort_is_unique(events: Seq<Event>, first: Seq<Event>, second: Seq<Event>)
    requires
        is_stable_sort_of(first, events),
        is_stable_sort_of(second, events),
    ensures
        first == second,
{
    lemma_same_order(first, second);
}

/// Merges two runs that are each ordered newest first. Of two events of the
/// same time the one from `left` comes first.
fn merge(left: &Vec<Event>, right: &Vec<Event>) -> (out: Vec<Event>)
    requires
        newest_first(left@),
        newest_first(right@),
        left.len() + right.len() <= usize::MAX,
    ensures
        newest_first(out@),
        out@.to_multiset() == left@.to_multiset().add(right@.to_multiset()),
        forall|nanos: nat| #[trigger]
            events_at(out@, nanos) == events_at(left@, nanos) + events_at(right@, nanos),
{
    let mut out: Vec<Event> = Vec::new();
    let mut i: usize = 0;
    let mut j: usize = 0;
    proof {
        assert(left@.take(0) =~= Seq::<Event>::empty());
        assert(right@.take(0) =~= Seq::<Event>::empty());
        assert forall|nanos: nat| #[trigger]
            events_at(out@, nanos) == events_at(left@.take(0), nanos) + events_at(
                right@.take(0),
                nanos,
            ) by {
            lemma_none_at(out@, nanos);
            lemma_none_at(left@.take(0), nanos);
        }
        out@.to_multiset_ensures();
        vstd::multiset::lemma_multiset_empty_len(out@.to_multiset());
        assert(out@.to_multiset() =~= left@.take(0).to_multiset().add(
            right@.take(0).to_multiset(),
        ));
    }
    while i < left.len() || j < right.len()
        invariant
            i <= left.len(),
            j <= right.len(),
            out.len() == i + j,
            left.len() + right.len() <= usize::MAX,
            newest_first(left@),
            newest_first(right@),
            newest_first(out@),
            forall|k: int, m: int|
                0 <= k < out.len() && i <= m < left.len() ==> out@[k].time@ >= left@[m].time@,
            forall|k: int, m: int|
                0 <= k < out.len() && j <= m < right.len() ==> out@[k].time@ >= right@[m].time@,
            forall|b: int, a: int|
                0 <= b < j && i <= a < left.len() ==> right@[b].time@ > left@[a].time@,
            out@.to_multiset() == left@.take(i as int).to_multiset().add(
                right@.take(j as int).to_multiset(),
            ),
            forall|nanos: nat| #[trigger]
                events_at(out@, nanos) == events_at(left@.take(i as int), nanos) + events_at(
                    right@.take(j as int),
                    nanos,
                ),
        decreases left.len() - i + right.len() - j,
    {
        let from_left = if i == left.len() {
            false
        } else if j == right.len() {
            true
        } else {
            !right[j].time.is_after(&left[i].time)
        };
        let ghost before = out@;
        if from_left {
            let event = left[i];
            out.push(event);
            proof {
                assert(left@.take(i + 1) =~= left@.take(i as int).push(event));
                assert forall|nanos: nat| #[trigger]
                    events_at(out@, nanos) == events_at(left@.take(i + 1), nanos) + events_at(
                        right@.take(j as int),
                        nanos,
                    ) by {
                    lemma_push_at(before, event, nanos);
                    lemma_push_at(left@.take(i as int), event, nanos);
                    if event.time@ == nanos {
                        lemma_none_at(right@.take(j as int), nanos);
                    }
                }
                before.to_multiset_ensures();
                left@.take(i as int).to_multiset_ensures();
                assert(out@.to_multiset() =~= left@.take(i + 1).to_multiset().add(
                    right@.take(j as int).to_multiset(),
                ));
            }
            i += 1;
        } else {
            let event = right[j];
            out.push(event);
            proof {
                assert(right@.take(j + 1) =~= right@.take(j as int).push(event));
                assert forall|nanos: nat| #[trigger]
                    events_at(out@, nanos) == events_at(left@.take(i as int), nanos) + events_at(
                        right@.take(j + 1),
                        nanos,
                    ) by {
                    lemma_push_at(before, event, nanos);
                    lemma_push_at(right@.take(j as int), event, nanos);
                    if event.time@ == nanos {
                        Seq::push_distributes_over_add(
                            events_at(left@.take(i as int), nanos),
                            events_at(right@.take(j as int), nanos),
                            event,
                        );
                    }
                }
                before.to_multiset_ensures();
                right@.take(j as int).to_multiset_ensures();
                assert(out@.to_multiset() =~= left@.take(i as int).to_multiset().add(
                    right@.take(j + 1).to_multiset(),
                ));
            }
            j += 1;
        }
    }
    proof {
        assert(left@.take(i as int) =~= left@);
        assert(right@.take(j as int) =~= right@);
    }
    out
}

/// Sorts the events of `events` from position `from` up to `to`.
fn sort_range(events: &Vec<Event>, from: usize, to: usize) -> (sorted: Vec<Event>)
    requires
        from <= to <= events.len(),
    ensures
        is_stable_sort_of(sorted@, events@.subrange(from as int, to as int)),
    decreases to - from,
{
    let ghost range = events@.subrange(from as int, to as int);
    if to - from <= 1 {
        let mut sorted: Vec<Event> = Vec::new();
        if from < to {
            sorted.push(events[from]);
        }
        assert(sorted@ =~= range);
        sorted
    } else {
        let mid: usize = from + (to - from) / 2;
        let left = sort_range(events, from, mid);
        let right = sort_range(events, mid, to);
        let ghost first = events@.subrange(from as int, mid as int);
        let ghost second = events@.subrange(mid as int, to as int);
        proof {
            assert(range =~= first + second);
            vstd::seq_lib::lemma_multiset_commutative(first, second);
            left@.to_multiset_ensures();
            first.to_multiset_ensures();
            right@.to_multiset_ensures();
            second.to_multiset_ensures();
        }
        let sorted = merge(&left, &right);
        proof {
            assert forall|nanos: nat| #[trigger]
                events_at(sorted@, nanos) == events_at(range, nanos) by {
                Seq::filter_distributes_over_add(first, second, happened_at(nanos));
            }
        }
        sorted
    }
}

/// Orders events newest first. The sort is stable: events of the same time
/// keep the order in which they were handed in.
pub fn sort_newest_first(events: Vec<Event>) -> (sorted: Vec<Event>)
    ensures
        is_stable_sort_of(sorted@, events@),
{
    let sorted = sort_range(&events, 0, events.len());
    assert(events@.subrange(0, events.len() as int) =~= events@);
    sorted
}

} // verus!
