//! What holds of every layout: the order of a day is a stable sort, columns are well
//! formed, and every event is shown on each of its days.

use vstd::prelude::*;
use vstd::seq_lib::*;
use crate::event_processor::{
    by_day, cluster_end, cluster_reach, cluster_start, events_on, falls_on, grid, in_column, insert_by_start,
    is_place_by_start, joins_cluster, lemma_cluster_ends_at, lemma_insert_by_start_at, occurs_on, overlap_groups, positioned, positioning,
    prepared, sorted_by_start, unplaced, Percent, ProcessedEventView, ProcessedEventsResultView,
};
use crate::objects::EventView;

verus! {

/// The events are in the order of their start times.
pub open spec fn ordered_by_start(events: Seq<ProcessedEventView>) -> bool {
    forall|i: int, j: int|
        0 <= i < j < events.len() ==> (#[trigger] events[i]).start_time_int <= (#[trigger] events[j]).start_time_int
}

/// The test for the events that start at `start`.
pub open spec fn starts_at(start: i32) -> spec_fn(ProcessedEventView) -> bool {
    |event: ProcessedEventView| event.start_time_int == start
}

/// The event without its place: alone at the top of the day, as it entered the layout.
pub open spec fn without_place(event: ProcessedEventView) -> ProcessedEventView {
    ProcessedEventView {
        width: Percent { numerator: 100, denominator: 1 },
        left: Percent { numerator: 0, denominator: 1 },
        top_position: Percent { numerator: 0, denominator: 1 },
        height_position: Percent { numerator: 0, denominator: 1 },
        ..event
    }
}

/// Where `event` goes into `sorted`: behind the last event that starts no later.
pub open spec fn place_by_start(sorted: Seq<ProcessedEventView>, event: ProcessedEventView) -> int
    decreases sorted.len(),
{
    if sorted.len() == 0 || sorted.last().start_time_int <= event.start_time_int {
        sorted.len() as int
    } else {
        place_by_start(sorted.drop_last(), event)
    }
}

proof fn lemma_place_by_start(sorted: Seq<ProcessedEventView>, event: ProcessedEventView)
    ensures
        is_place_by_start(sorted, event, place_by_start(sorted, event)),
        insert_by_start(sorted, event) == sorted.insert(place_by_start(sorted, event), event),
    decreases sorted.len(),
{
    if sorted.len() == 0 || sorted.last().start_time_int <= event.start_time_int {
    } else {
        let shorter = sorted.drop_last();
        lemma_place_by_start(shorter, event);
        let place = place_by_start(shorter, event);
        assert forall|k: int| place <= k < sorted.len() implies (#[trigger] sorted[k]).start_time_int
            > event.start_time_int by {
            if k < shorter.len() {
                assert(shorter[k] == sorted[k]);
            }
        }
        if place > 0 {
            assert(shorter[place - 1] == sorted[place - 1]);
        }
    }
    lemma_insert_by_start_at(sorted, event, place_by_start(sorted, event));
}

/// Sorting a day keeps every event, each as often as it occurred, and puts the events
/// in the order of their start times.
pub proof fn lemma_sorted_by_start_is_ordered_permutation(events: Seq<ProcessedEventView>)
    ensures
        sorted_by_start(events).len() == events.len(),
        sorted_by_start(events).to_multiset() == events.to_multiset(),
        ordered_by_start(sorted_by_start(events)),
    decreases events.len(),
{
    if events.len() > 0 {
        let shorter = events.drop_last();
        let event = events.last();
        lemma_sorted_by_start_is_ordered_permutation(shorter);
        let sorted = sorted_by_start(shorter);
        lemma_place_by_start(sorted, event);
        let place = place_by_start(sorted, event);
        let longer = sorted.insert(place, event);
        to_multiset_insert(sorted, place, event);
        assert(shorter.push(event) =~= events);
        to_multiset_build(shorter, event);
        assert forall|i: int, j: int| 0 <= i < j < longer.len() implies (#[trigger] longer[i]).start_time_int <= (
        #[trigger] longer[j]).start_time_int by {
            if j < place {
                assert(longer[i] == sorted[i] && longer[j] == sorted[j]);
            } else if j == place {
                assert(longer[i] == sorted[i]);
                assert(sorted[i].start_time_int <= sorted[place - 1].start_time_int);
            } else if i < place {
                assert(longer[i] == sorted[i] && longer[j] == sorted[j - 1]);
                assert(sorted[i].start_time_int <= sorted[place - 1].start_time_int);
            } else if i == place {
                assert(longer[j] == sorted[j - 1]);
            } else {
                assert(longer[i] == sorted[i - 1] && longer[j] == sorted[j - 1]);
            }
        }
    }
}

/// Sorting a day is stable: the events that start at the same time keep the order they
/// came in.
pub proof fn lemma_sorted_by_start_is_stable(events: Seq<ProcessedEventView>, start: i32)
    ensures
        sorted_by_start(events).filter(starts_at(start)) == events.filter(starts_at(start)),
    decreases events.len(),
{
    let test = starts_at(start);
    if events.len() > 0 {
        let shorter = events.drop_last();
        let event = events.last();
        lemma_sorted_by_start_is_stable(shorter, start);
        let sorted = sorted_by_start(shorter);
        lemma_place_by_start(sorted, event);
        let place = place_by_start(sorted, event);
        let front = sorted.subrange(0, place);
        let back = sorted.subrange(place, sorted.len() as int);
        assert(sorted =~= front + back);
        assert(sorted.insert(place, event) =~= front.push(event) + back);
        Seq::filter_distributes_over_add(front, back, test);
        Seq::filter_distributes_over_add(front.push(event), back, test);
        front.lemma_filter_push(event, test);
        assert(shorter.push(event) =~= events);
        shorter.lemma_filter_push(event, test);
        if test(event) {
            assert forall|k: int| 0 <= k < back.len() implies !test(#[trigger] back[k]) by {
                assert(back[k] == sorted[place + k]);
            }
            assert(back.all(|x: ProcessedEventView| !test(x)));
            back.lemma_all_neg_filter_empty(test);
            assert(back.filter(test) =~= Seq::<ProcessedEventView>::empty());
            assert(front.filter(test) + back.filter(test) =~= front.filter(test));
            assert(front.filter(test).push(event) + back.filter(test) =~= front.filter(test).push(event));
        }
    }
}

/// In a day sorted by start, the cluster of an event begins at or before the event and
/// ends at or behind it, within the day.
pub proof fn lemma_cluster_bounds(events: Seq<ProcessedEventView>, i: int)
    requires
        0 <= i < events.len(),
    ensures
        0 <= cluster_start(events, i) <= i,
        i <= cluster_end(events, i) < events.len(),
{
    lemma_cluster_start_bounds(events, i);
    lemma_cluster_end_bounds(events, i);
}

proof fn lemma_cluster_start_bounds(events: Seq<ProcessedEventView>, i: int)
    requires
        0 <= i,
    ensures
        0 <= cluster_start(events, i) <= i,
    decreases i,
{
    if i > 0 && joins_cluster(events, i) {
        lemma_cluster_start_bounds(events, i - 1);
    }
}

proof fn lemma_cluster_end_bounds(events: Seq<ProcessedEventView>, i: int)
    requires
        0 <= i < events.len(),
    ensures
        i <= cluster_end(events, i) < events.len(),
    decreases events.len() - i,
{
    if i + 1 < events.len() && joins_cluster(events, i + 1) {
        lemma_cluster_end_bounds(events, i + 1);
    }
}

/// The events of one cluster share its bounds: each event from the first to the last of
/// the cluster of event `i` has the same first and the same last event.
pub proof fn lemma_cluster_is_shared(events: Seq<ProcessedEventView>, i: int, j: int)
    requires
        0 <= i < events.len(),
        cluster_start(events, i) <= j <= cluster_end(events, i),
    ensures
        cluster_start(events, j) == cluster_start(events, i),
        cluster_end(events, j) == cluster_end(events, i),
{
    lemma_cluster_bounds(events, i);
    let first = cluster_start(events, i);
    let last = cluster_end(events, i);
    lemma_joins_back_to_start(events, i);
    lemma_joins_up_to_end(events, i, i);
    lemma_start_from_joins(events, first, j);
    lemma_cluster_ends_at(events, j, last);
}

proof fn lemma_joins_back_to_start(events: Seq<ProcessedEventView>, i: int)
    requires
        0 <= i,
    ensures
        forall|k: int| cluster_start(events, i) < k <= i ==> joins_cluster(events, k),
        cluster_start(events, i) == 0 || !joins_cluster(events, cluster_start(events, i)),
    decreases i,
{
    if i > 0 && joins_cluster(events, i) {
        lemma_joins_back_to_start(events, i - 1);
    }
}

proof fn lemma_joins_up_to_end(events: Seq<ProcessedEventView>, i: int, from: int)
    requires
        0 <= i <= from < events.len(),
        cluster_end(events, from) == cluster_end(events, i),
    ensures
        forall|k: int| from < k <= cluster_end(events, i) ==> joins_cluster(events, k),
        cluster_end(events, i) + 1 < events.len() ==> !joins_cluster(events, cluster_end(events, i) + 1),
    decreases events.len() - from,
{
    if from + 1 < events.len() && joins_cluster(events, from + 1) {
        lemma_joins_up_to_end(events, i, from + 1);
    }
}

proof fn lemma_start_from_joins(events: Seq<ProcessedEventView>, first: int, j: int)
    requires
        0 <= first <= j,
        forall|k: int| first < k <= j ==> joins_cluster(events, k),
        first == 0 || !joins_cluster(events, first),
    ensures
        cluster_start(events, j) == first,
    decreases j - first,
{
    if first < j {
        lemma_start_from_joins(events, first, j - 1);
    }
}

/// The reach of a cluster at event `i` is the latest end among the events of the
/// cluster up to event `i`: no such event ends later, and one of them ends just then.
pub proof fn lemma_cluster_reach_is_latest_end(events: Seq<ProcessedEventView>, i: int)
    requires
        0 <= i < events.len(),
    ensures
        forall|k: int| cluster_start(events, i) <= k <= i ==> (#[trigger] events[k]).end_minutes() <= cluster_reach(
            events,
            i,
        ),
        exists|k: int| cluster_start(events, i) <= k <= i && (#[trigger] events[k]).end_minutes() == cluster_reach(
            events,
            i,
        ),
    decreases i,
{
    if i > 0 && joins_cluster(events, i) {
        lemma_cluster_reach_is_latest_end(events, i - 1);
        let k = choose|k: int|
            cluster_start(events, i - 1) <= k <= i - 1 && (#[trigger] events[k]).end_minutes() == cluster_reach(
                events,
                i - 1,
            );
        if events[i].end_minutes() > cluster_reach(events, i - 1) {
            assert(events[i].end_minutes() == cluster_reach(events, i));
        } else {
            assert(events[k].end_minutes() == cluster_reach(events, i));
        }
    } else {
        assert(events[i].end_minutes() == cluster_reach(events, i));
    }
}

/// An event joins the cluster before it just if it overlaps it: it starts before an
/// earlier event of that cluster ends. An event that opens a cluster starts no earlier
/// than every event of the cluster before it ends.
pub proof fn lemma_clusters_are_runs_of_overlap(events: Seq<ProcessedEventView>, i: int)
    requires
        0 < i < events.len(),
    ensures
        joins_cluster(events, i) <==> exists|k: int|
            cluster_start(events, i - 1) <= k < i && events[i].start_minutes() < (#[trigger] events[k]).end_minutes(),
{
    lemma_cluster_reach_is_latest_end(events, i - 1);
    if joins_cluster(events, i) {
        let k = choose|k: int|
            cluster_start(events, i - 1) <= k <= i - 1 && (#[trigger] events[k]).end_minutes() == cluster_reach(
                events,
                i - 1,
            );
        assert(events[i].start_minutes() < events[k].end_minutes());
    }
}

/// Event `i` of the placed day is event `i` of the sorted day in a column of its cluster:
/// the cluster has at least one column, no more than the day has events, and the
/// event's column is one of them.
pub open spec fn is_in_its_column(events: Seq<ProcessedEventView>, i: int) -> bool {
    let sorted = sorted_by_start(events);
    let first = cluster_start(sorted, i);
    let count = cluster_end(sorted, i) - first + 1;
    &&& 0 <= i - first < count <= events.len()
    &&& overlap_groups(events)[i] == in_column(sorted[i], i - first, count)
    &&& without_place(overlap_groups(events)[i]) == without_place(sorted[i])
}

/// Every event of a day is placed: the day keeps its events, in the order of their start
/// times, each in a column of its cluster.
pub proof fn lemma_overlap_groups_places_every_event(events: Seq<ProcessedEventView>)
    ensures
        overlap_groups(events).len() == events.len(),
        forall|i: int| 0 <= i < events.len() ==> #[trigger] is_in_its_column(events, i),
{
    lemma_sorted_by_start_is_ordered_permutation(events);
    let sorted = sorted_by_start(events);
    assert forall|i: int| 0 <= i < events.len() implies #[trigger] is_in_its_column(events, i) by {
        lemma_cluster_bounds(sorted, i);
    }
}

/// The same events give the same layout.
pub proof fn lemma_same_events_same_layout(
    first_events: Seq<EventView>,
    second_events: Seq<EventView>,
    first: ProcessedEventsResultView,
    second: ProcessedEventsResultView,
)
    requires
        first_events == second_events,
        first == grid(first_events),
        second == grid(second_events),
    ensures
        first == second,
{
}

/// The placed events of a day are the events of that day with a time, each as often as
/// it was given, and nothing but their places has changed.
pub proof fn lemma_placed_day_keeps_its_events(events: Seq<EventView>, day: u8)
    requires
        grid(events).events_by_day.contains_key(day),
    ensures
        day < 7,
        grid(events).events_by_day[day].len() == events_on(prepared(events), day, true).len(),
        grid(events).events_by_day[day].len() > 0,
        Seq::new(
            grid(events).events_by_day[day].len(),
            |k: int| without_place(grid(events).events_by_day[day][k]),
        ).to_multiset() == events_on(prepared(events), day, true).to_multiset(),
{
    let given = events_on(prepared(events), day, true);
    let sorted = sorted_by_start(given);
    let placed = grid(events).events_by_day[day];
    assert(placed == positioning(overlap_groups(given)));
    lemma_overlap_groups_places_every_event(given);
    lemma_sorted_by_start_is_ordered_permutation(given);
    let stripped = Seq::new(placed.len(), |k: int| without_place(placed[k]));
    assert forall|k: int| 0 <= k < sorted.len() implies stripped[k] == sorted[k] by {
        assert(placed[k] == positioned(overlap_groups(given)[k]));
        assert(is_in_its_column(given, k));
        assert(without_place(placed[k]) == without_place(sorted[k]));
        sorted.to_multiset_ensures();
        given.to_multiset_ensures();
        assert(sorted.to_multiset().count(sorted[k]) > 0);
        assert(given.contains(sorted[k]));
        prepared(events).lemma_filter_contains_rev(falls_on(day, true), sorted[k]);
        let origin = choose|j: int| 0 <= j < prepared(events).len() && prepared(events)[j] == sorted[k];
        assert(sorted[k] == unplaced(events[origin]));
    }
    assert(stripped =~= sorted);
}

/// An event is shown on every weekday whose bit is set in its mask: among the placed
/// events of the day if it has a start and an end, among the day's events without a
/// time if not. But for its place it is shown as it entered the layout.
pub proof fn lemma_event_is_shown_on_each_of_its_days(events: Seq<EventView>, i: int, day: u8)
    requires
        0 <= i < events.len(),
        day < 7,
        occurs_on(events[i].day, day),
    ensures
        unplaced(events[i]).has_time() ==> grid(events).events_by_day.contains_key(day) && exists|k: int|
            0 <= k < grid(events).events_by_day[day].len() && without_place(
                #[trigger] grid(events).events_by_day[day][k],
            ) == unplaced(events[i]),
        !unplaced(events[i]).has_time() ==> grid(events).no_time_events_by_day.contains_key(day) && grid(
            events,
        ).no_time_events_by_day[day].contains(unplaced(events[i])),
{
    let event = unplaced(events[i]);
    let timed = event.has_time();
    let all = prepared(events);
    let given = events_on(all, day, timed);
    assert(all[i] == event);
    assert(falls_on(day, timed)(all[i]));
    all.lemma_filter_contains(falls_on(day, timed), i);
    assert(given.contains(event));
    assert(given.len() > 0);
    assert(by_day(all, timed).contains_key(day));
    if timed {
        lemma_placed_day_keeps_its_events(events, day);
        let placed = grid(events).events_by_day[day];
        let stripped = Seq::new(placed.len(), |k: int| without_place(placed[k]));
        stripped.to_multiset_ensures();
        given.to_multiset_ensures();
        assert(stripped.to_multiset().count(event) > 0);
        assert(stripped.contains(event));
        let k = choose|k: int| 0 <= k < stripped.len() && stripped[k] == event;
        assert(without_place(placed[k]) == event);
    }
}

} // verus!
