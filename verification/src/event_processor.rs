//! Lays calendar events out on a weekly grid: one bucket of events per weekday, events
//! that overlap in time side by side in columns, and each event placed vertically by
//! its time within the window that the calendar shows.

use std::collections::HashMap;
use vstd::prelude::*;
use vstd::string::*;
use crate::objects::{Event, EventView};
use crate::text::{digit_char, digit_text};

verus! {

/// First hour that the calendar shows (8 AM).
pub const START_HOUR: i32 = 8;

/// Hour at which the calendar ends (8 PM).
pub const END_HOUR: i32 = 20;

/// Minutes that the calendar shows from top to bottom.
pub const TOTAL_MINUTES_IN_VIEW: i32 = (END_HOUR - START_HOUR) * 60;

/// An exact percentage: `numerator / denominator` percent. The denominator is positive.
#[derive(Clone, Copy, Debug, PartialEq, Eq, Structural)]
pub struct Percent {
    pub numerator: i128,
    pub denominator: i128,
}

/// A calendar event with what the grid needs to draw it.
#[derive(Debug, PartialEq, Eq)]
pub struct ProcessedEvent {
    pub id: String,
    pub title: String,
    /// Start time as stored, an HHMM integer.
    pub start_time: i32,
    /// End time as stored, an HHMM integer.
    pub end_time: i32,
    /// Mask of the weekdays on which the event occurs, Sunday at bit 0.
    pub day: i32,
    pub professor: String,
    pub description: String,
    /// Start time, with zero for "no time".
    pub start_time_int: i32,
    /// End time, with zero for "no time".
    pub end_time_int: i32,
    /// Start time as `HH:MM`.
    pub start_time_formatted: String,
    /// End time as `HH:MM`.
    pub end_time_formatted: String,
    /// Share of the day's width that the event takes.
    pub width: Percent,
    /// Distance of the event's left edge from the left edge of the day.
    pub left: Percent,
    /// Distance of the event's top edge from the top of the window.
    pub top_position: Percent,
    /// Height of the event.
    pub height_position: Percent,
}

/// The value of a [`ProcessedEvent`].
pub struct ProcessedEventView {
    pub id: Seq<char>,
    pub title: Seq<char>,
    pub start_time: i32,
    pub end_time: i32,
    pub day: i32,
    pub professor: Seq<char>,
    pub description: Seq<char>,
    pub start_time_int: i32,
    pub end_time_int: i32,
    pub start_time_formatted: Seq<char>,
    pub end_time_formatted: Seq<char>,
    pub width: Percent,
    pub left: Percent,
    pub top_position: Percent,
    pub height_position: Percent,
}

impl View for ProcessedEvent {
    type V = ProcessedEventView;

    open spec fn view(&self) -> ProcessedEventView {
        ProcessedEventView {
            id: self.id@,
            title: self.title@,
            start_time: self.start_time,
            end_time: self.end_time,
            day: self.day,
            professor: self.professor@,
            description: self.description@,
            start_time_int: self.start_time_int,
            end_time_int: self.end_time_int,
            start_time_formatted: self.start_time_formatted@,
            end_time_formatted: self.end_time_formatted@,
            width: self.width,
            left: self.left,
            top_position: self.top_position,
            height_position: self.height_position,
        }
    }
}

impl DeepView for ProcessedEvent {
    type V = ProcessedEventView;

    open spec fn deep_view(&self) -> ProcessedEventView {
        self@
    }
}

impl Clone for ProcessedEvent {
    fn clone(&self) -> (copy: Self)
        ensures
            copy@ == self@,
    {
        ProcessedEvent {
            id: self.id.clone(),
            title: self.title.clone(),
            start_time: self.start_time,
            end_time: self.end_time,
            day: self.day,
            professor: self.professor.clone(),
            description: self.description.clone(),
            start_time_int: self.start_time_int,
            end_time_int: self.end_time_int,
            start_time_formatted: self.start_time_formatted.clone(),
            end_time_formatted: self.end_time_formatted.clone(),
            width: self.width,
            left: self.left,
            top_position: self.top_position,
            height_position: self.height_position,
        }
    }
}

/// The first four decimal digits of a positive number, as a number; a number of fewer
/// than four digits is itself.
pub open spec fn leading_four_digits(n: int) -> int
    decreases n,
{
    if n < 10000 {
        n
    } else {
        leading_four_digits(n / 10)
    }
}

/// An HHMM integer as `HH:MM`. A time of zero or less is `00:00`. The number is padded
/// with zeros to four digits; of a longer number the first four digits are taken.
pub open spec fn time_text(time_int: int) -> Seq<char> {
    if time_int <= 0 {
        seq!['0', '0', ':', '0', '0']
    } else {
        let digits = leading_four_digits(time_int);
        seq![
            digit_char(digits / 1000),
            digit_char(digits / 100 % 10),
            ':',
            digit_char(digits / 10 % 10),
            digit_char(digits % 10),
        ]
    }
}

/// Minutes from the top of the window to an HHMM time; zero for a time of zero or less.
/// A time before the window gives a negative number.
pub open spec fn minutes_since_start(time_int: int) -> int {
    if time_int <= 0 {
        0
    } else {
        (time_int / 100) * 60 + time_int % 100 - START_HOUR * 60
    }
}

/// A stored time with "no time" brought to zero.
pub open spec fn normalized_time(time: i32) -> i32 {
    if time > 0 {
        time
    } else {
        0
    }
}

/// An event as it enters the layout: times normalized and formatted, and the place of
/// an event that stands alone at the top of the day.
pub open spec fn unplaced(event: EventView) -> ProcessedEventView {
    ProcessedEventView {
        id: event.id,
        title: event.title,
        start_time: event.start_time,
        end_time: event.end_time,
        day: event.day,
        professor: event.professor,
        description: event.description,
        start_time_int: normalized_time(event.start_time),
        end_time_int: normalized_time(event.end_time),
        start_time_formatted: time_text(normalized_time(event.start_time) as int),
        end_time_formatted: time_text(normalized_time(event.end_time) as int),
        width: Percent { numerator: 100, denominator: 1 },
        left: Percent { numerator: 0, denominator: 1 },
        top_position: Percent { numerator: 0, denominator: 1 },
        height_position: Percent { numerator: 0, denominator: 1 },
    }
}

impl ProcessedEventView {
    /// The event has a start and an end.
    pub open spec fn has_time(self) -> bool {
        self.start_time_int > 0 && self.end_time_int > 0
    }

    /// Minutes from the top of the window to the start of the event.
    pub open spec fn start_minutes(self) -> int {
        minutes_since_start(self.start_time_int as int)
    }

    /// Minutes from the top of the window to the end of the event.
    pub open spec fn end_minutes(self) -> int {
        minutes_since_start(self.end_time_int as int)
    }
}

/// Turns raw calendar events into what a weekly grid shows.
pub struct EventProcessor;

impl EventProcessor {
    /// Formats an HHMM integer as `HH:MM`, so that 930 becomes `09:30`.
    pub fn format_time_int_to_string(time_int: i32) -> (text: String)
        ensures
            text@ == time_text(time_int as int),
    {
        if time_int <= 0 {
            proof {
                reveal_strlit("00:00");
            }
            let text = String::from_str("00:00");
            assert(text@ =~= time_text(time_int as int));
            return text;
        }
        let mut digits: i32 = time_int;
        while digits >= 10000
            invariant
                digits > 0,
                leading_four_digits(digits as int) == leading_four_digits(time_int as int),
            decreases digits,
        {
            digits = digits / 10;
        }
        let mut text = String::new();
        text.append(digit_text(digits / 1000));
        text.append(digit_text(digits / 100 % 10));
        proof {
            reveal_strlit(":");
        }
        text.append(":");
        text.append(digit_text(digits / 10 % 10));
        text.append(digit_text(digits % 10));
        assert(text@ =~= time_text(time_int as int));
        text
    }

    /// Minutes from the top of the window to an HHMM time.
    pub fn get_minutes_since_start(time_int: i32) -> (minutes: i32)
        ensures
            minutes == minutes_since_start(time_int as int),
    {
        if time_int <= 0 {
            return 0;
        }
        let hours = time_int / 100;
        let minutes = time_int % 100;
        (hours * 60 + minutes) - (START_HOUR * 60)
    }

    /// Prepares an event for the layout: normalizes and formats its times and gives it
    /// the place of an event that stands alone.
    pub fn event_to_processed_event(event: Event) -> (processed: ProcessedEvent)
        ensures
            processed@ == unplaced(event@),
    {
        let start_time_int = if event.start_time > 0 {
            event.start_time
        } else {
            0
        };
        let end_time_int = if event.end_time > 0 {
            event.end_time
        } else {
            0
        };
        ProcessedEvent {
            id: event.id,
            title: event.title,
            start_time: event.start_time,
            end_time: event.end_time,
            day: event.day,
            professor: event.professor,
            description: event.description,
            start_time_int,
            end_time_int,
            start_time_formatted: Self::format_time_int_to_string(start_time_int),
            end_time_formatted: Self::format_time_int_to_string(end_time_int),
            width: Percent { numerator: 100, denominator: 1 },
            left: Percent { numerator: 0, denominator: 1 },
            top_position: Percent { numerator: 0, denominator: 1 },
            height_position: Percent { numerator: 0, denominator: 1 },
        }
    }

    /// Whether the event has both a start and an end.
    pub fn has_valid_time(event: &ProcessedEvent) -> (valid: bool)
        ensures
            valid == event@.has_time(),
    {
        event.start_time_int > 0 && event.end_time_int > 0
    }
}

/// A day's events with `event` put in by its start: behind every event that starts no
/// later, before every event that starts later.
pub open spec fn insert_by_start(sorted: Seq<ProcessedEventView>, event: ProcessedEventView) -> Seq<
    ProcessedEventView,
>
    decreases sorted.len(),
{
    if sorted.len() == 0 || sorted.last().start_time_int <= event.start_time_int {
        sorted.push(event)
    } else {
        insert_by_start(sorted.drop_last(), event).push(sorted.last())
    }
}

/// A day's events in the order of their start times; events that start at the same time
/// keep the order they came in.
pub open spec fn sorted_by_start(events: Seq<ProcessedEventView>) -> Seq<ProcessedEventView>
    decreases events.len(),
{
    if events.len() == 0 {
        events
    } else {
        insert_by_start(sorted_by_start(events.drop_last()), events.last())
    }
}

/// Where `event` goes into a day sorted by start: the place behind the last event that
/// starts no later.
pub open spec fn is_place_by_start(sorted: Seq<ProcessedEventView>, event: ProcessedEventView, place: int) -> bool {
    &&& 0 <= place <= sorted.len()
    &&& place > 0 ==> sorted[place - 1].start_time_int <= event.start_time_int
    &&& forall|k: int| place <= k < sorted.len() ==> (#[trigger] sorted[k]).start_time_int > event.start_time_int
}

/// Putting an event in by its start puts it at its place by start.
pub proof fn lemma_insert_by_start_at(sorted: Seq<ProcessedEventView>, event: ProcessedEventView, place: int)
    requires
        is_place_by_start(sorted, event, place),
    ensures
        insert_by_start(sorted, event) == sorted.insert(place, event),
    decreases sorted.len(),
{
    if sorted.len() == 0 || sorted.last().start_time_int <= event.start_time_int {
        if place < sorted.len() {
            assert(sorted[sorted.len() - 1].start_time_int > event.start_time_int);
        }
        assert(sorted.push(event) =~= sorted.insert(place, event));
    } else {
        assert(place < sorted.len());
        let shorter = sorted.drop_last();
        assert forall|k: int| place <= k < shorter.len() implies (#[trigger] shorter[k]).start_time_int
            > event.start_time_int by {
            assert(shorter[k] == sorted[k]);
        }
        lemma_insert_by_start_at(shorter, event, place);
        assert(shorter.insert(place, event).push(sorted.last()) =~= sorted.insert(place, event));
    }
}

impl EventProcessor {
    /// Sorts a day's events by their start times; events that start at the same time
    /// keep their order.
    pub fn sort_by_start(day_events: &mut Vec<ProcessedEvent>)
        ensures
            final(day_events).deep_view() == sorted_by_start(old(day_events).deep_view()),
    {
        let ghost events = day_events.deep_view();
        let mut sorted: Vec<ProcessedEvent> = Vec::with_capacity(day_events.len());
        let mut i: usize = 0;
        assert(events.take(0) =~= Seq::<ProcessedEventView>::empty());
        while i < day_events.len()
            invariant
                i <= day_events.len(),
                events == day_events.deep_view(),
                sorted.len() == i,
                sorted.deep_view() == sorted_by_start(events.take(i as int)),
            decreases day_events.len() - i,
        {
            let event = day_events[i].clone();
            let mut place: usize = sorted.len();
            while place > 0 && sorted[place - 1].start_time_int > event.start_time_int
                invariant
                    place <= sorted.len(),
                    forall|k: int|
                        place <= k < sorted.len() ==> (#[trigger] sorted.deep_view()[k]).start_time_int
                            > event.start_time_int,
                decreases place,
            {
                assert(sorted.deep_view()[place - 1] == sorted[place - 1]@);
                place -= 1;
            }
            proof {
                if place > 0 {
                    assert(sorted.deep_view()[place - 1] == sorted[place - 1]@);
                }
                lemma_insert_by_start_at(sorted.deep_view(), event@, place as int);
                assert(events.take(i + 1).drop_last() =~= events.take(i as int));
                assert(events.take(i + 1).last() == event@);
            }
            let ghost before = sorted.deep_view();
            sorted.insert(place, event);
            assert(sorted.deep_view() =~= before.insert(place as int, event@));
            i += 1;
        }
        assert(events.take(day_events.len() as int) =~= events);
        *day_events = sorted;
    }
}

/// In a day sorted by start, the latest end among the events of the cluster of event
/// `i`, up to and including event `i`.
pub open spec fn cluster_reach(events: Seq<ProcessedEventView>, i: int) -> int
    decreases i, 1int,
{
    if i > 0 && joins_cluster(events, i) {
        let reach = cluster_reach(events, i - 1);
        if events[i].end_minutes() > reach {
            events[i].end_minutes()
        } else {
            reach
        }
    } else {
        events[i].end_minutes()
    }
}

/// In a day sorted by start, event `i` joins the cluster of the event before it if it
/// starts before the latest end seen so far in that cluster; else it opens a new cluster.
pub open spec fn joins_cluster(events: Seq<ProcessedEventView>, i: int) -> bool
    decreases i, 0int,
{
    i > 0 && events[i].start_minutes() < cluster_reach(events, i - 1)
}

/// The place of the first event of the cluster of event `i`.
pub open spec fn cluster_start(events: Seq<ProcessedEventView>, i: int) -> int
    decreases i,
{
    if i > 0 && joins_cluster(events, i) {
        cluster_start(events, i - 1)
    } else {
        i
    }
}

/// The place of the last event of the cluster of event `i`.
pub open spec fn cluster_end(events: Seq<ProcessedEventView>, i: int) -> int
    decreases events.len() - i,
{
    if i + 1 < events.len() && joins_cluster(events, i + 1) {
        cluster_end(events, i + 1)
    } else {
        i
    }
}

/// The event in column `index` of `count` equal columns: its width is `100 / count`
/// percent and its left edge is at `index * 100 / count` percent.
pub open spec fn in_column(event: ProcessedEventView, index: int, count: int) -> ProcessedEventView {
    ProcessedEventView {
        width: Percent { numerator: 100, denominator: count as i128 },
        left: Percent { numerator: (100 * index) as i128, denominator: count as i128 },
        ..event
    }
}

/// Event `i` of a day sorted by start, in its column: the events of a cluster share the
/// width of the day equally, side by side in their order.
pub open spec fn in_cluster_column(events: Seq<ProcessedEventView>, i: int) -> ProcessedEventView {
    let first = cluster_start(events, i);
    in_column(events[i], i - first, cluster_end(events, i) - first + 1)
}

/// A day's events sorted by start, each in its column.
pub open spec fn overlap_groups(events: Seq<ProcessedEventView>) -> Seq<ProcessedEventView> {
    let sorted = sorted_by_start(events);
    Seq::new(sorted.len(), |i: int| in_cluster_column(sorted, i))
}

/// The event placed vertically: its top is at `minutes from the top / 720 * 100` percent,
/// its height is `duration / 720 * 100` percent, and a negative duration counts as zero.
pub open spec fn positioned(event: ProcessedEventView) -> ProcessedEventView {
    let duration = event.end_minutes() - event.start_minutes();
    ProcessedEventView {
        top_position: Percent {
            numerator: (100 * event.start_minutes()) as i128,
            denominator: TOTAL_MINUTES_IN_VIEW as i128,
        },
        height_position: Percent {
            numerator: (100 * (if duration > 0 {
                duration
            } else {
                0
            })) as i128,
            denominator: TOTAL_MINUTES_IN_VIEW as i128,
        },
        ..event
    }
}

/// Every event of the day placed vertically.
pub open spec fn positioning(events: Seq<ProcessedEventView>) -> Seq<ProcessedEventView> {
    Seq::new(events.len(), |i: int| positioned(events[i]))
}

/// A cluster ends at `last` if every event behind event `i` up to `last` joins the
/// cluster and the event behind `last`, if there is one, does not.
pub proof fn lemma_cluster_ends_at(events: Seq<ProcessedEventView>, i: int, last: int)
    requires
        0 <= i <= last < events.len(),
        forall|k: int| i < k <= last ==> joins_cluster(events, k),
        last + 1 < events.len() ==> !joins_cluster(events, last + 1),
    ensures
        cluster_end(events, i) == last,
    decreases last - i,
{
    if i < last {
        lemma_cluster_ends_at(events, i + 1, last);
    }
}

impl EventProcessor {
    /// Puts the events at places `first..end` in `end - first` equal columns, in order.
    fn assign_columns(day_events: &mut Vec<ProcessedEvent>, first: usize, end: usize)
        requires
            first <= end <= old(day_events).len(),
        ensures
            final(day_events).len() == old(day_events).len(),
            forall|k: int|
                first <= k < end ==> (#[trigger] final(day_events)[k])@ == in_column(
                    old(day_events)[k]@,
                    k - first,
                    end - first,
                ),
            forall|k: int|
                0 <= k < first || end <= k < old(day_events).len() ==> (#[trigger] final(day_events)[k])@
                    == old(day_events)[k]@,
    {
        let count = end - first;
        let mut k: usize = first;
        while k < end
            invariant
                first <= k <= end,
                end <= day_events.len(),
                count == end - first,
                day_events.len() == old(day_events).len(),
                forall|j: int|
                    first <= j < k ==> (#[trigger] day_events[j])@ == in_column(
                        old(day_events)[j]@,
                        j - first,
                        end - first,
                    ),
                forall|j: int|
                    0 <= j < first || k <= j < old(day_events).len() ==> (#[trigger] day_events[j])@
                        == old(day_events)[j]@,
            decreases end - k,
        {
            let index = k - first;
            day_events[k].width = Percent { numerator: 100, denominator: count as i128 };
            day_events[k].left = Percent { numerator: 100 * (index as i128), denominator: count as i128 };
            k += 1;
        }
    }

    /// Sorts a day's events by start and places them in columns.
    ///
    /// Events that overlap form a cluster: going through the sorted day, an event joins
    /// the current cluster if it starts before the latest end seen so far in the cluster,
    /// and opens a new cluster otherwise. The events of a cluster of `n` get a width of
    /// `100 / n` percent each and stand side by side in their order.
    pub fn calculate_overlap_groups(day_events: &mut Vec<ProcessedEvent>)
        ensures
            final(day_events).deep_view() == overlap_groups(old(day_events).deep_view()),
    {
        Self::sort_by_start(day_events);
        let ghost sorted = day_events.deep_view();
        let n = day_events.len();
        let mut first: usize = 0;
        let mut reach: i32 = 0;
        let mut i: usize = 0;
        while i < n
            invariant
                first <= i <= n,
                n == day_events.len(),
                n == sorted.len(),
                i > 0 ==> first < i && reach == cluster_reach(sorted, i - 1),
                forall|k: int| first <= k < i ==> cluster_start(sorted, k) == first,
                forall|k: int| first < k < i ==> joins_cluster(sorted, k),
                forall|k: int| 0 <= k < first ==> (#[trigger] day_events[k])@ == in_cluster_column(sorted, k),
                forall|k: int| first <= k < n ==> (#[trigger] day_events[k])@ == sorted[k],
            decreases n - i,
        {
            let start = Self::get_minutes_since_start(day_events[i].start_time_int);
            let end = Self::get_minutes_since_start(day_events[i].end_time_int);
            assert(day_events[i as int]@ == sorted[i as int]);
            if i > 0 && start < reach {
                assert(joins_cluster(sorted, i as int));
                assert(cluster_start(sorted, i as int) == cluster_start(sorted, i - 1));
                if end > reach {
                    reach = end;
                }
            } else {
                assert(!joins_cluster(sorted, i as int));
                assert(cluster_start(sorted, i as int) == i);
                proof {
                    if first < i {
                        assert forall|k: int| first <= k < i implies cluster_end(sorted, k) == i - 1 by {
                            lemma_cluster_ends_at(sorted, k, i - 1);
                        }
                    }
                }
                Self::assign_columns(day_events, first, i);
                first = i;
                reach = end;
            }
            i += 1;
        }
        proof {
            if first < n {
                assert forall|k: int| first <= k < n implies cluster_end(sorted, k) == n - 1 by {
                    lemma_cluster_ends_at(sorted, k, n - 1);
                }
            }
        }
        Self::assign_columns(day_events, first, n);
        assert(day_events.deep_view() =~= overlap_groups(old(day_events).deep_view()));
    }

    /// Places every event of the day vertically within the window that the calendar shows.
    ///
    /// An event outside the window is not clipped: its place lies outside 0 to 100 percent.
    pub fn calculate_positioning(day_events: &mut Vec<ProcessedEvent>)
        ensures
            final(day_events).deep_view() == positioning(old(day_events).deep_view()),
    {
        let mut k: usize = 0;
        while k < day_events.len()
            invariant
                k <= day_events.len(),
                day_events.len() == old(day_events).len(),
                forall|j: int| 0 <= j < k ==> (#[trigger] day_events[j])@ == positioned(old(day_events)[j]@),
                forall|j: int| k <= j < day_events.len() ==> (#[trigger] day_events[j])@ == old(day_events)[j]@,
            decreases day_events.len() - k,
        {
            let start_minutes = Self::get_minutes_since_start(day_events[k].start_time_int);
            let end_minutes = Self::get_minutes_since_start(day_events[k].end_time_int);
            let duration = if end_minutes - start_minutes > 0 {
                end_minutes - start_minutes
            } else {
                0
            };
            day_events[k].top_position = Percent {
                numerator: 100 * (start_minutes as i128),
                denominator: TOTAL_MINUTES_IN_VIEW as i128,
            };
            day_events[k].height_position = Percent {
                numerator: 100 * (duration as i128),
                denominator: TOTAL_MINUTES_IN_VIEW as i128,
            };
            k += 1;
        }
        assert(day_events.deep_view() =~= positioning(old(day_events).deep_view()));
    }
}

/// What the grid shows: for each weekday that has any, the events with a time, placed,
/// and the events without a time. The key of a day is its bit in the mask of an event,
/// 0 for Sunday to 6 for Saturday; a day without events has no entry.
#[derive(Debug, PartialEq, Eq)]
pub struct ProcessedEventsResult {
    pub events_by_day: HashMap<u8, Vec<ProcessedEvent>>,
    pub no_time_events_by_day: HashMap<u8, Vec<ProcessedEvent>>,
}

/// The value of a [`ProcessedEventsResult`].
pub struct ProcessedEventsResultView {
    pub events_by_day: Map<u8, Seq<ProcessedEventView>>,
    pub no_time_events_by_day: Map<u8, Seq<ProcessedEventView>>,
}

/// The buckets of a map of days, each as the sequence of its events.
pub open spec fn bucket_views(buckets: Map<u8, Vec<ProcessedEvent>>) -> Map<u8, Seq<ProcessedEventView>> {
    Map::new(|day: u8| buckets.contains_key(day), |day: u8| buckets[day].deep_view())
}

impl View for ProcessedEventsResult {
    type V = ProcessedEventsResultView;

    open spec fn view(&self) -> ProcessedEventsResultView {
        ProcessedEventsResultView {
            events_by_day: bucket_views(self.events_by_day@),
            no_time_events_by_day: bucket_views(self.no_time_events_by_day@),
        }
    }
}

/// Whether an event with the mask `day_mask` occurs on weekday `day`: whether `day` is
/// one of the seven weekdays and its bit is set in the mask.
pub open spec fn occurs_on(day_mask: i32, day: u8) -> bool {
    day < 7 && day_mask & (1i32 << day) != 0
}

/// The test for the events of weekday `day` that have a time (`timed`) or have none.
pub open spec fn falls_on(day: u8, timed: bool) -> spec_fn(ProcessedEventView) -> bool {
    |event: ProcessedEventView| occurs_on(event.day, day) && event.has_time() == timed
}

/// The events of weekday `day` that have a time (`timed`) or have none, in their order.
pub open spec fn events_on(events: Seq<ProcessedEventView>, day: u8, timed: bool) -> Seq<ProcessedEventView> {
    events.filter(falls_on(day, timed))
}

/// The events with a time (`timed`) or without, by weekday. Only a weekday on which
/// such an event occurs has a bucket.
pub open spec fn by_day(events: Seq<ProcessedEventView>, timed: bool) -> Map<u8, Seq<ProcessedEventView>> {
    Map::new(
        |day: u8| day < 7 && events_on(events, day, timed).len() > 0,
        |day: u8| events_on(events, day, timed),
    )
}

/// The events as they enter the layout.
pub open spec fn prepared(events: Seq<EventView>) -> Seq<ProcessedEventView> {
    Seq::new(events.len(), |i: int| unplaced(events[i]))
}

/// What the grid shows of the given events.
pub open spec fn grid(events: Seq<EventView>) -> ProcessedEventsResultView {
    let timed = by_day(prepared(events), true);
    ProcessedEventsResultView {
        events_by_day: Map::new(
            |day: u8| timed.contains_key(day),
            |day: u8| positioning(overlap_groups(timed[day])),
        ),
        no_time_events_by_day: by_day(prepared(events), false),
    }
}

impl EventProcessor {
    /// Whether an event with the mask `day_mask` occurs on weekday `day`.
    pub fn occurs_on_day(day_mask: i32, day: u8) -> (occurs: bool)
        ensures
            occurs == occurs_on(day_mask, day),
    {
        day < 7 && (day_mask & (1i32 << day)) != 0
    }

    /// The events of weekday `day` that have a time (`timed`) or have none, in their order.
    fn collect_day(events: &Vec<ProcessedEvent>, day: u8, timed: bool) -> (found: Vec<ProcessedEvent>)
        ensures
            found.deep_view() == events_on(events.deep_view(), day, timed),
    {
        let ghost all = events.deep_view();
        let ghost test = falls_on(day, timed);
        let mut found: Vec<ProcessedEvent> = Vec::new();
        let mut i: usize = 0;
        proof {
            reveal(Seq::filter);
            assert(all.take(0) =~= Seq::<ProcessedEventView>::empty());
        }
        while i < events.len()
            invariant
                i <= events.len(),
                all == events.deep_view(),
                test == falls_on(day, timed),
                found.deep_view() == all.take(i as int).filter(test),
            decreases events.len() - i,
        {
            let event = &events[i];
            proof {
                reveal(Seq::filter);
                assert(all[i as int] == event@);
                assert(all.take(i + 1).drop_last() =~= all.take(i as int));
                assert(all.take(i + 1).last() == event@);
            }
            let ghost before = found.deep_view();
            if Self::occurs_on_day(event.day, day) && Self::has_valid_time(event) == timed {
                found.push(event.clone());
                assert(found.deep_view() =~= before.push(event@));
            }
            i += 1;
        }
        assert(all.take(events.len() as int) =~= all);
        found
    }

    /// Sorts the events into buckets by weekday: first the buckets of the events that
    /// have a time, then those of the events that have none. An event occurs in the
    /// bucket of every weekday whose bit is set in its mask.
    pub fn group_events_by_day(events: Vec<ProcessedEvent>) -> (buckets: (
        HashMap<u8, Vec<ProcessedEvent>>,
        HashMap<u8, Vec<ProcessedEvent>>,
    ))
        ensures
            bucket_views(buckets.0@) == by_day(events.deep_view(), true),
            bucket_views(buckets.1@) == by_day(events.deep_view(), false),
    {
        let ghost all = events.deep_view();
        let mut events_by_day: HashMap<u8, Vec<ProcessedEvent>> = HashMap::new();
        let mut no_time_events_by_day: HashMap<u8, Vec<ProcessedEvent>> = HashMap::new();
        let mut day: u8 = 0;
        while day < 7
            invariant
                day <= 7,
                all == events.deep_view(),
                forall|d: u8|
                    events_by_day@.contains_key(d) <==> d < day && events_on(all, d, true).len() > 0,
                forall|d: u8|
                    events_by_day@.contains_key(d) ==> (#[trigger] events_by_day@[d]).deep_view() == events_on(
                        all,
                        d,
                        true,
                    ),
                forall|d: u8|
                    no_time_events_by_day@.contains_key(d) <==> d < day && events_on(all, d, false).len() > 0,
                forall|d: u8|
                    no_time_events_by_day@.contains_key(d) ==> (#[trigger] no_time_events_by_day@[d]).deep_view()
                        == events_on(all, d, false),
            decreases 7 - day,
        {
            let with_time = Self::collect_day(&events, day, true);
            if with_time.len() > 0 {
                events_by_day.insert(day, with_time);
            }
            let without_time = Self::collect_day(&events, day, false);
            if without_time.len() > 0 {
                no_time_events_by_day.insert(day, without_time);
            }
            day += 1;
        }
        assert(bucket_views(events_by_day@) =~= by_day(all, true));
        assert(bucket_views(no_time_events_by_day@) =~= by_day(all, false));
        (events_by_day, no_time_events_by_day)
    }

    /// Lays the events out on the weekly grid.
    ///
    /// Each event occurs on every weekday whose bit is set in its mask. An event with a
    /// start and an end goes to the placed events of the day; any other goes to the
    /// day's events without a time, unplaced. The placed events of a day are sorted by
    /// start, stand in columns where they overlap, and are placed vertically by their
    /// times. No events give two empty maps.
    pub fn process_events(raw_events: Vec<Event>) -> (result: ProcessedEventsResult)
        ensures
            result@ == grid(raw_events.deep_view()),
    {
        let ghost events = raw_events.deep_view();
        let mut processed_events: Vec<ProcessedEvent> = Vec::with_capacity(raw_events.len());
        let mut i: usize = 0;
        while i < raw_events.len()
            invariant
                i <= raw_events.len(),
                processed_events.len() == i,
                forall|k: int| 0 <= k < i ==> (#[trigger] processed_events[k])@ == unplaced(raw_events[k]@),
            decreases raw_events.len() - i,
        {
            processed_events.push(Self::event_to_processed_event(raw_events[i].clone()));
            i += 1;
        }
        assert(processed_events.deep_view() =~= prepared(events));
        let (mut events_by_day, no_time_events_by_day) = Self::group_events_by_day(processed_events);
        let ghost timed = by_day(prepared(events), true);
        let mut day: u8 = 0;
        while day < 7
            invariant
                day <= 7,
                timed == by_day(prepared(events), true),
                forall|d: u8| events_by_day@.contains_key(d) <==> timed.contains_key(d),
                forall|d: u8|
                    events_by_day@.contains_key(d) && d < day ==> (#[trigger] events_by_day@[d]).deep_view()
                        == positioning(overlap_groups(timed[d])),
                forall|d: u8|
                    events_by_day@.contains_key(d) && d >= day ==> (#[trigger] events_by_day@[d]).deep_view()
                        == timed[d],
            decreases 7 - day,
        {
            let taken = events_by_day.remove(&day);
            if let Some(mut day_events) = taken {
                Self::calculate_overlap_groups(&mut day_events);
                Self::calculate_positioning(&mut day_events);
                events_by_day.insert(day, day_events);
            }
            day += 1;
        }
        let result = ProcessedEventsResult { events_by_day, no_time_events_by_day };
        assert(result@.events_by_day =~= grid(events).events_by_day);
        result
    }
}

} // verus!
