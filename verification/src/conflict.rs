//! When two weekly time spans, two sections, or a section and the user's busy spans
//! get in each other's way.

use vstd::prelude::*;
use crate::objects::{Class, ClassView, EventParam, EventParamView, TimeBlock, TimeBlockView, WeeklyTimeSlot};

verus! {

/// A slot takes part in conflict checks only if the section meets on that day and both
/// of its times are real times; a negative time stands for one that could not be read.
pub open spec fn slot_takes_part(slot: WeeklyTimeSlot) -> bool {
    slot.1 && slot.0.0 >= 0 && slot.0.1 >= 0
}

/// Two slots of the same weekday conflict if both take part and their spans overlap
/// strictly: each starts before the other ends. Spans that merely touch do not conflict.
pub open spec fn slots_conflict(a: WeeklyTimeSlot, b: WeeklyTimeSlot) -> bool {
    &&& slot_takes_part(a)
    &&& slot_takes_part(b)
    &&& a.0.0 < b.0.1
    &&& b.0.0 < a.0.1
}

/// The slot that a busy span puts on weekday `day`.
pub open spec fn blocked_slot(event: EventParamView, day: int) -> WeeklyTimeSlot {
    (event.time, event.days[day])
}

/// Two weeks conflict if their slots conflict on some weekday.
pub open spec fn weeks_conflict(a: Seq<WeeklyTimeSlot>, b: Seq<WeeklyTimeSlot>) -> bool {
    exists|day: int| 0 <= day < 5 && #[trigger] slots_conflict(a[day], b[day])
}

/// A week is blocked by a busy span if on some weekday its slot conflicts with the
/// slot that the span puts there.
pub open spec fn week_blocked_by(week: Seq<WeeklyTimeSlot>, event: EventParamView) -> bool {
    exists|day: int| 0 <= day < 5 && #[trigger] slots_conflict(week[day], blocked_slot(event, day))
}

/// A week is blocked if one of the busy spans blocks it.
pub open spec fn week_blocked(week: Seq<WeeklyTimeSlot>, blocked: Seq<EventParamView>) -> bool {
    exists|e: int| 0 <= e < blocked.len() && week_blocked_by(week, #[trigger] blocked[e])
}

impl TimeBlockView {
    /// This meeting pattern has a weekday on which it meets.
    pub open spec fn meets(self) -> bool {
        exists|day: int| 0 <= day < 5 && (#[trigger] self.days[day]).1
    }
}

impl ClassView {
    /// Two sections conflict if any meeting pattern of one conflicts with any of the other.
    pub open spec fn conflicts_with(self, other: ClassView) -> bool {
        exists|i: int, j: int|
            0 <= i < self.classes.len() && 0 <= j < other.classes.len() && weeks_conflict(
                (#[trigger] self.classes[i]).days,
                (#[trigger] other.classes[j]).days,
            )
    }

    /// A section is blocked if any of its meeting patterns is.
    pub open spec fn blocked_by(self, blocked: Seq<EventParamView>) -> bool {
        exists|i: int|
            0 <= i < self.classes.len() && week_blocked((#[trigger] self.classes[i]).days, blocked)
    }

    /// A section has a schedule if it meets on at least one weekday.
    pub open spec fn has_active_slot(self) -> bool {
        exists|i: int| 0 <= i < self.classes.len() && (#[trigger] self.classes[i]).meets()
    }
}

/// Whether two slots of the same weekday conflict.
pub fn conflicts(a: WeeklyTimeSlot, b: WeeklyTimeSlot) -> (hit: bool)
    ensures
        hit == slots_conflict(a, b),
{
    if !a.1 || !b.1 {
        return false;
    }
    if a.0.0 < 0 || a.0.1 < 0 || b.0.0 < 0 || b.0.1 < 0 {
        return false;
    }
    a.0.0 < b.0.1 && b.0.0 < a.0.1
}

/// Whether two weeks conflict on some weekday.
pub fn time_blocks_conflict(a: &TimeBlock, b: &TimeBlock) -> (hit: bool)
    ensures
        hit == weeks_conflict(a@.days, b@.days),
{
    let mut day: usize = 0;
    while day < 5
        invariant
            day <= 5,
            forall|d: int| 0 <= d < day ==> !slots_conflict(#[trigger] a@.days[d], b@.days[d]),
        decreases 5 - day,
    {
        if conflicts(a.days[day], b.days[day]) {
            return true;
        }
        day += 1;
    }
    false
}

/// Whether two sections conflict: some meeting pattern of one overlaps some meeting
/// pattern of the other on a shared weekday.
pub fn sections_conflict(s1: &Class, s2: &Class) -> (hit: bool)
    ensures
        hit == s1@.conflicts_with(s2@),
{
    let mut i: usize = 0;
    while i < s1.classes.len()
        invariant
            i <= s1.classes.len(),
            forall|a: int, b: int|
                0 <= a < i && 0 <= b < s2.classes.len() ==> !weeks_conflict(
                    (#[trigger] s1@.classes[a]).days,
                    (#[trigger] s2@.classes[b]).days,
                ),
        decreases s1.classes.len() - i,
    {
        let mut j: usize = 0;
        while j < s2.classes.len()
            invariant
                i < s1.classes.len(),
                j <= s2.classes.len(),
                forall|b: int|
                    0 <= b < j ==> !weeks_conflict(
                        s1@.classes[i as int].days,
                        (#[trigger] s2@.classes[b]).days,
                    ),
            decreases s2.classes.len() - j,
        {
            assert(s1@.classes[i as int] == s1.classes[i as int]@);
            assert(s2@.classes[j as int] == s2.classes[j as int]@);
            if time_blocks_conflict(&s1.classes[i], &s2.classes[j]) {
                return true;
            }
            j += 1;
        }
        i += 1;
    }
    false
}

/// Whether a week stays clear of every busy span: true when no slot of `days` conflicts
/// with the slot that a span puts on the same weekday.
pub fn validate_time_ok(events: &Vec<EventParam>, days: &[WeeklyTimeSlot; 5]) -> (ok: bool)
    ensures
        ok == !week_blocked(days@, events.deep_view()),
{
    let mut day: usize = 0;
    while day < 5
        invariant
            day <= 5,
            forall|d: int, e: int|
                0 <= d < day && 0 <= e < events.len() ==> !slots_conflict(
                    #[trigger] days@[d],
                    blocked_slot(#[trigger] events.deep_view()[e], d),
                ),
        decreases 5 - day,
    {
        let mut e: usize = 0;
        while e < events.len()
            invariant
                day < 5,
                e <= events.len(),
                forall|k: int|
                    0 <= k < e ==> !slots_conflict(
                        days@[day as int],
                        blocked_slot(#[trigger] events.deep_view()[k], day as int),
                    ),
            decreases events.len() - e,
        {
            let event = &events[e];
            assert(events.deep_view()[e as int] == event@);
            if conflicts(days[day], (event.time, event.days[day])) {
                assert(slots_conflict(days@[day as int], blocked_slot(event@, day as int)));
                assert(week_blocked_by(days@, events.deep_view()[e as int]));
                return false;
            }
            e += 1;
        }
        day += 1;
    }
    true
}

/// Whether a section conflicts with any of the user's busy spans.
pub fn section_conflicts_with_blocked(section: &Class, blocked: &Vec<EventParam>) -> (hit: bool)
    ensures
        hit == section@.blocked_by(blocked.deep_view()),
{
    let mut i: usize = 0;
    while i < section.classes.len()
        invariant
            i <= section.classes.len(),
            forall|k: int|
                0 <= k < i ==> !week_blocked(
                    (#[trigger] section@.classes[k]).days,
                    blocked.deep_view(),
                ),
        decreases section.classes.len() - i,
    {
        assert(section@.classes[i as int] == section.classes[i as int]@);
        if !validate_time_ok(blocked, &section.classes[i].days) {
            return true;
        }
        i += 1;
    }
    false
}

/// Spans that touch, one ending at the very time the other begins, never conflict.
pub proof fn lemma_touching_slots_do_not_conflict(a: WeeklyTimeSlot, b: WeeklyTimeSlot)
    requires
        a.0.1 == b.0.0,
    ensures
        !slots_conflict(a, b),
        !slots_conflict(b, a),
{
}

/// Conflict is mutual: the order of the two sections does not matter.
pub proof fn lemma_conflict_is_symmetric(s1: ClassView, s2: ClassView)
    ensures
        s1.conflicts_with(s2) == s2.conflicts_with(s1),
{
    if s1.conflicts_with(s2) {
        let (i, j) = choose|i: int, j: int|
            0 <= i < s1.classes.len() && 0 <= j < s2.classes.len() && weeks_conflict(
                (#[trigger] s1.classes[i]).days,
                (#[trigger] s2.classes[j]).days,
            );
        lemma_weeks_conflict_is_symmetric(s1.classes[i].days, s2.classes[j].days);
        assert(weeks_conflict(s2.classes[j].days, s1.classes[i].days));
    }
    if s2.conflicts_with(s1) {
        let (j, i) = choose|j: int, i: int|
            0 <= j < s2.classes.len() && 0 <= i < s1.classes.len() && weeks_conflict(
                (#[trigger] s2.classes[j]).days,
                (#[trigger] s1.classes[i]).days,
            );
        lemma_weeks_conflict_is_symmetric(s2.classes[j].days, s1.classes[i].days);
        assert(weeks_conflict(s1.classes[i].days, s2.classes[j].days));
    }
}

proof fn lemma_weeks_conflict_is_symmetric(a: Seq<WeeklyTimeSlot>, b: Seq<WeeklyTimeSlot>)
    ensures
        weeks_conflict(a, b) == weeks_conflict(b, a),
{
    if weeks_conflict(a, b) {
        let d = choose|d: int| 0 <= d < 5 && #[trigger] slots_conflict(a[d], b[d]);
        assert(slots_conflict(b[d], a[d]));
    }
    if weeks_conflict(b, a) {
        let d = choose|d: int| 0 <= d < 5 && #[trigger] slots_conflict(b[d], a[d]);
        assert(slots_conflict(a[d], b[d]));
    }
}

} // verus!
