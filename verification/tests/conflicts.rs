use class_scheduler::conflict::{
    conflicts, section_conflicts_with_blocked, sections_conflict, time_blocks_conflict, validate_time_ok,
};
use class_scheduler::objects::{Class, EventParam, TimeBlock, WeeklyTimeSlot};

const OFF: WeeklyTimeSlot = ((-1, -1), false);

fn block_on(day: usize, start: i32, end: i32) -> TimeBlock {
    let mut days = [OFF; 5];
    days[day] = ((start, end), true);
    TimeBlock { section: "001".to_string(), location: "Hall".to_string(), days, instructor: "Staff".to_string() }
}

fn section_of(blocks: Vec<TimeBlock>) -> Class {
    Class { code: "CSC".to_string(), name: "116".to_string(), description: String::new(), classes: blocks }
}

#[test]
fn touching_slots_do_not_conflict() {
    assert!(!conflicts(((900, 1000), true), ((1000, 1100), true)));
    assert!(!conflicts(((1000, 1100), true), ((900, 1000), true)));
}

#[test]
fn overlapping_slots_conflict() {
    assert!(conflicts(((900, 1000), true), ((930, 1030), true)));
    assert!(conflicts(((930, 1030), true), ((900, 1000), true)));
    assert!(conflicts(((900, 1200), true), ((1000, 1100), true)));
    assert!(conflicts(((900, 1000), true), ((900, 1000), true)));
    assert!(conflicts(((900, 1000), true), ((959, 1001), true)));
}

#[test]
fn an_inactive_slot_never_conflicts() {
    assert!(!conflicts(((900, 1000), false), ((900, 1000), true)));
    assert!(!conflicts(((900, 1000), true), ((900, 1000), false)));
    assert!(!conflicts(((900, 1000), false), ((900, 1000), false)));
}

#[test]
fn a_slot_with_an_unread_time_never_conflicts() {
    assert!(!conflicts(((-1, 1000), true), ((900, 1000), true)));
    assert!(!conflicts(((900, -1), true), ((900, 1000), true)));
    assert!(!conflicts(((900, 1000), true), ((-1, -1), true)));
    assert!(!conflicts(((900, 1000), true), ((-1, 2000), true)));
}

#[test]
fn blocks_conflict_only_on_a_shared_day() {
    assert!(time_blocks_conflict(&block_on(0, 900, 1000), &block_on(0, 930, 1030)));
    assert!(!time_blocks_conflict(&block_on(0, 900, 1000), &block_on(1, 930, 1030)));
    assert!(time_blocks_conflict(&block_on(4, 900, 1000), &block_on(4, 930, 1030)));
}

#[test]
fn sections_conflict_through_any_pair_of_blocks() {
    let lecture_and_lab = section_of(vec![block_on(0, 900, 1000), block_on(2, 1400, 1600)]);
    let other = section_of(vec![block_on(1, 900, 1000), block_on(2, 1500, 1530)]);
    let clear = section_of(vec![block_on(1, 900, 1000), block_on(2, 1600, 1700)]);
    assert!(sections_conflict(&lecture_and_lab, &other));
    assert!(sections_conflict(&other, &lecture_and_lab));
    assert!(!sections_conflict(&lecture_and_lab, &clear));
    assert!(!sections_conflict(&section_of(vec![]), &lecture_and_lab));
}

#[test]
fn a_busy_span_blocks_only_on_its_days_and_only_by_overlap() {
    let monday_morning = EventParam { time: (800, 1000), days: [true, false, false, false, false] };
    let busy = vec![monday_morning];
    assert!(!validate_time_ok(&busy, &block_on(0, 900, 1000).days));
    assert!(validate_time_ok(&busy, &block_on(1, 900, 1000).days));
    assert!(validate_time_ok(&busy, &block_on(0, 1000, 1100).days));
    assert!(validate_time_ok(&busy, &block_on(0, 700, 800).days));
    assert!(!validate_time_ok(&busy, &block_on(0, 700, 801).days));
    assert!(validate_time_ok(&Vec::new(), &block_on(0, 900, 1000).days));
}

#[test]
fn a_section_is_blocked_through_any_of_its_blocks() {
    let busy = vec![
        EventParam { time: (1200, 1300), days: [true, true, true, true, true] },
        EventParam { time: (1700, 1800), days: [false, false, false, false, true] },
    ];
    let free = section_of(vec![block_on(0, 900, 1000), block_on(4, 1300, 1400)]);
    let lunch = section_of(vec![block_on(0, 900, 1000), block_on(3, 1230, 1330)]);
    let friday = section_of(vec![block_on(4, 1730, 1830)]);
    let thursday = section_of(vec![block_on(3, 1730, 1830)]);
    assert!(!section_conflicts_with_blocked(&free, &busy));
    assert!(section_conflicts_with_blocked(&lunch, &busy));
    assert!(section_conflicts_with_blocked(&friday, &busy));
    assert!(!section_conflicts_with_blocked(&thursday, &busy));
}
