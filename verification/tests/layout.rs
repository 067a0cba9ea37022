use class_scheduler::event_processor::{EventProcessor, Percent, ProcessedEvent, ProcessedEventsResult};
use class_scheduler::objects::Event;

fn event(id: &str, start: i32, end: i32, day: i32) -> Event {
    Event {
        id: id.to_string(),
        title: format!("Event {}", id),
        start_time: start,
        end_time: end,
        day,
        professor: "Prof".to_string(),
        description: "About".to_string(),
    }
}

fn percent(numerator: i128, denominator: i128) -> Percent {
    Percent { numerator, denominator }
}

fn ids(bucket: &Vec<ProcessedEvent>) -> Vec<String> {
    bucket.iter().map(|event| event.id.clone()).collect()
}

fn process(events: &Vec<Event>) -> ProcessedEventsResult {
    EventProcessor::process_events(events.iter().map(|e| e.clone()).collect())
}

#[test]
fn times_are_formatted_with_four_digits() {
    assert_eq!(EventProcessor::format_time_int_to_string(930), "09:30");
    assert_eq!(EventProcessor::format_time_int_to_string(1330), "13:30");
    assert_eq!(EventProcessor::format_time_int_to_string(5), "00:05");
    assert_eq!(EventProcessor::format_time_int_to_string(45), "00:45");
    assert_eq!(EventProcessor::format_time_int_to_string(2359), "23:59");
    assert_eq!(EventProcessor::format_time_int_to_string(9999), "99:99");
}

#[test]
fn no_time_is_formatted_as_midnight() {
    assert_eq!(EventProcessor::format_time_int_to_string(0), "00:00");
    assert_eq!(EventProcessor::format_time_int_to_string(-1), "00:00");
    assert_eq!(EventProcessor::format_time_int_to_string(i32::MIN), "00:00");
}

#[test]
fn of_a_longer_number_the_first_four_digits_are_formatted() {
    assert_eq!(EventProcessor::format_time_int_to_string(12345), "12:34");
    assert_eq!(EventProcessor::format_time_int_to_string(10000), "10:00");
    assert_eq!(EventProcessor::format_time_int_to_string(i32::MAX), "21:47");
}

#[test]
fn minutes_are_counted_from_eight_in_the_morning() {
    assert_eq!(EventProcessor::get_minutes_since_start(800), 0);
    assert_eq!(EventProcessor::get_minutes_since_start(930), 90);
    assert_eq!(EventProcessor::get_minutes_since_start(2000), 720);
    assert_eq!(EventProcessor::get_minutes_since_start(700), -60);
    assert_eq!(EventProcessor::get_minutes_since_start(1), -479);
    assert_eq!(EventProcessor::get_minutes_since_start(0), 0);
    assert_eq!(EventProcessor::get_minutes_since_start(-5), 0);
    assert_eq!(EventProcessor::get_minutes_since_start(1099), 10 * 60 + 99 - 480);
    assert_eq!(EventProcessor::get_minutes_since_start(i32::MAX), 21474836 * 60 + 47 - 480);
}

#[test]
fn an_event_enters_the_layout_alone_at_the_top() {
    let processed = EventProcessor::event_to_processed_event(event("a", 930, -3, 2));
    assert_eq!(processed.id, "a");
    assert_eq!(processed.title, "Event a");
    assert_eq!(processed.start_time, 930);
    assert_eq!(processed.end_time, -3);
    assert_eq!(processed.day, 2);
    assert_eq!(processed.professor, "Prof");
    assert_eq!(processed.description, "About");
    assert_eq!(processed.start_time_int, 930);
    assert_eq!(processed.end_time_int, 0);
    assert_eq!(processed.start_time_formatted, "09:30");
    assert_eq!(processed.end_time_formatted, "00:00");
    assert_eq!(processed.width, percent(100, 1));
    assert_eq!(processed.left, percent(0, 1));
    assert_eq!(processed.top_position, percent(0, 1));
    assert_eq!(processed.height_position, percent(0, 1));
    assert!(!EventProcessor::has_valid_time(&processed));
    assert!(EventProcessor::has_valid_time(&EventProcessor::event_to_processed_event(event("b", 1, 1, 0))));
    assert!(!EventProcessor::has_valid_time(&EventProcessor::event_to_processed_event(event("c", 0, 900, 0))));
}

#[test]
fn no_events_give_two_empty_maps() {
    let result = EventProcessor::process_events(Vec::new());
    assert!(result.events_by_day.is_empty());
    assert!(result.no_time_events_by_day.is_empty());
}

#[test]
fn an_event_appears_on_each_of_its_days() {
    let result = EventProcessor::process_events(vec![event("a", 900, 1000, 0b0001010)]);
    let mut days: Vec<u8> = result.events_by_day.keys().map(|day| *day).collect();
    days.sort();
    assert_eq!(days, vec![1, 3]);
    assert!(result.no_time_events_by_day.is_empty());
    let monday = &result.events_by_day[&1];
    let wednesday = &result.events_by_day[&3];
    assert_eq!(monday.len(), 1);
    assert_eq!(wednesday.len(), 1);
    assert_eq!(monday[0], wednesday[0]);
    assert_eq!(monday[0].id, "a");
    assert_eq!(monday[0].day, 0b0001010);
    assert_eq!(monday[0].start_time_formatted, "09:00");
    assert_eq!(monday[0].end_time_formatted, "10:00");
}

#[test]
fn bits_beyond_saturday_are_ignored() {
    let result = EventProcessor::process_events(vec![event("a", 900, 1000, 0b110000000), event("b", 900, 1000, -1)]);
    let mut days: Vec<u8> = result.events_by_day.keys().map(|day| *day).collect();
    days.sort();
    assert_eq!(days, vec![0, 1, 2, 3, 4, 5, 6]);
    for day in 0..7u8 {
        assert_eq!(ids(&result.events_by_day[&day]), vec!["b".to_string()]);
    }
    assert!(EventProcessor::occurs_on_day(64, 6));
    assert!(!EventProcessor::occurs_on_day(64, 5));
    assert!(EventProcessor::occurs_on_day(-1, 0));
    assert!(!EventProcessor::occurs_on_day(0, 0));
    assert!(!EventProcessor::occurs_on_day(-1, 7));
    assert!(!EventProcessor::occurs_on_day(128, 7));
    assert!(!EventProcessor::occurs_on_day(-1, 200));
}

#[test]
fn events_without_a_time_go_to_their_own_buckets_unplaced() {
    let result = EventProcessor::process_events(vec![event("a", 0, 0, 1), event("b", 900, 0, 1), event("c", 900, 1000, 1), event("d", -1, 1000, 65)]);
    assert_eq!(ids(&result.events_by_day[&0]), vec!["c".to_string()]);
    assert_eq!(result.events_by_day.len(), 1);
    assert_eq!(ids(&result.no_time_events_by_day[&0]), vec!["a".to_string(), "b".to_string(), "d".to_string()]);
    assert_eq!(ids(&result.no_time_events_by_day[&6]), vec!["d".to_string()]);
    assert_eq!(result.no_time_events_by_day.len(), 2);
    let unplaced = &result.no_time_events_by_day[&0][1];
    assert_eq!(unplaced.start_time_int, 900);
    assert_eq!(unplaced.end_time_int, 0);
    assert_eq!(unplaced.width, percent(100, 1));
    assert_eq!(unplaced.left, percent(0, 1));
    assert_eq!(unplaced.top_position, percent(0, 1));
    assert_eq!(unplaced.height_position, percent(0, 1));
}

#[test]
fn overlapping_events_share_the_width_of_the_day() {
    let result = EventProcessor::process_events(vec![
        event("late", 1300, 1400, 2),
        event("second", 930, 1030, 2),
        event("first", 900, 1000, 2),
        event("third", 1015, 1100, 2),
    ]);
    let monday = &result.events_by_day[&1];
    assert_eq!(ids(monday), vec!["first".to_string(), "second".to_string(), "third".to_string(), "late".to_string()]);
    assert_eq!(monday[0].width, percent(100, 3));
    assert_eq!(monday[0].left, percent(0, 3));
    assert_eq!(monday[1].width, percent(100, 3));
    assert_eq!(monday[1].left, percent(100, 3));
    assert_eq!(monday[2].width, percent(100, 3));
    assert_eq!(monday[2].left, percent(200, 3));
    assert_eq!(monday[3].width, percent(100, 1));
    assert_eq!(monday[3].left, percent(0, 1));
}

#[test]
fn a_cluster_reaches_as_far_as_its_latest_end() {
    let result = EventProcessor::process_events(vec![
        event("long", 900, 1200, 4),
        event("short", 930, 1000, 4),
        event("inside", 1100, 1130, 4),
        event("after", 1200, 1300, 4),
    ]);
    let tuesday = &result.events_by_day[&2];
    assert_eq!(ids(tuesday), vec!["long".to_string(), "short".to_string(), "inside".to_string(), "after".to_string()]);
    assert_eq!(tuesday[2].width, percent(100, 3));
    assert_eq!(tuesday[2].left, percent(200, 3));
    assert_eq!(tuesday[3].width, percent(100, 1));
    assert_eq!(tuesday[3].left, percent(0, 1));
}

#[test]
fn events_that_start_together_keep_their_order() {
    let result = EventProcessor::process_events(vec![
        event("x", 1000, 1100, 8),
        event("y", 900, 930, 8),
        event("z", 1000, 1030, 8),
        event("w", 900, 1000, 8),
    ]);
    let wednesday = &result.events_by_day[&3];
    assert_eq!(ids(wednesday), vec!["y".to_string(), "w".to_string(), "x".to_string(), "z".to_string()]);
    assert_eq!(wednesday[0].width, percent(100, 2));
    assert_eq!(wednesday[1].left, percent(100, 2));
    assert_eq!(wednesday[2].width, percent(100, 2));
    assert_eq!(wednesday[2].left, percent(0, 2));
    assert_eq!(wednesday[3].left, percent(100, 2));
}

#[test]
fn events_are_placed_by_their_minutes_in_the_window() {
    let result = EventProcessor::process_events(vec![
        event("morning", 800, 930, 32),
        event("noon", 1200, 1300, 32),
        event("early", 700, 730, 32),
        event("backwards", 1500, 1400, 32),
        event("evening", 1930, 2100, 32),
    ]);
    let friday = &result.events_by_day[&5];
    assert_eq!(
        ids(friday),
        vec!["early".to_string(), "morning".to_string(), "noon".to_string(), "backwards".to_string(), "evening".to_string()]
    );
    assert_eq!(friday[0].top_position, percent(-6000, 720));
    assert_eq!(friday[0].height_position, percent(3000, 720));
    assert_eq!(friday[1].top_position, percent(0, 720));
    assert_eq!(friday[1].height_position, percent(9000, 720));
    assert_eq!(friday[2].top_position, percent(24000, 720));
    assert_eq!(friday[2].height_position, percent(6000, 720));
    assert_eq!(friday[3].top_position, percent(42000, 720));
    assert_eq!(friday[3].height_position, percent(0, 720));
    assert_eq!(friday[4].top_position, percent(69000, 720));
    assert_eq!(friday[4].height_position, percent(9000, 720));
}

#[test]
fn the_layout_of_the_same_events_is_the_same() {
    let events = vec![
        event("a", 900, 1000, 127),
        event("b", 930, 1100, 42),
        event("c", 0, 0, 3),
        event("d", 1000, 1200, 10),
        event("e", 1000, 1030, 64),
    ];
    let first = process(&events);
    let second = process(&events);
    assert_eq!(first, second);
    assert_eq!(first.events_by_day.len(), 7);
    assert_eq!(first.no_time_events_by_day.len(), 2);
}

#[test]
fn a_day_is_sorted_and_placed_step_by_step() {
    let mut day: Vec<ProcessedEvent> = vec![
        EventProcessor::event_to_processed_event(event("b", 1000, 1100, 1)),
        EventProcessor::event_to_processed_event(event("a", 900, 1030, 1)),
    ];
    EventProcessor::sort_by_start(&mut day);
    assert_eq!(ids(&day), vec!["a".to_string(), "b".to_string()]);
    assert_eq!(day[0].width, percent(100, 1));
    EventProcessor::calculate_overlap_groups(&mut day);
    assert_eq!(day[0].width, percent(100, 2));
    assert_eq!(day[1].left, percent(100, 2));
    assert_eq!(day[0].top_position, percent(0, 1));
    EventProcessor::calculate_positioning(&mut day);
    assert_eq!(day[0].top_position, percent(6000, 720));
    assert_eq!(day[0].height_position, percent(9000, 720));
    assert_eq!(day[1].top_position, percent(12000, 720));
    assert_eq!(day[1].width, percent(100, 2));
    let (timed, untimed) = EventProcessor::group_events_by_day(day);
    assert_eq!(timed.len(), 1);
    assert_eq!(ids(&timed[&0]), vec!["a".to_string(), "b".to_string()]);
    assert!(untimed.is_empty());
}
