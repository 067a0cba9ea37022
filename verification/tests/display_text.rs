use class_scheduler::objects::{Class, TimeBlock, WeeklyTimeSlot};

const NONE: WeeklyTimeSlot = ((-1, -1), false);

fn block(section: &str, days: [WeeklyTimeSlot; 5]) -> TimeBlock {
    TimeBlock { section: section.to_string(), location: "EB2 1231".to_string(), days, instructor: "Doe".to_string() }
}

fn class_of(blocks: Vec<TimeBlock>) -> Class {
    Class { code: "CSC".to_string(), name: "216".to_string(), description: "Software".to_string(), classes: blocks }
}

#[test]
fn a_section_is_written_on_one_line() {
    let class = class_of(vec![block("001", [((900, 1015), true), NONE, ((900, 1015), true), NONE, NONE])]);
    assert_eq!(
        class.to_string(),
        "CSC, 216, <001, [0900-1015  NA 0900-1015  NA  NA ], EB2 1231, Doe>, Software"
    );
}

#[test]
fn meeting_patterns_are_joined_by_an_ampersand() {
    let class = class_of(vec![
        block("001", [NONE, ((1330, 1445), true), NONE, ((1330, 1445), true), NONE]),
        block("201", [NONE, NONE, NONE, NONE, ((800, 950), true)]),
    ]);
    assert_eq!(
        class.to_string(),
        "CSC, 216, <001, [ NA 1330-1445  NA 1330-1445  NA ], EB2 1231, Doe & 201, [ NA  NA  NA  NA 0800-0950 ], EB2 1231, Doe>, Software"
    );
}

#[test]
fn a_section_without_patterns_has_empty_brackets() {
    assert_eq!(class_of(vec![]).to_string(), "CSC, 216, <>, Software");
}

#[test]
fn times_are_padded_to_four_characters_behind_the_sign() {
    let class = class_of(vec![block(
        "1",
        [((0, 5), true), ((-1, -1), true), ((12345, -12), true), ((i32::MIN, i32::MAX), true), ((-1000, 99), true)],
    )]);
    assert_eq!(
        class.to_string(),
        "CSC, 216, <1, [0000-0005 -001--001 12345--012 -2147483648-2147483647 -1000-0099 ], EB2 1231, Doe>, Software"
    );
    assert_eq!(format!("{:04}-{:04} ", -1, -1), "-001--001 ");
    assert_eq!(format!("{:04}", -12), "-012");
    assert_eq!(format!("{:04}", 12345), "12345");
}
