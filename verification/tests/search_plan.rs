use class_scheduler::objects::{Class, ClassParam, EventParam, ScrapeClassesParameters, TimeBlock, WeeklyTimeSlot};
use class_scheduler::scrape_plan::{
    build_schedules, cache_name, check_request, combine_results, plan_scrape, section_id, SearchError,
};

const NOT_MEETING: WeeklyTimeSlot = ((-1, -1), false);

fn course(code: &str, number: &str) -> ClassParam {
    ClassParam {
        id: format!("{}{}", code, number),
        code: code.to_string(),
        name: number.to_string(),
        section: String::new(),
        instructor: String::new(),
    }
}

fn tuesday(code: &str, section: &str, start: i32, end: i32) -> Class {
    let mut days = [NOT_MEETING; 5];
    days[1] = ((start, end), true);
    Class {
        code: code.to_string(),
        name: "200".to_string(),
        description: String::new(),
        classes: vec![TimeBlock {
            section: section.to_string(),
            location: "Hall".to_string(),
            days,
            instructor: "Staff".to_string(),
        }],
    }
}

fn labels(groups: &Vec<Vec<Class>>) -> Vec<Vec<String>> {
    groups
        .iter()
        .map(|group| group.iter().map(|class| format!("{}{}", class.code, class.classes[0].section)).collect())
        .collect()
}

#[test]
fn a_search_needs_a_course() {
    let empty = ScrapeClassesParameters { params_checkbox: [true; 3], classes: vec![], events: vec![] };
    assert_eq!(check_request(&empty), Err(SearchError::NoClasses));
    assert_eq!(SearchError::NoClasses.message(), "No classes set to scrape");
    let one = ScrapeClassesParameters { params_checkbox: [true; 3], classes: vec![course("CSC", "116")], events: vec![] };
    assert_eq!(check_request(&one), Ok(()));
}

#[test]
fn sections_are_kept_under_the_name_of_their_course() {
    assert_eq!(cache_name(&course("CSC", "116")), "CSC116");
    assert_eq!(cache_name(&course("", "")), "");
    let mut lecture_and_lab = tuesday("CSC", "001", 900, 1000);
    lecture_and_lab.classes.push(TimeBlock {
        section: "201".to_string(),
        location: "Lab".to_string(),
        days: [NOT_MEETING; 5],
        instructor: "Staff".to_string(),
    });
    assert_eq!(section_id(&lecture_and_lab), "CSC200/001/201");
    assert_eq!(section_id(&tuesday("MA", "002", 900, 1000)), "MA200/002");
    let bare = Class { code: "PY".to_string(), name: "205".to_string(), description: String::new(), classes: vec![] };
    assert_eq!(section_id(&bare), "PY205");
}

#[test]
fn only_courses_without_known_sections_are_looked_up() {
    let classes = vec![course("A", "1"), course("B", "2"), course("C", "3"), course("D", "4")];
    let known = vec![vec![], vec![tuesday("B", "1", 900, 1000)], vec![], vec![tuesday("D", "1", 900, 1000)]];
    let (to_scrape, places) = plan_scrape(&classes, &known);
    assert_eq!(places, vec![0, 2]);
    assert_eq!(to_scrape, vec![course("A", "1"), course("C", "3")]);
    let (to_scrape, places) = plan_scrape(&vec![course("B", "2")], &vec![vec![tuesday("B", "1", 900, 1000)]]);
    assert!(to_scrape.is_empty());
    assert!(places.is_empty());
    let (to_scrape, places) = plan_scrape(&Vec::new(), &Vec::new());
    assert!(to_scrape.is_empty());
    assert!(places.is_empty());
}

#[test]
fn a_course_without_a_group_of_known_sections_is_looked_up() {
    let classes = vec![course("A", "1"), course("B", "2"), course("C", "3")];
    let known = vec![vec![tuesday("A", "1", 900, 1000)]];
    let (to_scrape, places) = plan_scrape(&classes, &known);
    assert_eq!(places, vec![1, 2]);
    assert_eq!(to_scrape, vec![course("B", "2"), course("C", "3")]);
    let known = vec![vec![tuesday("A", "1", 900, 1000)], vec![tuesday("X", "1", 900, 1000)]];
    let (to_scrape, places) = plan_scrape(&vec![course("A", "1")], &known);
    assert!(to_scrape.is_empty());
    assert!(places.is_empty());
}

#[test]
fn what_was_looked_up_takes_its_place_among_what_was_known() {
    let known = vec![vec![], vec![tuesday("B", "1", 900, 1000)], vec![]];
    let scraped = vec![vec![tuesday("A", "1", 900, 1000), tuesday("A", "2", 900, 1000)], vec![tuesday("C", "1", 900, 1000)]];
    let combined = combine_results(known, &scraped, &vec![0, 2]);
    assert_eq!(labels(&combined), vec![vec!["A1".to_string(), "A2".to_string()], vec!["B1".to_string()], vec!["C1".to_string()]]);
    assert_eq!(combined[0][1], tuesday("A", "2", 900, 1000));
}

#[test]
fn a_group_without_a_place_is_left_out() {
    let known = vec![vec![], vec![]];
    let scraped = vec![vec![tuesday("A", "1", 900, 1000)], vec![tuesday("X", "1", 900, 1000)], vec![tuesday("Y", "1", 900, 1000)]];
    let combined = combine_results(known, &scraped, &vec![1, 5]);
    assert_eq!(labels(&combined), vec![vec![], vec!["A1".to_string()]]);
    let combined = combine_results(vec![vec![tuesday("K", "1", 900, 1000)]], &Vec::new(), &vec![0]);
    assert_eq!(labels(&combined), vec![vec!["K1".to_string()]]);
}

#[test]
fn schedules_are_built_from_what_filtering_leaves() {
    let parameters = ScrapeClassesParameters {
        params_checkbox: [true, false, true],
        classes: vec![course("A", "200"), course("B", "200")],
        events: vec![EventParam { time: (1200, 1300), days: [false, true, false, false, false] }],
    };
    let groups = vec![
        vec![tuesday("A", "1", 900, 1000), tuesday("A", "2", 1230, 1330)],
        vec![tuesday("B", "1", 930, 1030), tuesday("B", "2", 1000, 1100)],
    ];
    let schedules = build_schedules(groups, &parameters).unwrap();
    assert_eq!(labels(&schedules), vec![vec!["A1".to_string(), "B2".to_string()]]);
}

#[test]
fn a_search_that_finds_no_schedule_still_has_a_result() {
    let parameters = ScrapeClassesParameters {
        params_checkbox: [true, false, true],
        classes: vec![course("A", "200"), course("B", "200")],
        events: vec![],
    };
    let groups = vec![vec![tuesday("A", "1", 900, 1000)], vec![tuesday("B", "1", 930, 1030)]];
    assert_eq!(build_schedules(groups, &parameters), Some(Vec::new()));
    let groups = vec![vec![tuesday("A", "1", 900, 1000)], vec![]];
    assert_eq!(build_schedules(groups, &parameters), Some(Vec::new()));
}

#[test]
fn nothing_left_after_filtering_ends_the_search_without_a_result() {
    let parameters = ScrapeClassesParameters {
        params_checkbox: [true, false, true],
        classes: vec![course("A", "200")],
        events: vec![EventParam { time: (0, 2400), days: [true; 5] }],
    };
    assert_eq!(build_schedules(vec![vec![tuesday("A", "1", 900, 1000)]], &parameters), None);
    assert_eq!(build_schedules(Vec::new(), &parameters), None);
    let none = ScrapeClassesParameters { params_checkbox: [true; 3], classes: vec![], events: vec![] };
    assert_eq!(build_schedules(vec![vec![tuesday("A", "1", 900, 1000)]], &none), None);
}
