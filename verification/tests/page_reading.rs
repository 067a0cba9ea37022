use class_scheduler::page_text::{extract_text_after, full_description, location_of, meeting_days};
use class_scheduler::schedule_scrape::{extract_location, extract_text_after as extract_between};

#[test]
fn the_part_between_two_markers_is_taken_out_trimmed() {
    let dialog = "Units: 3 \nPrerequisite:  CSC 116 or 126\nDescription: Objects</div>";
    assert_eq!(extract_text_after(dialog, "Units:", "\n"), "3");
    assert_eq!(extract_text_after(dialog, "Prerequisite:", "\n"), "CSC 116 or 126");
    assert_eq!(extract_text_after(dialog, "Description", "</div>"), ": Objects");
    assert_eq!(extract_text_after("Engineering Building II (EB2) 1231", "(", ")"), "EB2");
}

#[test]
fn markers_are_found_whatever_their_case() {
    assert_eq!(extract_text_after("UNITS: 4\n", "units:", "\n"), "4");
    assert_eq!(extract_text_after("a<B>c</b>d", "<b>", "</B>"), "c");
}

#[test]
fn without_the_first_marker_nothing_is_taken() {
    assert_eq!(extract_text_after("Credits: 3\n", "Units:", "\n"), "");
    assert_eq!(extract_text_after("", "Units:", "\n"), "");
    assert_eq!(extract_between("units: 3\n", "Units:", "\n"), "");
}

#[test]
fn without_the_second_marker_the_rest_is_taken() {
    assert_eq!(extract_text_after("Units:   3  ", "Units:", "\n"), "3");
    assert_eq!(extract_text_after("Units:", "Units:", "\n"), "");
    assert_eq!(extract_between("Units: 3 credits", "Units:", "\n"), "3 credits");
}

#[test]
fn the_second_marker_is_looked_for_behind_the_first() {
    assert_eq!(extract_text_after(") x ( y ) z", "(", ")"), "y");
    assert_eq!(extract_text_after("aXbXc", "x", "x"), "b");
    assert_eq!(extract_text_after("abc", "", "c"), "ab");
    assert_eq!(extract_text_after("abc", "a", ""), "");
    assert_eq!(extract_between("Units: 3\nMore\n", "Units:", "\n"), "3");
}

#[test]
fn weekdays_are_found_by_their_short_names() {
    assert_eq!(meeting_days("Mon Wed Fri"), [true, false, true, false, true]);
    assert_eq!(meeting_days("Tue Thu"), [false, true, false, true, false]);
    assert_eq!(meeting_days("<span>MonTueWedThuFri</span>"), [true; 5]);
    assert_eq!(meeting_days(""), [false; 5]);
    assert_eq!(meeting_days("mon TUE Sat Sun"), [false; 5]);
}

#[test]
fn a_section_without_days_meets_online() {
    assert_eq!(location_of("Engineering Building II (EB2) 1231", &[false; 5]), "Distance Education - Online");
    assert_eq!(location_of("Engineering Building II (EB2) 1231", &[false, false, false, false, true]), "EB2");
    assert_eq!(location_of("Somewhere", &[true, false, false, false, false]), "");
    assert_eq!(location_of("Hall ( 2nd floor ", &[true, false, false, false, false]), "2nd floor");
}

#[test]
fn the_description_names_units_and_prerequisites() {
    assert_eq!(
        full_description("3", "CSC 116", "Objects and classes"),
        "Units: 3 | Prerequisites: CSC 116 | Description: Objects and classes"
    );
    assert_eq!(full_description("", "", ""), "Units:  | Prerequisites:  | Description: ");
}

#[test]
fn the_location_is_read_from_its_markup() {
    assert_eq!(extract_location("<b>Distance Education - Online</b>"), "Distance Education - Online");
    assert_eq!(extract_location("<span class=\"show-detail\">EB2 1231</span> more"), "EB2 1231");
    assert_eq!(extract_location("x<span class=\"show-detail\"> a </span>b</span>"), " a ");
    assert_eq!(extract_location("<span class=\"show-detail\">never closed"), "<span class=\"show-detail\">never closed");
    assert_eq!(extract_location("Daniels Hall"), "Daniels Hall");
    assert_eq!(extract_location(""), "");
}
