use class_scheduler::class_combinations::{backtrack, generate_combinations, is_compatible};
use class_scheduler::conflict::sections_conflict;
use class_scheduler::objects::{Class, TimeBlock, WeeklyTimeSlot};

const NO_CLASS: WeeklyTimeSlot = ((-1, -1), false);

fn monday(code: &str, section: &str, start: i32, end: i32) -> Class {
    let mut days = [NO_CLASS; 5];
    days[0] = ((start, end), true);
    Class {
        code: code.to_string(),
        name: "101".to_string(),
        description: String::new(),
        classes: vec![TimeBlock {
            section: section.to_string(),
            location: "Hall".to_string(),
            days,
            instructor: "Staff".to_string(),
        }],
    }
}

fn names(schedules: &Vec<Vec<Class>>) -> Vec<Vec<String>> {
    schedules
        .iter()
        .map(|schedule| schedule.iter().map(|class| format!("{}-{}", class.code, class.classes[0].section)).collect())
        .collect()
}

fn copy_of(class: &Class) -> Class {
    class.clone()
}

#[test]
fn both_sections_of_a_overlap_b_so_no_schedule_exists() {
    let a = vec![monday("A", "1", 900, 1000), monday("A", "2", 1000, 1100)];
    let b = vec![monday("B", "1", 930, 1030)];
    assert!(sections_conflict(&a[0], &b[0]));
    assert!(sections_conflict(&a[1], &b[0]));
    assert!(!sections_conflict(&a[0], &a[1]));
    let schedules = generate_combinations(vec![a, b]);
    assert!(schedules.is_empty());
}

#[test]
fn back_to_back_sections_can_be_taken_together() {
    let a = vec![monday("A", "1", 900, 1000), monday("A", "2", 1000, 1100)];
    let b = vec![monday("B", "1", 1000, 1100)];
    let schedules = generate_combinations(vec![a, b]);
    assert_eq!(names(&schedules), vec![vec!["A-1".to_string(), "B-1".to_string()]]);
}

#[test]
fn every_conflict_free_choice_is_found_and_nothing_else() {
    let a = vec![monday("A", "1", 900, 1000), monday("A", "2", 1100, 1200)];
    let b = vec![monday("B", "1", 930, 1030), monday("B", "2", 1130, 1230)];
    let mut expected: Vec<Vec<String>> = Vec::new();
    for first in a.iter() {
        for second in b.iter() {
            if !sections_conflict(first, second) {
                expected.push(vec![
                    format!("{}-{}", first.code, first.classes[0].section),
                    format!("{}-{}", second.code, second.classes[0].section),
                ]);
            }
        }
    }
    assert_eq!(
        expected,
        vec![vec!["A-1".to_string(), "B-2".to_string()], vec!["A-2".to_string(), "B-1".to_string()]]
    );
    let schedules = generate_combinations(vec![a, b]);
    assert_eq!(names(&schedules), expected);
}

#[test]
fn schedules_come_in_search_order_with_whole_sections() {
    let a = vec![monday("A", "1", 800, 900), monday("A", "2", 900, 1000)];
    let b = vec![monday("B", "1", 1000, 1100), monday("B", "2", 1100, 1200)];
    let c = vec![monday("C", "1", 1200, 1300)];
    let first_a = copy_of(&a[0]);
    let schedules = generate_combinations(vec![a, b, c]);
    assert_eq!(
        names(&schedules),
        vec![
            vec!["A-1".to_string(), "B-1".to_string(), "C-1".to_string()],
            vec!["A-1".to_string(), "B-2".to_string(), "C-1".to_string()],
            vec!["A-2".to_string(), "B-1".to_string(), "C-1".to_string()],
            vec!["A-2".to_string(), "B-2".to_string(), "C-1".to_string()],
        ]
    );
    assert_eq!(schedules[0][0], first_a);
    for schedule in schedules.iter() {
        assert_eq!(schedule.len(), 3);
        for i in 0..schedule.len() {
            for j in 0..schedule.len() {
                if i != j {
                    assert!(!sections_conflict(&schedule[i], &schedule[j]));
                }
            }
        }
    }
}

#[test]
fn sections_that_never_conflict_give_the_whole_product() {
    let mut groups: Vec<Vec<Class>> = Vec::new();
    for course in 0..4 {
        let mut group = Vec::new();
        for section in 0..5 {
            let start = 800 + 100 * course;
            group.push(monday(&format!("C{}", course), &format!("{}", section), start, start + 50));
        }
        groups.push(group);
    }
    let schedules = generate_combinations(groups);
    assert_eq!(schedules.len(), 5 * 5 * 5 * 5);
    assert_eq!(names(&schedules)[0], vec!["C0-0".to_string(), "C1-0".to_string(), "C2-0".to_string(), "C3-0".to_string()]);
    assert_eq!(names(&schedules)[1], vec!["C0-0".to_string(), "C1-0".to_string(), "C2-0".to_string(), "C3-1".to_string()]);
    assert_eq!(names(&schedules)[624], vec!["C0-4".to_string(), "C1-4".to_string(), "C2-4".to_string(), "C3-4".to_string()]);
}

#[test]
fn an_empty_group_leaves_no_schedule() {
    let a = vec![monday("A", "1", 900, 1000)];
    let c = vec![monday("C", "1", 1200, 1300)];
    assert!(generate_combinations(vec![a, Vec::new(), c]).is_empty());
    assert!(generate_combinations(vec![Vec::new()]).is_empty());
    let a = vec![monday("A", "1", 900, 1000)];
    assert!(generate_combinations(vec![a, Vec::new()]).is_empty());
}

#[test]
fn no_group_gives_the_one_empty_schedule() {
    let schedules = generate_combinations(Vec::new());
    assert_eq!(schedules.len(), 1);
    assert!(schedules[0].is_empty());
}

#[test]
fn a_single_group_gives_one_schedule_per_section() {
    let a = vec![monday("A", "1", 900, 1000), monday("A", "2", 900, 1000), monday("A", "3", 1300, 1400)];
    let schedules = generate_combinations(vec![a]);
    assert_eq!(
        names(&schedules),
        vec![vec!["A-1".to_string()], vec!["A-2".to_string()], vec!["A-3".to_string()]]
    );
}

#[test]
fn a_later_conflict_prunes_only_its_branch() {
    let a = vec![monday("A", "1", 900, 1000), monday("A", "2", 1500, 1600)];
    let b = vec![monday("B", "1", 1000, 1100)];
    let c = vec![monday("C", "1", 930, 1030), monday("C", "2", 1530, 1630), monday("C", "3", 1700, 1800)];
    let schedules = generate_combinations(vec![a, b, c]);
    assert_eq!(
        names(&schedules),
        vec![
            vec!["A-1".to_string(), "B-1".to_string(), "C-2".to_string()],
            vec!["A-1".to_string(), "B-1".to_string(), "C-3".to_string()],
            vec!["A-2".to_string(), "B-1".to_string(), "C-3".to_string()],
        ]
    );
}

#[test]
fn compatibility_is_tested_against_every_chosen_section() {
    let first = monday("A", "1", 900, 1000);
    let second = monday("B", "1", 1000, 1100);
    let third = monday("C", "1", 1030, 1130);
    let all: Vec<&Class> = vec![&first, &second, &third];
    assert!(is_compatible(&all, 2, &[]));
    assert!(is_compatible(&all, 2, &[0]));
    assert!(!is_compatible(&all, 2, &[0, 1]));
    assert!(!is_compatible(&all, 2, &[1, 0]));
    assert!(is_compatible(&all, 1, &[0]));
}

#[test]
fn backtracking_appends_the_completions_of_a_partial_schedule() {
    let first = monday("A", "1", 900, 1000);
    let second = monday("B", "1", 930, 1030);
    let third = monday("B", "2", 1000, 1100);
    let all: Vec<&Class> = vec![&first, &second, &third];
    let indices: Vec<Vec<usize>> = vec![vec![0], vec![1, 2]];
    let mut current: Vec<usize> = vec![0];
    let mut results: Vec<Vec<usize>> = vec![vec![2, 2]];
    backtrack(&all, &indices, &mut current, 1, &mut results, 2);
    assert_eq!(current, vec![0]);
    assert_eq!(results, vec![vec![2, 2], vec![0, 2]]);
}

#[test]
fn backtracking_leaves_earlier_results_alone_whatever_they_hold() {
    let first = monday("A", "1", 900, 1000);
    let twin = monday("A", "1", 900, 1000);
    let later = monday("B", "1", 1000, 1100);
    let all: Vec<&Class> = vec![&first, &twin, &later];
    let indices: Vec<Vec<usize>> = vec![vec![1, 0], vec![2]];
    let mut current: Vec<usize> = Vec::new();
    let mut results: Vec<Vec<usize>> = vec![vec![0], vec![99, 7, 3]];
    backtrack(&all, &indices, &mut current, 0, &mut results, 2);
    assert!(current.is_empty());
    assert_eq!(results, vec![vec![0], vec![99, 7, 3], vec![1, 2], vec![0, 2]]);
}
