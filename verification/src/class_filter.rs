//! Which of the sections found for each course stay in the running: those that meet at
//! all, that match what the user asked of the course, and that keep clear of the user's
//! busy spans.

use vstd::prelude::*;
use crate::class_combinations::is_schedule;
use crate::conflict::section_conflicts_with_blocked;
use crate::objects::{Class, ClassParam, ClassParamView, ClassView, EventParam, EventParamView, ScrapeClassesParameters, ScrapeClassesParametersView};
use crate::text::{eq_ignore_ascii_case, equal_ignoring_ascii_case};

verus! {

impl ClassView {
    /// The section is the one asked for: no section was named, or one of its meeting
    /// patterns bears exactly that name.
    pub open spec fn is_section(self, wanted: Seq<char>) -> bool {
        wanted.len() == 0 || exists|b: int|
            0 <= b < self.classes.len() && (#[trigger] self.classes[b]).section == wanted
    }

    /// The section is taught by the instructor asked for: no instructor was named, or one
    /// of its meeting patterns bears that name, the case of ASCII letters aside.
    pub open spec fn is_taught_by(self, wanted: Seq<char>) -> bool {
        wanted.len() == 0 || exists|b: int|
            0 <= b < self.classes.len() && equal_ignoring_ascii_case(
                (#[trigger] self.classes[b]).instructor,
                wanted,
            )
    }

    /// The section stays in the running for the course that `wanted` describes.
    pub open spec fn is_kept(self, wanted: ClassParamView, blocked: Seq<EventParamView>) -> bool {
        &&& self.has_active_slot()
        &&& self.is_section(wanted.section)
        &&& self.is_taught_by(wanted.instructor)
        &&& !self.blocked_by(blocked)
    }
}

/// The test that [`ClassView::is_kept`] makes, as a function of the section alone.
pub open spec fn kept_for(wanted: ClassParamView, blocked: Seq<EventParamView>) -> spec_fn(ClassView) -> bool {
    |section: ClassView| section.is_kept(wanted, blocked)
}

/// The sections of one group that stay in the running, in their order.
pub open spec fn filtered_group(
    group: Seq<ClassView>,
    wanted: ClassParamView,
    blocked: Seq<EventParamView>,
) -> Seq<ClassView> {
    group.filter(kept_for(wanted, blocked))
}

/// How many groups are filtered: each group needs the wish of its course, so groups
/// beyond the last wish are left out.
pub open spec fn filtered_count(groups: Seq<Seq<ClassView>>, parameters: ScrapeClassesParametersView) -> nat {
    if groups.len() <= parameters.classes.len() {
        groups.len()
    } else {
        parameters.classes.len()
    }
}

/// Every group filtered by the wish in the same place, in order. A group of which nothing
/// stays is kept as an empty group.
pub open spec fn filtered_groups(
    groups: Seq<Seq<ClassView>>,
    parameters: ScrapeClassesParametersView,
) -> Seq<Seq<ClassView>> {
    Seq::new(
        filtered_count(groups, parameters),
        |g: int| filtered_group(groups[g], parameters.classes[g], parameters.events),
    )
}

/// Whether one of the section's meeting patterns meets on some weekday.
pub fn has_active_slot(section: &Class) -> (found: bool)
    ensures
        found == section@.has_active_slot(),
{
    let mut i: usize = 0;
    while i < section.classes.len()
        invariant
            i <= section.classes.len(),
            forall|k: int| 0 <= k < i ==> !(#[trigger] section@.classes[k]).meets(),
        decreases section.classes.len() - i,
    {
        let block = &section.classes[i];
        assert(section@.classes[i as int] == block@);
        let mut day: usize = 0;
        while day < 5
            invariant
                day <= 5,
                i < section.classes.len(),
                section@.classes[i as int] == block@,
                forall|d: int| 0 <= d < day ==> !(#[trigger] block@.days[d]).1,
            decreases 5 - day,
        {
            if block.days[day].1 {
                assert(block@.days[day as int].1);
                assert(block@.meets());
                return true;
            }
            day += 1;
        }
        i += 1;
    }
    false
}

/// Whether the section is the one asked for.
pub fn matches_section(section: &Class, wanted: &String) -> (found: bool)
    ensures
        found == section@.is_section(wanted@),
{
    if wanted.as_str().is_empty() {
        return true;
    }
    let mut i: usize = 0;
    while i < section.classes.len()
        invariant
            i <= section.classes.len(),
            wanted@.len() != 0,
            forall|k: int| 0 <= k < i ==> (#[trigger] section@.classes[k]).section != wanted@,
        decreases section.classes.len() - i,
    {
        assert(section@.classes[i as int] == section.classes[i as int]@);
        if section.classes[i].section == *wanted {
            return true;
        }
        i += 1;
    }
    false
}

/// Whether the section is taught by the instructor asked for.
pub fn matches_instructor(section: &Class, wanted: &String) -> (found: bool)
    ensures
        found == section@.is_taught_by(wanted@),
{
    if wanted.as_str().is_empty() {
        return true;
    }
    let mut i: usize = 0;
    while i < section.classes.len()
        invariant
            i <= section.classes.len(),
            wanted@.len() != 0,
            forall|k: int|
                0 <= k < i ==> !equal_ignoring_ascii_case(
                    (#[trigger] section@.classes[k]).instructor,
                    wanted@,
                ),
        decreases section.classes.len() - i,
    {
        assert(section@.classes[i as int] == section.classes[i as int]@);
        if eq_ignore_ascii_case(section.classes[i].instructor.as_str(), wanted.as_str()) {
            return true;
        }
        i += 1;
    }
    false
}

/// Whether the section stays in the running for the course that `wanted` describes.
pub fn keeps_section(section: &Class, wanted: &ClassParam, blocked: &Vec<EventParam>) -> (kept: bool)
    ensures
        kept == section@.is_kept(wanted@, blocked.deep_view()),
{
    if !has_active_slot(section) {
        return false;
    }
    if !matches_section(section, &wanted.section) {
        return false;
    }
    if !matches_instructor(section, &wanted.instructor) {
        return false;
    }
    !section_conflicts_with_blocked(section, blocked)
}

/// Filters the sections found for each course by what the user asked of that course and
/// by the user's busy spans.
///
/// `input_classes[g]` holds the sections found for the course that `parameters.classes[g]`
/// describes. The result has the groups in the same order, each with the sections that
/// stay, in their order; a group of which nothing stays is an empty group, not a missing
/// one. A group without a wish in the same place is left out.
pub fn filter_classes(input_classes: Vec<Vec<Class>>, parameters: &ScrapeClassesParameters) -> (filtered: Vec<
    Vec<Class>,
>)
    ensures
        filtered.deep_view() == filtered_groups(input_classes.deep_view(), parameters@),
{
    let ghost groups = input_classes.deep_view();
    let count = if input_classes.len() <= parameters.classes.len() {
        input_classes.len()
    } else {
        parameters.classes.len()
    };
    let mut filtered_result: Vec<Vec<Class>> = Vec::with_capacity(count);
    let mut g: usize = 0;
    while g < count
        invariant
            g <= count,
            count == filtered_count(groups, parameters@),
            count <= input_classes.len(),
            count <= parameters.classes.len(),
            groups == input_classes.deep_view(),
            filtered_result.len() == g,
            forall|k: int|
                0 <= k < g ==> (#[trigger] filtered_result[k]).deep_view() == filtered_group(
                    groups[k],
                    parameters@.classes[k],
                    parameters@.events,
                ),
        decreases count - g,
    {
        let course_sections = &input_classes[g];
        let desired_class = &parameters.classes[g];
        let ghost group = groups[g as int];
        let ghost kept = kept_for(parameters@.classes[g as int], parameters@.events);
        assert(parameters@.classes[g as int] == desired_class@);
        assert(group == course_sections.deep_view());
        let mut filtered_sections: Vec<Class> = Vec::new();
        let mut i: usize = 0;
        proof {
            reveal(Seq::filter);
            assert(group.take(0) =~= Seq::<ClassView>::empty());
        }
        while i < course_sections.len()
            invariant
                i <= course_sections.len(),
                group == course_sections.deep_view(),
                kept == kept_for(desired_class@, parameters.events.deep_view()),
                filtered_sections.deep_view() == group.take(i as int).filter(kept),
            decreases course_sections.len() - i,
        {
            let section = &course_sections[i];
            proof {
                reveal(Seq::filter);
                assert(group[i as int] == section@);
                assert(group.take(i + 1).drop_last() =~= group.take(i as int));
                assert(group.take(i + 1).last() == section@);
            }
            let ghost before = filtered_sections.deep_view();
            if keeps_section(section, desired_class, &parameters.events) {
                filtered_sections.push(section.clone());
                assert(filtered_sections.deep_view() =~= before.push(section@));
            }
            i += 1;
        }
        assert(group.take(course_sections.len() as int) =~= group);
        filtered_result.push(filtered_sections);
        g += 1;
    }
    assert(filtered_result.deep_view() =~= filtered_groups(groups, parameters@));
    filtered_result
}

/// A filtered group holds just those sections of the group that stay in the running,
/// and no others.
pub proof fn lemma_filtered_group_holds_the_kept(
    group: Seq<ClassView>,
    wanted: ClassParamView,
    blocked: Seq<EventParamView>,
    section: ClassView,
)
    ensures
        filtered_group(group, wanted, blocked).contains(section) <==> group.contains(section) && section.is_kept(
            wanted,
            blocked,
        ),
{
    let test = kept_for(wanted, blocked);
    let filtered = filtered_group(group, wanted, blocked);
    if filtered.contains(section) {
        let k = choose|k: int| 0 <= k < filtered.len() && filtered[k] == section;
        group.lemma_filter_pred(test, k);
        group.lemma_filter_contains_rev(test, section);
    }
    if group.contains(section) && section.is_kept(wanted, blocked) {
        let i = choose|i: int| 0 <= i < group.len() && group[i] == section;
        assert(test(group[i]));
        group.lemma_filter_contains(test, i);
    }
}

/// In a schedule over filtered groups, every section comes from the group of its course,
/// is what the user asked of that course, and conflicts with no busy span of the user.
pub proof fn lemma_schedules_over_filtered_groups_keep_clear(
    groups: Seq<Seq<ClassView>>,
    parameters: ScrapeClassesParametersView,
    schedule: Seq<ClassView>,
)
    requires
        is_schedule(filtered_groups(groups, parameters), schedule),
    ensures
        forall|g: int|
            #![trigger schedule[g]]
            0 <= g < schedule.len() ==> {
                &&& groups[g].contains(schedule[g])
                &&& schedule[g].is_kept(parameters.classes[g], parameters.events)
                &&& !schedule[g].blocked_by(parameters.events)
            },
{
    let filtered = filtered_groups(groups, parameters);
    assert forall|g: int| #![trigger schedule[g]] 0 <= g < schedule.len() implies {
        &&& groups[g].contains(schedule[g])
        &&& schedule[g].is_kept(parameters.classes[g], parameters.events)
        &&& !schedule[g].blocked_by(parameters.events)
    } by {
        assert(filtered[g].contains(schedule[g]));
        lemma_filtered_group_holds_the_kept(groups[g], parameters.classes[g], parameters.events, schedule[g]);
    }
}

} // verus!
