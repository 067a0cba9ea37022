//! What a schedule search decides around the work of others: which courses still have
//! to be looked up, how what was looked up joins what was known, and which schedules come
//! of it all.

use vstd::prelude::*;
use vstd::string::*;
use crate::class_combinations::{combinations, generate_combinations, is_schedule};
use crate::class_filter::{filter_classes, filtered_groups, lemma_schedules_over_filtered_groups_keep_clear};
use crate::objects::{Class, ClassParam, ClassParamView, ClassView, ScrapeClassesParameters, ScrapeClassesParametersView};

verus! {

/// Why a schedule search cannot begin.
#[derive(Clone, Copy, Debug, PartialEq, Eq, Structural)]
pub enum SearchError {
    /// No course was asked for.
    NoClasses,
}

impl SearchError {
    /// What the error says.
    pub fn message(&self) -> (text: String)
        ensures
            text@ == "No classes set to scrape"@,
    {
        String::from_str("No classes set to scrape")
    }
}

/// A search can begin if at least one course is asked for.
pub fn check_request(parameters: &ScrapeClassesParameters) -> (result: Result<(), SearchError>)
    ensures
        parameters@.classes.len() > 0 ==> result is Ok,
        parameters@.classes.len() == 0 ==> result == Err::<(), SearchError>(SearchError::NoClasses),
{
    if parameters.classes.len() == 0 {
        Err(SearchError::NoClasses)
    } else {
        Ok(())
    }
}

/// The name under which the sections of a course are kept: its code and its number.
pub open spec fn class_name(code: Seq<char>, name: Seq<char>) -> Seq<char> {
    code + name
}

/// The name under which the sections of a course are kept.
pub fn cache_name(class_param: &ClassParam) -> (name: String)
    ensures
        name@ == class_name(class_param@.code, class_param@.name),
{
    let mut name = class_param.code.clone();
    name.append(class_param.name.as_str());
    name
}

/// The name of one section: the name of its course, then a slash and the section name
/// for each of its meeting patterns.
pub open spec fn section_name(section: ClassView, blocks: int) -> Seq<char>
    decreases blocks,
{
    if blocks <= 0 {
        class_name(section.code, section.name)
    } else {
        section_name(section, blocks - 1) + seq!['/'] + section.classes[blocks - 1].section
    }
}

/// The name under which one section is kept.
pub fn section_id(class: &Class) -> (id: String)
    ensures
        id@ == section_name(class@, class@.classes.len() as int),
{
    let mut id = class.code.clone();
    id.append(class.name.as_str());
    let mut i: usize = 0;
    while i < class.classes.len()
        invariant
            i <= class.classes.len(),
            id@ == section_name(class@, i as int),
        decreases class.classes.len() - i,
    {
        assert(class@.classes[i as int] == class.classes[i as int]@);
        proof {
            reveal_strlit("/");
            assert("/"@ =~= seq!['/']);
        }
        id.append("/");
        id.append(class.classes[i].section.as_str());
        i += 1;
    }
    id
}

/// Nothing is known of the course in place `place`: no group of sections stands for it,
/// or an empty one.
pub open spec fn is_unknown(known: Seq<Seq<ClassView>>, place: int) -> bool {
    place >= known.len() || known[place].len() == 0
}

/// The places before `upto`, in order, of the courses of which nothing is known yet.
pub open spec fn unknown_places(known: Seq<Seq<ClassView>>, upto: int) -> Seq<int>
    decreases upto,
{
    if upto <= 0 {
        Seq::empty()
    } else if is_unknown(known, upto - 1) {
        unknown_places(known, upto - 1).push(upto - 1)
    } else {
        unknown_places(known, upto - 1)
    }
}

/// The wishes at the given places, in that order.
pub open spec fn wishes_at(classes: Seq<ClassParamView>, places: Seq<int>) -> Seq<ClassParamView> {
    Seq::new(places.len(), |i: int| classes[places[i]])
}

/// The places as numbers.
pub open spec fn places_of(indices: Seq<usize>) -> Seq<int> {
    Seq::new(indices.len(), |i: int| indices[i] as int)
}

/// Which courses have to be looked up: those of which no section is known. `known[g]`
/// holds the sections known for the course of `classes[g]`. Returns the wishes for the
/// courses to look up, in order, and the places that they have among all wishes.
pub fn plan_scrape(classes: &Vec<ClassParam>, known: &Vec<Vec<Class>>) -> (plan: (Vec<ClassParam>, Vec<usize>))
    ensures
        places_of(plan.1@) == unknown_places(known.deep_view(), classes.len() as int),
        plan.0.deep_view() == wishes_at(classes.deep_view(), places_of(plan.1@)),
{
    let mut classes_to_scrape_params: Vec<ClassParam> = Vec::new();
    let mut scrape_indices: Vec<usize> = Vec::new();
    let mut index: usize = 0;
    assert(places_of(scrape_indices@) =~= unknown_places(known.deep_view(), 0));
    while index < classes.len()
        invariant
            index <= classes.len(),
            classes_to_scrape_params.len() == scrape_indices.len(),
            places_of(scrape_indices@) == unknown_places(known.deep_view(), index as int),
            forall|i: int| 0 <= i < scrape_indices.len() ==> (#[trigger] scrape_indices[i]) < index,
            forall|i: int|
                0 <= i < scrape_indices.len() ==> (#[trigger] classes_to_scrape_params[i])@
                    == classes[scrape_indices[i] as int]@,
        decreases classes.len() - index,
    {
        let ghost before = places_of(scrape_indices@);
        if index < known.len() {
            assert(known.deep_view()[index as int].len() == known[index as int].len());
        }
        if index >= known.len() || known[index].len() == 0 {
            classes_to_scrape_params.push(classes[index].clone());
            scrape_indices.push(index);
            assert(places_of(scrape_indices@) =~= before.push(index as int));
        }
        index += 1;
    }
    assert(classes_to_scrape_params.deep_view() =~= wishes_at(classes.deep_view(), places_of(scrape_indices@)));
    (classes_to_scrape_params, scrape_indices)
}

/// What is known once the first `count` looked-up groups have been put in their places:
/// each takes the place that `places` names for it, and one without a place among the
/// known groups is left out.
pub open spec fn joined(
    known: Seq<Seq<ClassView>>,
    found: Seq<Seq<ClassView>>,
    places: Seq<int>,
    count: int,
) -> Seq<Seq<ClassView>>
    decreases count,
{
    if count <= 0 {
        known
    } else {
        let before = joined(known, found, places, count - 1);
        if 0 <= places[count - 1] < before.len() {
            before.update(places[count - 1], found[count - 1])
        } else {
            before
        }
    }
}

/// How many looked-up groups have a place.
pub open spec fn placed_count(found: Seq<Seq<ClassView>>, places: Seq<int>) -> int {
    if found.len() <= places.len() {
        found.len() as int
    } else {
        places.len() as int
    }
}

/// Puts each looked-up group of sections in its place among the known groups: group
/// `i` of `scraped` takes the place `scrape_indices[i]`.
pub fn combine_results(known: Vec<Vec<Class>>, scraped: &Vec<Vec<Class>>, scrape_indices: &Vec<usize>) -> (combined:
    Vec<Vec<Class>>)
    ensures
        combined.deep_view() == joined(
            known.deep_view(),
            scraped.deep_view(),
            places_of(scrape_indices@),
            placed_count(scraped.deep_view(), places_of(scrape_indices@)),
        ),
{
    let ghost start = known.deep_view();
    let ghost found = scraped.deep_view();
    let ghost places = places_of(scrape_indices@);
    let count = if scraped.len() <= scrape_indices.len() {
        scraped.len()
    } else {
        scrape_indices.len()
    };
    let mut combined_classes = known;
    let mut i: usize = 0;
    while i < count
        invariant
            i <= count,
            count <= scraped.len(),
            count <= scrape_indices.len(),
            found == scraped.deep_view(),
            places == places_of(scrape_indices@),
            combined_classes.deep_view() == joined(start, found, places, i as int),
        decreases count - i,
    {
        let place = scrape_indices[i];
        let ghost before = combined_classes.deep_view();
        if place < combined_classes.len() {
            let mut group: Vec<Class> = Vec::with_capacity(scraped[i].len());
            let mut j: usize = 0;
            while j < scraped[i].len()
                invariant
                    i < scraped.len(),
                    j <= scraped[i as int].len(),
                    group.len() == j,
                    forall|k: int| 0 <= k < j ==> (#[trigger] group[k])@ == scraped[i as int][k]@,
                decreases scraped[i as int].len() - j,
            {
                group.push(scraped[i][j].clone());
                j += 1;
            }
            assert(group.deep_view() =~= found[i as int]);
            combined_classes[place] = group;
            assert(combined_classes.deep_view() =~= before.update(place as int, found[i as int]));
        }
        i += 1;
    }
    combined_classes
}

/// No group has a section.
pub open spec fn all_empty(groups: Seq<Seq<ClassView>>) -> bool {
    forall|g: int| 0 <= g < groups.len() ==> (#[trigger] groups[g]).len() == 0
}

/// The schedules of a search: every combination over the filtered groups, unless
/// filtering leaves no section at all, in which case there is nothing to build on.
pub open spec fn schedules_of(
    groups: Seq<Seq<ClassView>>,
    parameters: ScrapeClassesParametersView,
) -> Option<Seq<Seq<ClassView>>> {
    let filtered = filtered_groups(groups, parameters);
    if all_empty(filtered) {
        None
    } else {
        Some(combinations(filtered))
    }
}

/// The value of the schedules of a search.
pub open spec fn schedules_view(schedules: Option<Vec<Vec<Class>>>) -> Option<Seq<Seq<ClassView>>> {
    match schedules {
        Some(found) => Some(found.deep_view()),
        None => None,
    }
}

/// Filters what was found for each course by the wishes and busy spans of the user, and
/// returns every conflict-free schedule over what stays. Where filtering leaves no
/// section of any course, or there is no course at all, the search ends without a
/// result: `None`, which is not the same as a search that finds no schedule.
pub fn build_schedules(combined_classes: Vec<Vec<Class>>, parameters: &ScrapeClassesParameters) -> (schedules:
    Option<Vec<Vec<Class>>>)
    ensures
        schedules_view(schedules) == schedules_of(combined_classes.deep_view(), parameters@),
        schedules matches Some(found) ==> forall|s: int, g: int|
            #![trigger found.deep_view()[s][g]]
            0 <= s < found.len() && 0 <= g < found.deep_view()[s].len() ==> {
                &&& is_schedule(filtered_groups(combined_classes.deep_view(), parameters@), found.deep_view()[s])
                &&& combined_classes.deep_view()[g].contains(found.deep_view()[s][g])
                &&& !found.deep_view()[s][g].blocked_by(parameters@.events)
            },
{
    let ghost groups = combined_classes.deep_view();
    let filtered_classes = filter_classes(combined_classes, parameters);
    let mut g: usize = 0;
    let mut nothing_left = true;
    while g < filtered_classes.len()
        invariant
            g <= filtered_classes.len(),
            nothing_left == forall|k: int| 0 <= k < g ==> (#[trigger] filtered_classes.deep_view()[k]).len() == 0,
        decreases filtered_classes.len() - g,
    {
        assert(filtered_classes.deep_view()[g as int].len() == filtered_classes[g as int].len());
        if filtered_classes[g].len() > 0 {
            nothing_left = false;
        }
        g += 1;
    }
    if nothing_left {
        return None;
    }
    let found = generate_combinations(filtered_classes);
    proof {
        assert forall|s: int, g: int|
            #![trigger found.deep_view()[s][g]]
            0 <= s < found.len() && 0 <= g < found.deep_view()[s].len() implies {
            &&& is_schedule(filtered_groups(groups, parameters@), found.deep_view()[s])
            &&& groups[g].contains(found.deep_view()[s][g])
            &&& !found.deep_view()[s][g].blocked_by(parameters@.events)
        } by {
            lemma_schedules_over_filtered_groups_keep_clear(groups, parameters@, found.deep_view()[s]);
        }
    }
    Some(found)
}

} // verus!
