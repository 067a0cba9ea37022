//! Every conflict-free choice of one section per course, found by backtracking over
//! indices into one flat list of sections.

use vstd::prelude::*;
use crate::conflict::{lemma_conflict_is_symmetric, sections_conflict};
use crate::objects::{Class, ClassView};

verus! {

/// A candidate fits a partial schedule if it conflicts with none of the sections chosen so far.
pub open spec fn compatible(candidate: ClassView, chosen: Seq<ClassView>) -> bool {
    forall|i: int| 0 <= i < chosen.len() ==> !candidate.conflicts_with(#[trigger] chosen[i])
}

/// The complete schedules that extend the partial schedule `chosen`, which holds one
/// section from each of the first `chosen.len()` groups, where the next section is taken
/// from position `from` or later of its group. They come in the order of the search:
/// by the position of the next section, then by that of the one after it, and so on.
pub open spec fn completions_from(
    groups: Seq<Seq<ClassView>>,
    chosen: Seq<ClassView>,
    from: int,
) -> Seq<Seq<ClassView>>
    decreases groups.len() - chosen.len(), groups[chosen.len() as int].len() - from,
{
    if chosen.len() >= groups.len() {
        seq![chosen]
    } else if from < 0 || from >= groups[chosen.len() as int].len() {
        Seq::empty()
    } else {
        let candidate = groups[chosen.len() as int][from];
        let through_candidate = if compatible(candidate, chosen) {
            completions_from(groups, chosen.push(candidate), 0)
        } else {
            Seq::empty()
        };
        through_candidate + completions_from(groups, chosen, from + 1)
    }
}

/// All schedules over `groups`: every way to take one section from each group, in group
/// order, such that no two of the sections taken conflict.
pub open spec fn combinations(groups: Seq<Seq<ClassView>>) -> Seq<Seq<ClassView>> {
    completions_from(groups, Seq::empty(), 0)
}

/// A section from each of the first `chosen.len()` groups, in group order, no two of
/// which conflict.
pub open spec fn is_partial_schedule(groups: Seq<Seq<ClassView>>, chosen: Seq<ClassView>) -> bool {
    &&& chosen.len() <= groups.len()
    &&& forall|g: int| 0 <= g < chosen.len() ==> groups[g].contains(#[trigger] chosen[g])
    &&& forall|i: int, j: int|
        0 <= i < chosen.len() && 0 <= j < chosen.len() && i != j ==> !(#[trigger] chosen[i]).conflicts_with(
            #[trigger] chosen[j],
        )
}

/// A schedule over `groups` holds exactly one section from every group, in group order,
/// and no two of its sections conflict.
pub open spec fn is_schedule(groups: Seq<Seq<ClassView>>, schedule: Seq<ClassView>) -> bool {
    schedule.len() == groups.len() && is_partial_schedule(groups, schedule)
}

/// Some group has no section to offer.
pub open spec fn has_empty_group(groups: Seq<Seq<ClassView>>) -> bool {
    exists|g: int| 0 <= g < groups.len() && (#[trigger] groups[g]).len() == 0
}

/// The number of ways to take one section from each group from group `from` on, whether
/// the sections conflict or not: the product of the sizes of those groups.
pub open spec fn choices_from(groups: Seq<Seq<ClassView>>, from: int) -> nat
    decreases groups.len() - from,
{
    if from < 0 || from >= groups.len() {
        1
    } else {
        groups[from].len() * choices_from(groups, from + 1)
    }
}

/// The sections that the flat list holds at the given indices.
pub open spec fn selection(flattened: Seq<&Class>, indices: Seq<usize>) -> Seq<ClassView> {
    Seq::new(indices.len(), |i: int| flattened[indices[i] as int]@)
}

/// The schedules that the given index lists stand for, in their order.
pub open spec fn selections(flattened: Seq<&Class>, lists: Seq<Seq<usize>>) -> Seq<Seq<ClassView>> {
    Seq::new(lists.len(), |r: int| selection(flattened, lists[r]))
}

/// The index lists that a list of results holds, in their order.
pub open spec fn index_lists(results: Seq<Vec<usize>>) -> Seq<Seq<usize>> {
    Seq::new(results.len(), |r: int| results[r]@)
}

/// The groups of sections that an index structure over the flat list stands for.
pub open spec fn indexed_groups(flattened: Seq<&Class>, class_indices: Seq<Vec<usize>>) -> Seq<Seq<ClassView>> {
    Seq::new(class_indices.len(), |g: int| selection(flattened, class_indices[g]@))
}

/// Every index of the list points into the flat list.
pub open spec fn all_within(indices: Seq<usize>, bound: int) -> bool {
    forall|i: int| 0 <= i < indices.len() ==> (#[trigger] indices[i]) < bound
}

/// Every index of every list points into the flat list.
pub open spec fn lists_within(lists: Seq<Vec<usize>>, bound: int) -> bool {
    forall|r: int| 0 <= r < lists.len() ==> all_within((#[trigger] lists[r])@, bound)
}

/// The complete index lists that extend the partial index list `chosen`, which holds
/// one index for each of the first `chosen.len()` groups, where the next index is taken
/// from position `from` or later of the index list of its group. An index is taken only
/// if its section fits the sections chosen so far. The lists come in the order of the
/// search.
pub open spec fn index_completions(
    flattened: Seq<&Class>,
    class_indices: Seq<Vec<usize>>,
    chosen: Seq<usize>,
    from: int,
) -> Seq<Seq<usize>>
    decreases class_indices.len() - chosen.len(), class_indices[chosen.len() as int]@.len() - from,
{
    if chosen.len() >= class_indices.len() {
        seq![chosen]
    } else if from < 0 || from >= class_indices[chosen.len() as int]@.len() {
        Seq::empty()
    } else {
        let candidate = class_indices[chosen.len() as int]@[from];
        let through_candidate = if compatible(flattened[candidate as int]@, selection(flattened, chosen)) {
            index_completions(flattened, class_indices, chosen.push(candidate), 0)
        } else {
            Seq::empty()
        };
        through_candidate + index_completions(flattened, class_indices, chosen, from + 1)
    }
}

/// The index list `list` completes the partial index list `chosen`: it has one index
/// for every group, begins with `chosen`, takes each further index from the index list
/// of its group, and the section of each further index fits the sections before it.
pub open spec fn completes(
    flattened: Seq<&Class>,
    class_indices: Seq<Vec<usize>>,
    chosen: Seq<usize>,
    list: Seq<usize>,
) -> bool {
    &&& list.len() == class_indices.len()
    &&& chosen.len() <= list.len()
    &&& list.take(chosen.len() as int) == chosen
    &&& forall|g: int| chosen.len() <= g < list.len() ==> class_indices[g]@.contains(#[trigger] list[g])
    &&& forall|g: int|
        chosen.len() <= g < list.len() ==> compatible(
            flattened[(#[trigger] list[g]) as int]@,
            selection(flattened, list.take(g)),
        )
}

/// Whether the section at `new_class_idx` of the flat list conflicts with none of the
/// sections that `schedule_indices` names.
pub fn is_compatible(all_classes: &[&Class], new_class_idx: usize, schedule_indices: &[usize]) -> (fits: bool)
    requires
        new_class_idx < all_classes.len(),
        all_within(schedule_indices@, all_classes.len() as int),
    ensures
        fits == compatible(all_classes[new_class_idx as int]@, selection(all_classes@, schedule_indices@)),
{
    let new_class = all_classes[new_class_idx];
    let ghost chosen = selection(all_classes@, schedule_indices@);
    let mut k: usize = 0;
    while k < schedule_indices.len()
        invariant
            k <= schedule_indices.len(),
            new_class_idx < all_classes.len(),
            new_class == all_classes[new_class_idx as int],
            all_within(schedule_indices@, all_classes.len() as int),
            chosen == selection(all_classes@, schedule_indices@),
            forall|i: int| 0 <= i < k ==> !new_class@.conflicts_with(#[trigger] chosen[i]),
        decreases schedule_indices.len() - k,
    {
        let existing_idx = schedule_indices[k];
        let existing_class = all_classes[existing_idx];
        assert(chosen[k as int] == existing_class@);
        if sections_conflict(new_class, existing_class) {
            return false;
        }
        k += 1;
    }
    true
}

/// Extends the partial schedule `current_schedule`, which holds one section index for
/// each of the first `current_group` groups, in every conflict-free way through the
/// remaining groups, and appends each complete schedule to `results`, in the order of
/// the search. What `results` held before stays as it was, and in its place; the partial
/// schedule is left as it was found.
pub fn backtrack(
    flattened_classes: &[&Class],
    class_indices: &[Vec<usize>],
    current_schedule: &mut Vec<usize>,
    current_group: usize,
    results: &mut Vec<Vec<usize>>,
    total_groups: usize,
)
    requires
        total_groups == class_indices.len(),
        current_group == old(current_schedule).len(),
        current_group <= total_groups,
        lists_within(class_indices@, flattened_classes.len() as int),
        all_within(old(current_schedule)@, flattened_classes.len() as int),
    ensures
        final(current_schedule)@ == old(current_schedule)@,
        final(results)@.len() == old(results)@.len() + index_completions(
            flattened_classes@,
            class_indices@,
            old(current_schedule)@,
            0,
        ).len(),
        forall|r: int| 0 <= r < old(results)@.len() ==> #[trigger] final(results)@[r] == old(results)@[r],
        forall|k: int|
            old(results)@.len() <= k < final(results)@.len() ==> (#[trigger] final(results)@[k])@
                == index_completions(flattened_classes@, class_indices@, old(current_schedule)@, 0)[k - old(
                results,
            )@.len()],
        forall|k: int|
            old(results)@.len() <= k < final(results)@.len() ==> completes(
                flattened_classes@,
                class_indices@,
                old(current_schedule)@,
                (#[trigger] final(results)@[k])@,
            ) && all_within(final(results)@[k]@, flattened_classes.len() as int),
    decreases total_groups - current_group,
{
    let ghost chosen = current_schedule@;
    let ghost before = index_lists(results@);
    let ghost all = index_completions(flattened_classes@, class_indices@, chosen, 0);
    if current_group == total_groups {
        if current_schedule.len() == total_groups {
            results.push(current_schedule.clone());
        }
        proof {
            assert(index_lists(results@) =~= before + all);
            lemma_results_grow_by(old(results)@, results@, all);
            lemma_index_completions_complete(flattened_classes@, class_indices@, chosen, 0);
        }
        return;
    }
    let candidates = &class_indices[current_group];
    let mut j: usize = 0;
    while j < candidates.len()
        invariant
            j <= candidates.len(),
            total_groups == class_indices.len(),
            current_group < total_groups,
            current_group == current_schedule.len(),
            candidates == class_indices[current_group as int],
            current_schedule@ == old(current_schedule)@,
            chosen == current_schedule@,
            all == index_completions(flattened_classes@, class_indices@, chosen, 0),
            before == index_lists(old(results)@),
            lists_within(class_indices@, flattened_classes.len() as int),
            all_within(current_schedule@, flattened_classes.len() as int),
            results@.len() >= old(results)@.len(),
            forall|r: int| 0 <= r < old(results)@.len() ==> #[trigger] results@[r] == old(results)@[r],
            index_lists(results@) + index_completions(flattened_classes@, class_indices@, chosen, j as int)
                == before + all,
        decreases candidates.len() - j,
    {
        let class_idx = candidates[j];
        let ghost so_far = index_lists(results@);
        let ghost through_candidate = if compatible(
            flattened_classes[class_idx as int]@,
            selection(flattened_classes@, chosen),
        ) {
            index_completions(flattened_classes@, class_indices@, chosen.push(class_idx), 0)
        } else {
            Seq::empty()
        };
        assert(index_completions(flattened_classes@, class_indices@, chosen, j as int) == through_candidate
            + index_completions(flattened_classes@, class_indices@, chosen, j + 1));
        assert(all_within(candidates@, flattened_classes.len() as int));
        if is_compatible(flattened_classes, class_idx, current_schedule.as_slice()) {
            current_schedule.push(class_idx);
            assert(current_schedule@ =~= chosen.push(class_idx));
            backtrack(
                flattened_classes,
                class_indices,
                current_schedule,
                current_group + 1,
                results,
                total_groups,
            );
            current_schedule.pop();
            assert(current_schedule@ =~= old(current_schedule)@);
            assert(index_lists(results@) =~= so_far + through_candidate);
        }
        assert(index_lists(results@) + index_completions(flattened_classes@, class_indices@, chosen, j + 1)
            =~= so_far + index_completions(flattened_classes@, class_indices@, chosen, j as int));
        j += 1;
    }
    proof {
        assert(index_completions(flattened_classes@, class_indices@, chosen, candidates.len() as int)
            =~= Seq::<Seq<usize>>::empty());
        assert(index_lists(results@) =~= before + all);
        lemma_results_grow_by(old(results)@, results@, all);
        lemma_index_completions_complete(flattened_classes@, class_indices@, chosen, 0);
    }
}

/// Results whose index lists are the old index lists followed by `added` have grown by
/// as many lists, which hold what `added` holds.
proof fn lemma_results_grow_by(old_results: Seq<Vec<usize>>, new_results: Seq<Vec<usize>>, added: Seq<Seq<usize>>)
    requires
        index_lists(new_results) == index_lists(old_results) + added,
    ensures
        new_results.len() == old_results.len() + added.len(),
        forall|k: int|
            old_results.len() <= k < new_results.len() ==> (#[trigger] new_results[k])@ == added[k
                - old_results.len()],
{
    assert(index_lists(new_results).len() == new_results.len());
    assert(index_lists(old_results).len() == old_results.len());
    assert forall|k: int| old_results.len() <= k < new_results.len() implies (#[trigger] new_results[k])@
        == added[k - old_results.len()] by {
        assert(index_lists(new_results)[k] == new_results[k]@);
        assert((index_lists(old_results) + added)[k] == added[k - old_results.len()]);
    }
}

/// Every index list that the search finds beyond a partial index list completes it, and
/// points into the flat list if the partial list and the index structure do.
pub proof fn lemma_index_completions_complete(
    flattened: Seq<&Class>,
    class_indices: Seq<Vec<usize>>,
    chosen: Seq<usize>,
    from: int,
)
    requires
        chosen.len() <= class_indices.len(),
    ensures
        forall|r: int|
            0 <= r < index_completions(flattened, class_indices, chosen, from).len() ==> completes(
                flattened,
                class_indices,
                chosen,
                #[trigger] index_completions(flattened, class_indices, chosen, from)[r],
            ),
        lists_within(class_indices, flattened.len() as int) && all_within(chosen, flattened.len() as int)
            ==> forall|r: int|
            0 <= r < index_completions(flattened, class_indices, chosen, from).len() ==> all_within(
                #[trigger] index_completions(flattened, class_indices, chosen, from)[r],
                flattened.len() as int,
            ),
    decreases class_indices.len() - chosen.len(), class_indices[chosen.len() as int]@.len() - from,
{
    let found = index_completions(flattened, class_indices, chosen, from);
    let bound = flattened.len() as int;
    let k = chosen.len() as int;
    if chosen.len() >= class_indices.len() {
        assert(chosen.take(k) =~= chosen);
    } else if from < 0 || from >= class_indices[k]@.len() {
    } else {
        let candidate = class_indices[k]@[from];
        let longer = chosen.push(candidate);
        let fits = compatible(flattened[candidate as int]@, selection(flattened, chosen));
        let through_candidate = if fits {
            index_completions(flattened, class_indices, longer, 0)
        } else {
            Seq::empty()
        };
        let rest = index_completions(flattened, class_indices, chosen, from + 1);
        if fits {
            lemma_index_completions_complete(flattened, class_indices, longer, 0);
        }
        lemma_index_completions_complete(flattened, class_indices, chosen, from + 1);
        assert forall|r: int| 0 <= r < found.len() implies completes(
            flattened,
            class_indices,
            chosen,
            #[trigger] found[r],
        ) && (lists_within(class_indices, bound) && all_within(chosen, bound) ==> all_within(found[r], bound)) by {
            if r < through_candidate.len() {
                let list = through_candidate[r];
                assert(found[r] == list);
                assert(completes(flattened, class_indices, longer, list));
                assert(list.take(k + 1) == longer);
                assert(list.take(k) =~= chosen) by {
                    assert forall|i: int| 0 <= i < k implies list.take(k)[i] == chosen[i] by {
                        assert(list.take(k + 1)[i] == longer[i]);
                    }
                }
                assert(list[k] == candidate) by {
                    assert(list.take(k + 1)[k] == longer[k]);
                }
                assert(class_indices[k]@[from] == list[k]);
                if lists_within(class_indices, bound) && all_within(chosen, bound) {
                    assert(all_within(class_indices[k]@, bound));
                    assert(all_within(longer, bound));
                }
            } else {
                assert(found[r] == rest[r - through_candidate.len()]);
            }
        }
    }
}

/// The schedules that the index lists of the search stand for are the schedules of the
/// search over the groups that the index structure stands for.
pub proof fn lemma_index_completions_stand_for_completions(
    flattened: Seq<&Class>,
    class_indices: Seq<Vec<usize>>,
    chosen: Seq<usize>,
    from: int,
)
    ensures
        selections(flattened, index_completions(flattened, class_indices, chosen, from)) == completions_from(
            indexed_groups(flattened, class_indices),
            selection(flattened, chosen),
            from,
        ),
    decreases class_indices.len() - chosen.len(), class_indices[chosen.len() as int]@.len() - from,
{
    let groups = indexed_groups(flattened, class_indices);
    let sections = selection(flattened, chosen);
    let found = index_completions(flattened, class_indices, chosen, from);
    let k = chosen.len() as int;
    if chosen.len() >= class_indices.len() {
        assert(selections(flattened, found) =~= seq![sections]);
    } else if from < 0 || from >= class_indices[k]@.len() {
        assert(selections(flattened, found) =~= Seq::<Seq<ClassView>>::empty());
    } else {
        let candidate = class_indices[k]@[from];
        let longer = chosen.push(candidate);
        assert(groups[k][from] == flattened[candidate as int]@);
        assert(selection(flattened, longer) =~= sections.push(groups[k][from]));
        let fits = compatible(groups[k][from], sections);
        let through_candidate = if fits {
            index_completions(flattened, class_indices, longer, 0)
        } else {
            Seq::empty()
        };
        let rest = index_completions(flattened, class_indices, chosen, from + 1);
        if fits {
            lemma_index_completions_stand_for_completions(flattened, class_indices, longer, 0);
        } else {
            assert(selections(flattened, through_candidate) =~= Seq::<Seq<ClassView>>::empty());
        }
        lemma_index_completions_stand_for_completions(flattened, class_indices, chosen, from + 1);
        assert(selections(flattened, through_candidate + rest) =~= selections(flattened, through_candidate)
            + selections(flattened, rest));
    }
}

/// All conflict-free schedules over the given course groups.
///
/// `classes[g]` holds the candidate sections of the course asked for in place `g`. Each
/// schedule returned holds one section of every group, in group order. The schedules come
/// in the order of the search: by the position that their first section has in its group,
/// then by that of their second section, and so on. With an empty group there is no
/// schedule; with no group at all there is exactly one, the empty schedule.
///
/// There can be as many schedules as the product of the sizes of the groups, and the
/// search may take as many steps: nothing here limits the number of courses or sections.
pub fn generate_combinations(classes: Vec<Vec<Class>>) -> (schedules: Vec<Vec<Class>>)
    ensures
        schedules.deep_view() == combinations(classes.deep_view()),
        forall|s: int|
            0 <= s < schedules.len() ==> is_schedule(classes.deep_view(), #[trigger] schedules.deep_view()[s]),
        forall|schedule: Seq<ClassView>| #[trigger]
            is_schedule(classes.deep_view(), schedule) ==> schedules.deep_view().contains(schedule),
        has_empty_group(classes.deep_view()) ==> schedules.len() == 0,
        schedules.len() <= choices_from(classes.deep_view(), 0),
{
    let ghost groups = classes.deep_view();
    let mut g: usize = 0;
    while g < classes.len()
        invariant
            g <= classes.len(),
            groups == classes.deep_view(),
            forall|k: int| 0 <= k < g ==> (#[trigger] groups[k]).len() > 0,
        decreases classes.len() - g,
    {
        if classes[g].len() == 0 {
            let nothing: Vec<Vec<Class>> = Vec::new();
            proof {
                assert(groups[g as int].len() == 0);
                lemma_empty_group_leaves_nothing(groups);
                lemma_schedules_are_combinations(groups);
                lemma_combinations_are_bounded(groups);
                assert(nothing.deep_view() =~= combinations(groups));
            }
            return nothing;
        }
        g += 1;
    }
    let mut class_indices: Vec<Vec<usize>> = Vec::with_capacity(classes.len());
    let mut flattened_classes: Vec<&Class> = Vec::new();
    let mut g: usize = 0;
    while g < classes.len()
        invariant
            g <= classes.len(),
            class_indices.len() == g,
            forall|k: int, j: int|
                #![trigger class_indices[k][j]]
                0 <= k < g && 0 <= j < classes[k].len() ==> class_indices[k][j] < flattened_classes.len()
                    && flattened_classes[class_indices[k][j] as int]@ == classes[k][j]@,
            forall|k: int| 0 <= k < g ==> (#[trigger] class_indices[k]).len() == classes[k].len(),
        decreases classes.len() - g,
    {
        let group = &classes[g];
        let mut group_indices: Vec<usize> = Vec::with_capacity(group.len());
        let mut j: usize = 0;
        while j < group.len()
            invariant
                j <= group.len(),
                g < classes.len(),
                group == classes[g as int],
                class_indices.len() == g,
                group_indices.len() == j,
                forall|k: int, i: int|
                    #![trigger class_indices[k][i]]
                    0 <= k < g && 0 <= i < classes[k].len() ==> class_indices[k][i] < flattened_classes.len()
                        && flattened_classes[class_indices[k][i] as int]@ == classes[k][i]@,
                forall|k: int| 0 <= k < g ==> (#[trigger] class_indices[k]).len() == classes[k].len(),
                forall|i: int|
                    #![trigger group_indices[i]]
                    0 <= i < j ==> group_indices[i] < flattened_classes.len()
                        && flattened_classes[group_indices[i] as int]@ == group[i]@,
            decreases group.len() - j,
        {
            group_indices.push(flattened_classes.len());
            flattened_classes.push(&group[j]);
            j += 1;
        }
        class_indices.push(group_indices);
        g += 1;
    }
    proof {
        let indexed = indexed_groups(flattened_classes@, class_indices@);
        assert(indexed.len() == groups.len());
        assert forall|k: int| 0 <= k < groups.len() implies #[trigger] indexed[k] == groups[k] by {
            assert(indexed[k].len() == groups[k].len());
            assert forall|i: int| 0 <= i < groups[k].len() implies indexed[k][i] == groups[k][i] by {
                assert(flattened_classes[class_indices[k][i] as int]@ == classes[k][i]@);
            }
            assert(indexed[k] =~= groups[k]);
        }
        assert(indexed =~= groups);
        assert forall|k: int| 0 <= k < class_indices.len() implies all_within(
            (#[trigger] class_indices@[k])@,
            flattened_classes.len() as int,
        ) by {
            assert forall|i: int| 0 <= i < class_indices[k].len() implies (#[trigger] class_indices[k][i])
                < flattened_classes.len() by {}
        }
    }
    let mut results: Vec<Vec<usize>> = Vec::new();
    let mut current_schedule: Vec<usize> = Vec::new();
    let total_groups = classes.len();
    backtrack(
        flattened_classes.as_slice(),
        class_indices.as_slice(),
        &mut current_schedule,
        0,
        &mut results,
        total_groups,
    );
    proof {
        let found = index_completions(flattened_classes@, class_indices@, Seq::<usize>::empty(), 0);
        assert(index_lists(results@) =~= found);
        assert(selection(flattened_classes@, Seq::<usize>::empty()) =~= Seq::<ClassView>::empty());
        lemma_index_completions_stand_for_completions(
            flattened_classes@,
            class_indices@,
            Seq::<usize>::empty(),
            0,
        );
        assert(selections(flattened_classes@, index_lists(results@)) == combinations(groups));
    }
    let mut schedules: Vec<Vec<Class>> = Vec::with_capacity(results.len());
    let mut r: usize = 0;
    while r < results.len()
        invariant
            r <= results.len(),
            schedules.len() == r,
            lists_within(results@, flattened_classes.len() as int),
            selections(flattened_classes@, index_lists(results@)) == combinations(classes.deep_view()),
            forall|k: int|
                0 <= k < r ==> (#[trigger] schedules[k]).deep_view() == selection(flattened_classes@, results[k]@),
        decreases results.len() - r,
    {
        let indices = &results[r];
        let mut schedule: Vec<Class> = Vec::with_capacity(indices.len());
        let mut i: usize = 0;
        while i < indices.len()
            invariant
                i <= indices.len(),
                schedule.len() == i,
                all_within(indices@, flattened_classes.len() as int),
                forall|k: int|
                    0 <= k < i ==> (#[trigger] schedule[k])@ == flattened_classes[indices[k] as int]@,
            decreases indices.len() - i,
        {
            let idx = indices[i];
            schedule.push(flattened_classes[idx].clone());
            i += 1;
        }
        assert(schedule.deep_view() =~= selection(flattened_classes@, indices@));
        schedules.push(schedule);
        r += 1;
    }
    proof {
        assert(schedules.deep_view() =~= selections(flattened_classes@, index_lists(results@)));
        lemma_combinations_are_schedules(groups);
        lemma_schedules_are_combinations(groups);
        lemma_empty_group_leaves_nothing(groups);
        lemma_combinations_are_bounded(groups);
    }
    schedules
}

/// Membership in a concatenation is membership in one of its two parts.
proof fn lemma_contains_in_concat<T>(a: Seq<T>, b: Seq<T>, x: T)
    ensures
        (a + b).contains(x) == (a.contains(x) || b.contains(x)),
{
    if (a + b).contains(x) {
        let i = choose|i: int| 0 <= i < (a + b).len() && (a + b)[i] == x;
        if i < a.len() {
            assert(a[i] == x);
        } else {
            assert(b[i - a.len()] == x);
        }
    }
    if a.contains(x) {
        let i = choose|i: int| 0 <= i < a.len() && a[i] == x;
        assert((a + b)[i] == x);
    }
    if b.contains(x) {
        let i = choose|i: int| 0 <= i < b.len() && b[i] == x;
        assert((a + b)[a.len() + i] == x);
    }
}

/// A partial schedule stays one when a compatible section of the next group is added.
proof fn lemma_extend_partial_schedule(groups: Seq<Seq<ClassView>>, chosen: Seq<ClassView>, from: int)
    requires
        is_partial_schedule(groups, chosen),
        chosen.len() < groups.len(),
        0 <= from < groups[chosen.len() as int].len(),
        compatible(groups[chosen.len() as int][from], chosen),
    ensures
        is_partial_schedule(groups, chosen.push(groups[chosen.len() as int][from])),
{
    let candidate = groups[chosen.len() as int][from];
    let longer = chosen.push(candidate);
    assert forall|g: int| 0 <= g < longer.len() implies groups[g].contains(#[trigger] longer[g]) by {
        if g < chosen.len() {
            assert(longer[g] == chosen[g]);
        } else {
            assert(groups[g][from] == longer[g]);
        }
    }
    assert forall|i: int, j: int| 0 <= i < longer.len() && 0 <= j < longer.len() && i != j implies !(
    #[trigger] longer[i]).conflicts_with(#[trigger] longer[j]) by {
        if i < chosen.len() && j < chosen.len() {
            assert(longer[i] == chosen[i] && longer[j] == chosen[j]);
        } else if i == chosen.len() {
            assert(longer[j] == chosen[j]);
        } else {
            assert(longer[i] == chosen[i]);
            lemma_conflict_is_symmetric(candidate, chosen[i]);
        }
    }
}

/// Whatever the search finds beyond a partial schedule is a schedule.
proof fn lemma_completions_are_schedules(
    groups: Seq<Seq<ClassView>>,
    chosen: Seq<ClassView>,
    from: int,
    schedule: Seq<ClassView>,
)
    requires
        is_partial_schedule(groups, chosen),
        completions_from(groups, chosen, from).contains(schedule),
    ensures
        is_schedule(groups, schedule),
    decreases groups.len() - chosen.len(), groups[chosen.len() as int].len() - from,
{
    if chosen.len() >= groups.len() {
        assert(seq![chosen][0] == chosen);
    } else if from < 0 || from >= groups[chosen.len() as int].len() {
    } else {
        let candidate = groups[chosen.len() as int][from];
        let through_candidate = if compatible(candidate, chosen) {
            completions_from(groups, chosen.push(candidate), 0)
        } else {
            Seq::empty()
        };
        let rest = completions_from(groups, chosen, from + 1);
        lemma_contains_in_concat(through_candidate, rest, schedule);
        if through_candidate.contains(schedule) {
            lemma_extend_partial_schedule(groups, chosen, from);
            lemma_completions_are_schedules(groups, chosen.push(candidate), 0, schedule);
        } else {
            lemma_completions_are_schedules(groups, chosen, from + 1, schedule);
        }
    }
}

/// The search finds every schedule that begins with the partial schedule it started
/// from and goes on with a section at position `from` or later.
proof fn lemma_schedules_are_completions(
    groups: Seq<Seq<ClassView>>,
    chosen: Seq<ClassView>,
    from: int,
    schedule: Seq<ClassView>,
)
    requires
        is_schedule(groups, schedule),
        chosen.len() <= groups.len(),
        chosen == schedule.take(chosen.len() as int),
        0 <= from,
        chosen.len() < groups.len() ==> exists|j: int|
            from <= j < groups[chosen.len() as int].len() && #[trigger] groups[chosen.len() as int][j]
                == schedule[chosen.len() as int],
    ensures
        completions_from(groups, chosen, from).contains(schedule),
    decreases groups.len() - chosen.len(), groups[chosen.len() as int].len() - from,
{
    let k = chosen.len() as int;
    if chosen.len() >= groups.len() {
        assert(chosen =~= schedule);
        assert(seq![chosen][0] == schedule);
    } else {
        let candidate = groups[k][from];
        let through_candidate = if compatible(candidate, chosen) {
            completions_from(groups, chosen.push(candidate), 0)
        } else {
            Seq::empty()
        };
        let rest = completions_from(groups, chosen, from + 1);
        lemma_contains_in_concat(through_candidate, rest, schedule);
        if candidate == schedule[k] {
            assert forall|i: int| 0 <= i < chosen.len() implies !candidate.conflicts_with(
                #[trigger] chosen[i],
            ) by {
                assert(chosen[i] == schedule[i]);
            }
            let longer = chosen.push(candidate);
            assert(longer =~= schedule.take(k + 1));
            if longer.len() < groups.len() {
                let next = groups[k + 1];
                assert(next.contains(schedule[k + 1]));
                let j = choose|j: int| 0 <= j < next.len() && next[j] == schedule[k + 1];
                assert(groups[longer.len() as int][j] == schedule[longer.len() as int]);
            }
            lemma_schedules_are_completions(groups, longer, 0, schedule);
        } else {
            let j = choose|j: int|
                from <= j < groups[k].len() && #[trigger] groups[k][j] == schedule[k];
            assert(groups[k][j] == schedule[k]);
            lemma_schedules_are_completions(groups, chosen, from + 1, schedule);
        }
    }
}

/// Beyond an empty group the search finds nothing.
proof fn lemma_no_completion_through_empty_group(
    groups: Seq<Seq<ClassView>>,
    chosen: Seq<ClassView>,
    from: int,
    empty: int,
)
    requires
        chosen.len() <= empty < groups.len(),
        groups[empty].len() == 0,
    ensures
        completions_from(groups, chosen, from).len() == 0,
    decreases groups.len() - chosen.len(), groups[chosen.len() as int].len() - from,
{
    if from < 0 || from >= groups[chosen.len() as int].len() {
    } else {
        let candidate = groups[chosen.len() as int][from];
        if compatible(candidate, chosen) {
            lemma_no_completion_through_empty_group(groups, chosen.push(candidate), 0, empty);
        }
        lemma_no_completion_through_empty_group(groups, chosen, from + 1, empty);
    }
}

/// Every combination is a schedule: it has one section of every group, in group order,
/// and no two of its sections conflict.
pub proof fn lemma_combinations_are_schedules(groups: Seq<Seq<ClassView>>)
    ensures
        forall|s: int|
            0 <= s < combinations(groups).len() ==> is_schedule(groups, #[trigger] combinations(groups)[s]),
{
    assert forall|s: int| 0 <= s < combinations(groups).len() implies is_schedule(
        groups,
        #[trigger] combinations(groups)[s],
    ) by {
        lemma_completions_are_schedules(groups, Seq::empty(), 0, combinations(groups)[s]);
    }
}

/// Every schedule is among the combinations: the search leaves none out.
pub proof fn lemma_schedules_are_combinations(groups: Seq<Seq<ClassView>>)
    ensures
        forall|schedule: Seq<ClassView>| #[trigger]
            is_schedule(groups, schedule) ==> combinations(groups).contains(schedule),
{
    assert forall|schedule: Seq<ClassView>| #[trigger] is_schedule(groups, schedule) implies combinations(
        groups,
    ).contains(schedule) by {
        assert(schedule.take(0) =~= Seq::<ClassView>::empty());
        if groups.len() > 0 {
            let first = groups[0];
            assert(first.contains(schedule[0]));
            let j = choose|j: int| 0 <= j < first.len() && first[j] == schedule[0];
            assert(groups[0][j] == schedule[0]);
        }
        lemma_schedules_are_completions(groups, Seq::empty(), 0, schedule);
    }
}

/// If any group is empty, there is no combination at all.
pub proof fn lemma_empty_group_leaves_nothing(groups: Seq<Seq<ClassView>>)
    ensures
        has_empty_group(groups) ==> combinations(groups) == Seq::<Seq<ClassView>>::empty(),
{
    if has_empty_group(groups) {
        let g = choose|g: int| 0 <= g < groups.len() && (#[trigger] groups[g]).len() == 0;
        lemma_no_completion_through_empty_group(groups, Seq::empty(), 0, g);
        assert(combinations(groups) =~= Seq::<Seq<ClassView>>::empty());
    }
}

/// Beyond a partial schedule the search finds no more schedules than there are ways to
/// go on: the candidates still to try, times the choices from the groups behind.
proof fn lemma_completions_are_bounded(groups: Seq<Seq<ClassView>>, chosen: Seq<ClassView>, from: int)
    requires
        chosen.len() < groups.len(),
        0 <= from <= groups[chosen.len() as int].len(),
    ensures
        completions_from(groups, chosen, from).len() <= (groups[chosen.len() as int].len() - from) * choices_from(
            groups,
            chosen.len() as int + 1,
        ),
    decreases groups.len() - chosen.len(), groups[chosen.len() as int].len() - from,
{
    let k = chosen.len() as int;
    let size = groups[k].len() as int;
    let behind = choices_from(groups, k + 1) as int;
    if from >= size {
        assert((size - from) * behind == 0) by (nonlinear_arith)
            requires
                size - from == 0,
        ;
    } else {
        let candidate = groups[k][from];
        let through_candidate = if compatible(candidate, chosen) {
            completions_from(groups, chosen.push(candidate), 0)
        } else {
            Seq::empty()
        };
        let rest = completions_from(groups, chosen, from + 1);
        if compatible(candidate, chosen) {
            let longer = chosen.push(candidate);
            if longer.len() < groups.len() {
                lemma_completions_are_bounded(groups, longer, 0);
            }
        }
        assert(through_candidate.len() <= behind);
        lemma_completions_are_bounded(groups, chosen, from + 1);
        assert((size - from) * behind == (size - from - 1) * behind + behind) by (nonlinear_arith);
    }
}

/// There are no more combinations than the product of the sizes of the groups.
pub proof fn lemma_combinations_are_bounded(groups: Seq<Seq<ClassView>>)
    ensures
        combinations(groups).len() <= choices_from(groups, 0),
{
    if groups.len() > 0 {
        lemma_completions_are_bounded(groups, Seq::empty(), 0);
    }
}

} // verus!
