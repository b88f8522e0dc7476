//! Giving each monitor or clone group a display source of its own.

use vstd::prelude::*;
use vstd::set_lib::*;
use crate::model::SourceKey;
use crate::order;

verus! {

/// Which source each group has, so far.
pub type Chosen = Seq<Option<SourceKey>>;

/// Every source that some group can use.
pub open spec fn all_sources(candidates: Seq<Seq<SourceKey>>) -> Set<SourceKey>
    decreases candidates.len(),
{
    if candidates.len() == 0 {
        Set::empty()
    } else {
        all_sources(candidates.drop_last()).union(candidates.last().to_set())
    }
}

proof fn lemma_all_sources(candidates: Seq<Seq<SourceKey>>)
    ensures
        all_sources(candidates).finite(),
        forall|group: int, i: int|
            0 <= group < candidates.len() && 0 <= i < candidates[group].len() ==> all_sources(
                candidates,
            ).contains(#[trigger] candidates[group][i]),
    decreases candidates.len(),
{
    if candidates.len() > 0 {
        lemma_all_sources(candidates.drop_last());
        vstd::seq_lib::seq_to_set_is_finite(candidates.last());
        assert forall|group: int, i: int|
            0 <= group < candidates.len() && 0 <= i < candidates[group].len() implies all_sources(
            candidates,
        ).contains(#[trigger] candidates[group][i]) by {
            if group < candidates.len() - 1 {
                assert(candidates.drop_last()[group][i] == candidates[group][i]);
            } else {
                assert(candidates.last().contains(candidates[group][i]));
            }
        }
    }
}

/// How many sources a search has not yet looked at.
pub open spec fn unvisited(
    candidates: Seq<Seq<SourceKey>>,
    visited: Set<SourceKey>,
) -> nat {
    all_sources(candidates).difference(visited).len()
}

/// Looking at a source that a group can use leaves fewer to look at.
pub proof fn lemma_visiting(
    candidates: Seq<Seq<SourceKey>>,
    group: int,
    at: int,
    before: Set<SourceKey>,
    after: Set<SourceKey>,
)
    requires
        0 <= group < candidates.len(),
        0 <= at < candidates[group].len(),
        !before.contains(candidates[group][at]),
        before.insert(candidates[group][at]).subset_of(after),
    ensures
        unvisited(candidates, after) < unvisited(candidates, before),
{
    lemma_all_sources(candidates);
    let source = candidates[group][at];
    let left = all_sources(candidates).difference(after);
    let right = all_sources(candidates).difference(before);
    assert(right.contains(source));
    assert(left.subset_of(right.remove(source)));
    lemma_len_subset(left, right.remove(source));
}

/// The group that has `source`, the first where there are several.
pub open spec fn owner_of(chosen: Chosen, source: SourceKey) -> Option<int>
    decreases chosen.len(),
{
    if chosen.len() == 0 {
        None
    } else if owner_of(chosen.drop_last(), source) is Some {
        owner_of(chosen.drop_last(), source)
    } else if chosen.last() == Some(source) {
        Some(chosen.len() - 1)
    } else {
        None
    }
}

proof fn lemma_owner_of(chosen: Chosen, source: SourceKey)
    ensures
        owner_of(chosen, source) matches Some(group) ==> 0 <= group < chosen.len()
            && chosen[group] == Some(source) && forall|i: int|
            0 <= i < group ==> #[trigger] chosen[i] != Some(source),
        owner_of(chosen, source) is None ==> forall|i: int|
            0 <= i < chosen.len() ==> #[trigger] chosen[i] != Some(source),
    decreases chosen.len(),
{
    if chosen.len() > 0 {
        let before = chosen.drop_last();
        lemma_owner_of(before, source);
        assert forall|i: int| 0 <= i < before.len() implies before[i] == #[trigger] chosen[i] by {}
    }
}

/// Looks for a source for `group` among its candidates from `from` on. A free
/// source is taken; one that another group has is taken where that group can
/// be given a different one. No source is looked at twice: `visited` holds
/// those that were.
///
/// Gives the new choice, where there is one, and the sources looked at.
pub open spec fn search(
    candidates: Seq<Seq<SourceKey>>,
    chosen: Chosen,
    group: int,
    from: int,
    visited: Set<SourceKey>,
) -> (Option<Chosen>, Set<SourceKey>)
    decreases unvisited(candidates, visited), candidates[group].len() - from,
{
    if !(0 <= group < candidates.len()) || !(0 <= from < candidates[group].len()) {
        (None, visited)
    } else {
        let source = candidates[group][from];
        if visited.contains(source) {
            search(candidates, chosen, group, from + 1, visited)
        } else {
            let seen = visited.insert(source);
            match owner_of(chosen, source) {
                None => (Some(chosen.update(group, Some(source))), seen),
                Some(owner) => {
                    proof {
                        lemma_visiting(candidates, group, from, visited, seen);
                    }
                    let rehomed = search(candidates, chosen, owner, 0, seen);
                    match rehomed.0 {
                        Some(moved) => (Some(moved.update(group, Some(source))), rehomed.1),
                        None => {
                            let all_seen = seen.union(rehomed.1);
                            proof {
                                lemma_visiting(candidates, group, from, visited, all_seen);
                            }
                            search(candidates, chosen, group, from + 1, all_seen)
                        },
                    }
                },
            }
        }
    }
}

/// The choice after each group of `order` in turn was given a source, or
/// nothing where one of them could not be given any.
pub open spec fn assign_in_order(
    candidates: Seq<Seq<SourceKey>>,
    order: Seq<(usize, usize)>,
    chosen: Chosen,
) -> Option<Chosen>
    decreases order.len(),
{
    if order.len() == 0 {
        Some(chosen)
    } else {
        match search(candidates, chosen, order[0].1 as int, 0, Set::empty()).0 {
            Some(next) => assign_in_order(candidates, order.skip(1), next),
            None => None,
        }
    }
}

/// Each group with the number of its candidates.
pub open spec fn group_sizes(candidates: Seq<Seq<SourceKey>>) -> Seq<(usize, usize)> {
    Seq::new(candidates.len(), |i: int| (candidates[i].len() as usize, i as usize))
}

/// The groups in the order in which they are served: those with the fewest
/// candidates first.
pub open spec fn group_order(candidates: Seq<Seq<SourceKey>>) -> Seq<(usize, usize)> {
    order::stable_sorted::<(usize, usize)>(group_sizes(candidates))
}

/// No group has a source.
pub open spec fn nothing_chosen(groups: nat) -> Chosen {
    Seq::new(groups, |i: int| None)
}

/// The source that each group is given, or nothing where they cannot all be
/// given one.
pub open spec fn assignment(candidates: Seq<Seq<SourceKey>>) -> Option<Seq<SourceKey>> {
    match assign_in_order(
        candidates,
        group_order(candidates),
        nothing_chosen(candidates.len()),
    ) {
        Some(chosen) => Some(chosen.map_values(|source: Option<SourceKey>| source->0)),
        None => None,
    }
}

/// Whether `sources` gives every group a source that it can use, and no two
/// groups the same one.
pub open spec fn is_routing(
    candidates: Seq<Seq<SourceKey>>,
    sources: Seq<SourceKey>,
) -> bool {
    &&& sources.len() == candidates.len()
    &&& forall|i: int|
        0 <= i < candidates.len() ==> candidates[i].contains(#[trigger] sources[i])
    &&& forall|i: int, j: int|
        0 <= i < j < sources.len() ==> #[trigger] sources[i] != #[trigger] sources[j]
}

/// Whether every choice made so far is one of the group's candidates, and no
/// source was given twice.
pub open spec fn is_consistent(candidates: Seq<Seq<SourceKey>>, chosen: Chosen) -> bool {
    &&& chosen.len() == candidates.len()
    &&& forall|i: int|
        0 <= i < chosen.len() ==> ((#[trigger] chosen[i]) matches Some(source)
            ==> candidates[i].contains(source))
    &&& forall|i: int, j: int|
        0 <= i < j < chosen.len() && (#[trigger] chosen[i]) is Some ==> chosen[i]
            != #[trigger] chosen[j]
}

proof fn lemma_search_length(
    candidates: Seq<Seq<SourceKey>>,
    chosen: Chosen,
    group: int,
    from: int,
    visited: Set<SourceKey>,
)
    requires
        chosen.len() == candidates.len(),
    ensures
        search(candidates, chosen, group, from, visited).0 matches Some(found) ==> found.len()
            == chosen.len(),
    decreases unvisited(candidates, visited), candidates[group].len() - from,
{
    if 0 <= group < candidates.len() && 0 <= from < candidates[group].len() {
        let source = candidates[group][from];
        if visited.contains(source) {
            lemma_search_length(candidates, chosen, group, from + 1, visited);
        } else if let Some(owner) = owner_of(chosen, source) {
            lemma_owner_of(chosen, source);
            let seen = visited.insert(source);
            lemma_visiting(candidates, group, from, visited, seen);
            let rehomed = search(candidates, chosen, owner, 0, seen);
            lemma_search_length(candidates, chosen, owner, 0, seen);
            let all_seen = seen.union(rehomed.1);
            lemma_visiting(candidates, group, from, visited, all_seen);
            lemma_search_length(candidates, chosen, group, from + 1, all_seen);
        }
    }
}

/// What a search that succeeded leaves behind.
proof fn lemma_search_found(
    candidates: Seq<Seq<SourceKey>>,
    chosen: Chosen,
    group: int,
    from: int,
    visited: Set<SourceKey>,
)
    requires
        is_consistent(candidates, chosen),
        0 <= group < candidates.len(),
        0 <= from,
        chosen[group] matches Some(source) ==> visited.contains(source),
        search(candidates, chosen, group, from, visited).0 is Some,
    ensures
        ({
            let found = search(candidates, chosen, group, from, visited).0->0;
            &&& is_consistent(candidates, found)
            &&& found[group] is Some
            &&& !visited.contains(found[group]->0)
            &&& forall|i: int|
                0 <= i < chosen.len() && i != group ==> ((#[trigger] found[i]) is Some
                    <==> chosen[i] is Some)
            &&& forall|i: int|
                0 <= i < chosen.len() && i != group && (#[trigger] found[i]) is Some
                    && visited.contains(found[i]->0) ==> chosen[i] == found[i]
        }),
    decreases unvisited(candidates, visited), candidates[group].len() - from,
{
    let result = search(candidates, chosen, group, from, visited);
    let found = result.0->0;
    let source = candidates[group][from];
    if visited.contains(source) {
        lemma_search_found(candidates, chosen, group, from + 1, visited);
    } else {
        let seen = visited.insert(source);
        assert(candidates[group].contains(source));
        lemma_owner_of(chosen, source);
        match owner_of(chosen, source) {
            None => {
                assert(found =~= chosen.update(group, Some(source)));
            },
            Some(owner) => {
                lemma_visiting(candidates, group, from, visited, seen);
                let rehomed = search(candidates, chosen, owner, 0, seen);
                match rehomed.0 {
                    Some(moved) => {
                        lemma_search_found(candidates, chosen, owner, 0, seen);
                        assert(owner != group);
                        assert(found =~= moved.update(group, Some(source)));
                        assert forall|i: int| 0 <= i < moved.len() implies #[trigger] moved[i]
                            != Some(source) by {
                            if i == owner {
                                assert(!seen.contains(moved[owner]->0));
                            } else if moved[i] == Some(source) {
                                assert(chosen[i] == Some(source));
                                assert(chosen[owner] == Some(source));
                            }
                        }
                        assert forall|i: int, j: int|
                            0 <= i < j < found.len() && (#[trigger] found[i]) is Some implies found[i]
                            != #[trigger] found[j] by {
                            if i == group {
                                assert(found[j] == moved[j]);
                            } else if j == group {
                                assert(found[i] == moved[i]);
                            } else {
                                assert(found[i] == moved[i] && found[j] == moved[j]);
                            }
                        }
                    },
                    None => {
                        let all_seen = seen.union(rehomed.1);
                        lemma_visiting(candidates, group, from, visited, all_seen);
                        lemma_search_found(candidates, chosen, group, from + 1, all_seen);
                    },
                }
            },
        }
    }
}

/// A set of sources that its owners cannot leave: each of them belongs to a
/// group whose every candidate is in the set. Sources of `before` are left
/// out of account.
pub open spec fn is_closed(
    candidates: Seq<Seq<SourceKey>>,
    chosen: Chosen,
    before: Set<SourceKey>,
    sources: Set<SourceKey>,
) -> bool {
    forall|source: SourceKey| #[trigger]
        sources.contains(source) && !before.contains(source) ==> (owner_of(
            chosen,
            source,
        ) matches Some(owner) && candidates[owner].to_set().subset_of(sources))
}

/// What a search that failed has looked at.
proof fn lemma_search_failed(
    candidates: Seq<Seq<SourceKey>>,
    chosen: Chosen,
    group: int,
    from: int,
    visited: Set<SourceKey>,
)
    requires
        chosen.len() == candidates.len(),
        0 <= group < candidates.len(),
        0 <= from <= candidates[group].len(),
        visited.finite(),
        search(candidates, chosen, group, from, visited).0 is None,
    ensures
        ({
            let seen = search(candidates, chosen, group, from, visited).1;
            &&& seen.finite()
            &&& visited.subset_of(seen)
            &&& forall|i: int|
                from <= i < candidates[group].len() ==> seen.contains(
                    #[trigger] candidates[group][i],
                )
            &&& is_closed(candidates, chosen, visited, seen)
        }),
    decreases unvisited(candidates, visited), candidates[group].len() - from,
{
    if from < candidates[group].len() {
        let source = candidates[group][from];
        let result = search(candidates, chosen, group, from, visited);
        if visited.contains(source) {
            lemma_search_failed(candidates, chosen, group, from + 1, visited);
        } else {
            let first = visited.insert(source);
            lemma_owner_of(chosen, source);
            let owner = owner_of(chosen, source)->0;
            lemma_visiting(candidates, group, from, visited, first);
            let rehomed = search(candidates, chosen, owner, 0, first);
            lemma_search_failed(candidates, chosen, owner, 0, first);
            let second = first.union(rehomed.1);
            assert(second =~= rehomed.1);
            lemma_visiting(candidates, group, from, visited, second);
            lemma_search_failed(candidates, chosen, group, from + 1, second);
            let seen = result.1;
            assert(candidates[owner].to_set().subset_of(rehomed.1)) by {
                assert forall|s: SourceKey| candidates[owner].to_set().contains(
                    s,
                ) implies rehomed.1.contains(s) by {
                    let i = choose|i: int|
                        0 <= i < candidates[owner].len() && candidates[owner][i] == s;
                    assert(rehomed.1.contains(candidates[owner][i]));
                }
            }
            assert forall|s: SourceKey| #[trigger]
                seen.contains(s) && !visited.contains(s) implies (owner_of(chosen, s) matches Some(
                o,
            ) && candidates[o].to_set().subset_of(seen)) by {
                if s == source {
                } else if rehomed.1.contains(s) {
                    assert(!first.contains(s));
                    assert(candidates[owner_of(chosen, s)->0].to_set().subset_of(rehomed.1));
                } else {
                    assert(!second.contains(s));
                }
            }
        }
    }
}

/// Where a group cannot be served, no routing exists at all: the groups that
/// hold the sources it looked at, and the group itself, have fewer sources
/// between them than there are groups.
proof fn lemma_no_routing(
    candidates: Seq<Seq<SourceKey>>,
    chosen: Chosen,
    group: int,
    sources: Seq<SourceKey>,
)
    requires
        is_consistent(candidates, chosen),
        0 <= group < candidates.len(),
        chosen[group] is None,
        search(candidates, chosen, group, 0, Set::empty()).0 is None,
    ensures
        !is_routing(candidates, sources),
{
    let seen = search(candidates, chosen, group, 0, Set::empty()).1;
    lemma_search_failed(candidates, chosen, group, 0, Set::empty());
    if is_routing(candidates, sources) {
        // The groups that hold what was looked at, one for each source.
        let holder = |s: SourceKey| owner_of(chosen, s)->0;
        let holders = seen.map(holder);
        assert forall|s: SourceKey| seen.contains(s) implies {
            &&& owner_of(chosen, s) is Some
            &&& 0 <= holder(s) < chosen.len()
            &&& chosen[holder(s)] == Some(s)
            &&& candidates[holder(s)].to_set().subset_of(seen)
        } by {
            lemma_owner_of(chosen, s);
            assert(!Set::<SourceKey>::empty().contains(s));
        }
        assert forall|a: SourceKey, b: SourceKey|
            seen.contains(a) && seen.contains(b) && #[trigger] holder(a) == #[trigger] holder(
                b,
            ) implies a == b by {
            assert(chosen[holder(a)] == Some(a));
            assert(chosen[holder(b)] == Some(b));
        }
        assert forall|a: SourceKey| seen.contains(a) implies holders.contains(
            #[trigger] holder(a),
        ) by {}
        assert forall|b: int| #[trigger] holders.contains(b) implies exists|a: SourceKey|
            seen.contains(a) && holder(a) == b by {}
        lemma_map_size(seen, holders, holder);
        assert(!holders.contains(group)) by {
            if holders.contains(group) {
                let s = choose|s: SourceKey| seen.contains(s) && holder(s) == group;
                assert(chosen[holder(s)] == Some(s));
            }
        }
        seen.lemma_map_finite(holder);
        let crowd = holders.insert(group);
        // A routing would send them all, each to its own place, into that set.
        let target = |i: int| sources[i];
        let places = crowd.map(target);
        assert forall|i: int| crowd.contains(i) implies 0 <= i < candidates.len()
            && candidates[i].to_set().subset_of(seen) by {
            if i == group {
                assert forall|s: SourceKey| candidates[group].to_set().contains(
                    s,
                ) implies seen.contains(s) by {
                    let k = choose|k: int|
                        0 <= k < candidates[group].len() && candidates[group][k] == s;
                    assert(seen.contains(candidates[group][k]));
                }
            } else {
                let s = choose|s: SourceKey| seen.contains(s) && holder(s) == i;
                assert(candidates[holder(s)].to_set().subset_of(seen));
            }
        }
        assert forall|s: SourceKey| places.contains(s) implies seen.contains(s) by {
            let i = choose|i: int| crowd.contains(i) && target(i) == s;
            assert(candidates[i].contains(sources[i]));
            assert(candidates[i].to_set().contains(sources[i]));
        }
        assert forall|i: int, j: int|
            crowd.contains(i) && crowd.contains(j) && #[trigger] target(i) == #[trigger] target(
                j,
            ) implies i == j by {
            if i < j {
                assert(sources[i] != sources[j]);
            } else if j < i {
                assert(sources[j] != sources[i]);
            }
        }
        assert forall|i: int| crowd.contains(i) implies places.contains(#[trigger] target(i)) by {}
        assert forall|b: SourceKey| #[trigger] places.contains(b) implies exists|a: int|
            crowd.contains(a) && target(a) == b by {}
        crowd.lemma_map_finite(target);
        lemma_map_size(crowd, places, target);
        lemma_len_subset(places, seen);
    }
}

/// Whether `order` holds groups of `candidates`, none of them twice.
pub open spec fn is_order(candidates: Seq<Seq<SourceKey>>, order: Seq<(usize, usize)>) -> bool {
    &&& forall|i: int| 0 <= i < order.len() ==> (#[trigger] order[i]).1 < candidates.len()
    &&& forall|i: int, j: int|
        0 <= i < j < order.len() ==> (#[trigger] order[i]).1 != (#[trigger] order[j]).1
}

/// Whether `order` holds `group`.
pub open spec fn is_served(order: Seq<(usize, usize)>, group: int) -> bool {
    exists|i: int| 0 <= i < order.len() && (#[trigger] order[i]).1 == group
}

proof fn lemma_assign_in_order(
    candidates: Seq<Seq<SourceKey>>,
    order: Seq<(usize, usize)>,
    chosen: Chosen,
)
    requires
        is_consistent(candidates, chosen),
        is_order(candidates, order),
        forall|i: int|
            0 <= i < order.len() ==> chosen[(#[trigger] order[i]).1 as int] is None,
    ensures
        assign_in_order(candidates, order, chosen) matches Some(all) ==> {
            &&& is_consistent(candidates, all)
            &&& forall|i: int|
                0 <= i < order.len() ==> all[(#[trigger] order[i]).1 as int] is Some
            &&& forall|i: int|
                0 <= i < chosen.len() && (#[trigger] chosen[i]) is Some ==> all[i] is Some
        },
        assign_in_order(candidates, order, chosen) is None ==> forall|sources: Seq<SourceKey>|
            !is_routing(candidates, sources),
    decreases order.len(),
{
    if order.len() > 0 {
        let group = order[0].1 as int;
        let rest = order.skip(1);
        match search(candidates, chosen, group, 0, Set::empty()).0 {
            Some(next) => {
                lemma_search_found(candidates, chosen, group, 0, Set::empty());
                assert forall|i: int| 0 <= i < rest.len() implies next[(#[trigger] rest[i]).1 as int] is None by {
                    assert(rest[i] == order[i + 1]);
                    assert(chosen[order[i + 1].1 as int] is None);
                }
                lemma_assign_in_order(candidates, rest, next);
                if let Some(all) = assign_in_order(candidates, order, chosen) {
                    assert forall|i: int| 0 <= i < order.len() implies all[(#[trigger] order[i]).1 as int] is Some by {
                        if i > 0 {
                            assert(order[i] == rest[i - 1]);
                        }
                    }
                    assert forall|i: int| 0 <= i < chosen.len() && (#[trigger] chosen[i]) is Some implies all[i] is Some by {
                        assert(next[i] is Some);
                    }
                }
            },
            None => {
                assert forall|sources: Seq<SourceKey>| !is_routing(candidates, sources) by {
                    lemma_no_routing(candidates, chosen, group, sources);
                }
            },
        }
    }
}

proof fn lemma_group_order(candidates: Seq<Seq<SourceKey>>)
    requires
        candidates.len() <= usize::MAX,
    ensures
        is_order(candidates, group_order(candidates)),
        forall|group: int|
            0 <= group < candidates.len() ==> #[trigger] is_served(
                group_order(candidates),
                group,
            ),
{
    let sizes = group_sizes(candidates);
    let order = group_order(candidates);
    order::lemma_sorted_members::<(usize, usize)>(sizes);
    assert(sizes.no_duplicates()) by {
        assert forall|i: int, j: int| 0 <= i < sizes.len() && 0 <= j < sizes.len() && i != j implies sizes[i] != sizes[j] by {}
    }
    assert forall|i: int| 0 <= i < order.len() implies {
        &&& (#[trigger] order[i]).1 < candidates.len()
        &&& order[i] == sizes[order[i].1 as int]
    } by {
        assert(order.contains(order[i]));
        assert(sizes.contains(order[i]));
    }
    assert forall|i: int, j: int| 0 <= i < j < order.len() implies (#[trigger] order[i]).1
        != (#[trigger] order[j]).1 by {
        assert(order[i] != order[j]);
    }
    assert forall|group: int| 0 <= group < candidates.len() implies #[trigger] is_served(
        order,
        group,
    ) by {
        assert(sizes.contains(sizes[group]));
        assert(order.contains(sizes[group]));
        let i = choose|i: int| 0 <= i < order.len() && order[i] == sizes[group];
        assert(order[i].1 == group);
    }
}

/// Groups with fewer candidates are served before those with more, and of
/// those with equally many the earlier ones.
pub proof fn lemma_fewest_candidates_first(candidates: Seq<Seq<SourceKey>>, i: int, j: int)
    requires
        candidates.len() <= usize::MAX,
        forall|g: int| 0 <= g < candidates.len() ==> (#[trigger] candidates[g]).len() <= usize::MAX,
        0 <= i < j < group_order(candidates).len(),
    ensures
        group_order(candidates).len() == candidates.len(),
        ({
            let a = group_order(candidates)[i].1 as int;
            let b = group_order(candidates)[j].1 as int;
            &&& 0 <= a < candidates.len()
            &&& 0 <= b < candidates.len()
            &&& candidates[a].len() < candidates[b].len() || (candidates[a].len()
                == candidates[b].len() && a < b)
        }),
{
    let sizes = group_sizes(candidates);
    let order = group_order(candidates);
    order::lemma_stable_sorted::<(usize, usize)>(sizes);
    order::lemma_sorted_members::<(usize, usize)>(sizes);
    lemma_group_order(candidates);
    assert(order.contains(order[i]) && order.contains(order[j]));
    assert(sizes.contains(order[i]) && sizes.contains(order[j]));
    assert(order[i].1 != order[j].1);
    let k = choose|k: int| 0 <= k < sizes.len() && sizes[k] == order[i];
    let l = choose|l: int| 0 <= l < sizes.len() && sizes[l] == order[j];
    assert(candidates[k].len() <= usize::MAX && candidates[l].len() <= usize::MAX);
}

/// A source is given to every group whenever that can be done at all: the
/// assignment is a routing, and there is none only where no routing exists.
pub proof fn lemma_assignment_is_complete(candidates: Seq<Seq<SourceKey>>)
    requires
        candidates.len() <= usize::MAX,
    ensures
        assignment(candidates) matches Some(sources) ==> is_routing(candidates, sources),
        assignment(candidates) is None ==> forall|sources: Seq<SourceKey>|
            !is_routing(candidates, sources),
{
    let order = group_order(candidates);
    let start = nothing_chosen(candidates.len());
    lemma_group_order(candidates);
    lemma_assign_in_order(candidates, order, start);
    if let Some(all) = assign_in_order(candidates, order, start) {
        let sources = assignment(candidates)->0;
        assert forall|i: int| 0 <= i < candidates.len() implies (#[trigger] all[i]) is Some
            && sources[i] == all[i]->0 by {
            assert(is_served(order, i));
            let at = choose|at: int| 0 <= at < order.len() && (#[trigger] order[at]).1 == i;
            assert(all[order[at].1 as int] is Some);
        }
        assert forall|i: int| 0 <= i < candidates.len() implies candidates[i].contains(
            #[trigger] sources[i],
        ) by {
            assert(all[i] is Some);
        }
        assert forall|i: int, j: int| 0 <= i < j < sources.len() implies #[trigger] sources[i]
            != #[trigger] sources[j] by {
            assert(all[i] is Some && all[j] is Some);
            assert(all[i] != all[j]);
        }
    }
}

/// Whether every group has a candidate and no two groups have the same first
/// one.
pub open spec fn first_choices_differ(candidates: Seq<Seq<SourceKey>>) -> bool {
    &&& forall|i: int| 0 <= i < candidates.len() ==> (#[trigger] candidates[i]).len() > 0
    &&& forall|i: int, j: int|
        0 <= i < j < candidates.len() ==> (#[trigger] candidates[i])[0] != (
        #[trigger] candidates[j])[0]
}

proof fn lemma_first_choices_in_order(
    candidates: Seq<Seq<SourceKey>>,
    order: Seq<(usize, usize)>,
    chosen: Chosen,
)
    requires
        first_choices_differ(candidates),
        chosen.len() == candidates.len(),
        is_order(candidates, order),
        forall|i: int|
            0 <= i < order.len() ==> chosen[(#[trigger] order[i]).1 as int] is None,
        forall|i: int|
            0 <= i < chosen.len() && (#[trigger] chosen[i]) is Some ==> chosen[i] == Some(
                candidates[i][0],
            ),
    ensures
        assign_in_order(candidates, order, chosen) matches Some(all) && all.len()
            == candidates.len() && forall|i: int|
            0 <= i < all.len() && (#[trigger] all[i]) is Some ==> all[i] == Some(candidates[i][0]),
    decreases order.len(),
{
    if order.len() > 0 {
        let group = order[0].1 as int;
        let source = candidates[group][0];
        lemma_owner_of(chosen, source);
        if let Some(owner) = owner_of(chosen, source) {
            assert(chosen[owner] is Some);
            assert(owner != group);
            assert(candidates[owner][0] != candidates[group][0]);
        }
        let next = chosen.update(group, Some(source));
        assert(search(candidates, chosen, group, 0, Set::empty()).0 == Some(next));
        let rest = order.skip(1);
        assert forall|i: int| 0 <= i < rest.len() implies next[(#[trigger] rest[i]).1 as int] is None by {
            assert(rest[i] == order[i + 1]);
            assert(order[0].1 != order[i + 1].1);
        }
        lemma_first_choices_in_order(candidates, rest, next);
    }
}

/// Where every group's first choice is a different source, every group is
/// given its first choice.
pub proof fn lemma_first_choices_are_kept(candidates: Seq<Seq<SourceKey>>)
    requires
        candidates.len() <= usize::MAX,
        first_choices_differ(candidates),
    ensures
        assignment(candidates) matches Some(sources) && sources.len() == candidates.len()
            && forall|i: int|
            0 <= i < candidates.len() ==> #[trigger] sources[i] == candidates[i][0],
{
    let order = group_order(candidates);
    let start = nothing_chosen(candidates.len());
    lemma_group_order(candidates);
    lemma_assign_in_order(candidates, order, start);
    lemma_first_choices_in_order(candidates, order, start);
    let all = assign_in_order(candidates, order, start)->0;
    let sources = assignment(candidates)->0;
    assert forall|i: int| 0 <= i < candidates.len() implies #[trigger] sources[i]
        == candidates[i][0] by {
        assert(is_served(order, i));
        let at = choose|at: int| 0 <= at < order.len() && (#[trigger] order[at]).1 == i;
        assert(all[order[at].1 as int] is Some);
    }
}

// ---------------------------------------------------------------------------
// The search itself
// ---------------------------------------------------------------------------

/// Whether two sources are the same.
pub fn same_source(a: SourceKey, b: SourceKey) -> (r: bool)
    ensures
        r == (a == b),
{
    a.0 == b.0 && a.1 == b.1 && a.2 == b.2
}

/// Whether `sources` holds `source`.
pub fn holds_source(sources: &Vec<SourceKey>, source: SourceKey) -> (r: bool)
    ensures
        r == sources@.contains(source),
{
    let mut at: usize = 0;
    while at < sources.len()
        invariant
            at <= sources@.len(),
            forall|i: int| 0 <= i < at ==> sources@[i] != source,
        decreases sources@.len() - at,
    {
        if same_source(sources[at], source) {
            return true;
        }
        at = at + 1;
    }
    false
}

fn find_owner(chosen: &Vec<Option<SourceKey>>, source: SourceKey) -> (r: Option<usize>)
    ensures
        r is Some <==> owner_of(chosen@, source) is Some,
        r matches Some(group) ==> owner_of(chosen@, source) == Some(group as int),
{
    let mut at: usize = 0;
    proof {
        lemma_owner_of(chosen@, source);
    }
    while at < chosen.len()
        invariant
            at <= chosen@.len(),
            forall|i: int| 0 <= i < at ==> #[trigger] chosen@[i] != Some(source),
            owner_of(chosen@, source) matches Some(group) ==> 0 <= group < chosen@.len()
                && chosen@[group] == Some(source) && forall|i: int|
                0 <= i < group ==> #[trigger] chosen@[i] != Some(source),
            owner_of(chosen@, source) is None ==> forall|i: int|
                0 <= i < chosen@.len() ==> #[trigger] chosen@[i] != Some(source),
        decreases chosen@.len() - at,
    {
        if let Some(held) = chosen[at] {
            if same_source(held, source) {
                assert(chosen@[at as int] == Some(source));
                return Some(at);
            }
        }
        at = at + 1;
    }
    None
}

/// Looks for a source for `group`, giving other groups different ones where
/// that frees one.
pub fn assign_source(
    group: usize,
    candidates: &[Vec<SourceKey>],
    visited: &mut Vec<SourceKey>,
    chosen: &mut Vec<Option<SourceKey>>,
) -> (found: bool)
    requires
        group < candidates@.len(),
        old(chosen)@.len() == candidates@.len(),
    ensures
        ({
            let result = search(
                order::views(candidates@),
                old(chosen)@,
                group as int,
                0,
                old(visited)@.to_set(),
            );
            &&& found == (result.0 is Some)
            &&& final(chosen)@ == (if found { result.0->0 } else { old(chosen)@ })
            &&& final(visited)@.to_set() == result.1
        }),
    decreases unvisited(order::views(candidates@), old(visited)@.to_set()),
{
    let ghost sources = order::views(candidates@);
    let ghost start = visited@.to_set();
    let ghost before = chosen@;
    let mut at: usize = 0;
    while at < candidates[group as usize].len()
        invariant
            group < candidates@.len(),
            sources == order::views(candidates@),
            before.len() == candidates@.len(),
            start == old(visited)@.to_set(),
            before == old(chosen)@,
            chosen@ == before,
            at <= sources[group as int].len(),
            start.subset_of(visited@.to_set()),
            search(sources, before, group as int, 0, start) == search(
                sources,
                before,
                group as int,
                at as int,
                visited@.to_set(),
            ),
        decreases sources[group as int].len() - at,
    {
        let source = candidates[group][at];
        let ghost looked = visited@;
        assert(sources[group as int][at as int] == source);
        if !holds_source(visited, source) {
            visited.push(source);
            let ghost seen = visited@.to_set();
            proof {
                assert(!looked.to_set().contains(source));
                assert(seen =~= looked.to_set().insert(source)) by {
                    assert forall|s: SourceKey| seen.contains(s) <==> looked.to_set().insert(
                        source,
                    ).contains(s) by {
                        if looked.contains(s) {
                            let i = choose|i: int| 0 <= i < looked.len() && looked[i] == s;
                            assert(visited@[i] == s);
                        }
                        assert(visited@[looked.len() as int] == source);
                    }
                }
                lemma_owner_of(before, source);
            }
            match find_owner(chosen, source) {
                None => {
                    chosen.set(group, Some(source));
                    return true;
                },
                Some(owner) => {
                    proof {
                        assert(start.insert(source).subset_of(seen));
                        lemma_visiting(sources, group as int, at as int, start, seen);
                    }
                    if assign_source(owner, candidates, visited, chosen) {
                        proof {
                            lemma_search_length(sources, before, owner as int, 0, seen);
                        }
                        chosen.set(group, Some(source));
                        return true;
                    }
                    proof {
                        vstd::seq_lib::seq_to_set_is_finite(looked);
                        lemma_search_failed(sources, before, owner as int, 0, seen);
                        assert(seen.union(visited@.to_set()) =~= visited@.to_set());
                    }
                },
            }
        }
        at = at + 1;
    }
    false
}

/// Gives every group one of its candidate sources, no two groups the same,
/// where that can be done.
pub fn assign_sources(candidates: &[Vec<SourceKey>]) -> (r: Option<Vec<SourceKey>>)
    ensures
        r is Some <==> assignment(order::views(candidates@)) is Some,
        r matches Some(sources) ==> assignment(order::views(candidates@)) == Some(sources@),
{
    let ghost sources = order::views(candidates@);
    let mut sizes: Vec<(usize, usize)> = Vec::new();
    let mut chosen: Vec<Option<SourceKey>> = Vec::new();
    let mut index: usize = 0;
    while index < candidates.len()
        invariant
            index <= candidates@.len(),
            sources == order::views(candidates@),
            sizes@ == group_sizes(sources).take(index as int),
            chosen@ == nothing_chosen(index as nat),
        decreases candidates@.len() - index,
    {
        sizes.push((candidates[index].len(), index));
        chosen.push(None);
        proof {
            assert(group_sizes(sources).take(index + 1) =~= group_sizes(sources).take(
                index as int,
            ).push((candidates@[index as int]@.len() as usize, index)));
            assert(nothing_chosen((index + 1) as nat) =~= nothing_chosen(index as nat).push(None));
        }
        index = index + 1;
    }
    proof {
        assert(group_sizes(sources).take(sources.len() as int) =~= group_sizes(sources));
        assert(order::views(sizes@) =~= sizes@);
    }
    let sorted = order::stable_sort(sizes);
    let ghost all = group_order(sources);
    let ghost start = nothing_chosen(sources.len());
    proof {
        assert(order::views(sorted@) =~= sorted@);
        assert(sorted@ == all);
        lemma_group_order(sources);
        lemma_assign_in_order(sources, all, start);
        lemma_assignment_is_complete(sources);
        assert(all.skip(0) =~= all);
    }
    let mut at: usize = 0;
    while at < sorted.len()
        invariant
            at <= sorted@.len(),
            sources == order::views(candidates@),
            sorted@ == all,
            is_order(sources, all),
            chosen@.len() == sources.len(),
            assign_in_order(sources, all, start) == assign_in_order(
                sources,
                all.skip(at as int),
                chosen@,
            ),
            all == group_order(sources),
            start == nothing_chosen(sources.len()),
        decreases sorted@.len() - at,
    {
        let group = sorted[at].1;
        let mut visited: Vec<SourceKey> = Vec::new();
        proof {
            assert(all[at as int].1 < sources.len());
            assert(all.skip(at as int)[0] == all[at as int]);
            assert(all.skip(at as int).skip(1) =~= all.skip(at + 1));
            assert(visited@.to_set() =~= Set::empty());
        }
        let ghost before = chosen@;
        if !assign_source(group, candidates, &mut visited, &mut chosen) {
            return None;
        }
        proof {
            lemma_search_length(sources, before, group as int, 0, Set::empty());
        }
        at = at + 1;
    }
    proof {
        assert(assign_in_order(sources, all.skip(at as int), chosen@) == Some(chosen@));
        assert forall|i: int| 0 <= i < chosen@.len() implies (#[trigger] chosen@[i]) is Some by {
            assert(is_served(all, i));
            let place = choose|at: int| 0 <= at < all.len() && (#[trigger] all[at]).1 == i;
            assert(chosen@[all[place].1 as int] is Some);
        }
    }
    let mut assigned: Vec<SourceKey> = Vec::new();
    let mut group: usize = 0;
    let ghost routes = assignment(sources)->0;
    while group < chosen.len()
        invariant
            group <= chosen@.len(),
            chosen@.len() == sources.len(),
            assigned@ == routes.take(group as int),
            routes == chosen@.map_values(|source: Option<SourceKey>| source->0),
            forall|i: int| 0 <= i < chosen@.len() ==> (#[trigger] chosen@[i]) is Some,
        decreases chosen@.len() - group,
    {
        match chosen[group] {
            Some(source) => {
                assigned.push(source);
                proof {
                    assert(routes.take(group + 1) =~= routes.take(group as int).push(source));
                }
            },
            None => {
                assert(chosen@[group as int] is Some);
            },
        }
        group = group + 1;
    }
    proof {
        assert(routes.take(routes.len() as int) =~= routes);
    }
    Some(assigned)
}

} // verus!
