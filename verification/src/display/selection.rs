//! Choosing the display paths that bring a saved layout back.

use vstd::prelude::*;
use vstd::string::*;
use crate::display::paths::{DisplayPath, QueriedPath, QueriedView, INVALID_MODE_INDEX, PATH_ACTIVE};
use crate::display::paths;
use crate::display::routing::{assign_sources, holds_source, same_source};
use crate::display::routing;
use crate::model::{enabled_monitors, GroupKey, GroupKeyView, MonitorConfig, MonitorLayout, MonitorView, SourceKey};
use crate::model;
use crate::order;
use crate::text;

verus! {

/// Why no set of paths brings a layout back.
#[derive(Debug)]
pub enum SelectionError {
    /// A clone group was captured from more than one source.
    CloneSources,
    /// A monitor is not connected.
    NotConnected(String),
    /// Cloned monitors that no single source reaches.
    NoCommonSource(Vec<String>),
    /// There are fewer sources than groups that need one.
    CannotAssign,
}

/// The contents of a [`SelectionError`].
#[verifier::ext_equal]
pub enum SelectionFault {
    CloneSources,
    NotConnected(Seq<char>),
    NoCommonSource(Seq<Seq<char>>),
    CannotAssign,
}

impl View for SelectionError {
    type V = SelectionFault;

    open spec fn view(&self) -> SelectionFault {
        match self {
            SelectionError::CloneSources => SelectionFault::CloneSources,
            SelectionError::NotConnected(name) => SelectionFault::NotConnected(name@),
            SelectionError::NoCommonSource(names) => SelectionFault::NoCommonSource(
                text::texts(names@),
            ),
            SelectionError::CannotAssign => SelectionFault::CannotAssign,
        }
    }
}

impl SelectionFault {
    /// What the user reads.
    pub open spec fn message(self) -> Seq<char> {
        match self {
            SelectionFault::CloneSources =>
                "clone group contains monitors captured from different display sources"@,
            SelectionFault::NotConnected(name) => "monitor '"@ + name
                + "' is not currently connected"@,
            SelectionFault::NoCommonSource(names) =>
                "Windows has no common display source available for cloned monitors '"@
                + text::join(names, "' + '"@) + "'"@,
            SelectionFault::CannotAssign =>
                "Windows cannot assign distinct display sources to every enabled monitor/clone group"@,
        }
    }
}

impl SelectionError {
    /// What the user reads.
    pub fn message(&self) -> (r: String)
        ensures
            r@ == self@.message(),
    {
        match self {
            SelectionError::CloneSources =>
                "clone group contains monitors captured from different display sources".to_string(),
            SelectionError::NotConnected(name) => {
                let mut out = "monitor '".to_string();
                out.append(name.as_str());
                out.append("' is not currently connected");
                out
            },
            SelectionError::NoCommonSource(names) => {
                let mut out =
                    "Windows has no common display source available for cloned monitors '".to_string();
                out.append(text::join_texts(names, "' + '").as_str());
                out.append("'");
                out
            },
            SelectionError::CannotAssign =>
                "Windows cannot assign distinct display sources to every enabled monitor/clone group".to_string(),
        }
    }
}

// ---------------------------------------------------------------------------
// Groups
// ---------------------------------------------------------------------------

/// Monitors that are placed together, with the source they were saved with.
pub struct PlacedGroup {
    pub key: GroupKey,
    pub source: SourceKey,
    pub members: Vec<MonitorConfig>,
}

/// The contents of a [`PlacedGroup`].
#[verifier::ext_equal]
pub struct GroupView {
    pub key: GroupKeyView,
    pub source: SourceKey,
    pub members: Seq<MonitorView>,
}

impl View for PlacedGroup {
    type V = GroupView;

    open spec fn view(&self) -> GroupView {
        GroupView { key: self.key@, source: self.source, members: order::views(self.members@) }
    }
}

/// The first group with `key` at or after `from`, or the number of groups.
pub open spec fn group_with(groups: Seq<GroupView>, key: GroupKeyView, from: int) -> int
    decreases groups.len() - from,
{
    if from < 0 || from >= groups.len() || groups[from].key == key {
        from
    } else {
        group_with(groups, key, from + 1)
    }
}

/// The groups with one monitor more. A clone group takes only monitors that
/// were captured from its source.
pub open spec fn joined(groups: Seq<GroupView>, monitor: MonitorView) -> Option<Seq<GroupView>> {
    let key = monitor.group_key();
    let at = group_with(groups, key, 0);
    if at >= groups.len() {
        Some(
            groups.push(
                GroupView { key, source: monitor.source_key(), members: seq![monitor] },
            ),
        )
    } else if key is Clone && groups[at].source != monitor.source_key() {
        None
    } else {
        Some(
            groups.update(
                at,
                GroupView {
                    key: groups[at].key,
                    source: groups[at].source,
                    members: groups[at].members.push(monitor),
                },
            ),
        )
    }
}

/// The monitors by group, groups and members in the order of their first
/// appearance; nothing where a clone group mixes sources.
pub open spec fn grouping(monitors: Seq<MonitorView>) -> Option<Seq<GroupView>>
    decreases monitors.len(),
{
    if monitors.len() == 0 {
        Some(Seq::empty())
    } else {
        match grouping(monitors.drop_last()) {
            None => None,
            Some(groups) => joined(groups, monitors.last()),
        }
    }
}

// ---------------------------------------------------------------------------
// Candidate paths and sources
// ---------------------------------------------------------------------------

/// The paths that lead to a connected monitor of this identity, in their order.
pub open spec fn matching(queried: Seq<QueriedView>, monitor: MonitorView) -> Seq<DisplayPath>
    decreases queried.len(),
{
    if queried.len() == 0 {
        Seq::empty()
    } else {
        let found = matching(queried.drop_last(), monitor);
        let last = queried.last();
        if last.is_usable() && monitor.identity.matches(last.meta->0.identity) {
            found.push(last.path)
        } else {
            found
        }
    }
}

/// The source of each path.
pub open spec fn sources_of(paths: Seq<DisplayPath>) -> Seq<SourceKey> {
    paths.map_values(|path: DisplayPath| path.source())
}

/// Whether every monitor of `members` can be reached from `source`.
pub open spec fn reaches_all(
    queried: Seq<QueriedView>,
    members: Seq<MonitorView>,
    source: SourceKey,
) -> bool {
    forall|i: int|
        0 <= i < members.len() ==> sources_of(
            matching(queried, #[trigger] members[i]),
        ).contains(source)
}

/// The different sources from which all members can be reached, in the order
/// of the first member's paths.
pub open spec fn common_among(
    queried: Seq<QueriedView>,
    members: Seq<MonitorView>,
    sources: Seq<SourceKey>,
) -> Seq<SourceKey>
    decreases sources.len(),
{
    if sources.len() == 0 {
        Seq::empty()
    } else {
        let found = common_among(queried, members, sources.drop_last());
        let last = sources.last();
        if reaches_all(queried, members, last) && !found.contains(last) {
            found.push(last)
        } else {
            found
        }
    }
}

/// The different sources from which all members can be reached.
pub open spec fn common_sources(
    queried: Seq<QueriedView>,
    members: Seq<MonitorView>,
) -> Seq<SourceKey> {
    common_among(queried, members, sources_of(matching(queried, members[0])))
}

/// The first place of `source` at or after `from`, or the length.
pub open spec fn place_of(sources: Seq<SourceKey>, source: SourceKey, from: int) -> int
    decreases sources.len() - from,
{
    if from < 0 || from >= sources.len() || sources[from] == source {
        from
    } else {
        place_of(sources, source, from + 1)
    }
}

/// `sources` with `preferred` swapped to the front, where it occurs.
pub open spec fn preferred_first(
    sources: Seq<SourceKey>,
    preferred: SourceKey,
) -> Seq<SourceKey> {
    let at = place_of(sources, preferred, 0);
    if at < sources.len() {
        sources.update(at, sources[0]).update(0, preferred)
    } else {
        sources
    }
}

/// The sources that a group can use: the saved one first, the others in order.
pub open spec fn group_candidates(queried: Seq<QueriedView>, group: GroupView) -> Seq<SourceKey> {
    preferred_first(
        order::stable_sorted::<SourceKey>(common_sources(queried, group.members)),
        group.source,
    )
}

/// The first member from `from` on that is not connected.
pub open spec fn missing_member(
    queried: Seq<QueriedView>,
    members: Seq<MonitorView>,
    from: int,
) -> Option<MonitorView>
    decreases members.len() - from,
{
    if from < 0 || from >= members.len() {
        None
    } else if matching(queried, members[from]).len() == 0 {
        Some(members[from])
    } else {
        missing_member(queried, members, from + 1)
    }
}

/// The members' names.
pub open spec fn member_names(members: Seq<MonitorView>) -> Seq<Seq<char>> {
    members.map_values(|monitor: MonitorView| monitor.friendly_name)
}

/// Why a group cannot be placed at all.
pub open spec fn group_fault(
    queried: Seq<QueriedView>,
    group: GroupView,
) -> Option<SelectionFault> {
    match missing_member(queried, group.members, 0) {
        Some(monitor) => Some(SelectionFault::NotConnected(monitor.friendly_name)),
        None => if common_sources(queried, group.members).len() == 0 {
            Some(SelectionFault::NoCommonSource(member_names(group.members)))
        } else {
            None
        },
    }
}

/// The fault of the first group from `from` on that has one.
pub open spec fn first_group_fault(
    queried: Seq<QueriedView>,
    groups: Seq<GroupView>,
    from: int,
) -> Option<SelectionFault>
    decreases groups.len() - from,
{
    if from < 0 || from >= groups.len() {
        None
    } else if group_fault(queried, groups[from]) is Some {
        group_fault(queried, groups[from])
    } else {
        first_group_fault(queried, groups, from + 1)
    }
}

/// The sources that each group can use.
pub open spec fn all_candidates(
    queried: Seq<QueriedView>,
    groups: Seq<GroupView>,
) -> Seq<Seq<SourceKey>> {
    groups.map_values(|group: GroupView| group_candidates(queried, group))
}

// ---------------------------------------------------------------------------
// The chosen paths
// ---------------------------------------------------------------------------

/// The first path at or after `from` that begins at `source`.
pub open spec fn path_from(paths: Seq<DisplayPath>, source: SourceKey, from: int) -> int
    decreases paths.len() - from,
{
    if from < 0 || from >= paths.len() || paths[from].source() == source {
        from
    } else {
        path_from(paths, source, from + 1)
    }
}

/// A path switched on with the saved orientation and scaling, its modes left
/// to Windows.
pub open spec fn activated(path: DisplayPath, monitor: MonitorView) -> DisplayPath {
    DisplayPath {
        flags: path.flags | PATH_ACTIVE,
        rotation: match monitor.rotation {
            Some(rotation) => rotation,
            None => path.rotation,
        },
        scaling: match monitor.scaling {
            Some(scaling) => scaling,
            None => path.scaling,
        },
        source_mode_index: INVALID_MODE_INDEX,
        target_mode_index: INVALID_MODE_INDEX,
        ..path
    }
}

/// The path for one monitor whose group has `source`.
pub open spec fn monitor_path(
    queried: Seq<QueriedView>,
    monitor: MonitorView,
    source: SourceKey,
) -> DisplayPath {
    let paths = matching(queried, monitor);
    activated(paths[path_from(paths, source, 0)], monitor)
}

/// The paths for the members of one group.
pub open spec fn group_paths(
    queried: Seq<QueriedView>,
    members: Seq<MonitorView>,
    source: SourceKey,
) -> Seq<DisplayPath> {
    members.map_values(|monitor: MonitorView| monitor_path(queried, monitor, source))
}

/// The paths for the first `count` groups.
pub open spec fn chosen_paths(
    queried: Seq<QueriedView>,
    groups: Seq<GroupView>,
    sources: Seq<SourceKey>,
    count: int,
) -> Seq<DisplayPath>
    decreases count,
{
    if count <= 0 {
        Seq::empty()
    } else {
        chosen_paths(queried, groups, sources, count - 1) + group_paths(
            queried,
            groups[count - 1].members,
            sources[count - 1],
        )
    }
}

/// The paths that bring back a layout with these enabled monitors, or why
/// there are none.
pub open spec fn selection(
    queried: Seq<QueriedView>,
    enabled: Seq<MonitorView>,
) -> Result<Seq<DisplayPath>, SelectionFault> {
    match grouping(enabled) {
        None => Err(SelectionFault::CloneSources),
        Some(groups) => match first_group_fault(queried, groups, 0) {
            Some(fault) => Err(fault),
            None => match routing::assignment(all_candidates(queried, groups)) {
                None => Err(SelectionFault::CannotAssign),
                Some(sources) => Ok(
                    chosen_paths(queried, groups, sources, groups.len() as int),
                ),
            },
        },
    }
}

// ---------------------------------------------------------------------------
// What holds of groups, candidates and chosen paths
// ---------------------------------------------------------------------------

/// Whether groups are what grouping makes: none is empty, each holds monitors
/// with its key, captured from its source where they are clones, and no key
/// occurs twice.
pub open spec fn are_groups(groups: Seq<GroupView>) -> bool {
    &&& forall|g: int| 0 <= g < groups.len() ==> (#[trigger] groups[g]).members.len() > 0
    &&& forall|g: int, i: int|
        0 <= g < groups.len() && 0 <= i < groups[g].members.len() ==> (
        #[trigger] groups[g].members[i]).group_key() == groups[g].key && (groups[g].key is Clone
            ==> groups[g].members[i].source_key() == groups[g].source)
    &&& forall|g: int, h: int|
        0 <= g < h < groups.len() ==> (#[trigger] groups[g]).key != (#[trigger] groups[h]).key
}

/// The members of the first `count` groups, group by group.
pub open spec fn members_in_order(groups: Seq<GroupView>, count: int) -> Seq<MonitorView>
    decreases count,
{
    if count <= 0 {
        Seq::empty()
    } else {
        members_in_order(groups, count - 1) + groups[count - 1].members
    }
}

proof fn lemma_group_with(groups: Seq<GroupView>, key: GroupKeyView, from: int)
    requires
        0 <= from <= groups.len(),
    ensures
        from <= group_with(groups, key, from) <= groups.len(),
        group_with(groups, key, from) < groups.len() ==> groups[group_with(groups, key, from)].key
            == key,
        forall|g: int|
            from <= g < group_with(groups, key, from) ==> (#[trigger] groups[g]).key != key,
    decreases groups.len() - from,
{
    if from < groups.len() && groups[from].key != key {
        lemma_group_with(groups, key, from + 1);
    }
}

proof fn lemma_members_prefix(before: Seq<GroupView>, after: Seq<GroupView>, count: int)
    requires
        0 <= count <= before.len(),
        count <= after.len(),
        forall|g: int| 0 <= g < count ==> before[g] == after[g],
    ensures
        members_in_order(before, count) == members_in_order(after, count),
    decreases count,
{
    if count > 0 {
        lemma_members_prefix(before, after, count - 1);
    }
}

proof fn lemma_members_grown(
    before: Seq<GroupView>,
    after: Seq<GroupView>,
    at: int,
    monitor: MonitorView,
    count: int,
)
    requires
        0 <= at < count <= before.len(),
        after.len() == before.len(),
        forall|g: int| 0 <= g < before.len() && g != at ==> before[g] == after[g],
        after[at].members == before[at].members.push(monitor),
    ensures
        members_in_order(after, count).to_multiset() == members_in_order(
            before,
            count,
        ).to_multiset().insert(monitor),
    decreases count,
{
    let last = after[count - 1].members;
    let rest = members_in_order(after, count - 1);
    vstd::seq_lib::lemma_multiset_commutative(rest, last);
    vstd::seq_lib::lemma_multiset_commutative(
        members_in_order(before, count - 1),
        before[count - 1].members,
    );
    if count - 1 == at {
        lemma_members_prefix(before, after, at);
        vstd::seq_lib::to_multiset_build(before[at].members, monitor);
        assert(members_in_order(after, count).to_multiset() =~= members_in_order(
            before,
            count,
        ).to_multiset().insert(monitor));
    } else {
        lemma_members_grown(before, after, at, monitor, count - 1);
        assert(members_in_order(after, count).to_multiset() =~= members_in_order(
            before,
            count,
        ).to_multiset().insert(monitor));
    }
}

/// Grouping loses no monitor, adds none, and keeps groups apart.
pub proof fn lemma_grouping(monitors: Seq<MonitorView>)
    ensures
        grouping(monitors) matches Some(groups) ==> are_groups(groups) && members_in_order(
            groups,
            groups.len() as int,
        ).to_multiset() == monitors.to_multiset() && groups.len() <= monitors.len(),
    decreases monitors.len(),
{
    if monitors.len() == 0 {
        assert(monitors =~= Seq::empty());
    } else if let Some(after) = grouping(monitors) {
        let earlier = monitors.drop_last();
        let monitor = monitors.last();
        lemma_grouping(earlier);
        let before = grouping(earlier)->0;
        let key = monitor.group_key();
        let at = group_with(before, key, 0);
        lemma_group_with(before, key, 0);
        assert(monitors =~= earlier.push(monitor));
        vstd::seq_lib::to_multiset_build(earlier, monitor);
        if at >= before.len() {
            let added = after[before.len() as int];
            lemma_members_prefix(before, after, before.len() as int);
            assert(members_in_order(after, after.len() as int) =~= members_in_order(
                before,
                before.len() as int,
            ).push(monitor));
            vstd::seq_lib::to_multiset_build(
                members_in_order(before, before.len() as int),
                monitor,
            );
            assert forall|g: int, i: int|
                0 <= g < after.len() && 0 <= i < after[g].members.len() implies (
            #[trigger] after[g].members[i]).group_key() == after[g].key && (after[g].key is Clone
                ==> after[g].members[i].source_key() == after[g].source) by {
                if g < before.len() {
                    assert(before[g].members[i] == after[g].members[i]);
                }
            }
        } else {
            lemma_members_grown(before, after, at, monitor, before.len() as int);
            assert forall|g: int, i: int|
                0 <= g < after.len() && 0 <= i < after[g].members.len() implies (
            #[trigger] after[g].members[i]).group_key() == after[g].key && (after[g].key is Clone
                ==> after[g].members[i].source_key() == after[g].source) by {
                if i < before[g].members.len() {
                    assert(before[g].members[i] == after[g].members[i]);
                }
            }
        }
    }
}

/// Whether some connected monitor known by this identity is at the end of
/// `path`.
pub open spec fn leads_to(
    queried: Seq<QueriedView>,
    path: DisplayPath,
    monitor: MonitorView,
) -> bool {
    exists|k: int|
        0 <= k < queried.len() && (#[trigger] queried[k]).is_usable()
            && monitor.identity.matches(queried[k].meta->0.identity) && queried[k].path == path
}

proof fn lemma_matching(queried: Seq<QueriedView>, monitor: MonitorView)
    ensures
        forall|i: int|
            0 <= i < matching(queried, monitor).len() ==> leads_to(
                queried,
                #[trigger] matching(queried, monitor)[i],
                monitor,
            ),
        matching(queried, monitor).len() <= queried.len(),
    decreases queried.len(),
{
    if queried.len() > 0 {
        let before = queried.drop_last();
        lemma_matching(before, monitor);
        let found = matching(before, monitor);
        let all = matching(queried, monitor);
        assert forall|i: int| 0 <= i < all.len() implies leads_to(
            queried,
            #[trigger] all[i],
            monitor,
        ) by {
            if i < found.len() {
                assert(leads_to(before, found[i], monitor));
                let k = choose|k: int|
                    0 <= k < before.len() && (#[trigger] before[k]).is_usable()
                        && monitor.identity.matches(before[k].meta->0.identity) && before[k].path
                        == found[i];
                assert(queried[k] == before[k]);
            } else {
                assert(queried[queried.len() - 1].path == all[i]);
            }
        }
    }
}

proof fn lemma_common_among(
    queried: Seq<QueriedView>,
    members: Seq<MonitorView>,
    sources: Seq<SourceKey>,
)
    ensures
        forall|source: SourceKey| #[trigger]
            common_among(queried, members, sources).contains(source) <==> sources.contains(source)
                && reaches_all(queried, members, source),
        common_among(queried, members, sources).no_duplicates(),
        common_among(queried, members, sources).len() <= sources.len(),
    decreases sources.len(),
{
    if sources.len() > 0 {
        let before = sources.drop_last();
        let last = sources.last();
        lemma_common_among(queried, members, before);
        let found = common_among(queried, members, before);
        let all = common_among(queried, members, sources);
        assert(sources =~= before.push(last));
        assert forall|source: SourceKey| #[trigger] all.contains(source) <==> sources.contains(
            source,
        ) && reaches_all(queried, members, source) by {
            lemma_push_contains(before, last, source);
            lemma_push_contains(found, last, source);
        }
    }
}

proof fn lemma_push_contains(sources: Seq<SourceKey>, last: SourceKey, source: SourceKey)
    ensures
        sources.push(last).contains(source) <==> sources.contains(source) || source == last,
{
    let all = sources.push(last);
    if sources.contains(source) {
        let i = choose|i: int| 0 <= i < sources.len() && sources[i] == source;
        assert(all[i] == source);
    }
    assert(all[sources.len() as int] == last);
    if all.contains(source) && source != last {
        let i = choose|i: int| 0 <= i < all.len() && all[i] == source;
        assert(sources[i] == source);
    }
}

proof fn lemma_place_of(sources: Seq<SourceKey>, source: SourceKey, from: int)
    requires
        0 <= from <= sources.len(),
    ensures
        from <= place_of(sources, source, from) <= sources.len(),
        place_of(sources, source, from) < sources.len() ==> sources[place_of(
            sources,
            source,
            from,
        )] == source,
        forall|i: int| from <= i < place_of(sources, source, from) ==> sources[i] != source,
    decreases sources.len() - from,
{
    if from < sources.len() && sources[from] != source {
        lemma_place_of(sources, source, from + 1);
    }
}

proof fn lemma_preferred_first(sources: Seq<SourceKey>, preferred: SourceKey)
    ensures
        preferred_first(sources, preferred).len() == sources.len(),
        forall|source: SourceKey| #[trigger]
            preferred_first(sources, preferred).contains(source) <==> sources.contains(source),
        sources.contains(preferred) ==> preferred_first(sources, preferred)[0] == preferred,
{
    lemma_place_of(sources, preferred, 0);
    let at = place_of(sources, preferred, 0);
    let swapped = preferred_first(sources, preferred);
    if at < sources.len() {
        assert forall|source: SourceKey| #[trigger] swapped.contains(source) <==> sources.contains(
            source,
        ) by {
            if swapped.contains(source) {
                let i = choose|i: int| 0 <= i < swapped.len() && swapped[i] == source;
                assert(sources[if i == 0 { at } else if i == at { 0 } else { i }] == source);
            }
            if sources.contains(source) {
                let i = choose|i: int| 0 <= i < sources.len() && sources[i] == source;
                assert(swapped[if i == 0 { at } else if i == at { 0 } else { i }] == source);
            }
        }
    }
}

/// A group's candidates are exactly the sources from which every member can
/// be reached, the saved one in front where it is among them.
pub proof fn lemma_group_candidates(queried: Seq<QueriedView>, group: GroupView)
    requires
        group.members.len() > 0,
    ensures
        forall|source: SourceKey| #[trigger]
            group_candidates(queried, group).contains(source) <==> reaches_all(
                queried,
                group.members,
                source,
            ),
        group_candidates(queried, group).len() == common_sources(queried, group.members).len(),
        reaches_all(queried, group.members, group.source) ==> group_candidates(
            queried,
            group,
        )[0] == group.source,
{
    let first = sources_of(matching(queried, group.members[0]));
    let common = common_sources(queried, group.members);
    let sorted = order::stable_sorted::<SourceKey>(common);
    lemma_common_among(queried, group.members, first);
    order::lemma_sorted_members::<SourceKey>(common);
    order::lemma_stable_sorted::<SourceKey>(common);
    lemma_preferred_first(sorted, group.source);
    assert forall|source: SourceKey| #[trigger] group_candidates(queried, group).contains(
        source,
    ) <==> reaches_all(queried, group.members, source) by {
        assert(sorted.contains(source) <==> common.contains(source));
        if reaches_all(queried, group.members, source) {
            assert(sources_of(matching(queried, group.members[0])).contains(source));
        }
    }
}

proof fn lemma_path_from(paths: Seq<DisplayPath>, source: SourceKey, from: int)
    requires
        0 <= from <= paths.len(),
    ensures
        from <= path_from(paths, source, from) <= paths.len(),
        path_from(paths, source, from) < paths.len() ==> paths[path_from(
            paths,
            source,
            from,
        )].source() == source,
        forall|i: int|
            from <= i < path_from(paths, source, from) ==> (#[trigger] paths[i]).source()
                != source,
    decreases paths.len() - from,
{
    if from < paths.len() && paths[from].source() != source {
        lemma_path_from(paths, source, from + 1);
    }
}

/// A member of a group that has `source` gets a path from that source to a
/// connected monitor of its own identity.
proof fn lemma_monitor_path(
    queried: Seq<QueriedView>,
    group: GroupView,
    source: SourceKey,
    at: int,
)
    requires
        0 <= at < group.members.len(),
        group_candidates(queried, group).contains(source),
    ensures
        ({
            let paths = matching(queried, group.members[at]);
            let path = path_from(paths, source, 0);
            &&& 0 <= path < paths.len()
            &&& paths[path].source() == source
            &&& leads_to(queried, paths[path], group.members[at])
        }),
{
    let paths = matching(queried, group.members[at]);
    lemma_group_candidates(queried, group);
    assert(reaches_all(queried, group.members, source));
    assert(sources_of(paths).contains(source));
    let i = choose|i: int| 0 <= i < sources_of(paths).len() && sources_of(paths)[i] == source;
    assert(paths[i].source() == source);
    lemma_path_from(paths, source, 0);
    lemma_matching(queried, group.members[at]);
}

/// Whether `path` brings `monitor` back: it is a path to a connected monitor
/// of that identity, switched on with what was saved.
pub open spec fn restores(
    queried: Seq<QueriedView>,
    path: DisplayPath,
    monitor: MonitorView,
) -> bool {
    exists|found: DisplayPath| #[trigger]
        leads_to(queried, found, monitor) && path == activated(found, monitor)
}

/// Whether a monitor's path begins at the source that its group was given.
pub open spec fn placed_with(
    groups: Seq<GroupView>,
    sources: Seq<SourceKey>,
    monitor: MonitorView,
    path: DisplayPath,
    count: int,
) -> bool {
    exists|g: int|
        0 <= g < count && monitor.group_key() == (#[trigger] groups[g]).key && path.source()
            == sources[g]
}

proof fn lemma_chosen_paths(
    queried: Seq<QueriedView>,
    groups: Seq<GroupView>,
    sources: Seq<SourceKey>,
    count: int,
)
    requires
        0 <= count <= groups.len(),
        are_groups(groups),
        routing::is_routing(all_candidates(queried, groups), sources),
    ensures
        ({
            let members = members_in_order(groups, count);
            let paths = chosen_paths(queried, groups, sources, count);
            &&& paths.len() == members.len()
            &&& forall|i: int|
                0 <= i < paths.len() ==> restores(queried, #[trigger] paths[i], members[i])
                    && placed_with(groups, sources, members[i], paths[i], count)
        }),
    decreases count,
{
    if count > 0 {
        lemma_chosen_paths(queried, groups, sources, count - 1);
        let g = count - 1;
        let group = groups[g];
        let before = members_in_order(groups, g);
        let members = members_in_order(groups, count);
        let earlier = chosen_paths(queried, groups, sources, g);
        let added = group_paths(queried, group.members, sources[g]);
        let paths = chosen_paths(queried, groups, sources, count);
        assert(all_candidates(queried, groups)[g].contains(sources[g]));
        assert forall|i: int| 0 <= i < paths.len() implies restores(
            queried,
            #[trigger] paths[i],
            members[i],
        ) && placed_with(groups, sources, members[i], paths[i], count) by {
            if i < earlier.len() {
                assert(paths[i] == earlier[i]);
                assert(members[i] == before[i]);
                let k = choose|k: int|
                    0 <= k < g && members[i].group_key() == (#[trigger] groups[k]).key
                        && paths[i].source() == sources[k];
                assert(members[i].group_key() == groups[k].key);
            } else {
                let at = i - earlier.len();
                assert(paths[i] == added[at]);
                assert(members[i] == group.members[at]);
                lemma_monitor_path(queried, group, sources[g], at);
                let routes = matching(queried, group.members[at]);
                let found = routes[path_from(routes, sources[g], 0)];
                assert(leads_to(queried, found, members[i]));
                assert(groups[g].members[at].group_key() == groups[g].key);
            }
        }
    }
}

/// A layout that is brought back has one path for each enabled monitor and no
/// other, each to a connected monitor of that very identity. Monitors share a
/// source exactly where they are placed together.
pub proof fn lemma_selection(queried: Seq<QueriedView>, enabled: Seq<MonitorView>)
    requires
        enabled.len() <= usize::MAX,
    ensures
        selection(queried, enabled) matches Ok(paths) ==> {
            let groups = grouping(enabled)->0;
            let members = members_in_order(groups, groups.len() as int);
            &&& members.to_multiset() == enabled.to_multiset()
            &&& paths.len() == members.len() == enabled.len()
            &&& forall|i: int|
                0 <= i < paths.len() ==> restores(queried, #[trigger] paths[i], members[i])
            &&& forall|i: int, j: int|
                0 <= i < paths.len() && 0 <= j < paths.len() ==> ((#[trigger] paths[i]).source()
                    == (#[trigger] paths[j]).source() <==> members[i].group_key()
                    == members[j].group_key())
        },
{
    if let Ok(paths) = selection(queried, enabled) {
        let groups = grouping(enabled)->0;
        let candidates = all_candidates(queried, groups);
        let sources = routing::assignment(candidates)->0;
        let members = members_in_order(groups, groups.len() as int);
        lemma_grouping(enabled);
        routing::lemma_assignment_is_complete(candidates);
        lemma_chosen_paths(queried, groups, sources, groups.len() as int);
        vstd::seq_lib::to_multiset_len(members);
        vstd::seq_lib::to_multiset_len(enabled);
        assert forall|i: int, j: int| 0 <= i < paths.len() && 0 <= j < paths.len() implies ((
        #[trigger] paths[i]).source() == (#[trigger] paths[j]).source() <==> members[i].group_key()
            == members[j].group_key()) by {
            assert(placed_with(groups, sources, members[i], paths[i], groups.len() as int));
            assert(placed_with(groups, sources, members[j], paths[j], groups.len() as int));
            let g = choose|g: int|
                0 <= g < groups.len() && members[i].group_key() == (#[trigger] groups[g]).key
                    && paths[i].source() == sources[g];
            let h = choose|h: int|
                0 <= h < groups.len() && members[j].group_key() == (#[trigger] groups[h]).key
                    && paths[j].source() == sources[h];
            if g < h {
                assert(groups[g].key != groups[h].key);
                assert(sources[g] != sources[h]);
            } else if h < g {
                assert(groups[h].key != groups[g].key);
                assert(sources[h] != sources[g]);
            }
        }
    }
}

proof fn lemma_missing_member(queried: Seq<QueriedView>, members: Seq<MonitorView>, from: int)
    requires
        0 <= from <= members.len(),
    ensures
        missing_member(queried, members, from) is None <==> forall|i: int|
            from <= i < members.len() ==> matching(queried, #[trigger] members[i]).len() > 0,
    decreases members.len() - from,
{
    if from < members.len() {
        lemma_missing_member(queried, members, from + 1);
    }
}

proof fn lemma_first_group_fault(queried: Seq<QueriedView>, groups: Seq<GroupView>, from: int)
    requires
        0 <= from <= groups.len(),
    ensures
        first_group_fault(queried, groups, from) is None <==> forall|g: int|
            from <= g < groups.len() ==> group_fault(queried, #[trigger] groups[g]) is None,
    decreases groups.len() - from,
{
    if from < groups.len() {
        lemma_first_group_fault(queried, groups, from + 1);
    }
}

proof fn lemma_member_in_group(groups: Seq<GroupView>, count: int, monitor: MonitorView)
    requires
        0 <= count <= groups.len(),
        members_in_order(groups, count).contains(monitor),
    ensures
        exists|g: int| 0 <= g < count && (#[trigger] groups[g]).members.contains(monitor),
    decreases count,
{
    if count > 0 {
        let before = members_in_order(groups, count - 1);
        let all = members_in_order(groups, count);
        let i = choose|i: int| 0 <= i < all.len() && all[i] == monitor;
        if i < before.len() {
            assert(before[i] == monitor);
            lemma_member_in_group(groups, count - 1, monitor);
        } else {
            assert(groups[count - 1].members[i - before.len()] == monitor);
        }
    }
}

/// Where a required monitor is not connected, nothing is selected: no other
/// monitor takes its place.
pub proof fn lemma_disconnected_is_refused(
    queried: Seq<QueriedView>,
    enabled: Seq<MonitorView>,
    monitor: MonitorView,
)
    requires
        enabled.contains(monitor),
        matching(queried, monitor).len() == 0,
    ensures
        selection(queried, enabled) is Err,
{
    broadcast use vstd::seq_lib::group_to_multiset_ensures;

    lemma_grouping(enabled);
    if let Some(groups) = grouping(enabled) {
        let members = members_in_order(groups, groups.len() as int);
        assert(enabled.to_multiset().count(monitor) > 0);
        assert(members.to_multiset().count(monitor) > 0);
        assert(members.contains(monitor));
        lemma_member_in_group(groups, groups.len() as int, monitor);
        let g = choose|g: int|
            0 <= g < groups.len() && (#[trigger] groups[g]).members.contains(monitor);
        let i = choose|i: int|
            0 <= i < groups[g].members.len() && groups[g].members[i] == monitor;
        lemma_missing_member(queried, groups[g].members, 0);
        lemma_first_group_fault(queried, groups, 0);
        assert(matching(queried, groups[g].members[i]).len() == 0);
        assert(group_fault(queried, groups[g]) is Some);
    }
}

/// Only cloned monitors can lack a common source: a monitor on its own that is
/// connected can always be reached.
pub proof fn lemma_single_monitor_is_reached(queried: Seq<QueriedView>, group: GroupView)
    requires
        group.members.len() == 1,
        matching(queried, group.members[0]).len() > 0,
    ensures
        group_fault(queried, group) is None,
{
    let paths = matching(queried, group.members[0]);
    let source = paths[0].source();
    lemma_missing_member(queried, group.members, 0);
    lemma_group_candidates(queried, group);
    assert(sources_of(paths)[0] == source);
    assert(reaches_all(queried, group.members, source));
    assert(group_candidates(queried, group).contains(source));
}

/// Where every group can still be reached from the source it was saved with,
/// and no two groups were saved with the same one, each gets it back.
pub proof fn lemma_saved_sources_are_kept(queried: Seq<QueriedView>, enabled: Seq<MonitorView>)
    requires
        enabled.len() <= usize::MAX,
        grouping(enabled) is Some,
        ({
            let groups = grouping(enabled)->0;
            &&& forall|g: int|
                0 <= g < groups.len() ==> reaches_all(
                    queried,
                    (#[trigger] groups[g]).members,
                    groups[g].source,
                )
            &&& forall|g: int, h: int|
                0 <= g < h < groups.len() ==> (#[trigger] groups[g]).source != (
                #[trigger] groups[h]).source
        }),
    ensures
        selection(queried, enabled) is Ok,
        routing::assignment(all_candidates(queried, grouping(enabled)->0)) matches Some(sources)
            && forall|g: int|
            0 <= g < sources.len() ==> #[trigger] sources[g] == grouping(enabled)->0[g].source,
{
    let groups = grouping(enabled)->0;
    let candidates = all_candidates(queried, groups);
    lemma_grouping(enabled);
    lemma_first_group_fault(queried, groups, 0);
    assert forall|g: int| 0 <= g < groups.len() implies {
        &&& (#[trigger] candidates[g]).len() > 0
        &&& candidates[g][0] == groups[g].source
        &&& group_fault(queried, groups[g]) is None
    } by {
        let group = groups[g];
        lemma_group_candidates(queried, group);
        assert(reaches_all(queried, group.members, group.source));
        assert(group_candidates(queried, group).contains(group.source));
        lemma_missing_member(queried, group.members, 0);
        assert forall|i: int| 0 <= i < group.members.len() implies matching(
            queried,
            #[trigger] group.members[i],
        ).len() > 0 by {
            assert(sources_of(matching(queried, group.members[i])).contains(group.source));
        }
    }
    assert forall|g: int| 0 <= g < groups.len() implies group_fault(
        queried,
        #[trigger] groups[g],
    ) is None by {
        assert(candidates[g].len() > 0);
    }
    assert forall|g: int, h: int| 0 <= g < h < candidates.len() implies (
    #[trigger] candidates[g])[0] != (#[trigger] candidates[h])[0] by {
        assert(groups[g].source != groups[h].source);
    }
    routing::lemma_first_choices_are_kept(candidates);
}

/// Whether monitors are told apart by their stable keys, and two of them share
/// a source exactly where they are clones of each other.
pub open spec fn are_routed_by_group(monitors: Seq<MonitorView>) -> bool {
    forall|i: int, j: int|
        0 <= i < j < monitors.len() ==> {
            &&& (#[trigger] monitors[i]).identity.stable_key() != (
            #[trigger] monitors[j]).identity.stable_key()
            &&& monitors[i].source_key() == monitors[j].source_key() <==> (
            monitors[i].clone_group is Some && monitors[i].clone_group == monitors[j].clone_group)
        }
}

/// Whether every member of every group is among `monitors` and was saved with
/// its group's source.
pub open spec fn keep_their_sources(groups: Seq<GroupView>, monitors: Seq<MonitorView>) -> bool {
    forall|g: int, i: int|
        0 <= g < groups.len() && 0 <= i < groups[g].members.len() ==> monitors.contains(
            #[trigger] groups[g].members[i],
        ) && groups[g].members[i].source_key() == groups[g].source
}

proof fn lemma_sound_grouping(monitors: Seq<MonitorView>)
    requires
        are_routed_by_group(monitors),
    ensures
        grouping(monitors) matches Some(groups) && are_groups(groups) && keep_their_sources(
            groups,
            monitors,
        ),
    decreases monitors.len(),
{
    lemma_grouping(monitors);
    if monitors.len() > 0 {
        let earlier = monitors.drop_last();
        let monitor = monitors.last();
        assert(are_routed_by_group(earlier)) by {
            assert forall|i: int, j: int| 0 <= i < j < earlier.len() implies {
                &&& (#[trigger] earlier[i]).identity.stable_key() != (
                #[trigger] earlier[j]).identity.stable_key()
                &&& earlier[i].source_key() == earlier[j].source_key() <==> (
                earlier[i].clone_group is Some && earlier[i].clone_group == earlier[j].clone_group)
            } by {
                assert(earlier[i] == monitors[i] && earlier[j] == monitors[j]);
            }
        }
        lemma_sound_grouping(earlier);
        let before = grouping(earlier)->0;
        let key = monitor.group_key();
        let at = group_with(before, key, 0);
        lemma_group_with(before, key, 0);
        if at < before.len() {
            let first = before[at].members[0];
            assert(earlier.contains(first));
            let k = choose|k: int| 0 <= k < earlier.len() && earlier[k] == first;
            assert(monitors[k] == first && monitors[monitors.len() - 1] == monitor);
            assert(first.group_key() == key);
            assert(first.source_key() == monitor.source_key());
        }
        let after = grouping(monitors)->0;
        assert forall|g: int, i: int|
            0 <= g < after.len() && 0 <= i < after[g].members.len() implies monitors.contains(
            #[trigger] after[g].members[i],
        ) && after[g].members[i].source_key() == after[g].source by {
            if g < before.len() && i < before[g].members.len() {
                assert(before[g].members[i] == after[g].members[i]);
                let m = before[g].members[i];
                assert(earlier.contains(m));
                let k = choose|k: int| 0 <= k < earlier.len() && earlier[k] == m;
                assert(monitors[k] == m);
            } else {
                assert(after[g].members[i] == monitor);
                assert(monitors[monitors.len() - 1] == monitor);
            }
        }
    }
}

/// Where every monitor can still be reached from the source it was saved with,
/// and clones alone share sources, the layout is brought back on exactly these
/// sources.
pub proof fn lemma_own_sources_are_kept(queried: Seq<QueriedView>, enabled: Seq<MonitorView>)
    requires
        enabled.len() <= usize::MAX,
        are_routed_by_group(enabled),
        forall|i: int|
            0 <= i < enabled.len() ==> sources_of(
                matching(queried, #[trigger] enabled[i]),
            ).contains(enabled[i].source_key()),
    ensures
        selection(queried, enabled) matches Ok(paths) && {
            let groups = grouping(enabled)->0;
            let members = members_in_order(groups, groups.len() as int);
            &&& members.to_multiset() == enabled.to_multiset()
            &&& paths.len() == members.len()
            &&& forall|i: int|
                0 <= i < paths.len() ==> (#[trigger] paths[i]).source() == members[i].source_key()
        },
{
    lemma_sound_grouping(enabled);
    lemma_grouping(enabled);
    let groups = grouping(enabled)->0;
    assert forall|g: int| 0 <= g < groups.len() implies reaches_all(
        queried,
        (#[trigger] groups[g]).members,
        groups[g].source,
    ) by {
        assert forall|i: int| 0 <= i < groups[g].members.len() implies sources_of(
            matching(queried, #[trigger] groups[g].members[i]),
        ).contains(groups[g].source) by {
            let member = groups[g].members[i];
            assert(enabled.contains(member));
            let k = choose|k: int| 0 <= k < enabled.len() && enabled[k] == member;
            assert(sources_of(matching(queried, enabled[k])).contains(enabled[k].source_key()));
        }
    }
    assert forall|g: int, h: int| 0 <= g < h < groups.len() implies (#[trigger] groups[g]).source
        != (#[trigger] groups[h]).source by {
        let a = groups[g].members[0];
        let b = groups[h].members[0];
        assert(enabled.contains(a) && enabled.contains(b));
        let i = choose|i: int| 0 <= i < enabled.len() && enabled[i] == a;
        let j = choose|j: int| 0 <= j < enabled.len() && enabled[j] == b;
        assert(a.group_key() == groups[g].key && b.group_key() == groups[h].key);
        if i < j {
            assert(enabled[i].identity.stable_key() != enabled[j].identity.stable_key());
        } else {
            assert(enabled[j].identity.stable_key() != enabled[i].identity.stable_key());
        }
    }
    lemma_saved_sources_are_kept(queried, enabled);
    let candidates = all_candidates(queried, groups);
    let sources = routing::assignment(candidates)->0;
    let members = members_in_order(groups, groups.len() as int);
    routing::lemma_assignment_is_complete(candidates);
    lemma_chosen_paths(queried, groups, sources, groups.len() as int);
    let paths = selection(queried, enabled)->Ok_0;
    assert forall|i: int| 0 <= i < paths.len() implies (#[trigger] paths[i]).source()
        == members[i].source_key() by {
        assert(placed_with(groups, sources, members[i], paths[i], groups.len() as int));
        let g = choose|g: int|
            0 <= g < groups.len() && members[i].group_key() == (#[trigger] groups[g]).key
                && paths[i].source() == sources[g];
        assert(members.contains(members[i]));
        lemma_member_in_group(groups, groups.len() as int, members[i]);
        let h = choose|h: int|
            0 <= h < groups.len() && (#[trigger] groups[h]).members.contains(members[i]);
        let k = choose|k: int|
            0 <= k < groups[h].members.len() && groups[h].members[k] == members[i];
        assert(groups[h].members[k].group_key() == groups[h].key);
        if g < h {
            assert(groups[g].key != groups[h].key);
        } else if h < g {
            assert(groups[h].key != groups[g].key);
        }
    }
}

// ---------------------------------------------------------------------------
// The selection itself
// ---------------------------------------------------------------------------

fn find_group(groups: &Vec<PlacedGroup>, key: &GroupKey) -> (r: usize)
    ensures
        r == group_with(order::views(groups@), key@, 0),
        r <= groups@.len(),
{
    let ghost all = order::views(groups@);
    let mut at: usize = 0;
    while at < groups.len()
        invariant
            at <= groups@.len(),
            all == order::views(groups@),
            group_with(all, key@, 0) == group_with(all, key@, at as int),
        decreases groups@.len() - at,
    {
        assert(all[at as int] == groups@[at as int]@);
        if groups[at].key.same(key) {
            return at;
        }
        at = at + 1;
    }
    at
}

/// Groups the monitors that are placed together; nothing where a clone group
/// mixes sources.
pub fn group_monitors(monitors: &Vec<MonitorConfig>) -> (r: Option<Vec<PlacedGroup>>)
    ensures
        r is Some <==> grouping(order::views(monitors@)) is Some,
        r matches Some(groups) ==> grouping(order::views(monitors@)) == Some(
            order::views(groups@),
        ),
{
    let ghost all = order::views(monitors@);
    let mut groups: Vec<PlacedGroup> = Vec::new();
    let mut index: usize = 0;
    proof {
        assert(all.take(0) =~= Seq::empty());
        assert(order::views(groups@) =~= Seq::empty());
    }
    while index < monitors.len()
        invariant
            index <= monitors@.len(),
            all == order::views(monitors@),
            grouping(all.take(index as int)) == Some(order::views(groups@)),
        decreases monitors@.len() - index,
    {
        let monitor = monitors[index].clone();
        let key = monitor.group_key();
        let source = monitor.source_key();
        let ghost before = groups@;
        let at = find_group(&groups, &key);
        proof {
            assert(all.take(index + 1).drop_last() =~= all.take(index as int));
            assert(all.take(index + 1).last() == monitor@);
            assert(grouping(all.take(index + 1)) == joined(order::views(before), monitor@));
        }
        if at == groups.len() {
            let mut members: Vec<MonitorConfig> = Vec::new();
            members.push(monitor);
            let group = PlacedGroup { key, source, members };
            groups.push(group);
            proof {
                assert(order::views(members@) =~= seq![monitor@]);
                assert(order::views(groups@) =~= order::views(before).push(group@));
            }
        } else {
            assert(order::views(before)[at as int] == groups@[at as int]@);
            let is_clone = match &key {
                GroupKey::Clone(_) => true,
                GroupKey::Single(_) => false,
            };
            if is_clone && !same_source(groups[at].source, source) {
                proof {
                    lemma_no_grouping(all, index + 1);
                    assert(all.take(all.len() as int) =~= all);
                }
                return None;
            }
            let mut group = groups.remove(at);
            let ghost taken = group;
            group.members.push(monitor);
            proof {
                assert(order::views(group.members@) =~= order::views(taken.members@).push(monitor@));
            }
            groups.insert(at, group);
            proof {
                assert(groups@ =~= before.update(at as int, group));
                assert(order::views(groups@) =~= order::views(before).update(at as int, group@));
            }
        }
        index = index + 1;
    }
    proof {
        assert(all.take(all.len() as int) =~= all);
    }
    Some(groups)
}

/// What the user reads says which monitors cannot be brought back and why.
pub proof fn lemma_selection_messages(name: Seq<char>, names: Seq<Seq<char>>)
    ensures
        SelectionFault::CloneSources.message()
            == "clone group contains monitors captured from different display sources"@,
        SelectionFault::NotConnected(name).message() == "monitor '"@ + name
            + "' is not currently connected"@,
        SelectionFault::NoCommonSource(names).message()
            == "Windows has no common display source available for cloned monitors '"@
            + text::join(names, "' + '"@) + "'"@,
        SelectionFault::CannotAssign.message()
            == "Windows cannot assign distinct display sources to every enabled monitor/clone group"@,
{
}

/// A source reaches a group where a path leads from it to every member that is
/// connected under its own identity.
pub proof fn lemma_reaches_all(
    queried: Seq<QueriedView>,
    members: Seq<MonitorView>,
    source: SourceKey,
)
    ensures
        reaches_all(queried, members, source) <==> forall|i: int|
            0 <= i < members.len() ==> exists|k: int|
                0 <= k < queried.len() && (#[trigger] queried[k]).path.target_available
                    && queried[k].meta is Some && (
                #[trigger] members[i]).identity.matches(queried[k].meta->0.identity) && (
                queried[k].path.source_adapter_high,
                    queried[k].path.source_adapter_low,
                    queried[k].path.source_id,
                ) == source,
{
    assert forall|i: int| 0 <= i < members.len() implies (sources_of(
        matching(queried, #[trigger] members[i]),
    ).contains(source) <==> exists|k: int|
        0 <= k < queried.len() && (#[trigger] queried[k]).path.target_available
            && queried[k].meta is Some && members[i].identity.matches(queried[k].meta->0.identity)
            && (
            queried[k].path.source_adapter_high,
            queried[k].path.source_adapter_low,
            queried[k].path.source_id,
        ) == source) by {
        let routes = matching(queried, members[i]);
        if sources_of(routes).contains(source) {
            let p = choose|p: int|
                0 <= p < sources_of(routes).len() && sources_of(routes)[p] == source;
            let k = lemma_matching_place(queried, members[i], p);
            assert(queried[k].path.source() == source);
        }
        if exists|k: int|
            0 <= k < queried.len() && (#[trigger] queried[k]).path.target_available
                && queried[k].meta is Some && members[i].identity.matches(
                queried[k].meta->0.identity,
            ) && (
                queried[k].path.source_adapter_high,
                queried[k].path.source_adapter_low,
                queried[k].path.source_id,
            ) == source {
            let k = choose|k: int|
                0 <= k < queried.len() && (#[trigger] queried[k]).path.target_available
                    && queried[k].meta is Some && members[i].identity.matches(
                    queried[k].meta->0.identity,
                ) && (
                    queried[k].path.source_adapter_high,
                    queried[k].path.source_adapter_low,
                    queried[k].path.source_id,
                ) == source;
            let p = lemma_matched(queried, members[i], k);
            assert(sources_of(routes)[p] == source);
        }
    }
}

/// Clones that lack a common source are named, and then there is none. Sources
/// are only said not to suffice where no way to give every group one of its own
/// exists.
pub proof fn lemma_sources_lack(
    queried: Seq<QueriedView>,
    enabled: Seq<MonitorView>,
    sources: Seq<SourceKey>,
)
    requires
        enabled.len() <= usize::MAX,
    ensures
        selection(queried, enabled) matches Err(SelectionFault::NoCommonSource(names)) ==> exists|
            g: int,
        |
            0 <= g < grouping(enabled)->0.len() && (#[trigger] grouping(
                enabled,
            )->0[g]).members.len() == names.len() && (forall|i: int|
                0 <= i < names.len() ==> #[trigger] names[i] == grouping(
                    enabled,
                )->0[g].members[i].friendly_name) && forall|source: SourceKey|
                !#[trigger] reaches_all(queried, grouping(enabled)->0[g].members, source),
        selection(queried, enabled) == Err::<Seq<DisplayPath>, SelectionFault>(
            SelectionFault::CannotAssign,
        ) && sources.len() == grouping(enabled)->0.len() && (forall|g: int, h: int|
            0 <= g < h < sources.len() ==> #[trigger] sources[g] != #[trigger] sources[h])
            ==> exists|g: int|
            0 <= g < sources.len() && !reaches_all(
                queried,
                grouping(enabled)->0[g].members,
                #[trigger] sources[g],
            ),
{
    lemma_grouping(enabled);
    if let Some(groups) = grouping(enabled) {
        if let Some(SelectionFault::NoCommonSource(names)) = first_group_fault(queried, groups, 0) {
            let g = lemma_faulty_group(queried, groups, 0);
            let members = groups[g].members;
            lemma_group_candidates(queried, groups[g]);
            assert forall|source: SourceKey| !#[trigger] reaches_all(queried, members, source) by {
                if reaches_all(queried, members, source) {
                    assert(group_candidates(queried, groups[g]).contains(source));
                }
            }
            assert(names =~= member_names(members));
        }
        let candidates = all_candidates(queried, groups);
        routing::lemma_assignment_is_complete(candidates);
        if selection(queried, enabled) == Err::<Seq<DisplayPath>, SelectionFault>(
            SelectionFault::CannotAssign,
        ) && sources.len() == groups.len() && (forall|g: int, h: int|
            0 <= g < h < sources.len() ==> #[trigger] sources[g] != #[trigger] sources[h]) {
            if first_group_fault(queried, groups, 0) is Some {
                let g = lemma_faulty_group(queried, groups, 0);
            }
            assert(!routing::is_routing(candidates, sources));
            let g = choose|g: int|
                0 <= g < candidates.len() && !candidates[g].contains(#[trigger] sources[g]);
            lemma_group_candidates(queried, groups[g]);
            assert(!reaches_all(queried, groups[g].members, sources[g]));
        }
    }
}

/// Sources are compared by the adapter's high part, then its low part, then the
/// number on it.
pub proof fn lemma_source_order(a: SourceKey, b: SourceKey)
    ensures
        a.0 < b.0 ==> paths::source_before(a, b),
        a.0 == b.0 && a.1 < b.1 ==> paths::source_before(a, b),
        a.0 == b.0 && a.1 == b.1 ==> (paths::source_before(a, b) <==> a.2 < b.2),
        paths::source_before(a, b) ==> !paths::source_before(b, a) && a != b,
{
}

/// A group whose saved source does not reach every member tries the sources
/// that do in ascending order.
pub proof fn lemma_other_sources_in_order(
    queried: Seq<QueriedView>,
    group: GroupView,
    i: int,
    j: int,
)
    requires
        group.members.len() > 0,
        !reaches_all(queried, group.members, group.source),
        0 <= i < j < group_candidates(queried, group).len(),
    ensures
        paths::source_before(
            group_candidates(queried, group)[i],
            group_candidates(queried, group)[j],
        ),
{
    let first = sources_of(matching(queried, group.members[0]));
    let common = common_sources(queried, group.members);
    let sorted = order::stable_sorted::<SourceKey>(common);
    lemma_common_among(queried, group.members, first);
    order::lemma_sorted_members::<SourceKey>(common);
    order::lemma_stable_sorted::<SourceKey>(common);
    lemma_place_of(sorted, group.source, 0);
    let at = place_of(sorted, group.source, 0);
    if at < sorted.len() {
        assert(sorted.contains(sorted[at]));
        assert(common.contains(group.source));
    }
    assert(sorted[i] != sorted[j]);
    assert(!paths::source_before(sorted[j], sorted[i]));
}

/// A path that is chosen is switched on, asks for the orientation and scaling
/// that the monitor was saved with, whatever it had, and leaves its modes to
/// Windows. Where it leads and everything else stays.
pub proof fn lemma_activated(path: DisplayPath, monitor: MonitorView)
    ensures
        ({
            let after = activated(path, monitor);
            &&& monitor.rotation matches Some(rotation) ==> after.rotation == rotation
            &&& monitor.rotation is None ==> after.rotation == path.rotation
            &&& monitor.scaling matches Some(scaling) ==> after.scaling == scaling
            &&& monitor.scaling is None ==> after.scaling == path.scaling
            &&& after.source_mode_index == 0xFFFF_FFFF
            &&& after.target_mode_index == 0xFFFF_FFFF
            &&& after.flags % 2 == 1
            &&& after.flags / 2 == path.flags / 2
            &&& after.source_adapter_low == path.source_adapter_low
            &&& after.source_adapter_high == path.source_adapter_high
            &&& after.source_id == path.source_id
            &&& after.target_adapter_low == path.target_adapter_low
            &&& after.target_adapter_high == path.target_adapter_high
            &&& after.target_id == path.target_id
            &&& after.refresh_rate == path.refresh_rate
            &&& after.source_status_flags == path.source_status_flags
            &&& after.output_technology == path.output_technology
            &&& after.scan_line_ordering == path.scan_line_ordering
            &&& after.target_available == path.target_available
            &&& after.target_status_flags == path.target_status_flags
        }),
{
    let flags = path.flags;
    assert((flags | 1u32) % 2 == 1 && (flags | 1u32) / 2 == flags / 2) by (bit_vector);
}

proof fn lemma_matching_place(queried: Seq<QueriedView>, monitor: MonitorView, i: int) -> (k: int)
    requires
        0 <= i < matching(queried, monitor).len(),
    ensures
        0 <= k < queried.len(),
        queried[k].is_usable(),
        monitor.identity.matches(queried[k].meta->0.identity),
        matching(queried, monitor)[i] == queried[k].path,
        forall|l: int|
            0 <= l < k && (#[trigger] queried[l]).is_usable() && monitor.identity.matches(
                queried[l].meta->0.identity,
            ) ==> exists|j: int|
                0 <= j < i && #[trigger] matching(queried, monitor)[j] == queried[l].path,
    decreases queried.len(),
{
    let before = queried.drop_last();
    let found = matching(before, monitor);
    let all = matching(queried, monitor);
    if i < found.len() {
        let k = lemma_matching_place(before, monitor, i);
        assert forall|l: int|
            0 <= l < k && (#[trigger] queried[l]).is_usable() && monitor.identity.matches(
                queried[l].meta->0.identity,
            ) implies exists|j: int| 0 <= j < i && #[trigger] all[j] == queried[l].path by {
            assert(before[l] == queried[l]);
            let j = choose|j: int| 0 <= j < i && #[trigger] found[j] == before[l].path;
            assert(all[j] == queried[l].path);
        }
        k
    } else {
        let k = queried.len() - 1;
        assert forall|l: int|
            0 <= l < k && (#[trigger] queried[l]).is_usable() && monitor.identity.matches(
                queried[l].meta->0.identity,
            ) implies exists|j: int| 0 <= j < i && #[trigger] all[j] == queried[l].path by {
            assert(before[l] == queried[l]);
            let j = lemma_matched(before, monitor, l);
            assert(all[j] == queried[l].path);
        }
        k
    }
}

proof fn lemma_matched(queried: Seq<QueriedView>, monitor: MonitorView, k: int) -> (i: int)
    requires
        0 <= k < queried.len(),
        queried[k].is_usable(),
        monitor.identity.matches(queried[k].meta->0.identity),
    ensures
        0 <= i < matching(queried, monitor).len(),
        matching(queried, monitor)[i] == queried[k].path,
    decreases queried.len(),
{
    let before = queried.drop_last();
    if k == queried.len() - 1 {
        matching(before, monitor).len() as int
    } else {
        lemma_matched(before, monitor, k)
    }
}

/// Every path of a topology leads to a connected
/// monitor that is one of the layout's, switched on with that monitor's
/// orientation and scaling.
pub proof fn lemma_selected_path(
    queried: Seq<QueriedView>,
    enabled: Seq<MonitorView>,
    i: int,
) -> (found: (int, int))
    requires
        enabled.len() <= usize::MAX,
        selection(queried, enabled) is Ok,
        0 <= i < selection(queried, enabled)->Ok_0.len(),
    ensures
        ({
            let path = selection(queried, enabled)->Ok_0[i];
            let (m, k) = found;
            &&& 0 <= m < enabled.len()
            &&& 0 <= k < queried.len()
            &&& queried[k].path.target_available
            &&& queried[k].meta matches Some(meta) && enabled[m].identity.matches(meta.identity)
            &&& path.source_adapter_low == queried[k].path.source_adapter_low
            &&& path.source_adapter_high == queried[k].path.source_adapter_high
            &&& path.source_id == queried[k].path.source_id
            &&& path.target_adapter_low == queried[k].path.target_adapter_low
            &&& path.target_adapter_high == queried[k].path.target_adapter_high
            &&& path.target_id == queried[k].path.target_id
            &&& path.flags % 2 == 1
            &&& path.source_mode_index == 0xFFFF_FFFF && path.target_mode_index == 0xFFFF_FFFF
            &&& enabled[m].rotation matches Some(rotation) ==> path.rotation == rotation
            &&& enabled[m].rotation is None ==> path.rotation == queried[k].path.rotation
            &&& enabled[m].scaling matches Some(scaling) ==> path.scaling == scaling
            &&& enabled[m].scaling is None ==> path.scaling == queried[k].path.scaling
        }),
{
    broadcast use vstd::seq_lib::group_to_multiset_ensures;

    lemma_selection(queried, enabled);
    let paths = selection(queried, enabled)->Ok_0;
    let groups = grouping(enabled)->0;
    let members = members_in_order(groups, groups.len() as int);
    assert(restores(queried, paths[i], members[i]));
    let route = choose|route: DisplayPath| #[trigger]
        leads_to(queried, route, members[i]) && paths[i] == activated(route, members[i]);
    let k = choose|k: int|
        0 <= k < queried.len() && (#[trigger] queried[k]).is_usable()
            && members[i].identity.matches(queried[k].meta->0.identity) && queried[k].path == route;
    assert(members.contains(members[i]));
    assert(members.to_multiset().count(members[i]) > 0);
    assert(enabled.contains(members[i]));
    let m = choose|m: int| 0 <= m < enabled.len() && enabled[m] == members[i];
    lemma_activated(route, members[i]);
    (m, k)
}

/// A monitor is given the first of the paths that lead to it from the source of
/// its group.
pub proof fn lemma_first_path_is_taken(
    queried: Seq<QueriedView>,
    group: GroupView,
    source: SourceKey,
    at: int,
) -> (k: int)
    requires
        0 <= at < group.members.len(),
        group_candidates(queried, group).contains(source),
    ensures
        0 <= k < queried.len(),
        queried[k].path.target_available && queried[k].meta is Some,
        group.members[at].identity.matches(queried[k].meta->0.identity),
        queried[k].path.source() == source,
        monitor_path(queried, group.members[at], source).target_id == queried[k].path.target_id,
        monitor_path(queried, group.members[at], source).target_adapter_low
            == queried[k].path.target_adapter_low,
        monitor_path(queried, group.members[at], source).target_adapter_high
            == queried[k].path.target_adapter_high,
        monitor_path(queried, group.members[at], source).refresh_rate
            == queried[k].path.refresh_rate,
        forall|l: int|
            0 <= l < k && (#[trigger] queried[l]).path.target_available && queried[l].meta is Some
                && group.members[at].identity.matches(queried[l].meta->0.identity)
                ==> queried[l].path.source() != source,
{
    let monitor = group.members[at];
    let routes = matching(queried, monitor);
    let i = path_from(routes, source, 0);
    lemma_monitor_path(queried, group, source, at);
    lemma_path_from(routes, source, 0);
    let k = lemma_matching_place(queried, monitor, i);
    assert forall|l: int|
        0 <= l < k && (#[trigger] queried[l]).path.target_available && queried[l].meta is Some
            && monitor.identity.matches(queried[l].meta->0.identity) implies queried[l].path.source()
        != source by {
        assert(queried[l].is_usable());
        let j = choose|j: int| 0 <= j < i && #[trigger] routes[j] == queried[l].path;
        assert(routes[j].source() != source);
    }
    k
}

/// Where a monitor that is on is not among the connected ones, nothing is
/// selected, whatever else is connected.
pub proof fn lemma_no_substitute(
    queried: Seq<QueriedView>,
    enabled: Seq<MonitorView>,
    m: int,
)
    requires
        0 <= m < enabled.len(),
        forall|k: int|
            0 <= k < queried.len() && (#[trigger] queried[k]).path.target_available
                && queried[k].meta is Some ==> !enabled[m].identity.matches(
                queried[k].meta->0.identity,
            ),
    ensures
        selection(queried, enabled) is Err,
{
    let monitor = enabled[m];
    assert(enabled.contains(monitor));
    if matching(queried, monitor).len() > 0 {
        let k = lemma_matching_place(queried, monitor, 0);
    }
    lemma_disconnected_is_refused(queried, enabled, monitor);
}

proof fn lemma_mixed_sources(monitors: Seq<MonitorView>) -> (pair: (int, int))
    requires
        grouping(monitors) is None,
    ensures
        0 <= pair.0 < pair.1 < monitors.len(),
        monitors[pair.0].clone_group is Some,
        monitors[pair.0].clone_group == monitors[pair.1].clone_group,
        monitors[pair.0].source_key() != monitors[pair.1].source_key(),
    decreases monitors.len(),
{
    broadcast use vstd::seq_lib::group_to_multiset_ensures;

    let earlier = monitors.drop_last();
    if grouping(earlier) is None {
        lemma_mixed_sources(earlier)
    } else {
        let groups = grouping(earlier)->0;
        let monitor = monitors.last();
        let at = group_with(groups, monitor.group_key(), 0);
        lemma_grouping(earlier);
        lemma_group_with(groups, monitor.group_key(), 0);
        let first = groups[at].members[0];
        assert(first.group_key() == groups[at].key);
        lemma_member_is_listed(groups, groups.len() as int, at, 0);
        let members = members_in_order(groups, groups.len() as int);
        assert(members.to_multiset().count(first) > 0);
        assert(earlier.contains(first));
        let k = choose|k: int| 0 <= k < earlier.len() && earlier[k] == first;
        (k, monitors.len() - 1)
    }
}

proof fn lemma_member_is_listed(groups: Seq<GroupView>, count: int, g: int, i: int)
    requires
        0 <= g < count <= groups.len(),
        0 <= i < groups[g].members.len(),
    ensures
        members_in_order(groups, count).contains(groups[g].members[i]),
    decreases count,
{
    let before = members_in_order(groups, count - 1);
    let all = members_in_order(groups, count);
    if g == count - 1 {
        assert(all[before.len() + i] == groups[g].members[i]);
    } else {
        lemma_member_is_listed(groups, count - 1, g, i);
        let k = choose|k: int| 0 <= k < before.len() && before[k] == groups[g].members[i];
        assert(all[k] == groups[g].members[i]);
    }
}

/// A selection that fails says why: two clones were captured from different
/// sources; a monitor that is named is not connected; or cloned monitors have
/// no source in common.
pub proof fn lemma_selection_faults(queried: Seq<QueriedView>, enabled: Seq<MonitorView>)
    ensures
        selection(queried, enabled) == Err::<Seq<DisplayPath>, SelectionFault>(
            SelectionFault::CloneSources,
        ) <==> exists|i: int, j: int|
            0 <= i < j < enabled.len() && (#[trigger] enabled[i]).clone_group is Some
                && enabled[i].clone_group == (#[trigger] enabled[j]).clone_group
                && enabled[i].source_key() != enabled[j].source_key(),
        selection(queried, enabled) matches Err(SelectionFault::NotConnected(name)) ==> exists|
            m: int,
        |
            0 <= m < enabled.len() && (#[trigger] enabled[m]).friendly_name == name && forall|
                k: int,
            |
                0 <= k < queried.len() && (#[trigger] queried[k]).path.target_available
                    && queried[k].meta is Some ==> !enabled[m].identity.matches(
                    queried[k].meta->0.identity,
                ),
{
    broadcast use vstd::seq_lib::group_to_multiset_ensures;

    if grouping(enabled) is None {
        let (i, j) = lemma_mixed_sources(enabled);
        assert(enabled[i].clone_group == enabled[j].clone_group);
    } else {
        let groups = grouping(enabled)->0;
        let members = members_in_order(groups, groups.len() as int);
        lemma_grouping(enabled);
        assert forall|i: int, j: int|
            0 <= i < j < enabled.len() && (#[trigger] enabled[i]).clone_group is Some
                && enabled[i].clone_group == (#[trigger] enabled[j]).clone_group implies
        enabled[i].source_key() == enabled[j].source_key() by {
            let (g, a) = lemma_place_in_groups(groups, enabled, i);
            let (h, b) = lemma_place_in_groups(groups, enabled, j);
            assert(groups[g].members[a].group_key() == groups[g].key);
            assert(groups[h].members[b].group_key() == groups[h].key);
            if g < h {
                assert(groups[g].key != groups[h].key);
            } else if h < g {
                assert(groups[h].key != groups[g].key);
            }
        }
        if let Some(fault) = first_group_fault(queried, groups, 0) {
            let g = lemma_faulty_group(queried, groups, 0);
            if let Some(missing) = missing_member(queried, groups[g].members, 0) {
                let a = lemma_missing_place(queried, groups[g].members, 0);
                lemma_member_is_listed(groups, groups.len() as int, g, a);
                assert(members.to_multiset().count(missing) > 0);
                assert(enabled.contains(missing));
                let m = choose|m: int| 0 <= m < enabled.len() && enabled[m] == missing;
                assert forall|k: int|
                    0 <= k < queried.len() && (#[trigger] queried[k]).path.target_available
                        && queried[k].meta is Some implies !enabled[m].identity.matches(
                    queried[k].meta->0.identity,
                ) by {
                    if enabled[m].identity.matches(queried[k].meta->0.identity) {
                        let at = lemma_matched(queried, missing, k);
                    }
                }
            }
        }
    }
}

proof fn lemma_place_in_groups(
    groups: Seq<GroupView>,
    enabled: Seq<MonitorView>,
    i: int,
) -> (place: (int, int))
    requires
        grouping(enabled) == Some(groups),
        0 <= i < enabled.len(),
    ensures
        0 <= place.0 < groups.len(),
        0 <= place.1 < groups[place.0].members.len(),
        groups[place.0].members[place.1] == enabled[i],
{
    broadcast use vstd::seq_lib::group_to_multiset_ensures;

    lemma_grouping(enabled);
    let members = members_in_order(groups, groups.len() as int);
    assert(enabled.contains(enabled[i]));
    assert(enabled.to_multiset().count(enabled[i]) > 0);
    assert(members.contains(enabled[i]));
    lemma_member_in_group(groups, groups.len() as int, enabled[i]);
    let g = choose|g: int|
        0 <= g < groups.len() && (#[trigger] groups[g]).members.contains(enabled[i]);
    let a = choose|a: int| 0 <= a < groups[g].members.len() && groups[g].members[a] == enabled[i];
    (g, a)
}

proof fn lemma_faulty_group(queried: Seq<QueriedView>, groups: Seq<GroupView>, from: int) -> (g:
    int)
    requires
        0 <= from,
        first_group_fault(queried, groups, from) is Some,
    ensures
        from <= g < groups.len(),
        group_fault(queried, groups[g]) == first_group_fault(queried, groups, from),
    decreases groups.len() - from,
{
    if group_fault(queried, groups[from]) is Some {
        from
    } else {
        lemma_faulty_group(queried, groups, from + 1)
    }
}

proof fn lemma_missing_place(
    queried: Seq<QueriedView>,
    members: Seq<MonitorView>,
    from: int,
) -> (at: int)
    requires
        0 <= from,
        missing_member(queried, members, from) is Some,
    ensures
        from <= at < members.len(),
        missing_member(queried, members, from) == Some(members[at]),
        matching(queried, members[at]).len() == 0,
    decreases members.len() - from,
{
    if matching(queried, members[from]).len() == 0 {
        from
    } else {
        lemma_missing_place(queried, members, from + 1)
    }
}

proof fn lemma_no_grouping(monitors: Seq<MonitorView>, at: int)
    requires
        0 <= at <= monitors.len(),
        grouping(monitors.take(at)) is None,
    ensures
        grouping(monitors.take(monitors.len() as int)) is None,
    decreases monitors.len() - at,
{
    if at < monitors.len() {
        assert(monitors.take(at + 1).drop_last() =~= monitors.take(at));
        lemma_no_grouping(monitors, at + 1);
    }
}

/// The paths that lead to a connected monitor of this identity.
pub fn matching_paths(queried: &Vec<QueriedPath>, monitor: &MonitorConfig) -> (r: Vec<DisplayPath>)
    ensures
        r@ == matching(order::views(queried@), monitor@),
{
    let ghost all = order::views(queried@);
    let mut found: Vec<DisplayPath> = Vec::new();
    let mut index: usize = 0;
    proof {
        assert(all.take(0) =~= Seq::empty());
    }
    while index < queried.len()
        invariant
            index <= queried@.len(),
            all == order::views(queried@),
            found@ == matching(all.take(index as int), monitor@),
        decreases queried@.len() - index,
    {
        proof {
            assert(all.take(index + 1).drop_last() =~= all.take(index as int));
            assert(all.take(index + 1).last() == queried@[index as int]@);
        }
        let candidate = &queried[index];
        if candidate.path.target_available {
            if let Ok(meta) = &candidate.meta {
                if monitor.identity.matches(&meta.identity) {
                    found.push(candidate.path);
                }
            }
        }
        index = index + 1;
    }
    proof {
        assert(all.take(all.len() as int) =~= all);
    }
    found
}

/// The place of the first path that begins at `source`, or their number.
fn find_path(paths: &Vec<DisplayPath>, source: SourceKey) -> (r: usize)
    ensures
        r == path_from(paths@, source, 0),
        r <= paths@.len(),
        r < paths@.len() <==> sources_of(paths@).contains(source),
{
    let mut at: usize = 0;
    while at < paths.len()
        invariant
            at <= paths@.len(),
            path_from(paths@, source, 0) == path_from(paths@, source, at as int),
            forall|i: int| 0 <= i < at ==> (#[trigger] paths@[i]).source() != source,
        decreases paths@.len() - at,
    {
        if same_source(paths[at].source_key(), source) {
            assert(sources_of(paths@)[at as int] == source);
            return at;
        }
        at = at + 1;
    }
    proof {
        if sources_of(paths@).contains(source) {
            let i = choose|i: int|
                0 <= i < sources_of(paths@).len() && sources_of(paths@)[i] == source;
            assert(paths@[i].source() == source);
        }
    }
    at
}

/// The contents of the paths found for each member.
pub open spec fn found_for(
    queried: Seq<QueriedView>,
    members: Seq<MonitorView>,
) -> Seq<Seq<DisplayPath>> {
    members.map_values(|monitor: MonitorView| matching(queried, monitor))
}

fn reached_by_all(found: &Vec<Vec<DisplayPath>>, source: SourceKey) -> (r: bool)
    ensures
        r == forall|i: int|
            0 <= i < found@.len() ==> sources_of((#[trigger] order::views(found@)[i])).contains(
                source,
            ),
{
    let ghost all = order::views(found@);
    let mut at: usize = 0;
    while at < found.len()
        invariant
            at <= found@.len(),
            all == order::views(found@),
            forall|i: int|
                0 <= i < at ==> sources_of((#[trigger] all[i])).contains(source),
        decreases found@.len() - at,
    {
        assert(all[at as int] == found@[at as int]@);
        if find_path(&found[at], source) == found[at].len() {
            assert(!sources_of(all[at as int]).contains(source));
            return false;
        }
        at = at + 1;
    }
    true
}

/// The sources that a group can use, given the paths found for its members.
fn candidate_sources(
    Ghost(queried): Ghost<Seq<QueriedView>>,
    group: &PlacedGroup,
    found: &Vec<Vec<DisplayPath>>,
) -> (r: Vec<SourceKey>)
    requires
        group@.members.len() > 0,
        order::views(found@) == found_for(queried, group@.members),
    ensures
        r@ == group_candidates(queried, group@),
{
    let ghost members = group@.members;
    let ghost first = sources_of(matching(queried, members[0]));
    let ghost all = order::views(found@);
    assert(all.len() == found@.len() && found_for(queried, members).len() == members.len());
    assert(all[0] == found@[0]@);
    let mut common: Vec<SourceKey> = Vec::new();
    let mut at: usize = 0;
    proof {
        assert(first.take(0) =~= Seq::empty());
    }
    while at < found[0].len()
        invariant
            found@.len() == members.len() > 0,
            all == order::views(found@),
            all == found_for(queried, members),
            all[0] == found@[0]@,
            first == sources_of(found@[0]@),
            at <= first.len(),
            common@ == common_among(queried, members, first.take(at as int)),
        decreases first.len() - at,
    {
        let source = found[0][at].source_key();
        proof {
            assert(first.take(at + 1).drop_last() =~= first.take(at as int));
            assert(first.take(at + 1).last() == source);
            assert forall|i: int| 0 <= i < members.len() implies all[i] == matching(
                queried,
                #[trigger] members[i],
            ) by {}
            assert((forall|i: int|
                0 <= i < found@.len() ==> sources_of((#[trigger] order::views(found@)[i])).contains(
                    source,
                )) == reaches_all(queried, members, source)) by {
                if reaches_all(queried, members, source) {
                    assert forall|i: int| 0 <= i < found@.len() implies sources_of(
                        (#[trigger] order::views(found@)[i]),
                    ).contains(source) by {
                        assert(sources_of(matching(queried, members[i])).contains(source));
                    }
                }
                if forall|i: int|
                    0 <= i < found@.len() ==> sources_of(
                        (#[trigger] order::views(found@)[i]),
                    ).contains(source) {
                    assert forall|i: int| 0 <= i < members.len() implies sources_of(
                        matching(queried, #[trigger] members[i]),
                    ).contains(source) by {
                        assert(sources_of(order::views(found@)[i]).contains(source));
                    }
                }
            }
        }
        if reached_by_all(found, source) && !holds_source(&common, source) {
            common.push(source);
        }
        at = at + 1;
    }
    proof {
        assert(first.take(first.len() as int) =~= first);
        assert(order::views(common@) =~= common@);
    }
    let mut sorted = order::stable_sort(common);
    proof {
        assert(order::views(sorted@) =~= sorted@);
    }
    let ghost ordered = sorted@;
    let mut place: usize = 0;
    while place < sorted.len() && !same_source(sorted[place], group.source)
        invariant
            place <= sorted@.len(),
            sorted@ == ordered,
            place_of(ordered, group.source, 0) == place_of(ordered, group.source, place as int),
        decreases sorted@.len() - place,
    {
        place = place + 1;
    }
    if place < sorted.len() {
        let front = sorted[0];
        sorted.set(place, front);
        sorted.set(0, group.source);
    }
    sorted
}

fn names_of(members: &Vec<MonitorConfig>) -> (r: Vec<String>)
    ensures
        text::texts(r@) == member_names(order::views(members@)),
{
    let ghost all = member_names(order::views(members@));
    let mut names: Vec<String> = Vec::new();
    let mut at: usize = 0;
    while at < members.len()
        invariant
            at <= members@.len(),
            all == member_names(order::views(members@)),
            text::texts(names@) == all.take(at as int),
        decreases members@.len() - at,
    {
        let ghost before = names@;
        let name = members[at].friendly_name.clone();
        names.push(name);
        proof {
            assert(text::texts(names@) =~= text::texts(before).push(name@));
            assert(all.take(at + 1) =~= all.take(at as int).push(
                members@[at as int]@.friendly_name,
            ));
        }
        at = at + 1;
    }
    proof {
        assert(all.take(all.len() as int) =~= all);
    }
    names
}

/// The paths of each member of a group, and the sources that the group can use.
fn prepare_group(queried: &Vec<QueriedPath>, group: &PlacedGroup) -> (r: Result<
    (Vec<Vec<DisplayPath>>, Vec<SourceKey>),
    SelectionError,
>)
    requires
        group@.members.len() > 0,
    ensures
        r is Ok <==> group_fault(order::views(queried@), group@) is None,
        r matches Ok(prepared) ==> order::views(prepared.0@) == found_for(
            order::views(queried@),
            group@.members,
        ) && prepared.1@ == group_candidates(order::views(queried@), group@),
        r matches Err(error) ==> group_fault(order::views(queried@), group@) == Some(error@),
{
    let ghost all = order::views(queried@);
    let ghost members = group@.members;
    let mut found: Vec<Vec<DisplayPath>> = Vec::new();
    let mut at: usize = 0;
    while at < group.members.len()
        invariant
            at <= group.members@.len(),
            all == order::views(queried@),
            members == group@.members,
            members == order::views(group.members@),
            order::views(found@) == found_for(all, members).take(at as int),
            missing_member(all, members, 0) == missing_member(all, members, at as int),
        decreases group.members@.len() - at,
    {
        assert(members[at as int] == group.members@[at as int]@);
        let paths = matching_paths(queried, &group.members[at]);
        if paths.len() == 0 {
            return Err(SelectionError::NotConnected(group.members[at].friendly_name.clone()));
        }
        let ghost before = found@;
        found.push(paths);
        proof {
            assert(order::views(found@) =~= order::views(before).push(paths@));
            assert(found_for(all, members).take(at + 1) =~= found_for(all, members).take(
                at as int,
            ).push(paths@));
        }
        at = at + 1;
    }
    proof {
        assert(found_for(all, members).take(members.len() as int) =~= found_for(all, members));
        lemma_group_candidates(all, group@);
    }
    let sources = candidate_sources(Ghost(all), group, &found);
    if sources.len() == 0 {
        return Err(SelectionError::NoCommonSource(names_of(&group.members)));
    }
    Ok((found, sources))
}

/// Switches a path on with what was saved for its monitor.
pub fn activate(path: DisplayPath, monitor: &MonitorConfig) -> (r: DisplayPath)
    ensures
        r == activated(path, monitor@),
{
    let mut out = path;
    out.flags = out.flags | PATH_ACTIVE;
    if let Some(rotation) = monitor.rotation {
        out.rotation = rotation;
    }
    if let Some(scaling) = monitor.scaling {
        out.scaling = scaling;
    }
    out.source_mode_index = INVALID_MODE_INDEX;
    out.target_mode_index = INVALID_MODE_INDEX;
    out
}

/// The paths that bring a layout back: one for each enabled monitor, each
/// group on a source of its own.
pub fn select_paths(layout: &MonitorLayout, queried: &Vec<QueriedPath>) -> (r: Result<
    Vec<DisplayPath>,
    SelectionError,
>)
    ensures
        r is Ok <==> selection(
            order::views(queried@),
            model::enabled_of(layout@.monitors),
        ) is Ok,
        r matches Ok(paths) ==> selection(
            order::views(queried@),
            model::enabled_of(layout@.monitors),
        ) == Ok::<Seq<DisplayPath>, SelectionFault>(paths@),
        r matches Err(error) ==> selection(
            order::views(queried@),
            model::enabled_of(layout@.monitors),
        ) == Err::<Seq<DisplayPath>, SelectionFault>(error@),
{
    let ghost all = order::views(queried@);
    let enabled = enabled_monitors(&layout.monitors);
    let ghost wanted = order::views(enabled@);
    let groups = match group_monitors(&enabled) {
        Some(groups) => groups,
        None => {
            return Err(SelectionError::CloneSources);
        },
    };
    let ghost placed = order::views(groups@);
    proof {
        lemma_grouping(wanted);
    }
    let mut found: Vec<Vec<Vec<DisplayPath>>> = Vec::new();
    let mut candidates: Vec<Vec<SourceKey>> = Vec::new();
    let mut at: usize = 0;
    while at < groups.len()
        invariant
            at <= groups@.len(),
            all == order::views(queried@),
            wanted == order::views(enabled@),
            wanted == model::enabled_of(layout@.monitors),
            placed == order::views(groups@),
            grouping(wanted) == Some(placed),
            are_groups(placed),
            found@.len() == at,
            forall|g: int|
                0 <= g < at ==> order::views((#[trigger] found@[g])@) == found_for(
                    all,
                    placed[g].members,
                ),
            order::views(candidates@) == all_candidates(all, placed).take(at as int),
            first_group_fault(all, placed, 0) == first_group_fault(all, placed, at as int),
        decreases groups@.len() - at,
    {
        assert(placed[at as int] == groups@[at as int]@);
        assert(placed[at as int].members.len() > 0);
        match prepare_group(queried, &groups[at]) {
            Ok((paths, sources)) => {
                let ghost before = candidates@;
                found.push(paths);
                candidates.push(sources);
                proof {
                    assert(order::views(candidates@) =~= order::views(before).push(sources@));
                    assert(all_candidates(all, placed).take(at + 1) =~= all_candidates(
                        all,
                        placed,
                    ).take(at as int).push(sources@));
                }
            },
            Err(error) => {
                return Err(error);
            },
        }
        at = at + 1;
    }
    proof {
        assert(all_candidates(all, placed).take(placed.len() as int) =~= all_candidates(
            all,
            placed,
        ));
        routing::lemma_assignment_is_complete(all_candidates(all, placed));
    }
    // Match groups globally so flexible groups do not consume a required source.
    let sources = match assign_sources(candidates.as_slice()) {
        Some(sources) => sources,
        None => {
            return Err(SelectionError::CannotAssign);
        },
    };
    let mut selected: Vec<DisplayPath> = Vec::new();
    let mut at: usize = 0;
    while at < groups.len()
        invariant
            at <= groups@.len(),
            all == order::views(queried@),
            placed == order::views(groups@),
            sources@.len() == placed.len(),
            found@.len() == placed.len(),
            are_groups(placed),
            routing::is_routing(all_candidates(all, placed), sources@),
            forall|g: int|
                0 <= g < placed.len() ==> order::views((#[trigger] found@[g])@) == found_for(
                    all,
                    placed[g].members,
                ),
            selected@ == chosen_paths(all, placed, sources@, at as int),
        decreases groups@.len() - at,
    {
        let group = &groups[at];
        let source = sources[at];
        let ghost members = placed[at as int].members;
        let ghost before = selected@;
        let ghost added = group_paths(all, members, source);
        assert(placed[at as int] == group@);
        assert(order::views(found@[at as int]@) == found_for(all, members));
        assert(all_candidates(all, placed)[at as int].contains(sources@[at as int]));
        let mut index: usize = 0;
        proof {
            assert(before + added.take(0) =~= before);
        }
        while index < group.members.len()
            invariant
                at < groups@.len(),
                index <= group.members@.len(),
                all == order::views(queried@),
                group@ == placed[at as int],
                members == placed[at as int].members,
                members == order::views(group.members@),
                source == sources@[at as int],
                found@.len() == placed.len() == groups@.len(),
                order::views(found@[at as int]@) == found_for(all, members),
                group_candidates(all, group@).contains(source),
                added == group_paths(all, members, source),
                selected@ == before + added.take(index as int),
            decreases group.members@.len() - index,
        {
            proof {
                assert(members[index as int] == group.members@[index as int]@);
                assert(order::views(found@[at as int]@).len() == found@[at as int]@.len());
                assert(found_for(all, members).len() == members.len());
                assert(order::views(found@[at as int]@)[index as int]
                    == found@[at as int]@[index as int]@);
                lemma_monitor_path(all, group@, source, index as int);
            }
            let place = find_path(&found[at][index], source);
            let path = activate(found[at][index][place], &group.members[index]);
            proof {
                assert(path == added[index as int]);
                assert(before + added.take(index + 1) =~= (before + added.take(
                    index as int,
                )).push(path));
            }
            selected.push(path);
            index = index + 1;
        }
        proof {
            assert(added.take(members.len() as int) =~= added);
        }
        at = at + 1;
    }
    Ok(selected)
}

} // verus!
