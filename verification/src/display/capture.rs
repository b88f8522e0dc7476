//! Turning what Windows reports into a layout.

use vstd::prelude::*;
use vstd::string::*;
use crate::clones::clone_numbers;
use crate::clones;
use crate::display::paths::{source_mode_for_path, valid_rotation, ModeInfo, QueriedPath, QueriedView};
use crate::display::{paths, selection};
use crate::model::{Hertz, LayoutView, MonitorConfig, MonitorLayout, MonitorView, SourceKey};
use crate::model;
use crate::order;
use crate::text;

verus! {

/// The bits of sixty hertz, the rate of a monitor that is off.
pub const SIXTY_HERTZ_BITS: u32 = 0x4270_0000;

/// The last active path whose monitor has this stable key.
pub open spec fn active_with(active: Seq<QueriedView>, key: Seq<char>) -> Option<QueriedView>
    decreases active.len(),
{
    if active.len() == 0 {
        None
    } else if active.last().meta matches Some(meta) && meta.identity.stable_key() == key {
        Some(active.last())
    } else {
        active_with(active.drop_last(), key)
    }
}

/// Whether a path up to `count` already led to a connected monitor with this
/// stable key.
pub open spec fn is_seen(all: Seq<QueriedView>, count: int, key: Seq<char>) -> bool {
    exists|i: int|
        0 <= i < count && (#[trigger] all[i]).is_usable() && all[i].meta->0.identity.stable_key()
            == key
}

/// Where a monitor is and how large: as its active source says, or at the
/// origin with the resolution that it prefers.
pub open spec fn captured_geometry(
    found: QueriedView,
    active: Option<QueriedView>,
    modes: Seq<ModeInfo>,
) -> (i32, i32, u32, u32) {
    let mode = match active {
        Some(path) => paths::source_mode(path.path, modes),
        None => None,
    };
    match mode {
        Some(mode) => (mode.x, mode.y, mode.width, mode.height),
        None => match found.preferred {
            Some(size) => (0, 0, size.0, size.1),
            None => (0, 0, 1920, 1080),
        },
    }
}

/// One monitor as it is captured: on where an active path leads to it, with
/// that path's settings, and off otherwise. Clone groups come later.
pub open spec fn captured_monitor(
    found: QueriedView,
    active: Seq<QueriedView>,
    modes: Seq<ModeInfo>,
) -> MonitorView {
    let meta = found.meta->0;
    let path = active_with(active, meta.identity.stable_key());
    let enabled = path is Some;
    let chosen = match path {
        Some(active_path) => active_path,
        None => found,
    };
    let geometry = captured_geometry(found, path, modes);
    let rate = chosen.path.refresh_rate;
    let exact = enabled && rate.numerator > 0 && rate.denominator > 0;
    MonitorView {
        identity: meta.identity,
        friendly_name: meta.friendly_name,
        enabled,
        source_adapter_low: chosen.path.source_adapter_low,
        source_adapter_high: chosen.path.source_adapter_high,
        source_id: chosen.path.source_id,
        clone_group: None,
        rotation: if 1 <= chosen.path.rotation <= 4 {
            Some(chosen.path.rotation)
        } else {
            None
        },
        scaling: if enabled {
            Some(chosen.path.scaling)
        } else {
            None
        },
        x: geometry.0,
        y: geometry.1,
        width: geometry.2,
        height: geometry.3,
        refresh_hz: if enabled && chosen.measured_hz.at_least_one() {
            chosen.measured_hz
        } else {
            (Hertz { bits: SIXTY_HERTZ_BITS })
        },
        refresh_numerator: if exact {
            Some(rate.numerator)
        } else {
            None
        },
        refresh_denominator: if exact {
            Some(rate.denominator)
        } else {
            None
        },
    }
}

/// The monitors that the first `count` paths lead to, each once.
pub open spec fn captured_monitors(
    all: Seq<QueriedView>,
    active: Seq<QueriedView>,
    modes: Seq<ModeInfo>,
    count: int,
) -> Seq<MonitorView>
    decreases count,
{
    if count <= 0 {
        Seq::empty()
    } else {
        let before = captured_monitors(all, active, modes, count - 1);
        let found = all[count - 1];
        if found.is_usable() && !is_seen(
            all,
            count - 1,
            found.meta->0.identity.stable_key(),
        ) {
            before.push(captured_monitor(found, active, modes))
        } else {
            before
        }
    }
}

/// The source of each monitor that is on.
pub open spec fn active_sources(monitors: Seq<MonitorView>) -> Seq<Option<SourceKey>> {
    monitors.map_values(
        |monitor: MonitorView|
            if monitor.enabled {
                Some(monitor.source_key())
            } else {
                None
            },
    )
}

/// A monitor with another clone group.
pub open spec fn in_group(monitor: MonitorView, group: Option<u32>) -> MonitorView {
    MonitorView { clone_group: group, ..monitor }
}

/// Monitors that are on and share a source get a clone group of their own.
pub open spec fn with_clone_groups(monitors: Seq<MonitorView>) -> Seq<MonitorView> {
    Seq::new(
        monitors.len(),
        |i: int| in_group(monitors[i], clones::clone_number(active_sources(monitors), 1, i)),
    )
}

/// The layout that Windows shows: connected monitors once each, clones
/// grouped, from left to right.
pub open spec fn captured_layout(
    name: Seq<char>,
    all: Seq<QueriedView>,
    active: Seq<QueriedView>,
    modes: Seq<ModeInfo>,
) -> LayoutView {
    LayoutView {
        name,
        monitors: order::stable_sorted::<MonitorConfig>(
            with_clone_groups(captured_monitors(all, active, modes, all.len() as int)),
        ),
        playback_device: None,
        microphone_device: None,
        hotkey: None,
        controller_hotkey: None,
    }
}

proof fn lemma_captured(
    all: Seq<QueriedView>,
    active: Seq<QueriedView>,
    modes: Seq<ModeInfo>,
    count: int,
)
    requires
        0 <= count <= all.len(),
    ensures
        ({
            let monitors = captured_monitors(all, active, modes, count);
            &&& monitors.len() <= count
            &&& forall|i: int|
                0 <= i < monitors.len() ==> is_seen(
                    all,
                    count,
                    (#[trigger] monitors[i]).identity.stable_key(),
                )
            &&& forall|i: int|
                0 <= i < monitors.len() ==> ((#[trigger] monitors[i]).enabled <==> active_with(
                    active,
                    monitors[i].identity.stable_key(),
                ) is Some)
            &&& forall|i: int, j: int|
                0 <= i < j < monitors.len() ==> (#[trigger] monitors[i]).identity.stable_key() != (
                #[trigger] monitors[j]).identity.stable_key()
            &&& forall|key: Seq<char>|
                is_seen(all, count, key) ==> exists|i: int|
                    0 <= i < monitors.len() && (#[trigger] monitors[i]).identity.stable_key() == key
        }),
    decreases count,
{
    if count > 0 {
        lemma_captured(all, active, modes, count - 1);
        let before = captured_monitors(all, active, modes, count - 1);
        let monitors = captured_monitors(all, active, modes, count);
        let found = all[count - 1];
        let key = found.meta->0.identity.stable_key();
        assert forall|i: int| 0 <= i < monitors.len() implies is_seen(
            all,
            count,
            (#[trigger] monitors[i]).identity.stable_key(),
        ) by {
            if i < before.len() {
                assert(before[i] == monitors[i]);
                assert(is_seen(all, count - 1, before[i].identity.stable_key()));
                let k = choose|k: int|
                    0 <= k < count - 1 && (#[trigger] all[k]).is_usable()
                        && all[k].meta->0.identity.stable_key()
                        == before[i].identity.stable_key();
                assert(all[k].is_usable());
            } else {
                assert(all[count - 1].is_usable());
            }
        }
        assert forall|i: int| 0 <= i < monitors.len() implies ((
        #[trigger] monitors[i]).enabled <==> active_with(
            active,
            monitors[i].identity.stable_key(),
        ) is Some) by {
            if i < before.len() {
                assert(before[i] == monitors[i]);
            }
        }
        assert forall|i: int, j: int| 0 <= i < j < monitors.len() implies (
        #[trigger] monitors[i]).identity.stable_key() != (
        #[trigger] monitors[j]).identity.stable_key() by {
            assert(monitors[i] == before[i]);
            if j < before.len() {
                assert(monitors[j] == before[j]);
            } else {
                assert(is_seen(all, count - 1, before[i].identity.stable_key()));
            }
        }
        assert forall|k: Seq<char>| is_seen(all, count, k) implies exists|i: int|
            0 <= i < monitors.len() && (#[trigger] monitors[i]).identity.stable_key() == k by {
            if is_seen(all, count - 1, k) {
                let i = choose|i: int|
                    0 <= i < before.len() && (#[trigger] before[i]).identity.stable_key() == k;
                assert(monitors[i] == before[i]);
            } else {
                let p = choose|p: int|
                    0 <= p < count && (#[trigger] all[p]).is_usable()
                        && all[p].meta->0.identity.stable_key() == k;
                assert(p == count - 1);
                assert(monitors[before.len() as int].identity.stable_key() == k);
            }
        }
    }
}

/// Whether a monitor with this stable key is among `monitors`.
pub open spec fn lists(monitors: Seq<MonitorView>, key: Seq<char>) -> bool {
    exists|i: int| 0 <= i < monitors.len() && (#[trigger] monitors[i]).identity.stable_key() == key
}

/// A captured layout lists every connected monitor and no other, each once,
/// and has those switched on that an active path leads to.
pub proof fn lemma_captured_layout(
    name: Seq<char>,
    all: Seq<QueriedView>,
    active: Seq<QueriedView>,
    modes: Seq<ModeInfo>,
)
    ensures
        ({
            let monitors = captured_layout(name, all, active, modes).monitors;
            &&& forall|key: Seq<char>| #[trigger]
                lists(monitors, key) <==> is_seen(all, all.len() as int, key)
            &&& forall|i: int, j: int|
                0 <= i < monitors.len() && 0 <= j < monitors.len() && i != j ==> (
                #[trigger] monitors[i]).identity.stable_key() != (
                #[trigger] monitors[j]).identity.stable_key()
            &&& forall|i: int|
                0 <= i < monitors.len() ==> ((#[trigger] monitors[i]).enabled <==> active_with(
                    active,
                    monitors[i].identity.stable_key(),
                ) is Some)
            &&& order::is_ranked::<MonitorConfig>(monitors)
        }),
{
    let found = captured_monitors(all, active, modes, all.len() as int);
    let grouped = with_clone_groups(found);
    let monitors = captured_layout(name, all, active, modes).monitors;
    lemma_captured(all, active, modes, all.len() as int);
    order::lemma_stable_sorted::<MonitorConfig>(grouped);
    assert(grouped.no_duplicates()) by {
        assert forall|i: int, j: int|
            0 <= i < grouped.len() && 0 <= j < grouped.len() && i != j implies grouped[i]
            != grouped[j] by {
            let (low, high) = if i < j { (i, j) } else { (j, i) };
            assert(found[low].identity.stable_key() != found[high].identity.stable_key());
        }
    }
    order::lemma_sorted_members::<MonitorConfig>(grouped);
    assert forall|i: int| 0 <= i < monitors.len() implies exists|k: int|
        0 <= k < found.len() && grouped[k] == #[trigger] monitors[i] by {
        assert(monitors.contains(monitors[i]));
        assert(grouped.contains(monitors[i]));
    }
    assert forall|i: int, j: int|
        0 <= i < monitors.len() && 0 <= j < monitors.len() && i != j implies (
    #[trigger] monitors[i]).identity.stable_key() != (
    #[trigger] monitors[j]).identity.stable_key() by {
        let a = choose|k: int| 0 <= k < found.len() && grouped[k] == monitors[i];
        let b = choose|k: int| 0 <= k < found.len() && grouped[k] == monitors[j];
        assert(monitors[i] != monitors[j]);
        if a < b {
            assert(found[a].identity.stable_key() != found[b].identity.stable_key());
        } else {
            assert(found[b].identity.stable_key() != found[a].identity.stable_key());
        }
    }
    assert forall|i: int| 0 <= i < monitors.len() implies ((
    #[trigger] monitors[i]).enabled <==> active_with(
        active,
        monitors[i].identity.stable_key(),
    ) is Some) by {
        let k = choose|k: int| 0 <= k < found.len() && grouped[k] == monitors[i];
        assert(found[k].enabled == monitors[i].enabled);
    }
    assert forall|key: Seq<char>| #[trigger] lists(monitors, key) <==> is_seen(
        all,
        all.len() as int,
        key,
    ) by {
        if lists(monitors, key) {
            let i = choose|i: int|
                0 <= i < monitors.len() && (#[trigger] monitors[i]).identity.stable_key() == key;
            let k = choose|k: int| 0 <= k < found.len() && grouped[k] == monitors[i];
            assert(is_seen(all, all.len() as int, found[k].identity.stable_key()));
        }
        if is_seen(all, all.len() as int, key) {
            let k = choose|k: int|
                0 <= k < found.len() && (#[trigger] found[k]).identity.stable_key() == key;
            assert(grouped.contains(grouped[k]));
            assert(monitors.contains(grouped[k]));
            let i = choose|i: int| 0 <= i < monitors.len() && monitors[i] == grouped[k];
            assert(monitors[i].identity.stable_key() == key);
        }
    }
}

/// Only monitors that are on are clones, and two of them are clones of each
/// other exactly where they share a source.
pub proof fn lemma_captured_clones(monitors: Seq<MonitorView>, a: int, b: int)
    requires
        0 <= a < monitors.len(),
        0 <= b < monitors.len(),
        a != b,
        monitors.len() < u32::MAX,
    ensures
        ({
            let grouped = with_clone_groups(monitors);
            &&& grouped[a].clone_group is Some ==> grouped[a].enabled
            &&& monitors[a].enabled && monitors[b].enabled ==> (grouped[a].source_key()
                == grouped[b].source_key() <==> grouped[a].clone_group is Some
                && grouped[a].clone_group == grouped[b].clone_group)
        }),
{
    let sources = active_sources(monitors);
    clones::lemma_clone_numbers(sources, 1, a, b);
}

/// What was captured can be brought back: as long as every active route is
/// among all routes, the captured layout is selected again, and every monitor
/// gets the source that it has now.
pub proof fn lemma_capture_is_brought_back(
    name: Seq<char>,
    all: Seq<QueriedView>,
    active: Seq<QueriedView>,
    modes: Seq<ModeInfo>,
)
    requires
        all.len() < u32::MAX,
        ({
            let enabled = model::enabled_of(captured_layout(name, all, active, modes).monitors);
            forall|i: int|
                0 <= i < enabled.len() ==> selection::sources_of(
                    selection::matching(all, #[trigger] enabled[i]),
                ).contains(enabled[i].source_key())
        }),
    ensures
        ({
            let enabled = model::enabled_of(captured_layout(name, all, active, modes).monitors);
            selection::selection(all, enabled) matches Ok(paths) && {
                let groups = selection::grouping(enabled)->0;
                let members = selection::members_in_order(groups, groups.len() as int);
                &&& members.to_multiset() == enabled.to_multiset()
                &&& paths.len() == members.len()
                &&& forall|i: int|
                    0 <= i < paths.len() ==> (#[trigger] paths[i]).source()
                        == members[i].source_key()
            }
        }),
{
    let found = captured_monitors(all, active, modes, all.len() as int);
    let grouped = with_clone_groups(found);
    let monitors = captured_layout(name, all, active, modes).monitors;
    let enabled = model::enabled_of(monitors);
    lemma_captured(all, active, modes, all.len() as int);
    lemma_captured_layout(name, all, active, modes);
    order::lemma_stable_sorted::<MonitorConfig>(grouped);
    order::lemma_sorted_members::<MonitorConfig>(grouped);
    model::lemma_enabled_of(monitors);
    assert forall|i: int, j: int| 0 <= i < j < enabled.len() implies {
        &&& (#[trigger] enabled[i]).identity.stable_key() != (
        #[trigger] enabled[j]).identity.stable_key()
        &&& enabled[i].source_key() == enabled[j].source_key() <==> (
        enabled[i].clone_group is Some && enabled[i].clone_group == enabled[j].clone_group)
    } by {
        model::lemma_enabled_order(monitors, i, j);
        let (a, b) = choose|a: int, b: int|
            0 <= a < b < monitors.len() && #[trigger] monitors[a] == enabled[i]
                && #[trigger] monitors[b] == enabled[j];
        assert(monitors[a].identity.stable_key() != monitors[b].identity.stable_key());
        assert(monitors.contains(monitors[a]) && monitors.contains(monitors[b]));
        assert(grouped.contains(enabled[i]) && grouped.contains(enabled[j]));
        let k = choose|k: int| 0 <= k < grouped.len() && grouped[k] == enabled[i];
        let l = choose|l: int| 0 <= l < grouped.len() && grouped[l] == enabled[j];
        assert(enabled[i].enabled && enabled[j].enabled);
        lemma_captured_clones(found, k, l);
    }
    selection::lemma_own_sources_are_kept(all, enabled);
}

/// The active path of a monitor is the last one that leads to it.
pub proof fn lemma_active_with(active: Seq<QueriedView>, key: Seq<char>)
    ensures
        active_with(active, key) is None <==> forall|i: int|
            0 <= i < active.len() ==> !((#[trigger] active[i]).meta is Some
                && active[i].meta->0.identity.stable_key() == key),
        forall|at: int|
            0 <= at < active.len() && (#[trigger] active[at]).meta is Some
                && active[at].meta->0.identity.stable_key() == key && (forall|i: int|
                at < i < active.len() ==> !((#[trigger] active[i]).meta is Some
                    && active[i].meta->0.identity.stable_key() == key)) ==> active_with(active, key)
                == Some(active[at]),
    decreases active.len(),
{
    if active.len() > 0 {
        let before = active.drop_last();
        lemma_active_with(before, key);
        let last = active.len() - 1;
        assert(active[last] == active.last());
        if active_with(before, key) is Some {
            let i = choose|i: int|
                0 <= i < before.len() && (#[trigger] before[i]).meta is Some
                    && before[i].meta->0.identity.stable_key() == key;
            assert(active[i] == before[i]);
        } else {
            assert forall|i: int| 0 <= i < active.len() - 1 implies !((
            #[trigger] active[i]).meta is Some && active[i].meta->0.identity.stable_key()
                == key) by {
                assert(before[i] == active[i]);
            }
        }
        assert forall|at: int|
            0 <= at < active.len() && (#[trigger] active[at]).meta is Some
                && active[at].meta->0.identity.stable_key() == key && (forall|i: int|
                at < i < active.len() ==> !((#[trigger] active[i]).meta is Some
                    && active[i].meta->0.identity.stable_key() == key)) implies active_with(
            active,
            key,
        ) == Some(active[at]) by {
            if at < last {
                assert(!(active[last].meta is Some && active[last].meta->0.identity.stable_key()
                    == key));
                assert(before[at] == active[at]);
                assert forall|i: int| at < i < before.len() implies !((
                #[trigger] before[i]).meta is Some && before[i].meta->0.identity.stable_key()
                    == key) by {
                    assert(before[i] == active[i]);
                }
            }
        }
    }
}

proof fn lemma_captured_from(
    all: Seq<QueriedView>,
    active: Seq<QueriedView>,
    modes: Seq<ModeInfo>,
    count: int,
    p: int,
) -> (at: int)
    requires
        0 <= p < count <= all.len(),
        all[p].is_usable(),
        forall|q: int|
            0 <= q < p ==> !((#[trigger] all[q]).is_usable() && all[q].meta->0.identity.stable_key()
                == all[p].meta->0.identity.stable_key()),
    ensures
        0 <= at < captured_monitors(all, active, modes, count).len(),
        captured_monitors(all, active, modes, count)[at] == captured_monitor(all[p], active, modes),
    decreases count,
{
    let before = captured_monitors(all, active, modes, count - 1);
    if p == count - 1 {
        before.len() as int
    } else {
        lemma_captured_from(all, active, modes, count - 1, p)
    }
}

proof fn lemma_captured_place(
    name: Seq<char>,
    all: Seq<QueriedView>,
    active: Seq<QueriedView>,
    modes: Seq<ModeInfo>,
    p: int,
) -> (at: int)
    requires
        0 <= p < all.len(),
        all[p].is_usable(),
        forall|q: int|
            0 <= q < p ==> !((#[trigger] all[q]).is_usable() && all[q].meta->0.identity.stable_key()
                == all[p].meta->0.identity.stable_key()),
    ensures
        ({
            let monitors = captured_layout(name, all, active, modes).monitors;
            &&& 0 <= at < monitors.len()
            &&& monitors[at] == in_group(
                captured_monitor(all[p], active, modes),
                monitors[at].clone_group,
            )
        }),
{
    let found = captured_monitors(all, active, modes, all.len() as int);
    let grouped = with_clone_groups(found);
    let monitors = captured_layout(name, all, active, modes).monitors;
    let k = lemma_captured_from(all, active, modes, all.len() as int, p);
    order::lemma_sorted_members::<MonitorConfig>(grouped);
    assert(grouped.contains(grouped[k]));
    assert(monitors.contains(grouped[k]));
    choose|i: int| 0 <= i < monitors.len() && monitors[i] == grouped[k]
}

/// A connected monitor to which an active path leads is captured as that path
/// shows it: on, at the place and with the size of the path's source, whatever
/// they are, and with the path's orientation, scaling, rate and source. Where
/// the path has no source mode, the monitor is at the origin with the size that
/// it prefers.
pub proof fn lemma_active_monitor_is_captured(
    name: Seq<char>,
    all: Seq<QueriedView>,
    active: Seq<QueriedView>,
    modes: Seq<ModeInfo>,
    p: int,
    a: int,
) -> (at: int)
    requires
        0 <= p < all.len(),
        all[p].path.target_available,
        all[p].meta is Some,
        forall|q: int|
            0 <= q < p && (#[trigger] all[q]).path.target_available && all[q].meta is Some
                ==> all[q].meta->0.identity.stable_key() != all[p].meta->0.identity.stable_key(),
        0 <= a < active.len(),
        active[a].meta is Some,
        active[a].meta->0.identity.stable_key() == all[p].meta->0.identity.stable_key(),
        forall|b: int|
            a < b < active.len() && (#[trigger] active[b]).meta is Some
                ==> active[b].meta->0.identity.stable_key() != all[p].meta->0.identity.stable_key(),
    ensures
        ({
            let layout = captured_layout(name, all, active, modes);
            &&& 0 <= at < layout.monitors.len()
            &&& layout.monitors[at].enabled
            &&& layout.monitors[at].identity == all[p].meta->0.identity
            &&& layout.monitors[at].friendly_name == all[p].meta->0.friendly_name
        }),
        ({
            let monitor = captured_layout(name, all, active, modes).monitors[at];
            let path = active[a].path;
            let index = path.source_mode_index as int;
            &&& index < modes.len() && modes[index] is Source ==> {
                &&& monitor.x == modes[index]->Source_0.x
                &&& monitor.y == modes[index]->Source_0.y
                &&& monitor.width == modes[index]->Source_0.width
                &&& monitor.height == modes[index]->Source_0.height
            }
            &&& !(index < modes.len() && modes[index] is Source) ==> {
                &&& monitor.x == 0 && monitor.y == 0
                &&& all[p].preferred matches Some(size) ==> monitor.width == size.0
                    && monitor.height == size.1
                &&& all[p].preferred is None ==> monitor.width == 1920 && monitor.height == 1080
            }
        }),
        ({
            let monitor = captured_layout(name, all, active, modes).monitors[at];
            let path = active[a].path;
            &&& monitor.source_adapter_low == path.source_adapter_low
            &&& monitor.source_adapter_high == path.source_adapter_high
            &&& monitor.source_id == path.source_id
            &&& monitor.scaling == Some(path.scaling)
            &&& path.rotation == 1 || path.rotation == 2 || path.rotation == 3 || path.rotation == 4
                ==> monitor.rotation == Some(path.rotation)
            &&& path.rotation <= 0 || path.rotation >= 5 ==> monitor.rotation is None
        }),
        ({
            let monitor = captured_layout(name, all, active, modes).monitors[at];
            let path = active[a].path;
            let hz = active[a].measured_hz;
            &&& 0x3F80_0000 <= hz.bits <= 0x7F80_0000 ==> monitor.refresh_hz == hz
            &&& hz.bits < 0x3F80_0000 || hz.bits > 0x7F80_0000 ==> monitor.refresh_hz.bits
                == 0x4270_0000
            &&& path.refresh_rate.numerator != 0 && path.refresh_rate.denominator != 0 ==> {
                &&& monitor.refresh_numerator == Some(path.refresh_rate.numerator)
                &&& monitor.refresh_denominator == Some(path.refresh_rate.denominator)
            }
            &&& path.refresh_rate.numerator == 0 || path.refresh_rate.denominator == 0 ==> {
                &&& monitor.refresh_numerator is None
                &&& monitor.refresh_denominator is None
            }
        }),
{
    lemma_active_with(active, all[p].meta->0.identity.stable_key());
    lemma_captured_place(name, all, active, modes, p)
}

/// A connected monitor to which no active path leads is captured as off: at the
/// origin, with the size that it prefers, at sixty hertz and without settings
/// of an active path.
pub proof fn lemma_idle_monitor_is_captured(
    name: Seq<char>,
    all: Seq<QueriedView>,
    active: Seq<QueriedView>,
    modes: Seq<ModeInfo>,
    p: int,
) -> (at: int)
    requires
        0 <= p < all.len(),
        all[p].path.target_available,
        all[p].meta is Some,
        forall|q: int|
            0 <= q < p && (#[trigger] all[q]).path.target_available && all[q].meta is Some
                ==> all[q].meta->0.identity.stable_key() != all[p].meta->0.identity.stable_key(),
        forall|b: int|
            0 <= b < active.len() && (#[trigger] active[b]).meta is Some
                ==> active[b].meta->0.identity.stable_key() != all[p].meta->0.identity.stable_key(),
    ensures
        ({
            let layout = captured_layout(name, all, active, modes);
            let monitor = layout.monitors[at];
            &&& 0 <= at < layout.monitors.len()
            &&& !monitor.enabled
            &&& monitor.clone_group is None
            &&& monitor.identity == all[p].meta->0.identity
            &&& monitor.friendly_name == all[p].meta->0.friendly_name
            &&& monitor.x == 0 && monitor.y == 0
            &&& all[p].preferred matches Some(size) ==> monitor.width == size.0 && monitor.height
                == size.1
            &&& all[p].preferred is None ==> monitor.width == 1920 && monitor.height == 1080
            &&& monitor.refresh_hz.bits == 0x4270_0000
            &&& monitor.refresh_numerator is None && monitor.refresh_denominator is None
            &&& monitor.scaling is None
            &&& 1 <= all[p].path.rotation <= 4 ==> monitor.rotation == Some(all[p].path.rotation)
            &&& !(1 <= all[p].path.rotation <= 4) ==> monitor.rotation is None
            &&& monitor.source_adapter_low == all[p].path.source_adapter_low
            &&& monitor.source_adapter_high == all[p].path.source_adapter_high
            &&& monitor.source_id == all[p].path.source_id
        }),
{
    lemma_active_with(active, all[p].meta->0.identity.stable_key());
    let at = lemma_captured_place(name, all, active, modes, p);
    let found = captured_monitors(all, active, modes, all.len() as int);
    let grouped = with_clone_groups(found);
    let monitors = captured_layout(name, all, active, modes).monitors;
    order::lemma_sorted_members::<MonitorConfig>(grouped);
    assert(monitors.contains(monitors[at]));
    assert(grouped.contains(monitors[at]));
    let k = choose|k: int| 0 <= k < grouped.len() && grouped[k] == monitors[at];
    assert(active_sources(found)[k] is None);
    at
}

/// A captured layout has the name it was given and nothing but monitors, and
/// lists them from left to right, those above each other from top to bottom.
/// Its clones are on and begin at one source, and monitors that are on at one
/// source are clones.
pub proof fn lemma_captured_order_and_clones(
    name: Seq<char>,
    all: Seq<QueriedView>,
    active: Seq<QueriedView>,
    modes: Seq<ModeInfo>,
    i: int,
    j: int,
)
    requires
        all.len() < u32::MAX,
        0 <= i < j < captured_layout(name, all, active, modes).monitors.len(),
    ensures
        captured_layout(name, all, active, modes).name == name,
        captured_layout(name, all, active, modes).playback_device is None,
        captured_layout(name, all, active, modes).microphone_device is None,
        captured_layout(name, all, active, modes).hotkey is None,
        captured_layout(name, all, active, modes).controller_hotkey is None,
        ({
            let monitors = captured_layout(name, all, active, modes).monitors;
            let (a, b) = (monitors[i], monitors[j]);
            &&& a.x < b.x || (a.x == b.x && a.y <= b.y)
            &&& a.clone_group is Some ==> a.enabled
            &&& a.clone_group matches Some(group) ==> group >= 1
            &&& (a.clone_group is Some && a.clone_group == b.clone_group) <==> (a.enabled
                && b.enabled && a.source_adapter_low == b.source_adapter_low
                && a.source_adapter_high == b.source_adapter_high && a.source_id == b.source_id)
        }),
{
    let found = captured_monitors(all, active, modes, all.len() as int);
    let grouped = with_clone_groups(found);
    let monitors = captured_layout(name, all, active, modes).monitors;
    lemma_captured(all, active, modes, all.len() as int);
    lemma_captured_layout(name, all, active, modes);
    order::lemma_sorted_members::<MonitorConfig>(grouped);
    assert(monitors.contains(monitors[i]) && monitors.contains(monitors[j]));
    assert(grouped.contains(monitors[i]) && grouped.contains(monitors[j]));
    let k = choose|k: int| 0 <= k < grouped.len() && grouped[k] == monitors[i];
    let l = choose|l: int| 0 <= l < grouped.len() && grouped[l] == monitors[j];
    assert(monitors[i].identity.stable_key() != monitors[j].identity.stable_key());
    assert(k != l);
    lemma_captured_clones(found, k, l);
    lemma_captured_clones(found, l, k);
    clones::lemma_clone_numbers(active_sources(found), 1, k, l);
    assert(!model::monitor_before(monitors[j], monitors[i]));
}

fn find_active(active: &Vec<QueriedPath>, key: &str) -> (r: Option<usize>)
    ensures
        r is Some <==> active_with(order::views(active@), key@) is Some,
        r matches Some(at) ==> at < active@.len() && active_with(order::views(active@), key@)
            == Some(active@[at as int]@),
{
    let ghost all = order::views(active@);
    let mut count: usize = active.len();
    proof {
        assert(all.take(all.len() as int) =~= all);
    }
    while count > 0
        invariant
            count <= active@.len(),
            all == order::views(active@),
            active_with(all, key@) == active_with(all.take(count as int), key@),
        decreases count,
    {
        proof {
            assert(all.take(count as int).last() == active@[count - 1]@);
            assert(all.take(count as int).drop_last() =~= all.take(count - 1));
        }
        count = count - 1;
        if let Ok(meta) = &active[count].meta {
            let found = meta.identity.stable_key();
            if text::same_text(found.as_str(), key) {
                return Some(count);
            }
        }
    }
    None
}

fn seen_before(all: &Vec<QueriedPath>, count: usize, key: &str) -> (r: bool)
    requires
        count <= all@.len(),
    ensures
        r == is_seen(order::views(all@), count as int, key@),
{
    let ghost queried = order::views(all@);
    let mut index: usize = 0;
    while index < count
        invariant
            index <= count <= all@.len(),
            queried == order::views(all@),
            forall|i: int|
                0 <= i < index && (#[trigger] queried[i]).is_usable()
                    ==> queried[i].meta->0.identity.stable_key() != key@,
        decreases count - index,
    {
        assert(queried[index as int] == all@[index as int]@);
        if all[index].path.target_available {
            if let Ok(meta) = &all[index].meta {
                let found = meta.identity.stable_key();
                if text::same_text(found.as_str(), key) {
                    assert(queried[index as int].is_usable());
                    return true;
                }
            }
        }
        index = index + 1;
    }
    false
}

fn geometry_of(
    found: &QueriedPath,
    active: Option<&QueriedPath>,
    modes: &Vec<ModeInfo>,
) -> (r: (i32, i32, u32, u32))
    ensures
        r == captured_geometry(
            found@,
            match active {
                Some(path) => Some(path@),
                None => None,
            },
            modes@,
        ),
{
    if let Some(path) = active {
        if let Some(mode) = source_mode_for_path(&path.path, modes) {
            return (mode.x, mode.y, mode.width, mode.height);
        }
    }
    match found.preferred {
        Some(size) => (0, 0, size.0, size.1),
        None => (0, 0, 1920, 1080),
    }
}

/// Captures one monitor that a path leads to.
fn capture_monitor(
    found: &QueriedPath,
    active: &Vec<QueriedPath>,
    modes: &Vec<ModeInfo>,
) -> (r: Option<MonitorConfig>)
    ensures
        r is Some <==> found@.meta is Some,
        r matches Some(monitor) ==> monitor@ == captured_monitor(
            found@,
            order::views(active@),
            modes@,
        ),
{
    let meta = match &found.meta {
        Ok(meta) => meta,
        Err(_) => {
            return None;
        },
    };
    let key = meta.identity.stable_key();
    let place = find_active(active, key.as_str());
    let active_path: Option<&QueriedPath> = match place {
        Some(at) => Some(&active[at]),
        None => None,
    };
    let enabled = active_path.is_some();
    let chosen: &QueriedPath = match active_path {
        Some(path) => path,
        None => found,
    };
    let geometry = geometry_of(found, active_path, modes);
    let rate = chosen.path.refresh_rate;
    let exact = enabled && rate.numerator > 0 && rate.denominator > 0;
    let refresh_hz = if enabled && chosen.measured_hz.reaches_one() {
        chosen.measured_hz
    } else {
        Hertz { bits: SIXTY_HERTZ_BITS }
    };
    Some(
        MonitorConfig {
            identity: meta.identity.clone(),
            friendly_name: meta.friendly_name.clone(),
            enabled,
            source_adapter_low: chosen.path.source_adapter_low,
            source_adapter_high: chosen.path.source_adapter_high,
            source_id: chosen.path.source_id,
            clone_group: None,
            rotation: valid_rotation(chosen.path.rotation),
            scaling: if enabled {
                Some(chosen.path.scaling)
            } else {
                None
            },
            x: geometry.0,
            y: geometry.1,
            width: geometry.2,
            height: geometry.3,
            refresh_hz,
            refresh_numerator: if exact {
                Some(rate.numerator)
            } else {
                None
            },
            refresh_denominator: if exact {
                Some(rate.denominator)
            } else {
                None
            },
        },
    )
}

/// Puts monitors that are on and share a source into a clone group.
fn number_clones(monitors: Vec<MonitorConfig>) -> (r: Vec<MonitorConfig>)
    requires
        forall|i: int| 0 <= i < monitors@.len() ==> (#[trigger] monitors@[i]).clone_group is None,
    ensures
        order::views(r@) == with_clone_groups(order::views(monitors@)),
{
    let ghost all = order::views(monitors@);
    let ghost sources = active_sources(all);
    let mut keys: Vec<Option<SourceKey>> = Vec::new();
    let mut at: usize = 0;
    while at < monitors.len()
        invariant
            at <= monitors@.len(),
            all == order::views(monitors@),
            sources == active_sources(all),
            keys@ == sources.take(at as int),
        decreases monitors@.len() - at,
    {
        let key = if monitors[at].enabled {
            Some(monitors[at].source_key())
        } else {
            None
        };
        keys.push(key);
        proof {
            assert(all[at as int] == monitors@[at as int]@);
            assert(sources.take(at + 1) =~= sources.take(at as int).push(key));
        }
        at = at + 1;
    }
    proof {
        assert(sources.take(sources.len() as int) =~= sources);
    }
    let numbers = clone_numbers(&keys, 1);
    let mut grouped: Vec<MonitorConfig> = Vec::new();
    let mut at: usize = 0;
    while at < monitors.len()
        invariant
            at <= monitors@.len(),
            all == order::views(monitors@),
            sources == active_sources(all),
            numbers@ == clones::clone_numbering(sources, 1),
            order::views(grouped@) == with_clone_groups(all).take(at as int),
        decreases monitors@.len() - at,
    {
        let mut monitor = monitors[at].clone();
        let ghost plain = monitor@;
        monitor.clone_group = numbers[at];
        let ghost before = grouped@;
        grouped.push(monitor);
        proof {
            assert(all[at as int] == plain);
            assert(monitor@ == in_group(plain, clones::clone_number(sources, 1, at as int)));
            assert(order::views(grouped@) =~= order::views(before).push(monitor@));
            assert(with_clone_groups(all).take(at + 1) =~= with_clone_groups(all).take(
                at as int,
            ).push(monitor@));
        }
        at = at + 1;
    }
    proof {
        assert(with_clone_groups(all).take(all.len() as int) =~= with_clone_groups(all));
    }
    grouped
}

/// The layout that Windows shows, from all paths and from the active ones
/// with their modes.
pub fn capture_layout(
    name: String,
    all: &Vec<QueriedPath>,
    active: &Vec<QueriedPath>,
    modes: &Vec<ModeInfo>,
) -> (r: MonitorLayout)
    ensures
        r@ == captured_layout(name@, order::views(all@), order::views(active@), modes@),
{
    let ghost queried = order::views(all@);
    let ghost running = order::views(active@);
    let mut monitors: Vec<MonitorConfig> = Vec::new();
    let mut index: usize = 0;
    proof {
        assert(order::views(monitors@) =~= Seq::empty());
    }
    while index < all.len()
        invariant
            index <= all@.len(),
            queried == order::views(all@),
            running == order::views(active@),
            order::views(monitors@) == captured_monitors(queried, running, modes@, index as int),
            forall|i: int|
                0 <= i < monitors@.len() ==> (#[trigger] monitors@[i]).clone_group is None,
        decreases all@.len() - index,
    {
        let found = &all[index];
        assert(queried[index as int] == found@);
        let ghost before = monitors@;
        if found.path.target_available {
            if let Ok(meta) = &found.meta {
                let key = meta.identity.stable_key();
                if !seen_before(all, index, key.as_str()) {
                    if let Some(monitor) = capture_monitor(found, active, modes) {
                        assert(monitor@.clone_group is None);
                        monitors.push(monitor);
                        proof {
                            assert(order::views(monitors@) =~= order::views(before).push(monitor@));
                        }
                    }
                }
            }
        }
        index = index + 1;
    }
    let grouped = number_clones(monitors);
    let sorted = order::stable_sort(grouped);
    MonitorLayout {
        name,
        monitors: sorted,
        playback_device: None,
        microphone_device: None,
        hotkey: None,
        controller_hotkey: None,
    }
}

} // verus!
