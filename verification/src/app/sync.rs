//! Bringing a layout's monitor list up to date with what is connected.

use vstd::prelude::*;
use vstd::string::*;
use crate::model::{Hertz, MonitorConfig, MonitorView};
use crate::order;

verus! {

/// What is taken over from a connected monitor into the saved one: its name,
/// its identity where the saved one has no device path, and what the saved one
/// leaves open. `close` holds the pairs of rates that are as good as equal.
pub open spec fn refreshed_monitor(
    existing: MonitorView,
    current: MonitorView,
    close: Seq<(Hertz, Hertz)>,
) -> MonitorView {
    let exact = existing.refresh_numerator is Some || existing.refresh_denominator is Some;
    let takes_rate = !exact && close.contains((existing.refresh_hz, current.refresh_hz));
    MonitorView {
        friendly_name: current.friendly_name,
        identity: if existing.identity.device_path.len() == 0
            && current.identity.device_path.len() > 0 {
            current.identity
        } else {
            existing.identity
        },
        rotation: if existing.rotation is Some {
            existing.rotation
        } else {
            current.rotation
        },
        scaling: if existing.scaling is Some {
            existing.scaling
        } else {
            current.scaling
        },
        refresh_numerator: if takes_rate {
            current.refresh_numerator
        } else {
            existing.refresh_numerator
        },
        refresh_denominator: if takes_rate {
            current.refresh_denominator
        } else {
            existing.refresh_denominator
        },
        ..existing
    }
}

/// A monitor that takes no part in a layout.
pub open spec fn turned_off(monitor: MonitorView) -> MonitorView {
    MonitorView { enabled: false, clone_group: None, ..monitor }
}

/// The first saved monitor that a connected one matches, at or after `from`.
pub open spec fn saved_match(
    monitors: Seq<MonitorView>,
    current: MonitorView,
    from: int,
) -> Option<int>
    decreases monitors.len() - from,
{
    if from < 0 || from >= monitors.len() {
        None
    } else if monitors[from].identity.matches(current.identity) {
        Some(from)
    } else {
        saved_match(monitors, current, from + 1)
    }
}

/// The monitor list with one connected monitor taken in.
pub open spec fn merged_one(
    monitors: Seq<MonitorView>,
    current: MonitorView,
    close: Seq<(Hertz, Hertz)>,
) -> Seq<MonitorView> {
    match saved_match(monitors, current, 0) {
        Some(at) => monitors.update(at, refreshed_monitor(monitors[at], current, close)),
        None => monitors.push(turned_off(current)),
    }
}

/// The monitor list with the first `count` connected monitors taken in.
pub open spec fn merged(
    monitors: Seq<MonitorView>,
    connected: Seq<MonitorView>,
    close: Seq<(Hertz, Hertz)>,
    count: int,
) -> Seq<MonitorView>
    decreases count,
{
    if count <= 0 {
        monitors
    } else {
        merged_one(
            merged(monitors, connected, close, count - 1),
            connected[count - 1],
            close,
        )
    }
}

/// Syncing switches nothing on: every monitor of the list stays where it is,
/// as large and as much on or off as it was, and what is new is off.
pub proof fn lemma_sync_enables_nothing(
    monitors: Seq<MonitorView>,
    connected: Seq<MonitorView>,
    close: Seq<(Hertz, Hertz)>,
    count: int,
)
    requires
        0 <= count <= connected.len(),
    ensures
        ({
            let after = merged(monitors, connected, close, count);
            &&& monitors.len() <= after.len() <= monitors.len() + count
            &&& forall|i: int|
                0 <= i < monitors.len() ==> (#[trigger] after[i]).enabled == monitors[i].enabled
                    && after[i].geometry() == monitors[i].geometry() && after[i].clone_group
                    == monitors[i].clone_group && after[i].refresh_hz == monitors[i].refresh_hz
            &&& forall|i: int|
                monitors.len() <= i < after.len() ==> !(#[trigger] after[i]).enabled
                    && after[i].clone_group is None
        }),
    decreases count,
{
    if count > 0 {
        lemma_sync_enables_nothing(monitors, connected, close, count - 1);
        let before = merged(monitors, connected, close, count - 1);
        lemma_saved_match(before, connected[count - 1], 0);
    }
}

/// What a saved monitor already holds is kept: where it is, how large it is,
/// whether it is on, its rate, its clone group, its source, and its orientation,
/// scaling, exact rate and device path where it has them. Its name becomes the
/// connected one's, and what it leaves open is filled in from there.
pub proof fn lemma_refreshing_keeps_what_is_saved(
    existing: MonitorView,
    current: MonitorView,
    close: Seq<(Hertz, Hertz)>,
)
    ensures
        ({
            let after = refreshed_monitor(existing, current, close);
            &&& after.friendly_name == current.friendly_name
            &&& existing.rotation is Some ==> after.rotation == existing.rotation
            &&& existing.rotation is None ==> after.rotation == current.rotation
            &&& existing.scaling is Some ==> after.scaling == existing.scaling
            &&& existing.scaling is None ==> after.scaling == current.scaling
            &&& existing.identity.device_path.len() > 0 || current.identity.device_path.len() == 0
                ==> after.identity == existing.identity
            &&& existing.identity.device_path.len() == 0 && current.identity.device_path.len() > 0
                ==> after.identity == current.identity
        }),
        ({
            let after = refreshed_monitor(existing, current, close);
            let open = existing.refresh_numerator is None && existing.refresh_denominator is None
                && close.contains((existing.refresh_hz, current.refresh_hz));
            &&& open ==> after.refresh_numerator == current.refresh_numerator
                && after.refresh_denominator == current.refresh_denominator
            &&& !open ==> after.refresh_numerator == existing.refresh_numerator
                && after.refresh_denominator == existing.refresh_denominator
        }),
        ({
            let after = refreshed_monitor(existing, current, close);
            &&& after.enabled == existing.enabled
            &&& after.x == existing.x
            &&& after.y == existing.y
            &&& after.width == existing.width
            &&& after.height == existing.height
            &&& after.refresh_hz == existing.refresh_hz
            &&& after.clone_group == existing.clone_group
            &&& after.source_adapter_low == existing.source_adapter_low
            &&& after.source_adapter_high == existing.source_adapter_high
            &&& after.source_id == existing.source_id
        }),
{
}

/// Syncing changes no orientation, scaling or exact rate that the list already
/// holds, moves and resizes nothing, and keeps every device path and source.
pub proof fn lemma_sync_keeps_what_is_saved(
    monitors: Seq<MonitorView>,
    connected: Seq<MonitorView>,
    close: Seq<(Hertz, Hertz)>,
    count: int,
    i: int,
)
    requires
        0 <= count <= connected.len(),
        0 <= i < monitors.len(),
    ensures
        ({
            let after = merged(monitors, connected, close, count);
            &&& i < after.len()
            &&& monitors[i].rotation is Some ==> after[i].rotation == monitors[i].rotation
            &&& monitors[i].scaling is Some ==> after[i].scaling == monitors[i].scaling
            &&& monitors[i].refresh_numerator is Some || monitors[i].refresh_denominator is Some
                ==> after[i].refresh_numerator == monitors[i].refresh_numerator
                && after[i].refresh_denominator == monitors[i].refresh_denominator
            &&& monitors[i].identity.device_path.len() > 0 ==> after[i].identity
                == monitors[i].identity
            &&& after[i].enabled == monitors[i].enabled
            &&& after[i].x == monitors[i].x && after[i].y == monitors[i].y
            &&& after[i].width == monitors[i].width && after[i].height == monitors[i].height
            &&& after[i].refresh_hz == monitors[i].refresh_hz
            &&& after[i].clone_group == monitors[i].clone_group
            &&& after[i].source_id == monitors[i].source_id && after[i].source_adapter_low
                == monitors[i].source_adapter_low && after[i].source_adapter_high
                == monitors[i].source_adapter_high
        }),
    decreases count,
{
    if count > 0 {
        lemma_sync_keeps_what_is_saved(monitors, connected, close, count - 1, i);
        lemma_saved_match(merged(monitors, connected, close, count - 1), connected[count - 1], 0);
    }
}

/// A monitor that joins the list is the connected one in all but that it is
/// off and no clone.
pub proof fn lemma_turned_off(monitor: MonitorView)
    ensures
        !turned_off(monitor).enabled,
        turned_off(monitor).clone_group is None,
        monitor == (MonitorView {
            enabled: monitor.enabled,
            clone_group: monitor.clone_group,
            ..turned_off(monitor)
        }),
{
}

/// A connected monitor is taken to be the first of the list that it matches;
/// no other monitor of the list changes.
pub proof fn lemma_sync_updates_the_match(
    monitors: Seq<MonitorView>,
    current: MonitorView,
    close: Seq<(Hertz, Hertz)>,
    at: int,
    other: int,
)
    requires
        0 <= at < monitors.len(),
        monitors[at].identity.matches(current.identity),
        forall|i: int|
            0 <= i < at ==> !(#[trigger] monitors[i]).identity.matches(current.identity),
        0 <= other < monitors.len(),
        other != at,
    ensures
        merged_one(monitors, current, close).len() == monitors.len(),
        merged_one(monitors, current, close)[at].friendly_name == current.friendly_name,
        merged_one(monitors, current, close)[other] == monitors[other],
{
    lemma_first_match(monitors, current, 0, at);
}

proof fn lemma_first_match(monitors: Seq<MonitorView>, current: MonitorView, from: int, at: int)
    requires
        0 <= from <= at < monitors.len(),
        monitors[at].identity.matches(current.identity),
        forall|i: int|
            from <= i < at ==> !(#[trigger] monitors[i]).identity.matches(current.identity),
    ensures
        saved_match(monitors, current, from) == Some(at),
    decreases at - from,
{
    if from < at {
        lemma_first_match(monitors, current, from + 1, at);
    }
}

/// Whether a saved monitor stands for a connected one and has taken over its
/// device path, if it had none of its own.
spec fn stands_for(saved: MonitorView, current: MonitorView) -> bool {
    saved.identity.matches(current.identity) && (current.identity.device_path.len() > 0
        ==> saved.identity.device_path.len() > 0)
}

proof fn lemma_merged_stands_for(
    monitors: Seq<MonitorView>,
    connected: Seq<MonitorView>,
    close: Seq<(Hertz, Hertz)>,
    count: int,
    at: int,
) -> (place: int)
    requires
        0 <= at < count <= connected.len(),
    ensures
        0 <= place < merged(monitors, connected, close, count).len(),
        stands_for(merged(monitors, connected, close, count)[place], connected[at]),
    decreases count,
{
    let before = merged(monitors, connected, close, count - 1);
    let current = connected[count - 1];
    lemma_saved_match(before, current, 0);
    if at == count - 1 {
        match saved_match(before, current, 0) {
            Some(found) => found,
            None => before.len() as int,
        }
    } else {
        lemma_merged_stands_for(monitors, connected, close, count - 1, at)
    }
}

/// Syncing misses nothing: every connected monitor matches one of the list
/// afterwards.
pub proof fn lemma_sync_lists_connected(
    monitors: Seq<MonitorView>,
    connected: Seq<MonitorView>,
    close: Seq<(Hertz, Hertz)>,
    at: int,
)
    requires
        0 <= at < connected.len(),
    ensures
        exists|place: int|
            0 <= place < merged(monitors, connected, close, connected.len() as int).len()
                && (#[trigger] merged(
                monitors,
                connected,
                close,
                connected.len() as int,
            )[place]).identity.matches(connected[at].identity),
{
    let place = lemma_merged_stands_for(
        monitors,
        connected,
        close,
        connected.len() as int,
        at,
    );
    let after = merged(monitors, connected, close, connected.len() as int);
    assert(after[place].identity.matches(connected[at].identity));
}

/// A connected monitor that matches none of the list joins it at the end,
/// turned off.
pub proof fn lemma_sync_gains(
    monitors: Seq<MonitorView>,
    current: MonitorView,
    close: Seq<(Hertz, Hertz)>,
)
    requires
        forall|i: int|
            0 <= i < monitors.len() ==> !(#[trigger] monitors[i]).identity.matches(
                current.identity,
            ),
    ensures
        merged_one(monitors, current, close) == monitors.push(turned_off(current)),
{
    lemma_saved_match(monitors, current, 0);
}

proof fn lemma_saved_match(monitors: Seq<MonitorView>, current: MonitorView, from: int)
    requires
        0 <= from,
    ensures
        saved_match(monitors, current, from) matches Some(at) ==> from <= at < monitors.len()
            && monitors[at].identity.matches(current.identity),
    decreases monitors.len() - from,
{
    if from < monitors.len() {
        lemma_saved_match(monitors, current, from + 1);
    }
}

fn holds_pair(close: &Vec<(Hertz, Hertz)>, a: Hertz, b: Hertz) -> (r: bool)
    ensures
        r == close@.contains((a, b)),
{
    let mut at: usize = 0;
    while at < close.len()
        invariant
            at <= close@.len(),
            forall|i: int| 0 <= i < at ==> close@[i] != (a, b),
        decreases close@.len() - at,
    {
        if close[at].0 == a && close[at].1 == b {
            assert(close@[at as int] == (a, b));
            return true;
        }
        at = at + 1;
    }
    false
}

/// Takes over into a saved monitor what a connected one tells.
pub fn refresh_monitor(
    existing: &mut MonitorConfig,
    current: &MonitorConfig,
    close: &Vec<(Hertz, Hertz)>,
)
    ensures
        final(existing)@ == refreshed_monitor(old(existing)@, current@, close@),
{
    let exact = existing.refresh_numerator.is_some() || existing.refresh_denominator.is_some();
    let takes_rate = !exact && holds_pair(close, existing.refresh_hz, current.refresh_hz);
    existing.friendly_name = current.friendly_name.clone();
    if existing.identity.device_path.as_str().is_empty()
        && !current.identity.device_path.as_str().is_empty() {
        existing.identity = current.identity.clone();
    }
    if existing.rotation.is_none() {
        existing.rotation = current.rotation;
    }
    if existing.scaling.is_none() {
        existing.scaling = current.scaling;
    }
    if takes_rate {
        existing.refresh_numerator = current.refresh_numerator;
        existing.refresh_denominator = current.refresh_denominator;
    }
}

fn find_match(monitors: &Vec<MonitorConfig>, current: &MonitorConfig) -> (r: Option<usize>)
    ensures
        r is Some <==> saved_match(order::views(monitors@), current@, 0) is Some,
        r matches Some(at) ==> at < monitors@.len() && saved_match(
            order::views(monitors@),
            current@,
            0,
        ) == Some(at as int),
{
    let ghost all = order::views(monitors@);
    let mut at: usize = 0;
    while at < monitors.len()
        invariant
            at <= monitors@.len(),
            all == order::views(monitors@),
            saved_match(all, current@, 0) == saved_match(all, current@, at as int),
        decreases monitors@.len() - at,
    {
        assert(all[at as int] == monitors@[at as int]@);
        if monitors[at].identity.matches(&current.identity) {
            return Some(at);
        }
        at = at + 1;
    }
    None
}

/// Takes the connected monitors into a monitor list. Returns how many were
/// added and how many were matched.
pub fn merge_monitors(
    monitors: &mut Vec<MonitorConfig>,
    connected: &Vec<MonitorConfig>,
    close: &Vec<(Hertz, Hertz)>,
) -> (r: (usize, usize))
    ensures
        order::views(final(monitors)@) == merged(
            order::views(old(monitors)@),
            order::views(connected@),
            close@,
            connected@.len() as int,
        ),
        r.0 == final(monitors)@.len() - old(monitors)@.len(),
        r.0 + r.1 == connected@.len(),
{
    let ghost start = order::views(monitors@);
    let ghost listed = order::views(connected@);
    let mut added: usize = 0;
    let mut matched: usize = 0;
    let mut at: usize = 0;
    while at < connected.len()
        invariant
            at <= connected@.len(),
            added + matched == at,
            start == order::views(old(monitors)@),
            listed == order::views(connected@),
            monitors@.len() == old(monitors)@.len() + added,
            order::views(monitors@) == merged(start, listed, close@, at as int),
        decreases connected@.len() - at,
    {
        let current = &connected[at];
        assert(listed[at as int] == current@);
        let ghost before = monitors@;
        match find_match(monitors, current) {
            Some(index) => {
                let mut existing = monitors[index].clone();
                assert(order::views(before)[index as int] == existing@);
                refresh_monitor(&mut existing, current, close);
                monitors.set(index, existing);
                proof {
                    assert(order::views(monitors@) =~= order::views(before).update(
                        index as int,
                        existing@,
                    ));
                }
                matched = matched + 1;
            },
            None => {
                let mut monitor = current.clone();
                monitor.enabled = false;
                monitor.clone_group = None;
                monitors.push(monitor);
                proof {
                    assert(order::views(monitors@) =~= order::views(before).push(monitor@));
                }
                added = added + 1;
            },
        }
        at = at + 1;
    }
    (added, matched)
}

} // verus!
