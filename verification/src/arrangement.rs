//! Arranging the monitors of a layout: sizes, bounds, dragging, clones and the
//! primary monitor.

use vstd::prelude::*;
use crate::model::{MonitorConfig, MonitorLayout, MonitorView};
use crate::model;
use crate::order;

verus! {

// ---------------------------------------------------------------------------
// Orientation
// ---------------------------------------------------------------------------

/// Whether an orientation swaps width and height.
pub fn is_quarter_turn(rotation: i32) -> (r: bool)
    ensures
        r == (rotation == 2 || rotation == 4),
{
    rotation == 2 || rotation == 4
}

/// Width and height as they appear on the desktop.
pub fn display_size(monitor: &MonitorConfig) -> (r: (u32, u32))
    ensures
        r == monitor@.display_size(),
{
    if let Some(rotation) = monitor.rotation {
        if is_quarter_turn(rotation) {
            return (monitor.height, monitor.width);
        }
    }
    (monitor.width, monitor.height)
}

/// What an orientation is called.
pub open spec fn rotation_name(rotation: i32) -> Seq<char> {
    if rotation == 1 {
        "Landscape (0°)"@
    } else if rotation == 2 {
        "Portrait (90°)"@
    } else if rotation == 3 {
        "Landscape flipped (180°)"@
    } else if rotation == 4 {
        "Portrait flipped (270°)"@
    } else {
        "Current / unknown"@
    }
}

/// What an orientation is called.
pub fn rotation_label(rotation: i32) -> (r: &'static str)
    ensures
        r@ == rotation_name(rotation),
{
    if rotation == 1 {
        "Landscape (0°)"
    } else if rotation == 2 {
        "Portrait (90°)"
    } else if rotation == 3 {
        "Landscape flipped (180°)"
    } else if rotation == 4 {
        "Portrait flipped (270°)"
    } else {
        "Current / unknown"
    }
}

/// The orientation that is shown for a monitor.
pub fn shown_rotation(monitor: &MonitorConfig) -> (r: i32)
    ensures
        r == (match monitor@.rotation {
            Some(rotation) => rotation,
            None => 0,
        }),
{
    match monitor.rotation {
        Some(rotation) => rotation,
        None => 0,
    }
}

/// Sets the orientation that was picked, where it is another than is shown.
/// Returns whether anything changed.
pub fn choose_rotation(monitor: &mut MonitorConfig, rotation: i32) -> (changed: bool)
    ensures
        changed == (rotation != (match old(monitor)@.rotation {
            Some(shown) => shown,
            None => 0,
        })),
        final(monitor)@ == (if changed {
            MonitorView { rotation: Some(rotation), ..old(monitor)@ }
        } else {
            old(monitor)@
        }),
{
    if rotation != shown_rotation(monitor) {
        monitor.rotation = Some(rotation);
        true
    } else {
        false
    }
}

/// Forgets the exact rate after the user edited the shown one.
pub fn rate_edited(monitor: &mut MonitorConfig)
    ensures
        final(monitor)@ == (MonitorView {
            refresh_numerator: None,
            refresh_denominator: None,
            ..old(monitor)@
        }),
{
    monitor.refresh_numerator = None;
    monitor.refresh_denominator = None;
}

/// Whether a monitor is the primary one of its layout.
pub fn is_primary(monitor: &MonitorConfig) -> (r: bool)
    ensures
        r == monitor@.is_primary(),
{
    monitor.enabled && monitor.x == 0 && monitor.y == 0
}

/// How many monitors are on.
pub fn enabled_count(monitors: &Vec<MonitorConfig>) -> (r: usize)
    ensures
        r == model::enabled_of(order::views(monitors@)).len(),
{
    let ghost all = order::views(monitors@);
    let mut count: usize = 0;
    let mut at: usize = 0;
    while at < monitors.len()
        invariant
            at <= monitors@.len(),
            all == order::views(monitors@),
            count == model::enabled_of(all.take(at as int)).len(),
            count <= at,
        decreases monitors@.len() - at,
    {
        proof {
            assert(all.take(at + 1).drop_last() =~= all.take(at as int));
            assert(all.take(at + 1).last() == monitors@[at as int]@);
        }
        if monitors[at].enabled {
            count = count + 1;
        }
        at = at + 1;
    }
    proof {
        assert(all.take(all.len() as int) =~= all);
    }
    count
}

// ---------------------------------------------------------------------------
// Bounds
// ---------------------------------------------------------------------------

/// The smallest rectangle that holds every monitor.
#[derive(Debug, Clone, Copy, PartialEq, Eq, Structural)]
pub struct Bounds {
    pub min_x: i64,
    pub min_y: i64,
    pub max_x: i64,
    pub max_y: i64,
}

/// Whether a rectangle holds a monitor.
pub open spec fn holds(bounds: Bounds, monitor: MonitorView) -> bool {
    &&& bounds.min_x <= monitor.x
    &&& bounds.min_y <= monitor.y
    &&& monitor.x + monitor.display_size().0 <= bounds.max_x
    &&& monitor.y + monitor.display_size().1 <= bounds.max_y
}

/// Whether each side of a rectangle touches some monitor.
pub open spec fn is_tight(bounds: Bounds, monitors: Seq<MonitorView>) -> bool {
    &&& exists|i: int| 0 <= i < monitors.len() && (#[trigger] monitors[i]).x == bounds.min_x
    &&& exists|i: int| 0 <= i < monitors.len() && (#[trigger] monitors[i]).y == bounds.min_y
    &&& exists|i: int|
        0 <= i < monitors.len() && (#[trigger] monitors[i]).x + monitors[i].display_size().0
            == bounds.max_x
    &&& exists|i: int|
        0 <= i < monitors.len() && (#[trigger] monitors[i]).y + monitors[i].display_size().1
            == bounds.max_y
}

/// A rectangle holds a monitor where all four of its corners are within, as the
/// monitor is turned, whether it is on or off.
pub proof fn lemma_holds(bounds: Bounds, monitor: MonitorView)
    ensures
        holds(bounds, monitor) <==> {
            let turned = monitor.rotation == Some(2i32) || monitor.rotation == Some(4i32);
            let width = if turned { monitor.height } else { monitor.width };
            let height = if turned { monitor.width } else { monitor.height };
            &&& bounds.min_x <= monitor.x && monitor.x + width <= bounds.max_x
            &&& bounds.min_y <= monitor.y && monitor.y + height <= bounds.max_y
        },
{
}

/// A rectangle that touches monitors on every side and holds them all is the
/// only one: any other that holds them all holds it.
pub proof fn lemma_tight_bounds(bounds: Bounds, other: Bounds, monitors: Seq<MonitorView>)
    requires
        is_tight(bounds, monitors),
        forall|i: int| 0 <= i < monitors.len() ==> holds(other, #[trigger] monitors[i]),
    ensures
        other.min_x <= bounds.min_x && other.min_y <= bounds.min_y,
        bounds.max_x <= other.max_x && bounds.max_y <= other.max_y,
{
    let a = choose|i: int| 0 <= i < monitors.len() && (#[trigger] monitors[i]).x == bounds.min_x;
    let b = choose|i: int| 0 <= i < monitors.len() && (#[trigger] monitors[i]).y == bounds.min_y;
    let c = choose|i: int|
        0 <= i < monitors.len() && (#[trigger] monitors[i]).x + monitors[i].display_size().0
            == bounds.max_x;
    let d = choose|i: int|
        0 <= i < monitors.len() && (#[trigger] monitors[i]).y + monitors[i].display_size().1
            == bounds.max_y;
    assert(holds(other, monitors[a]) && holds(other, monitors[b]));
    assert(holds(other, monitors[c]) && holds(other, monitors[d]));
}

/// The smallest rectangle that holds every monitor; nothing where there is
/// none.
pub fn world_bounds(monitors: &Vec<MonitorConfig>) -> (r: Option<Bounds>)
    ensures
        r is None <==> monitors@.len() == 0,
        r matches Some(bounds) ==> is_tight(bounds, order::views(monitors@)) && forall|i: int|
            0 <= i < monitors@.len() ==> holds(bounds, #[trigger] order::views(monitors@)[i]),
{
    if monitors.len() == 0 {
        return None;
    }
    let ghost all = order::views(monitors@);
    let (width, height) = display_size(&monitors[0]);
    assert(all[0] == monitors@[0]@);
    let mut bounds = Bounds {
        min_x: monitors[0].x as i64,
        min_y: monitors[0].y as i64,
        max_x: monitors[0].x as i64 + width as i64,
        max_y: monitors[0].y as i64 + height as i64,
    };
    let mut at: usize = 1;
    let ghost mut left: int = 0;
    let ghost mut top: int = 0;
    let ghost mut right: int = 0;
    let ghost mut bottom: int = 0;
    while at < monitors.len()
        invariant
            1 <= at <= monitors@.len(),
            all == order::views(monitors@),
            0 <= left < at,
            0 <= top < at,
            0 <= right < at,
            0 <= bottom < at,
            all[left].x == bounds.min_x,
            all[top].y == bounds.min_y,
            all[right].x + all[right].display_size().0 == bounds.max_x,
            all[bottom].y + all[bottom].display_size().1 == bounds.max_y,
            forall|i: int| 0 <= i < at ==> holds(bounds, #[trigger] all[i]),
        decreases monitors@.len() - at,
    {
        let monitor = &monitors[at];
        assert(all[at as int] == monitor@);
        let (width, height) = display_size(monitor);
        let x: i64 = monitor.x as i64;
        let y: i64 = monitor.y as i64;
        let right_edge: i64 = x + width as i64;
        let bottom_edge: i64 = y + height as i64;
        if x < bounds.min_x {
            bounds.min_x = x;
            proof {
                left = at as int;
            }
        }
        if y < bounds.min_y {
            bounds.min_y = y;
            proof {
                top = at as int;
            }
        }
        if right_edge > bounds.max_x {
            bounds.max_x = right_edge;
            proof {
                right = at as int;
            }
        }
        if bottom_edge > bounds.max_y {
            bounds.max_y = bottom_edge;
            proof {
                bottom = at as int;
            }
        }
        at = at + 1;
    }
    proof {
        assert(all[left].x == bounds.min_x && all[top].y == bounds.min_y);
        assert(all[right].x + all[right].display_size().0 == bounds.max_x);
        assert(all[bottom].y + all[bottom].display_size().1 == bounds.max_y);
    }
    Some(bounds)
}

// ---------------------------------------------------------------------------
// Moving monitors
// ---------------------------------------------------------------------------

/// `value`, kept within `i32`.
pub open spec fn clamped(value: int) -> i32 {
    if value < i32::MIN {
        i32::MIN
    } else if value > i32::MAX {
        i32::MAX
    } else {
        value as i32
    }
}

/// The sum, kept within `i32`.
pub fn saturating_sum(a: i32, b: i32) -> (r: i32)
    ensures
        r == clamped(a + b),
{
    let sum: i64 = a as i64 + b as i64;
    if sum < i32::MIN as i64 {
        i32::MIN
    } else if sum > i32::MAX as i64 {
        i32::MAX
    } else {
        sum as i32
    }
}

/// The difference, kept within `i32`.
pub fn saturating_difference(a: i32, b: i32) -> (r: i32)
    ensures
        r == clamped(a - b),
{
    let difference: i64 = a as i64 - b as i64;
    if difference < i32::MIN as i64 {
        i32::MIN
    } else if difference > i32::MAX as i64 {
        i32::MAX
    } else {
        difference as i32
    }
}

/// A monitor at another place.
pub open spec fn placed_at(monitor: MonitorView, x: i32, y: i32) -> MonitorView {
    MonitorView { x, y, ..monitor }
}

/// Whether monitor `at` goes where monitor `dragged` goes: it is that monitor
/// or a clone of it.
pub open spec fn moves_along(monitors: Seq<MonitorView>, dragged: int, at: int) -> bool {
    at == dragged || (monitors[dragged].clone_group is Some && monitors[at].clone_group
        == monitors[dragged].clone_group)
}

/// Monitor `at` after monitor `dragged` was dragged by a distance from where
/// everything was when the drag began. Monitors that were added since stay.
pub open spec fn dragged_monitor(
    monitors: Seq<MonitorView>,
    origins: Seq<(i32, i32)>,
    dragged: int,
    by: (i32, i32),
    at: int,
) -> MonitorView {
    if moves_along(monitors, dragged, at) && at < origins.len() {
        placed_at(
            monitors[at],
            clamped(origins[at].0 + by.0),
            clamped(origins[at].1 + by.1),
        )
    } else {
        monitors[at]
    }
}

/// The monitors after a drag.
pub open spec fn dragged_monitors(
    monitors: Seq<MonitorView>,
    origins: Seq<(i32, i32)>,
    dragged: int,
    by: (i32, i32),
) -> Seq<MonitorView> {
    Seq::new(
        monitors.len(),
        |at: int| dragged_monitor(monitors, origins, dragged, by, at),
    )
}

/// Where every monitor is.
pub fn origins(monitors: &Vec<MonitorConfig>) -> (r: Vec<(i32, i32)>)
    ensures
        r@ == order::views(monitors@).map_values(|monitor: MonitorView| (monitor.x, monitor.y)),
{
    let ghost all = order::views(monitors@).map_values(
        |monitor: MonitorView| (monitor.x, monitor.y),
    );
    let mut places: Vec<(i32, i32)> = Vec::new();
    let mut at: usize = 0;
    while at < monitors.len()
        invariant
            at <= monitors@.len(),
            all == order::views(monitors@).map_values(
                |monitor: MonitorView| (monitor.x, monitor.y),
            ),
            places@ == all.take(at as int),
        decreases monitors@.len() - at,
    {
        places.push((monitors[at].x, monitors[at].y));
        proof {
            assert(order::views(monitors@)[at as int] == monitors@[at as int]@);
            assert(all.take(at + 1) =~= all.take(at as int).push(
                (monitors@[at as int].x, monitors@[at as int].y),
            ));
        }
        at = at + 1;
    }
    proof {
        assert(all.take(all.len() as int) =~= all);
    }
    places
}

/// Moves a monitor and its clones by a distance from where they were when the
/// drag began. Returns whether anything moved.
pub fn drag_monitors(
    monitors: &mut Vec<MonitorConfig>,
    origins: &Vec<(i32, i32)>,
    dragged: usize,
    dx: i32,
    dy: i32,
) -> (changed: bool)
    requires
        dragged < old(monitors)@.len(),
    ensures
        order::views(final(monitors)@) == dragged_monitors(
            order::views(old(monitors)@),
            origins@,
            dragged as int,
            (dx, dy),
        ),
        changed == (order::views(final(monitors)@) != order::views(old(monitors)@)),
{
    let ghost before = order::views(monitors@);
    let ghost after = dragged_monitors(before, origins@, dragged as int, (dx, dy));
    let group = monitors[dragged].clone_group;
    assert(before[dragged as int] == monitors@[dragged as int]@);
    let mut changed = false;
    let mut at: usize = 0;
    while at < monitors.len()
        invariant
            at <= monitors@.len(),
            dragged < before.len(),
            monitors@.len() == before.len(),
            group == before[dragged as int].clone_group,
            after == dragged_monitors(before, origins@, dragged as int, (dx, dy)),
            forall|i: int| 0 <= i < at ==> (#[trigger] monitors@[i])@ == after[i],
            forall|i: int| at <= i < before.len() ==> (#[trigger] monitors@[i])@ == before[i],
            changed <==> exists|i: int| 0 <= i < at && #[trigger] after[i] != before[i],
        decreases monitors@.len() - at,
    {
        let mut monitor = monitors[at].clone();
        assert(monitor@ == before[at as int]);
        let along = at == dragged || (group.is_some() && monitor.clone_group == group);
        if along && at < origins.len() {
            let (start_x, start_y) = origins[at];
            let next_x = saturating_sum(start_x, dx);
            let next_y = saturating_sum(start_y, dy);
            if monitor.x != next_x || monitor.y != next_y {
                monitor.x = next_x;
                monitor.y = next_y;
                changed = true;
                proof {
                    assert(monitor@ == after[at as int]);
                    assert(after[at as int].x != before[at as int].x || after[at as int].y
                        != before[at as int].y);
                }
            }
        }
        assert(monitor@ == after[at as int]);
        monitors.set(at, monitor);
        at = at + 1;
    }
    proof {
        assert(order::views(monitors@) =~= after);
        if changed {
            let i = choose|i: int| 0 <= i < at && #[trigger] after[i] != before[i];
            assert(order::views(monitors@)[i] != before[i]);
        } else {
            assert(after =~= before);
        }
    }
    changed
}

/// A coordinate that fits is kept, and one that does not stops at the end.
pub proof fn lemma_clamped(value: int)
    ensures
        -0x8000_0000 <= value <= 0x7FFF_FFFF ==> clamped(value) == value,
        value < -0x8000_0000 ==> clamped(value) == -0x8000_0000,
        value > 0x7FFF_FFFF ==> clamped(value) == 0x7FFF_FFFF,
{
}

/// Dragging moves the dragged monitor and its clones by the same distance from
/// where they began, and leaves everything else of every monitor as it was.
pub proof fn lemma_dragged_monitors(
    monitors: Seq<MonitorView>,
    origins: Seq<(i32, i32)>,
    dragged: int,
    by: (i32, i32),
    at: int,
)
    requires
        0 <= dragged < monitors.len(),
        0 <= at < monitors.len(),
        monitors.len() == origins.len(),
    ensures
        ({
            let after = dragged_monitors(monitors, origins, dragged, by);
            let along = at == dragged || (monitors[at].clone_group is Some
                && monitors[at].clone_group == monitors[dragged].clone_group);
            &&& after.len() == monitors.len()
            &&& !along ==> after[at] == monitors[at]
            &&& along && -0x8000_0000 <= origins[at].0 + by.0 <= 0x7FFF_FFFF ==> after[at].x
                == origins[at].0 + by.0
            &&& along && -0x8000_0000 <= origins[at].1 + by.1 <= 0x7FFF_FFFF ==> after[at].y
                == origins[at].1 + by.1
            &&& after[at].enabled == monitors[at].enabled
            &&& after[at].width == monitors[at].width
            &&& after[at].height == monitors[at].height
            &&& after[at].identity == monitors[at].identity
            &&& after[at].clone_group == monitors[at].clone_group
            &&& after[at].rotation == monitors[at].rotation
        }),
{
}

/// Clones stay together: where monitors of one clone group were at one place
/// when a drag began, they are at one place after it.
pub proof fn lemma_clones_stay_together(
    monitors: Seq<MonitorView>,
    origins: Seq<(i32, i32)>,
    dragged: int,
    by: (i32, i32),
    a: int,
    b: int,
)
    requires
        0 <= dragged < monitors.len(),
        0 <= a < monitors.len(),
        0 <= b < monitors.len(),
        monitors.len() == origins.len(),
        monitors[a].clone_group is Some,
        monitors[a].clone_group == monitors[b].clone_group,
        (monitors[a].x, monitors[a].y) == (monitors[b].x, monitors[b].y),
        origins[a] == origins[b],
    ensures
        ({
            let after = dragged_monitors(monitors, origins, dragged, by);
            (after[a].x, after[a].y) == (after[b].x, after[b].y)
        }),
{
}

// ---------------------------------------------------------------------------
// The primary monitor
// ---------------------------------------------------------------------------

/// The monitors moved so that monitor `primary` is at the origin.
pub open spec fn around_primary(monitors: Seq<MonitorView>, primary: int) -> Seq<MonitorView> {
    Seq::new(
        monitors.len(),
        |at: int|
            placed_at(
                monitors[at],
                clamped(monitors[at].x - monitors[primary].x),
                clamped(monitors[at].y - monitors[primary].y),
            ),
    )
}

/// The chosen monitor becomes primary where it is on, and no distance between
/// two monitors changes as long as the coordinates suffice.
pub proof fn lemma_around_primary(monitors: Seq<MonitorView>, primary: int, a: int, b: int)
    requires
        0 <= primary < monitors.len(),
        0 <= a < monitors.len(),
        0 <= b < monitors.len(),
    ensures
        ({
            let after = around_primary(monitors, primary);
            &&& after[primary].x == 0 && after[primary].y == 0
            &&& monitors[primary].enabled ==> after[primary].is_primary()
            &&& (i32::MIN <= monitors[a].x - monitors[primary].x <= i32::MAX && i32::MIN
                <= monitors[b].x - monitors[primary].x <= i32::MAX) ==> after[a].x - after[b].x
                == monitors[a].x - monitors[b].x
            &&& (i32::MIN <= monitors[a].y - monitors[primary].y <= i32::MAX && i32::MIN
                <= monitors[b].y - monitors[primary].y <= i32::MAX) ==> after[a].y - after[b].y
                == monitors[a].y - monitors[b].y
        }),
{
}

/// Making a monitor primary moves every monitor by what brings that one to the
/// origin, and changes nothing but places.
pub proof fn lemma_primary_moves_all(monitors: Seq<MonitorView>, primary: int, at: int)
    requires
        0 <= primary < monitors.len(),
        0 <= at < monitors.len(),
    ensures
        ({
            let after = around_primary(monitors, primary);
            &&& after.len() == monitors.len()
            &&& -0x8000_0000 <= monitors[at].x - monitors[primary].x <= 0x7FFF_FFFF ==> after[at].x
                + monitors[primary].x == monitors[at].x
            &&& -0x8000_0000 <= monitors[at].y - monitors[primary].y <= 0x7FFF_FFFF ==> after[at].y
                + monitors[primary].y == monitors[at].y
            &&& monitors[at] == (MonitorView {
                x: monitors[at].x,
                y: monitors[at].y,
                ..after[at]
            })
        }),
{
}

/// Moves the monitors so that one of them is at the origin.
pub fn make_primary(monitors: &mut Vec<MonitorConfig>, primary: usize)
    requires
        primary < old(monitors)@.len(),
    ensures
        order::views(final(monitors)@) == around_primary(
            order::views(old(monitors)@),
            primary as int,
        ),
{
    let ghost before = order::views(monitors@);
    let ghost after = around_primary(before, primary as int);
    let offset_x = monitors[primary].x;
    let offset_y = monitors[primary].y;
    assert(before[primary as int] == monitors@[primary as int]@);
    let mut at: usize = 0;
    while at < monitors.len()
        invariant
            at <= monitors@.len(),
            monitors@.len() == before.len(),
            primary < before.len(),
            offset_x == before[primary as int].x,
            offset_y == before[primary as int].y,
            after == around_primary(before, primary as int),
            forall|i: int| 0 <= i < at ==> (#[trigger] monitors@[i])@ == after[i],
            forall|i: int| at <= i < before.len() ==> (#[trigger] monitors@[i])@ == before[i],
        decreases monitors@.len() - at,
    {
        let mut monitor = monitors[at].clone();
        assert(monitor@ == before[at as int]);
        monitor.x = saturating_difference(monitor.x, offset_x);
        monitor.y = saturating_difference(monitor.y, offset_y);
        assert(monitor@ == after[at as int]);
        monitors.set(at, monitor);
        at = at + 1;
    }
    proof {
        assert(order::views(monitors@) =~= after);
    }
}

// ---------------------------------------------------------------------------
// Edits of the monitor list
// ---------------------------------------------------------------------------

/// A position and resolution that the user typed, to be passed on to clones.
#[derive(Debug, Clone, Copy, PartialEq, Eq, Structural)]
pub struct GeometryUpdate {
    pub source_index: usize,
    pub clone_group: Option<u32>,
    pub x: i32,
    pub y: i32,
    pub width: u32,
    pub height: u32,
}

/// What the user did to one monitor of the list.
#[derive(Debug, Clone, Copy, PartialEq, Eq, Structural)]
pub struct MonitorCardResult {
    pub changed: bool,
    pub make_primary: bool,
    pub geometry_update: Option<GeometryUpdate>,
}

/// Sums up what the user did to one monitor.
pub fn monitor_card_result(
    monitor: &MonitorConfig,
    monitor_index: usize,
    changed: bool,
    geometry_changed: bool,
    make_primary: bool,
) -> (r: MonitorCardResult)
    ensures
        r.changed == (changed || geometry_changed),
        r.make_primary == make_primary,
        r.geometry_update == (if geometry_changed {
            Some(
                GeometryUpdate {
                    source_index: monitor_index,
                    clone_group: monitor@.clone_group,
                    x: monitor@.x,
                    y: monitor@.y,
                    width: monitor@.width,
                    height: monitor@.height,
                },
            )
        } else {
            None
        }),
{
    let geometry_update = if geometry_changed {
        Some(
            GeometryUpdate {
                source_index: monitor_index,
                clone_group: monitor.clone_group,
                x: monitor.x,
                y: monitor.y,
                width: monitor.width,
                height: monitor.height,
            },
        )
    } else {
        None
    };
    MonitorCardResult { changed: changed || geometry_changed, make_primary, geometry_update }
}

/// The last monitor before `count` that is to become primary.
pub open spec fn wanted_primary(results: Seq<MonitorCardResult>, count: int) -> Option<int>
    decreases count,
{
    if count <= 0 {
        None
    } else if results[count - 1].make_primary {
        Some(count - 1)
    } else {
        wanted_primary(results, count - 1)
    }
}

/// The last typed geometry before `count`.
pub open spec fn wanted_geometry(
    results: Seq<MonitorCardResult>,
    count: int,
) -> Option<GeometryUpdate>
    decreases count,
{
    if count <= 0 {
        None
    } else if results[count - 1].geometry_update is Some {
        results[count - 1].geometry_update
    } else {
        wanted_geometry(results, count - 1)
    }
}

/// Whether anything was changed before `count`.
pub open spec fn any_changed(results: Seq<MonitorCardResult>, count: int) -> bool {
    exists|i: int| 0 <= i < count && (#[trigger] results[i]).changed
}

/// The monitors after a typed geometry was passed on to the clones.
pub open spec fn with_geometry(
    monitors: Seq<MonitorView>,
    update: Option<GeometryUpdate>,
) -> Seq<MonitorView> {
    match update {
        None => monitors,
        Some(update) => Seq::new(
            monitors.len(),
            |at: int|
                if update.clone_group is Some && at != update.source_index
                    && monitors[at].clone_group == update.clone_group {
                    MonitorView {
                        x: update.x,
                        y: update.y,
                        width: update.width,
                        height: update.height,
                        ..monitors[at]
                    }
                } else {
                    monitors[at]
                },
        ),
    }
}

/// The monitors after the edits of one pass over the list: a typed geometry
/// goes to the clones, then the chosen monitor becomes primary.
pub open spec fn edited_monitors(
    monitors: Seq<MonitorView>,
    results: Seq<MonitorCardResult>,
) -> Seq<MonitorView> {
    let shared = with_geometry(monitors, wanted_geometry(results, results.len() as int));
    match wanted_primary(results, results.len() as int) {
        Some(primary) => if primary < shared.len() {
            around_primary(shared, primary)
        } else {
            shared
        },
        None => shared,
    }
}

/// A typed geometry reaches every clone of the edited monitor, so that clones
/// that agreed before still agree.
pub proof fn lemma_geometry_is_shared(
    monitors: Seq<MonitorView>,
    update: GeometryUpdate,
    a: int,
    b: int,
)
    requires
        0 <= a < monitors.len(),
        0 <= b < monitors.len(),
        update.clone_group is Some,
        monitors[a].clone_group == update.clone_group,
        monitors[b].clone_group == update.clone_group,
        update.source_index < monitors.len(),
        monitors[update.source_index as int].geometry() == (
            update.x,
            update.y,
            update.width,
            update.height,
        ),
    ensures
        with_geometry(monitors, Some(update))[a].geometry() == with_geometry(
            monitors,
            Some(update),
        )[b].geometry(),
{
}

/// The last of several wishes counts: the last geometry that was typed and the
/// last monitor that was to become primary.
pub proof fn lemma_last_wish_counts(results: Seq<MonitorCardResult>, count: int, last: int)
    requires
        0 <= last < count <= results.len(),
    ensures
        results[last].make_primary && (forall|i: int|
            last < i < count ==> !(#[trigger] results[i]).make_primary) ==> wanted_primary(
            results,
            count,
        ) == Some(last),
        (forall|i: int| 0 <= i < count ==> !(#[trigger] results[i]).make_primary)
            ==> wanted_primary(results, count) is None,
        results[last].geometry_update is Some && (forall|i: int|
            last < i < count ==> (#[trigger] results[i]).geometry_update is None)
            ==> wanted_geometry(results, count) == results[last].geometry_update,
        (forall|i: int| 0 <= i < count ==> (#[trigger] results[i]).geometry_update is None)
            ==> wanted_geometry(results, count) is None,
    decreases count,
{
    if last < count - 1 {
        lemma_last_wish_counts(results, count - 1, last);
    } else if count > 1 {
        lemma_last_wish_counts(results, count - 1, count - 2);
    } else {
        assert(wanted_primary(results, 0) is None && wanted_geometry(results, 0) is None);
        assert(results[0] == results[last]);
    }
}

/// A geometry that was typed for a clone goes to the other clones of its group
/// as it was typed, and to no other monitor. One typed for a monitor that is no
/// clone goes nowhere else.
pub proof fn lemma_typed_geometry(
    monitors: Seq<MonitorView>,
    update: GeometryUpdate,
    at: int,
)
    requires
        0 <= at < monitors.len(),
    ensures
        ({
            let after = with_geometry(monitors, Some(update));
            let shares = update.clone_group is Some && monitors[at].clone_group
                == update.clone_group && at != update.source_index;
            &&& after.len() == monitors.len()
            &&& shares ==> after[at].x == update.x && after[at].y == update.y && after[at].width
                == update.width && after[at].height == update.height
            &&& !shares ==> after[at] == monitors[at]
            &&& after[at].enabled == monitors[at].enabled && after[at].identity
                == monitors[at].identity && after[at].clone_group == monitors[at].clone_group
                && after[at].rotation == monitors[at].rotation && after[at].refresh_hz
                == monitors[at].refresh_hz
        }),
        with_geometry(monitors, None) == monitors,
{
}

/// One pass of edits ends with the wanted monitor at the origin, after the
/// typed geometry has reached the clones; without a wish nothing moves.
pub proof fn lemma_edited_monitors(
    monitors: Seq<MonitorView>,
    results: Seq<MonitorCardResult>,
    primary: int,
)
    requires
        0 <= primary < results.len(),
        results.len() == monitors.len(),
    ensures
        results[primary].make_primary && (forall|i: int|
            primary < i < results.len() ==> !(#[trigger] results[i]).make_primary)
            ==> edited_monitors(monitors, results)[primary].x == 0 && edited_monitors(
            monitors,
            results,
        )[primary].y == 0,
        (forall|i: int|
            0 <= i < results.len() ==> !(#[trigger] results[i]).make_primary
                && results[i].geometry_update is None) ==> edited_monitors(monitors, results)
            == monitors,
{
    lemma_last_wish_counts(results, results.len() as int, primary);
}

/// An orientation is called by what it does to a picture, and the four differ.
pub proof fn lemma_rotation_names(rotation: i32)
    ensures
        rotation_name(1) == "Landscape (0°)"@,
        rotation_name(2) == "Portrait (90°)"@,
        rotation_name(3) == "Landscape flipped (180°)"@,
        rotation_name(4) == "Portrait flipped (270°)"@,
        rotation < 1 || rotation > 4 ==> rotation_name(rotation) == "Current / unknown"@,
{
}

fn share_geometry(monitors: &mut Vec<MonitorConfig>, update: GeometryUpdate)
    ensures
        order::views(final(monitors)@) == with_geometry(
            order::views(old(monitors)@),
            Some(update),
        ),
{
    let ghost before = order::views(monitors@);
    let ghost after = with_geometry(before, Some(update));
    let mut at: usize = 0;
    while at < monitors.len()
        invariant
            at <= monitors@.len(),
            monitors@.len() == before.len(),
            after == with_geometry(before, Some(update)),
            forall|i: int| 0 <= i < at ==> (#[trigger] monitors@[i])@ == after[i],
            forall|i: int| at <= i < before.len() ==> (#[trigger] monitors@[i])@ == before[i],
        decreases monitors@.len() - at,
    {
        let mut monitor = monitors[at].clone();
        assert(monitor@ == before[at as int]);
        if update.clone_group.is_some() && at != update.source_index && monitor.clone_group
            == update.clone_group {
            monitor.x = update.x;
            monitor.y = update.y;
            monitor.width = update.width;
            monitor.height = update.height;
        }
        assert(monitor@ == after[at as int]);
        monitors.set(at, monitor);
        at = at + 1;
    }
    proof {
        assert(order::views(monitors@) =~= after);
    }
}

/// Carries out the edits of one pass over the monitor list. Returns whether
/// the layout changed.
pub fn apply_edits(layout: &mut MonitorLayout, results: &Vec<MonitorCardResult>) -> (changed: bool)
    ensures
        final(layout)@ == (crate::model::LayoutView {
            monitors: edited_monitors(old(layout)@.monitors, results@),
            ..old(layout)@
        }),
        changed == (any_changed(results@, results@.len() as int) || (wanted_primary(
            results@,
            results@.len() as int,
        ) matches Some(primary) && primary < old(layout)@.monitors.len())),
{
    let ghost before = layout@.monitors;
    let mut changed = false;
    let mut primary: Option<usize> = None;
    let mut geometry: Option<GeometryUpdate> = None;
    let mut at: usize = 0;
    while at < results.len()
        invariant
            at <= results@.len(),
            changed == any_changed(results@, at as int),
            wanted_geometry(results@, at as int) == geometry,
            match primary {
                Some(index) => wanted_primary(results@, at as int) == Some(index as int),
                None => wanted_primary(results@, at as int) is None,
            },
        decreases results@.len() - at,
    {
        let result = results[at];
        if result.changed {
            changed = true;
            assert(results@[at as int].changed);
        }
        if result.make_primary {
            primary = Some(at);
        }
        if result.geometry_update.is_some() {
            geometry = result.geometry_update;
        }
        proof {
            assert(any_changed(results@, at + 1) <==> any_changed(results@, at as int)
                || results@[at as int].changed) by {
                if any_changed(results@, at as int) {
                    let i = choose|i: int| 0 <= i < at && (#[trigger] results@[i]).changed;
                    assert(results@[i].changed);
                }
            }
        }
        at = at + 1;
    }
    if let Some(update) = geometry {
        share_geometry(&mut layout.monitors, update);
    }
    if let Some(index) = primary {
        if index < layout.monitors.len() {
            make_primary(&mut layout.monitors, index);
            changed = true;
        }
    }
    changed
}

} // verus!
