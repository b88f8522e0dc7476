//! Snapping a dragged monitor to the edges and alignments of the others.
//!
//! Lengths are in half pixels, rounded as [`crate::singles`] describes.

use vstd::prelude::*;
use crate::arrangement::{display_size, drag_monitors, saturating_difference, saturating_sum};
use crate::arrangement;
use crate::model::{LayoutView, MonitorConfig, MonitorLayout, MonitorView};
use crate::order;
use crate::singles::{to_single, to_whole_pixel};
use crate::singles;

verus! {

/// Which parts of two monitors are brought to one height.
#[derive(Debug, Clone, Copy, PartialEq, Eq, Structural)]
pub enum HorizontalAlignment {
    Top,
    Middle,
    Bottom,
}

impl HorizontalAlignment {
    /// Its place among the alignments that are tried.
    pub open spec fn nth(index: int) -> HorizontalAlignment {
        if index == 0 {
            HorizontalAlignment::Top
        } else if index == 1 {
            HorizontalAlignment::Middle
        } else {
            HorizontalAlignment::Bottom
        }
    }

    /// What its guide is labelled with.
    pub open spec fn name(self) -> Seq<char> {
        match self {
            HorizontalAlignment::Top => "TOP"@,
            HorizontalAlignment::Middle => "MIDDLE"@,
            HorizontalAlignment::Bottom => "BOTTOM"@,
        }
    }

    /// How far below a monitor's top the aligned part is, in half pixels.
    pub open spec fn distance_down(self, height: u32) -> int {
        match self {
            HorizontalAlignment::Top => 0,
            HorizontalAlignment::Middle => singles::single(height as int),
            HorizontalAlignment::Bottom => singles::single(2 * height),
        }
    }

    /// What its guide is labelled with.
    pub fn label(self) -> (r: &'static str)
        ensures
            r@ == self.name(),
    {
        match self {
            HorizontalAlignment::Top => "TOP",
            HorizontalAlignment::Middle => "MIDDLE",
            HorizontalAlignment::Bottom => "BOTTOM",
        }
    }

    /// How far below a monitor's top the aligned part is, in half pixels.
    pub fn offset(self, height: u32) -> (r: i64)
        ensures
            r == self.distance_down(height),
            0 <= r <= 4 * height,
    {
        match self {
            HorizontalAlignment::Top => 0,
            HorizontalAlignment::Middle => to_single(height as i64),
            HorizontalAlignment::Bottom => to_single(2 * height as i64),
        }
    }

    fn of_index(index: usize) -> (r: HorizontalAlignment)
        ensures
            r == HorizontalAlignment::nth(index as int),
    {
        if index == 0 {
            HorizontalAlignment::Top
        } else if index == 1 {
            HorizontalAlignment::Middle
        } else {
            HorizontalAlignment::Bottom
        }
    }
}

/// A line that shows what a monitor snapped to. It lies at `at` across or down
/// the desktop and spans `from` to `to` in the other direction, all in half
/// pixels.
#[derive(Debug, Clone, Copy)]
pub struct SnapGuide {
    pub horizontal: bool,
    pub at: i64,
    pub from: i64,
    pub to: i64,
    pub label: &'static str,
}

/// The contents of a [`SnapGuide`].
#[verifier::ext_equal]
pub struct GuideView {
    pub horizontal: bool,
    pub at: int,
    pub from: int,
    pub to: int,
    pub label: Seq<char>,
}

impl View for SnapGuide {
    type V = GuideView;

    open spec fn view(&self) -> GuideView {
        GuideView {
            horizontal: self.horizontal,
            at: self.at as int,
            from: self.from as int,
            to: self.to as int,
            label: self.label@,
        }
    }
}

/// Where a dragged monitor goes, and what it snapped to.
#[derive(Debug)]
pub struct SnapResult {
    pub x: i32,
    pub y: i32,
    pub guides: Vec<SnapGuide>,
}

/// A place that a monitor can snap to: how far away it is, the coordinate that
/// brings the monitor there, the monitor that it snaps to, the part of it, and
/// the line that both have in common.
#[derive(Debug, Clone, Copy, PartialEq, Eq, Structural)]
pub struct Snap {
    pub distance: i64,
    pub position: i32,
    pub target: usize,
    pub part: usize,
    pub line: i64,
}

/// The length of a number.
pub open spec fn magnitude(value: int) -> int {
    if value < 0 {
        -value
    } else {
        value
    }
}

/// Whether a monitor can be snapped to.
pub open spec fn is_target(monitors: Seq<MonitorView>, moving: int, at: int) -> bool {
    &&& at != moving
    &&& monitors[at].enabled
    &&& !(monitors[moving].clone_group is Some && monitors[moving].clone_group
        == monitors[at].clone_group)
}

/// The height of the aligned part of a monitor whose top is at `y`.
pub open spec fn anchor(y: i32, height: u32, alignment: HorizontalAlignment) -> int {
    singles::single(singles::single(2 * y) + alignment.distance_down(height))
}

/// Bringing one part of the moving monitor to the height of the same part of
/// monitor `at`.
pub open spec fn alignment_snap(
    monitors: Seq<MonitorView>,
    moving: int,
    raw_y: i32,
    at: int,
    part: int,
) -> Snap {
    let alignment = HorizontalAlignment::nth(part);
    let height = monitors[moving].display_size().1;
    let line = anchor(monitors[at].y, monitors[at].display_size().1, alignment);
    Snap {
        distance: magnitude(
            singles::single(anchor(raw_y, height, alignment) - line),
        ) as i64,
        position: singles::whole_pixel(
            singles::single(line - alignment.distance_down(height)),
        ),
        target: at as usize,
        part: part as usize,
        line: line as i64,
    }
}

/// The left and the right edge of a monitor whose left edge is at `x`.
pub open spec fn edge(x: i32, width: u32, right: bool) -> int {
    if right {
        singles::single(singles::single(2 * x) + singles::single(2 * width))
    } else {
        singles::single(2 * x)
    }
}

/// Bringing the moving monitor's left edge to the right edge of monitor `at`
/// (part 0), or its right edge to the left edge (part 1).
pub open spec fn edge_snap(
    monitors: Seq<MonitorView>,
    moving: int,
    raw_x: i32,
    at: int,
    part: int,
) -> Snap {
    let moving_edge = edge(raw_x, monitors[moving].display_size().0, part == 1);
    let line = edge(monitors[at].x, monitors[at].display_size().0, part == 0);
    Snap {
        distance: magnitude(singles::single(moving_edge - line)) as i64,
        position: singles::whole_pixel(
            singles::single(
                singles::single(singles::single(2 * raw_x) + line) - moving_edge,
            ),
        ),
        target: at as usize,
        part: part as usize,
        line: line as i64,
    }
}

/// The nearer of two snaps, the earlier one where they are equally near; one
/// that is out of reach does not count.
pub open spec fn nearer(best: Option<Snap>, next: Snap, reach: int) -> Option<Snap> {
    if next.distance <= reach && (best matches Some(snap) ==> next.distance < snap.distance) {
        Some(next)
    } else {
        best
    }
}

/// The best alignment after the first `parts` parts of monitor `at` were
/// compared, given the best so far.
pub open spec fn aligned_to(
    monitors: Seq<MonitorView>,
    moving: int,
    raw_y: i32,
    reach: int,
    best: Option<Snap>,
    at: int,
    parts: int,
) -> Option<Snap>
    decreases parts,
{
    if parts <= 0 {
        best
    } else {
        nearer(
            aligned_to(monitors, moving, raw_y, reach, best, at, parts - 1),
            alignment_snap(monitors, moving, raw_y, at, parts - 1),
            reach,
        )
    }
}

/// The best alignment with any of the first `count` monitors.
pub open spec fn best_alignment(
    monitors: Seq<MonitorView>,
    moving: int,
    raw_y: i32,
    reach: int,
    count: int,
) -> Option<Snap>
    decreases count,
{
    if count <= 0 {
        None
    } else {
        let best = best_alignment(monitors, moving, raw_y, reach, count - 1);
        if is_target(monitors, moving, count - 1) {
            aligned_to(monitors, moving, raw_y, reach, best, count - 1, 3)
        } else {
            best
        }
    }
}

/// The best edge after the first `parts` pairs of edges with monitor `at` were
/// compared, given the best so far.
pub open spec fn edged_to(
    monitors: Seq<MonitorView>,
    moving: int,
    raw_x: i32,
    reach: int,
    best: Option<Snap>,
    at: int,
    parts: int,
) -> Option<Snap>
    decreases parts,
{
    if parts <= 0 {
        best
    } else {
        nearer(
            edged_to(monitors, moving, raw_x, reach, best, at, parts - 1),
            edge_snap(monitors, moving, raw_x, at, parts - 1),
            reach,
        )
    }
}

/// The best edge of any of the first `count` monitors.
pub open spec fn best_edge(
    monitors: Seq<MonitorView>,
    moving: int,
    raw_x: i32,
    reach: int,
    count: int,
) -> Option<Snap>
    decreases count,
{
    if count <= 0 {
        None
    } else {
        let best = best_edge(monitors, moving, raw_x, reach, count - 1);
        if is_target(monitors, moving, count - 1) {
            edged_to(monitors, moving, raw_x, reach, best, count - 1, 2)
        } else {
            best
        }
    }
}

/// The smaller of two numbers.
pub open spec fn smaller(a: int, b: int) -> int {
    if a < b {
        a
    } else {
        b
    }
}

/// The larger of two numbers.
pub open spec fn larger(a: int, b: int) -> int {
    if a > b {
        a
    } else {
        b
    }
}

/// The guide along an alignment, as wide as both monitors together.
pub open spec fn alignment_guide(
    monitors: Seq<MonitorView>,
    moving: int,
    x: i32,
    snap: Snap,
) -> GuideView {
    let target = monitors[snap.target as int];
    GuideView {
        horizontal: true,
        at: snap.line as int,
        from: smaller(singles::single(2 * x), singles::single(2 * target.x)),
        to: larger(
            edge(x, monitors[moving].display_size().0, true),
            edge(target.x, target.display_size().0, true),
        ),
        label: HorizontalAlignment::nth(snap.part as int).name(),
    }
}

/// The guide along an edge, as high as both monitors together.
pub open spec fn edge_guide(
    monitors: Seq<MonitorView>,
    moving: int,
    y: i32,
    snap: Snap,
) -> GuideView {
    let target = monitors[snap.target as int];
    GuideView {
        horizontal: false,
        at: snap.line as int,
        from: smaller(singles::single(2 * y), singles::single(2 * target.y)),
        to: larger(
            edge(y, monitors[moving].display_size().1, true),
            edge(target.y, target.display_size().1, true),
        ),
        label: "EDGE"@,
    }
}

/// Where a monitor goes that was dragged to a place, within `reach` of what
/// it can snap to. A monitor that is off does not snap.
pub open spec fn snapped_x(
    monitors: Seq<MonitorView>,
    moving: int,
    raw_x: i32,
    reach: int,
) -> i32 {
    if !monitors[moving].enabled {
        raw_x
    } else {
        match best_edge(monitors, moving, raw_x, reach, monitors.len() as int) {
            Some(snap) => snap.position,
            None => raw_x,
        }
    }
}

/// The same for the vertical coordinate.
pub open spec fn snapped_y(
    monitors: Seq<MonitorView>,
    moving: int,
    raw_y: i32,
    reach: int,
) -> i32 {
    if !monitors[moving].enabled {
        raw_y
    } else {
        match best_alignment(monitors, moving, raw_y, reach, monitors.len() as int) {
            Some(snap) => snap.position,
            None => raw_y,
        }
    }
}

/// The guides of a snap: one for the alignment, one for the edge, where there
/// are such.
pub open spec fn snap_guides(
    monitors: Seq<MonitorView>,
    moving: int,
    raw_x: i32,
    raw_y: i32,
    reach: int,
) -> Seq<GuideView> {
    if !monitors[moving].enabled {
        Seq::empty()
    } else {
        let along = best_alignment(monitors, moving, raw_y, reach, monitors.len() as int);
        let beside = best_edge(monitors, moving, raw_x, reach, monitors.len() as int);
        let first = match along {
            Some(snap) => seq![
                alignment_guide(
                    monitors,
                    moving,
                    snapped_x(monitors, moving, raw_x, reach),
                    snap,
                ),
            ],
            None => Seq::empty(),
        };
        match beside {
            Some(snap) => first.push(
                edge_guide(monitors, moving, snapped_y(monitors, moving, raw_y, reach), snap),
            ),
            None => first,
        }
    }
}

// ---------------------------------------------------------------------------
// What holds of snapping
// ---------------------------------------------------------------------------

proof fn lemma_best_alignment(
    monitors: Seq<MonitorView>,
    moving: int,
    raw_y: i32,
    reach: int,
    count: int,
)
    requires
        0 <= count <= monitors.len(),
    ensures
        ({
            let best = best_alignment(monitors, moving, raw_y, reach, count);
            &&& best matches Some(snap) ==> snap.distance <= reach
            &&& forall|at: int, part: int|
                0 <= at < count && 0 <= part < 3 && is_target(monitors, moving, at) && (
                #[trigger] alignment_snap(monitors, moving, raw_y, at, part)).distance <= reach
                    ==> (best matches Some(snap) && snap.distance <= alignment_snap(
                    monitors,
                    moving,
                    raw_y,
                    at,
                    part,
                ).distance)
        }),
    decreases count,
{
    if count > 0 {
        lemma_best_alignment(monitors, moving, raw_y, reach, count - 1);
        reveal_with_fuel(aligned_to, 4);
        let at = count - 1;
        let best = best_alignment(monitors, moving, raw_y, reach, count - 1);
        let first = alignment_snap(monitors, moving, raw_y, at, 0);
        let second = alignment_snap(monitors, moving, raw_y, at, 1);
        let third = alignment_snap(monitors, moving, raw_y, at, 2);
        assert forall|a: int, part: int|
            0 <= a < count && 0 <= part < 3 && is_target(monitors, moving, a) && (
            #[trigger] alignment_snap(monitors, moving, raw_y, a, part)).distance
                <= reach implies (best_alignment(
            monitors,
            moving,
            raw_y,
            reach,
            count,
        ) matches Some(snap) && snap.distance <= alignment_snap(
            monitors,
            moving,
            raw_y,
            a,
            part,
        ).distance) by {
            if a == at {
                assert(part == 0 || part == 1 || part == 2);
            }
        }
    }
}

/// A monitor snaps to the nearest height that is within reach, and stays where
/// it was dragged where none is.
pub proof fn lemma_nearest_alignment(
    monitors: Seq<MonitorView>,
    moving: int,
    raw_y: i32,
    reach: int,
)
    requires
        0 <= moving < monitors.len(),
        monitors[moving].enabled,
    ensures
        ({
            let best = best_alignment(monitors, moving, raw_y, reach, monitors.len() as int);
            &&& best matches Some(snap) ==> snap.distance <= reach
            &&& forall|at: int, part: int|
                0 <= at < monitors.len() && 0 <= part < 3 && is_target(monitors, moving, at) && (
                #[trigger] alignment_snap(monitors, moving, raw_y, at, part)).distance <= reach
                    ==> (best matches Some(snap) && snap.distance <= alignment_snap(
                    monitors,
                    moving,
                    raw_y,
                    at,
                    part,
                ).distance)
            &&& best is None ==> snapped_y(monitors, moving, raw_y, reach) == raw_y
        }),
{
    lemma_best_alignment(monitors, moving, raw_y, reach, monitors.len() as int);
}

proof fn lemma_best_edge(
    monitors: Seq<MonitorView>,
    moving: int,
    raw_x: i32,
    reach: int,
    count: int,
)
    requires
        0 <= count <= monitors.len(),
    ensures
        ({
            let best = best_edge(monitors, moving, raw_x, reach, count);
            &&& best matches Some(snap) ==> snap.distance <= reach
            &&& forall|at: int, part: int|
                0 <= at < count && 0 <= part < 2 && is_target(monitors, moving, at) && (
                #[trigger] edge_snap(monitors, moving, raw_x, at, part)).distance <= reach ==> (
                best matches Some(snap) && snap.distance <= edge_snap(
                    monitors,
                    moving,
                    raw_x,
                    at,
                    part,
                ).distance)
        }),
    decreases count,
{
    if count > 0 {
        lemma_best_edge(monitors, moving, raw_x, reach, count - 1);
        reveal_with_fuel(edged_to, 3);
        let at = count - 1;
        let first = edge_snap(monitors, moving, raw_x, at, 0);
        let second = edge_snap(monitors, moving, raw_x, at, 1);
        assert forall|a: int, part: int|
            0 <= a < count && 0 <= part < 2 && is_target(monitors, moving, a) && (
            #[trigger] edge_snap(monitors, moving, raw_x, a, part)).distance <= reach implies (
        best_edge(monitors, moving, raw_x, reach, count) matches Some(snap) && snap.distance
            <= edge_snap(monitors, moving, raw_x, a, part).distance) by {
            if a == at {
                assert(part == 0 || part == 1);
            }
        }
    }
}

/// A monitor snaps to the nearest edge that is within reach, and stays where
/// it was dragged where none is.
pub proof fn lemma_nearest_edge(
    monitors: Seq<MonitorView>,
    moving: int,
    raw_x: i32,
    reach: int,
)
    requires
        0 <= moving < monitors.len(),
        monitors[moving].enabled,
    ensures
        ({
            let best = best_edge(monitors, moving, raw_x, reach, monitors.len() as int);
            &&& best matches Some(snap) ==> snap.distance <= reach
            &&& forall|at: int, part: int|
                0 <= at < monitors.len() && 0 <= part < 2 && is_target(monitors, moving, at) && (
                #[trigger] edge_snap(monitors, moving, raw_x, at, part)).distance <= reach ==> (
                best matches Some(snap) && snap.distance <= edge_snap(
                    monitors,
                    moving,
                    raw_x,
                    at,
                    part,
                ).distance)
            &&& best is None ==> snapped_x(monitors, moving, raw_x, reach) == raw_x
        }),
{
    lemma_best_edge(monitors, moving, raw_x, reach, monitors.len() as int);
}

/// Whether no sum that leads to a snap to monitor `at` is rounded.
pub open spec fn is_unrounded(
    monitors: Seq<MonitorView>,
    moving: int,
    raw_x: i32,
    at: int,
) -> bool {
    let (width, height) = monitors[moving].display_size();
    let target = monitors[at];
    let (target_width, target_height) = target.display_size();
    &&& singles::is_single(2 * raw_x)
    &&& singles::is_single(2 * raw_x + 2 * width)
    &&& singles::is_single(2 * width)
    &&& singles::is_single(height as int)
    &&& singles::is_single(2 * height)
    &&& singles::is_single(2 * target.x)
    &&& singles::is_single(2 * target.y)
    &&& singles::is_single(2 * target_width)
    &&& singles::is_single(target_height as int)
    &&& singles::is_single(2 * target_height)
    &&& singles::is_single(2 * target.x + 2 * target_width)
    &&& singles::is_single(2 * target.y + target_height)
    &&& singles::is_single(2 * target.y + 2 * target_height)
    &&& singles::is_single(2 * target.y + target_height - height)
    &&& singles::is_single(2 * target.y + 2 * target_height - 2 * height)
    &&& singles::is_single(2 * raw_x + 2 * target.x)
    &&& singles::is_single(2 * raw_x + 2 * target.x + 2 * target_width)
    &&& singles::is_single(2 * target.x - 2 * width)
    &&& i32::MIN <= target.y + target_height - height <= i32::MAX
    &&& i32::MIN <= target.x + target_width <= i32::MAX
    &&& i32::MIN <= target.x - width <= i32::MAX
}

/// Where nothing is rounded, an aligned part ends up at exactly the height of
/// its target, up to half a pixel for middles, and edges meet exactly.
pub proof fn lemma_snaps_are_exact(
    monitors: Seq<MonitorView>,
    moving: int,
    raw_x: i32,
    raw_y: i32,
    at: int,
)
    requires
        0 <= moving < monitors.len(),
        0 <= at < monitors.len(),
        is_unrounded(monitors, moving, raw_x, at),
    ensures
        ({
            let (width, height) = monitors[moving].display_size();
            let target = monitors[at];
            let (target_width, target_height) = target.display_size();
            &&& alignment_snap(monitors, moving, raw_y, at, 0).position == target.y
            &&& alignment_snap(monitors, moving, raw_y, at, 2).position + height == target.y
                + target_height
            &&& magnitude(
                2 * alignment_snap(monitors, moving, raw_y, at, 1).position + height - (2
                    * target.y + target_height),
            ) <= 1
            &&& edge_snap(monitors, moving, raw_x, at, 0).position == target.x + target_width
            &&& edge_snap(monitors, moving, raw_x, at, 1).position + width == target.x
        }),
{
    let (width, height) = monitors[moving].display_size();
    let target = monitors[at];
    let (target_width, target_height) = target.display_size();
    assert(2 * raw_x + (2 * target.x + 2 * target_width) == 2 * raw_x + 2 * target.x + 2
        * target_width);
    assert(2 * raw_x + 2 * target.x - (2 * raw_x + 2 * width) == 2 * target.x - 2 * width);
}

/// Nothing is rounded as long as no coordinate and no size goes beyond some
/// 2.8 million pixels.
pub proof fn lemma_ordinary_desktop(
    monitors: Seq<MonitorView>,
    moving: int,
    raw_x: i32,
    at: int,
)
    requires
        0 <= moving < monitors.len(),
        0 <= at < monitors.len(),
        -2_796_202 <= raw_x <= 2_796_202,
        -2_796_202 <= monitors[at].x <= 2_796_202,
        -2_796_202 <= monitors[at].y <= 2_796_202,
        monitors[at].width <= 2_796_202,
        monitors[at].height <= 2_796_202,
        monitors[moving].width <= 2_796_202,
        monitors[moving].height <= 2_796_202,
    ensures
        is_unrounded(monitors, moving, raw_x, at),
{
    let (width, height) = monitors[moving].display_size();
    let target = monitors[at];
    let (target_width, target_height) = target.display_size();
    singles::lemma_small_is_exact(2 * raw_x);
    singles::lemma_small_is_exact(2 * raw_x + 2 * width);
    singles::lemma_small_is_exact(2 * width);
    singles::lemma_small_is_exact(height as int);
    singles::lemma_small_is_exact(2 * height);
    singles::lemma_small_is_exact(2 * target.x);
    singles::lemma_small_is_exact(2 * target.y);
    singles::lemma_small_is_exact(2 * target_width);
    singles::lemma_small_is_exact(target_height as int);
    singles::lemma_small_is_exact(2 * target_height);
    singles::lemma_small_is_exact(2 * target.x + 2 * target_width);
    singles::lemma_small_is_exact(2 * target.y + target_height);
    singles::lemma_small_is_exact(2 * target.y + 2 * target_height);
    singles::lemma_small_is_exact(2 * target.y + target_height - height);
    singles::lemma_small_is_exact(2 * target.y + 2 * target_height - 2 * height);
    singles::lemma_small_is_exact(2 * raw_x + 2 * target.x);
    singles::lemma_small_is_exact(2 * raw_x + 2 * target.x + 2 * target_width);
    singles::lemma_small_is_exact(2 * target.x - 2 * width);
}

proof fn lemma_edge_choice(
    monitors: Seq<MonitorView>,
    moving: int,
    raw_x: i32,
    reach: int,
    count: int,
) -> (choice: Option<(int, int)>)
    requires
        0 <= count <= monitors.len(),
    ensures
        choice is None ==> best_edge(monitors, moving, raw_x, reach, count) is None,
        choice is None ==> forall|a: int, p: int|
            0 <= a < count && 0 <= p < 2 && is_target(monitors, moving, a) ==> (
            #[trigger] edge_snap(monitors, moving, raw_x, a, p)).distance > reach,
        choice matches Some((at, part)) ==> {
            let best = edge_snap(monitors, moving, raw_x, at, part);
            &&& 0 <= at < count && 0 <= part < 2 && is_target(monitors, moving, at)
            &&& best_edge(monitors, moving, raw_x, reach, count) == Some(best)
            &&& best.distance <= reach
            &&& forall|a: int, p: int|
                0 <= a < count && 0 <= p < 2 && is_target(monitors, moving, a) ==> {
                    &&& (#[trigger] edge_snap(monitors, moving, raw_x, a, p)).distance
                        >= best.distance
                    &&& a < at || (a == at && p < part) ==> edge_snap(
                        monitors,
                        moving,
                        raw_x,
                        a,
                        p,
                    ).distance > best.distance
                }
        },
    decreases count,
{
    if count <= 0 {
        None
    } else {
        let at = count - 1;
        let before = lemma_edge_choice(monitors, moving, raw_x, reach, at);
        if is_target(monitors, moving, at) {
            reveal_with_fuel(edged_to, 3);
            let best = best_edge(monitors, moving, raw_x, reach, at);
            let after = best_edge(monitors, moving, raw_x, reach, count);
            let s0 = edge_snap(monitors, moving, raw_x, at, 0);
            let s1 = edge_snap(monitors, moving, raw_x, at, 1);
            let b1 = nearer(best, s0, reach);
            let b2 = nearer(b1, s1, reach);
            assert(after == b2);
            assert forall|a: int, p: int|
                0 <= a < count && 0 <= p < 2 && is_target(monitors, moving, a) implies (a < at
                || #[trigger] edge_snap(monitors, moving, raw_x, a, p) == s0 && p == 0 || edge_snap(monitors, moving, raw_x, a, p) == s1 && p == 1) by {}
            if b2 == Some(s1) && b2 != b1 {
                Some((at, 1))
            } else if b1 == Some(s0) && b1 != best {
                Some((at, 0))
            } else {
                before
            }
        } else {
            before
        }
    }
}

proof fn lemma_alignment_choice(
    monitors: Seq<MonitorView>,
    moving: int,
    raw_y: i32,
    reach: int,
    count: int,
) -> (choice: Option<(int, int)>)
    requires
        0 <= count <= monitors.len(),
    ensures
        choice is None ==> best_alignment(monitors, moving, raw_y, reach, count) is None,
        choice is None ==> forall|a: int, p: int|
            0 <= a < count && 0 <= p < 3 && is_target(monitors, moving, a) ==> (
            #[trigger] alignment_snap(monitors, moving, raw_y, a, p)).distance > reach,
        choice matches Some((at, part)) ==> {
            let best = alignment_snap(monitors, moving, raw_y, at, part);
            &&& 0 <= at < count && 0 <= part < 3 && is_target(monitors, moving, at)
            &&& best_alignment(monitors, moving, raw_y, reach, count) == Some(best)
            &&& best.distance <= reach
            &&& forall|a: int, p: int|
                0 <= a < count && 0 <= p < 3 && is_target(monitors, moving, a) ==> {
                    &&& (#[trigger] alignment_snap(monitors, moving, raw_y, a, p)).distance
                        >= best.distance
                    &&& a < at || (a == at && p < part) ==> alignment_snap(
                        monitors,
                        moving,
                        raw_y,
                        a,
                        p,
                    ).distance > best.distance
                }
        },
    decreases count,
{
    if count <= 0 {
        None
    } else {
        let at = count - 1;
        let before = lemma_alignment_choice(monitors, moving, raw_y, reach, at);
        if is_target(monitors, moving, at) {
            reveal_with_fuel(aligned_to, 4);
            let best = best_alignment(monitors, moving, raw_y, reach, at);
            let after = best_alignment(monitors, moving, raw_y, reach, count);
            let s0 = alignment_snap(monitors, moving, raw_y, at, 0);
            let s1 = alignment_snap(monitors, moving, raw_y, at, 1);
            let s2 = alignment_snap(monitors, moving, raw_y, at, 2);
            let b1 = nearer(best, s0, reach);
            let b2 = nearer(b1, s1, reach);
            let b3 = nearer(b2, s2, reach);
            assert(after == b3);
            assert forall|a: int, p: int|
                0 <= a < count && 0 <= p < 3 && is_target(monitors, moving, a) implies (a < at
                || #[trigger] alignment_snap(monitors, moving, raw_y, a, p) == s0 && p == 0 || alignment_snap(monitors, moving, raw_y, a, p) == s1 && p == 1 || alignment_snap(monitors, moving, raw_y, a, p) == s2 && p == 2) by {}
            if b3 == Some(s2) && b3 != b2 {
                Some((at, 2))
            } else if b2 == Some(s1) && b2 != b1 {
                Some((at, 1))
            } else if b1 == Some(s0) && b1 != best {
                Some((at, 0))
            } else {
                before
            }
        } else {
            before
        }
    }
}

/// The width of a monitor on the desktop; one that is turned by a quarter is as
/// wide as it was high.
pub open spec fn shown_width(monitor: MonitorView) -> int {
    if monitor.rotation == Some(2i32) || monitor.rotation == Some(4i32) {
        monitor.height as int
    } else {
        monitor.width as int
    }
}

/// The height of a monitor on the desktop.
pub open spec fn shown_height(monitor: MonitorView) -> int {
    if monitor.rotation == Some(2i32) || monitor.rotation == Some(4i32) {
        monitor.width as int
    } else {
        monitor.height as int
    }
}

/// Whether a coordinate is within some 2.8 million pixels, as far as
/// single-precision numbers hold half pixels and the sums of a few of them.
pub open spec fn is_near(coordinate: int) -> bool {
    -2_796_202 <= coordinate <= 2_796_202
}

/// Whether a monitor's place and size are within those bounds.
pub open spec fn is_ordinary(monitor: MonitorView) -> bool {
    is_near(monitor.x as int) && is_near(monitor.y as int) && is_near(monitor.width as int)
        && is_near(monitor.height as int)
}

/// Whether `other` is a monitor beside which a moving one can be put: another
/// one that is on and no clone of it.
pub open spec fn stands_by(moving: MonitorView, other: MonitorView) -> bool {
    other.enabled && (moving.clone_group is None || moving.clone_group != other.clone_group)
}

/// Where a monitor's left edge is when it touches another: to the right of it
/// (part 0) or to the left of it (part 1).
pub open spec fn touching_x(moving: MonitorView, other: MonitorView, part: int) -> int {
    if part == 0 {
        other.x + shown_width(other)
    } else {
        other.x - shown_width(moving)
    }
}

/// How far down a part of a monitor is whose top is at `y`, in half pixels: its
/// top (part 0), its middle (part 1) or its bottom (part 2).
pub open spec fn part_height(monitor: MonitorView, y: int, part: int) -> int {
    2 * y + part * shown_height(monitor)
}

/// A dragged monitor that is on goes to the nearest place at which it touches
/// another one, where that is within reach, and otherwise stays where it was
/// dragged. Of places that are equally near, it takes the first monitor's, and
/// of that the one on its right.
pub proof fn lemma_snaps_to_the_nearest_edge(
    monitors: Seq<MonitorView>,
    moving: int,
    raw_x: i32,
    reach: int,
) -> (choice: Option<(int, int)>)
    requires
        0 <= moving < monitors.len(),
        monitors[moving].enabled,
        forall|i: int| 0 <= i < monitors.len() ==> is_ordinary(#[trigger] monitors[i]),
        is_near(raw_x as int),
    ensures
        choice is None ==> snapped_x(monitors, moving, raw_x, reach) == raw_x,
        choice is None ==> forall|a: int, p: int|
            0 <= a < monitors.len() && a != moving && 0 <= p < 2 && stands_by(
                monitors[moving],
                monitors[a],
            ) ==> 2 * magnitude(
                #[trigger] touching_x(monitors[moving], monitors[a], p) - raw_x,
            ) > reach,
        choice matches Some((at, part)) ==> {
            let x = snapped_x(monitors, moving, raw_x, reach);
            &&& 0 <= at < monitors.len() && at != moving && 0 <= part < 2
            &&& stands_by(monitors[moving], monitors[at])
            &&& x == touching_x(monitors[moving], monitors[at], part)
            &&& 2 * magnitude(x - raw_x) <= reach
            &&& forall|a: int, p: int|
                0 <= a < monitors.len() && a != moving && 0 <= p < 2 && stands_by(
                    monitors[moving],
                    monitors[a],
                ) ==> {
                    let away = magnitude(
                        #[trigger] touching_x(monitors[moving], monitors[a], p) - raw_x,
                    );
                    &&& magnitude(x - raw_x) <= away
                    &&& a < at || (a == at && p < part) ==> magnitude(x - raw_x) < away
                }
        },
{
    let choice = lemma_edge_choice(monitors, moving, raw_x, reach, monitors.len() as int);
    assert forall|a: int, p: int|
        0 <= a < monitors.len() && 0 <= p < 2 implies (#[trigger] edge_snap(
        monitors,
        moving,
        raw_x,
        a,
        p,
    )).position == touching_x(monitors[moving], monitors[a], p) && edge_snap(
        monitors,
        moving,
        raw_x,
        a,
        p,
    ).distance == 2 * magnitude(touching_x(monitors[moving], monitors[a], p) - raw_x) by {
        lemma_edge_snap_is_exact(monitors, moving, raw_x, a, p);
    }
    assert forall|a: int, p: int|
        0 <= a < monitors.len() && a != moving && 0 <= p < 2 && stands_by(
            monitors[moving],
            monitors[a],
        ) implies edge_snap(monitors, moving, raw_x, a, p).distance == 2 * magnitude(
        #[trigger] touching_x(monitors[moving], monitors[a], p) - raw_x,
    ) && is_target(monitors, moving, a) by {
        lemma_edge_snap_is_exact(monitors, moving, raw_x, a, p);
    }
    choice
}

/// How far away a place beside another monitor counts as, in half pixels, is
/// how far the monitor would be moved.
pub proof fn lemma_edge_snap_is_exact(
    monitors: Seq<MonitorView>,
    moving: int,
    raw_x: i32,
    at: int,
    part: int,
)
    requires
        0 <= moving < monitors.len(),
        0 <= at < monitors.len(),
        0 <= part < 2,
        is_ordinary(monitors[moving]),
        is_ordinary(monitors[at]),
        is_near(raw_x as int),
    ensures
        ({
            let snap = edge_snap(monitors, moving, raw_x, at, part);
            &&& snap.position == touching_x(monitors[moving], monitors[at], part)
            &&& snap.distance == 2 * magnitude(snap.position - raw_x)
            &&& snap.line == if part == 0 {
                2 * snap.position
            } else {
                2 * (snap.position + shown_width(monitors[moving]))
            }
        }),
{
    let width = shown_width(monitors[moving]);
    let target = monitors[at];
    let target_width = shown_width(target);
    assert(monitors[moving].display_size().0 == width);
    assert(target.display_size().0 == target_width);
    singles::lemma_small_is_exact(2 * raw_x);
    singles::lemma_small_is_exact(2 * width);
    singles::lemma_small_is_exact(2 * raw_x + 2 * width);
    singles::lemma_small_is_exact(2 * target.x);
    singles::lemma_small_is_exact(2 * target_width);
    singles::lemma_small_is_exact(2 * target.x + 2 * target_width);
    if part == 0 {
        let line = 2 * target.x + 2 * target_width;
        singles::lemma_small_is_exact(2 * raw_x - line);
        singles::lemma_small_is_exact(2 * raw_x + line);
        singles::lemma_small_is_exact(2 * raw_x + line - 2 * raw_x);
    } else {
        let line = 2 * target.x;
        singles::lemma_small_is_exact(2 * raw_x + 2 * width - line);
        singles::lemma_small_is_exact(2 * raw_x + line);
        singles::lemma_small_is_exact(2 * raw_x + line - (2 * raw_x + 2 * width));
    }
}

/// How far away a height counts as, in half pixels, is how far apart the two
/// parts are; the tops or bottoms of both are then level, and so are the
/// middles, up to half a pixel, which goes away from the origin.
pub proof fn lemma_alignment_snap_is_exact(
    monitors: Seq<MonitorView>,
    moving: int,
    raw_y: i32,
    at: int,
    part: int,
)
    requires
        0 <= moving < monitors.len(),
        0 <= at < monitors.len(),
        0 <= part < 3,
        is_ordinary(monitors[moving]),
        is_ordinary(monitors[at]),
        is_near(raw_y as int),
    ensures
        ({
            let snap = alignment_snap(monitors, moving, raw_y, at, part);
            let line = part_height(monitors[at], monitors[at].y as int, part);
            let off = part_height(monitors[moving], snap.position as int, part) - line;
            &&& snap.line == line
            &&& snap.distance == magnitude(
                part_height(monitors[moving], raw_y as int, part) - line,
            )
            &&& part != 1 ==> off == 0
            &&& -1 <= off <= 1
            &&& off == 1 ==> snap.position > 0
            &&& off == -1 ==> snap.position < 0
        }),
{
    let height = shown_height(monitors[moving]);
    let target = monitors[at];
    let target_height = shown_height(target);
    assert(monitors[moving].display_size().1 == height);
    assert(target.display_size().1 == target_height);
    singles::lemma_small_is_exact(2 * raw_y);
    singles::lemma_small_is_exact(2 * target.y);
    singles::lemma_small_is_exact(height);
    singles::lemma_small_is_exact(2 * height);
    singles::lemma_small_is_exact(target_height);
    singles::lemma_small_is_exact(2 * target_height);
    assert(part * height == if part == 0 { 0 } else if part == 1 { height } else { 2 * height })
        by (nonlinear_arith)
        requires
            0 <= part < 3,
    ;
    assert(part * target_height == if part == 0 { 0 } else if part == 1 { target_height } else {
        2 * target_height
    }) by (nonlinear_arith)
        requires
            0 <= part < 3,
    ;
    let line = 2 * target.y + part * target_height;
    singles::lemma_small_is_exact(2 * raw_y + part * height);
    singles::lemma_small_is_exact(line);
    singles::lemma_small_is_exact(2 * raw_y + part * height - line);
    singles::lemma_small_is_exact(line - part * height);
}

/// A dragged monitor that is on goes to the nearest height at which its top,
/// middle or bottom is level with that of another one, where that is within
/// reach, and otherwise stays where it was dragged. Of heights that are equally
/// near, it takes the first monitor's, and of those the uppermost part's.
pub proof fn lemma_snaps_to_the_nearest_height(
    monitors: Seq<MonitorView>,
    moving: int,
    raw_y: i32,
    reach: int,
) -> (choice: Option<(int, int)>)
    requires
        0 <= moving < monitors.len(),
        monitors[moving].enabled,
        forall|i: int| 0 <= i < monitors.len() ==> is_ordinary(#[trigger] monitors[i]),
        is_near(raw_y as int),
    ensures
        choice is None ==> snapped_y(monitors, moving, raw_y, reach) == raw_y,
        choice is None ==> forall|a: int, p: int|
            0 <= a < monitors.len() && a != moving && 0 <= p < 3 && stands_by(
                monitors[moving],
                monitors[a],
            ) ==> magnitude(
                part_height(monitors[moving], raw_y as int, p) - #[trigger] part_height(
                    monitors[a],
                    monitors[a].y as int,
                    p,
                ),
            ) > reach,
        choice matches Some((at, part)) ==> {
            let y = snapped_y(monitors, moving, raw_y, reach);
            let line = part_height(monitors[at], monitors[at].y as int, part);
            let away = magnitude(part_height(monitors[moving], raw_y as int, part) - line);
            let off = part_height(monitors[moving], y as int, part) - line;
            &&& 0 <= at < monitors.len() && at != moving && 0 <= part < 3
            &&& stands_by(monitors[moving], monitors[at])
            &&& away <= reach
            &&& part != 1 ==> off == 0
            &&& -1 <= off <= 1
            &&& forall|a: int, p: int|
                0 <= a < monitors.len() && a != moving && 0 <= p < 3 && stands_by(
                    monitors[moving],
                    monitors[a],
                ) ==> {
                    let other = magnitude(
                        part_height(monitors[moving], raw_y as int, p) - #[trigger] part_height(
                            monitors[a],
                            monitors[a].y as int,
                            p,
                        ),
                    );
                    &&& away <= other
                    &&& a < at || (a == at && p < part) ==> away < other
                }
        },
{
    let choice = lemma_alignment_choice(monitors, moving, raw_y, reach, monitors.len() as int);
    assert forall|a: int, p: int|
        0 <= a < monitors.len() && a != moving && 0 <= p < 3 && stands_by(
            monitors[moving],
            monitors[a],
        ) implies alignment_snap(monitors, moving, raw_y, a, p).distance == magnitude(
        part_height(monitors[moving], raw_y as int, p) - #[trigger] part_height(
            monitors[a],
            monitors[a].y as int,
            p,
        ),
    ) && is_target(monitors, moving, a) by {
        lemma_alignment_snap_is_exact(monitors, moving, raw_y, a, p);
    }
    if let Some((at, part)) = choice {
        lemma_alignment_snap_is_exact(monitors, moving, raw_y, at, part);
    }
    choice
}

/// A monitor that is off goes exactly where it is dragged and shows no guide.
pub proof fn lemma_off_does_not_snap(
    monitors: Seq<MonitorView>,
    moving: int,
    raw_x: i32,
    raw_y: i32,
    reach: int,
)
    requires
        0 <= moving < monitors.len(),
        !monitors[moving].enabled,
    ensures
        snapped_x(monitors, moving, raw_x, reach) == raw_x,
        snapped_y(monitors, moving, raw_y, reach) == raw_y,
        snap_guides(monitors, moving, raw_x, raw_y, reach).len() == 0,
{
}

/// A guide is shown for each snap and for nothing else. The one along a height
/// lies at the part that is level and reaches from the left end to the right
/// end of both monitors; the one along an edge lies where they touch and reaches
/// from the upper end to the lower end of both.
pub proof fn lemma_guides(
    monitors: Seq<MonitorView>,
    moving: int,
    raw_x: i32,
    raw_y: i32,
    reach: int,
) -> (choice: (Option<(int, int)>, Option<(int, int)>))
    requires
        monitors.len() <= usize::MAX,
        0 <= moving < monitors.len(),
        monitors[moving].enabled,
        forall|i: int| 0 <= i < monitors.len() ==> is_ordinary(#[trigger] monitors[i]),
        is_near(raw_x as int),
        is_near(raw_y as int),
    ensures
        ({
            let guides = snap_guides(monitors, moving, raw_x, raw_y, reach);
            let x = snapped_x(monitors, moving, raw_x, reach);
            let y = snapped_y(monitors, moving, raw_y, reach);
            let (along, beside) = choice;
            &&& along is None ==> y == raw_y
            &&& beside is None ==> x == raw_x
            &&& guides.len() == (if along is Some { 1int } else { 0 }) + (if beside is Some {
                1int
            } else {
                0
            })
            &&& along matches Some((at, part)) ==> {
                let target = monitors[at];
                let guide = guides[0];
                &&& 0 <= at < monitors.len()
                &&& guide.horizontal
                &&& guide.at == part_height(target, target.y as int, part)
                &&& guide.from <= 2 * x && guide.from <= 2 * target.x
                &&& guide.from == 2 * x || guide.from == 2 * target.x
                &&& guide.to >= 2 * (x + shown_width(monitors[moving])) && guide.to >= 2 * (target.x
                    + shown_width(target))
                &&& guide.to == 2 * (x + shown_width(monitors[moving])) || guide.to == 2 * (target.x
                    + shown_width(target))
                &&& guide.label == (if part == 0 {
                    "TOP"@
                } else if part == 1 {
                    "MIDDLE"@
                } else {
                    "BOTTOM"@
                })
            }
            &&& beside matches Some((at, part)) ==> {
                let target = monitors[at];
                let guide = guides[guides.len() - 1];
                &&& 0 <= at < monitors.len()
                &&& !guide.horizontal
                &&& x == touching_x(monitors[moving], target, part)
                &&& guide.at == (if part == 0 {
                    2 * x
                } else {
                    2 * (x + shown_width(monitors[moving]))
                })
                &&& guide.from <= 2 * y && guide.from <= 2 * target.y
                &&& guide.from == 2 * y || guide.from == 2 * target.y
                &&& guide.to >= 2 * (y + shown_height(monitors[moving])) && guide.to >= 2 * (
                target.y + shown_height(target))
                &&& guide.to == 2 * (y + shown_height(monitors[moving])) || guide.to == 2 * (
                target.y + shown_height(target))
                &&& guide.label == "EDGE"@
            }
        }),
{
    let count = monitors.len() as int;
    let along = lemma_alignment_choice(monitors, moving, raw_y, reach, count);
    let beside = lemma_edge_choice(monitors, moving, raw_x, reach, count);
    let x = snapped_x(monitors, moving, raw_x, reach);
    let y = snapped_y(monitors, moving, raw_y, reach);
    let width = shown_width(monitors[moving]);
    let height = shown_height(monitors[moving]);
    if let Some((at, part)) = along {
        lemma_alignment_snap_is_exact(monitors, moving, raw_y, at, part);
        assert(part * shown_height(monitors[at]) <= 2 * shown_height(monitors[at]))
            by (nonlinear_arith)
            requires
                0 <= part < 3,
                shown_height(monitors[at]) >= 0,
        ;
        assert(0 <= part * shown_height(monitors[at])) by (nonlinear_arith)
            requires
                0 <= part < 3,
                shown_height(monitors[at]) >= 0,
        ;
        assert(0 <= part * height <= 2 * height) by (nonlinear_arith)
            requires
                0 <= part < 3,
                height >= 0,
        ;
    }
    if let Some((at, part)) = beside {
        lemma_edge_snap_is_exact(monitors, moving, raw_x, at, part);
    }
    singles::lemma_small_is_exact(2 * x);
    singles::lemma_small_is_exact(2 * y);
    singles::lemma_small_is_exact(2 * width);
    singles::lemma_small_is_exact(2 * height);
    singles::lemma_small_is_exact(2 * x + 2 * width);
    singles::lemma_small_is_exact(2 * y + 2 * height);
    if let Some((at, part)) = along {
        let target = monitors[at];
        singles::lemma_small_is_exact(2 * target.x);
        singles::lemma_small_is_exact(2 * shown_width(target));
        singles::lemma_small_is_exact(2 * target.x + 2 * shown_width(target));
    }
    if let Some((at, part)) = beside {
        let target = monitors[at];
        singles::lemma_small_is_exact(2 * target.y);
        singles::lemma_small_is_exact(2 * shown_height(target));
        singles::lemma_small_is_exact(2 * target.y + 2 * shown_height(target));
    }
    (along, beside)
}

// ---------------------------------------------------------------------------
// Snapping itself
// ---------------------------------------------------------------------------

fn length(value: i64) -> (r: i64)
    requires
        value > i64::MIN,
    ensures
        r == magnitude(value as int),
{
    if value < 0 {
        -value
    } else {
        value
    }
}

fn keep_nearer(best: Option<Snap>, next: Snap, reach: i64) -> (r: Option<Snap>)
    ensures
        r == nearer(best, next, reach as int),
{
    let is_nearer = match best {
        Some(snap) => next.distance < snap.distance,
        None => true,
    };
    if next.distance <= reach && is_nearer {
        Some(next)
    } else {
        best
    }
}

fn anchor_of(y: i32, height: u32, alignment: HorizontalAlignment) -> (r: i64)
    ensures
        r == anchor(y, height, alignment),
        -0x20_0000_0000 <= r <= 0x20_0000_0000,
{
    let top = to_single(2 * (y as i64));
    to_single(top + alignment.offset(height))
}

fn edge_of(x: i32, width: u32, right: bool) -> (r: i64)
    ensures
        r == edge(x, width, right),
        -0x20_0000_0000 <= r <= 0x20_0000_0000,
{
    let left = to_single(2 * (x as i64));
    if right {
        let span = to_single(2 * (width as i64));
        to_single(left + span)
    } else {
        left
    }
}

fn try_alignment(
    monitors: &Vec<MonitorConfig>,
    moving: usize,
    raw_y: i32,
    at: usize,
    part: usize,
) -> (r: Snap)
    requires
        moving < monitors@.len(),
        at < monitors@.len(),
        part < 3,
    ensures
        r == alignment_snap(
            order::views(monitors@),
            moving as int,
            raw_y,
            at as int,
            part as int,
        ),
{
    assert(order::views(monitors@)[moving as int] == monitors@[moving as int]@);
    assert(order::views(monitors@)[at as int] == monitors@[at as int]@);
    let alignment = HorizontalAlignment::of_index(part);
    let (_, height) = display_size(&monitors[moving]);
    let (_, target_height) = display_size(&monitors[at]);
    let line = anchor_of(monitors[at].y, target_height, alignment);
    let own = anchor_of(raw_y, height, alignment);
    let distance = length(to_single(own - line));
    let position = to_whole_pixel(to_single(line - alignment.offset(height)));
    Snap { distance, position, target: at, part, line }
}

fn try_edge(
    monitors: &Vec<MonitorConfig>,
    moving: usize,
    raw_x: i32,
    at: usize,
    part: usize,
) -> (r: Snap)
    requires
        moving < monitors@.len(),
        at < monitors@.len(),
        part < 2,
    ensures
        r == edge_snap(order::views(monitors@), moving as int, raw_x, at as int, part as int),
{
    assert(order::views(monitors@)[moving as int] == monitors@[moving as int]@);
    assert(order::views(monitors@)[at as int] == monitors@[at as int]@);
    let (width, _) = display_size(&monitors[moving]);
    let (target_width, _) = display_size(&monitors[at]);
    let own = edge_of(raw_x, width, part == 1);
    let line = edge_of(monitors[at].x, target_width, part == 0);
    let distance = length(to_single(own - line));
    let start = to_single(2 * (raw_x as i64));
    let moved = to_single(start + line);
    let position = to_whole_pixel(to_single(moved - own));
    Snap { distance, position, target: at, part, line }
}

fn can_snap_to(monitors: &Vec<MonitorConfig>, moving: usize, at: usize) -> (r: bool)
    requires
        moving < monitors@.len(),
        at < monitors@.len(),
    ensures
        r == is_target(order::views(monitors@), moving as int, at as int),
{
    assert(order::views(monitors@)[moving as int] == monitors@[moving as int]@);
    assert(order::views(monitors@)[at as int] == monitors@[at as int]@);
    let clones = monitors[moving].clone_group.is_some() && monitors[moving].clone_group
        == monitors[at].clone_group;
    at != moving && !clones && monitors[at].enabled
}

fn find_alignment(
    monitors: &Vec<MonitorConfig>,
    moving: usize,
    raw_y: i32,
    reach: i64,
) -> (r: Option<Snap>)
    requires
        moving < monitors@.len(),
    ensures
        r == best_alignment(
            order::views(monitors@),
            moving as int,
            raw_y,
            reach as int,
            monitors@.len() as int,
        ),
        r matches Some(snap) ==> snap.target < monitors@.len() && snap.part < 3,
{
    let ghost all = order::views(monitors@);
    let mut best: Option<Snap> = None;
    let mut at: usize = 0;
    while at < monitors.len()
        invariant
            at <= monitors@.len(),
            moving < monitors@.len(),
            all == order::views(monitors@),
            best == best_alignment(all, moving as int, raw_y, reach as int, at as int),
            best matches Some(snap) ==> snap.target < monitors@.len() && snap.part < 3,
        decreases monitors@.len() - at,
    {
        if can_snap_to(monitors, moving, at) {
            let ghost before = best;
            let mut part: usize = 0;
            while part < 3
                invariant
                    part <= 3,
                    at < monitors@.len(),
                    moving < monitors@.len(),
                    all == order::views(monitors@),
                    best == aligned_to(
                        all,
                        moving as int,
                        raw_y,
                        reach as int,
                        before,
                        at as int,
                        part as int,
                    ),
                    best matches Some(snap) ==> snap.target < monitors@.len() && snap.part < 3,
                decreases 3 - part,
            {
                let next = try_alignment(monitors, moving, raw_y, at, part);
                best = keep_nearer(best, next, reach);
                part = part + 1;
            }
        }
        at = at + 1;
    }
    best
}

fn find_edge(
    monitors: &Vec<MonitorConfig>,
    moving: usize,
    raw_x: i32,
    reach: i64,
) -> (r: Option<Snap>)
    requires
        moving < monitors@.len(),
    ensures
        r == best_edge(
            order::views(monitors@),
            moving as int,
            raw_x,
            reach as int,
            monitors@.len() as int,
        ),
        r matches Some(snap) ==> snap.target < monitors@.len(),
{
    let ghost all = order::views(monitors@);
    let mut best: Option<Snap> = None;
    let mut at: usize = 0;
    while at < monitors.len()
        invariant
            at <= monitors@.len(),
            moving < monitors@.len(),
            all == order::views(monitors@),
            best == best_edge(all, moving as int, raw_x, reach as int, at as int),
            best matches Some(snap) ==> snap.target < monitors@.len(),
        decreases monitors@.len() - at,
    {
        if can_snap_to(monitors, moving, at) {
            let ghost before = best;
            let mut part: usize = 0;
            while part < 2
                invariant
                    part <= 2,
                    at < monitors@.len(),
                    moving < monitors@.len(),
                    all == order::views(monitors@),
                    best == edged_to(
                        all,
                        moving as int,
                        raw_x,
                        reach as int,
                        before,
                        at as int,
                        part as int,
                    ),
                    best matches Some(snap) ==> snap.target < monitors@.len(),
                decreases 2 - part,
            {
                let next = try_edge(monitors, moving, raw_x, at, part);
                best = keep_nearer(best, next, reach);
                part = part + 1;
            }
        }
        at = at + 1;
    }
    best
}

fn min_of(a: i64, b: i64) -> (r: i64)
    ensures
        r == smaller(a as int, b as int),
{
    if a < b {
        a
    } else {
        b
    }
}

fn max_of(a: i64, b: i64) -> (r: i64)
    ensures
        r == larger(a as int, b as int),
{
    if a > b {
        a
    } else {
        b
    }
}

/// Snaps a monitor that was dragged to `(raw_x, raw_y)` to what is within
/// `reach` half pixels, horizontally and vertically on their own.
pub fn snap_monitor_position(
    layout: &MonitorLayout,
    moving_index: usize,
    raw_x: i32,
    raw_y: i32,
    reach: i64,
) -> (r: SnapResult)
    requires
        moving_index < layout@.monitors.len(),
    ensures
        r.x == snapped_x(layout@.monitors, moving_index as int, raw_x, reach as int),
        r.y == snapped_y(layout@.monitors, moving_index as int, raw_y, reach as int),
        order::views(r.guides@) == snap_guides(
            layout@.monitors,
            moving_index as int,
            raw_x,
            raw_y,
            reach as int,
        ),
{
    let ghost all = layout@.monitors;
    let monitors = &layout.monitors;
    assert(all[moving_index as int] == monitors@[moving_index as int]@);
    let mut guides: Vec<SnapGuide> = Vec::new();
    proof {
        assert(order::views(guides@) =~= Seq::empty());
    }
    if !monitors[moving_index].enabled {
        return SnapResult { x: raw_x, y: raw_y, guides };
    }
    let (width, height) = display_size(&monitors[moving_index]);
    let alignment = find_alignment(monitors, moving_index, raw_y, reach);
    let beside = find_edge(monitors, moving_index, raw_x, reach);
    let x = match beside {
        Some(snap) => snap.position,
        None => raw_x,
    };
    let y = match alignment {
        Some(snap) => snap.position,
        None => raw_y,
    };
    if let Some(snap) = alignment {
        let target = &monitors[snap.target];
        assert(all[snap.target as int] == target@);
        let (target_width, _) = display_size(target);
        let guide = SnapGuide {
            horizontal: true,
            at: snap.line,
            from: min_of(to_single(2 * (x as i64)), to_single(2 * (target.x as i64))),
            to: max_of(edge_of(x, width, true), edge_of(target.x, target_width, true)),
            label: HorizontalAlignment::of_index(snap.part).label(),
        };
        guides.push(guide);
        proof {
            assert(order::views(guides@) =~= seq![guide@]);
        }
    }
    if let Some(snap) = beside {
        let target = &monitors[snap.target];
        assert(all[snap.target as int] == target@);
        let (_, target_height) = display_size(target);
        let guide = SnapGuide {
            horizontal: false,
            at: snap.line,
            from: min_of(to_single(2 * (y as i64)), to_single(2 * (target.y as i64))),
            to: max_of(edge_of(y, height, true), edge_of(target.y, target_height, true)),
            label: "EDGE",
        };
        let ghost before = guides@;
        guides.push(guide);
        proof {
            assert(order::views(guides@) =~= order::views(before).push(guide@));
        }
    }
    SnapResult { x, y, guides }
}

// ---------------------------------------------------------------------------
// Dragging
// ---------------------------------------------------------------------------

/// What a step of a drag did.
#[derive(Debug)]
pub struct DragResult {
    pub changed: bool,
    pub guides: Vec<SnapGuide>,
}

/// Where a monitor is dragged to before it snaps: a distance away from where
/// it was when the drag began.
pub open spec fn raw_place(origin: (i32, i32), by: (i32, i32)) -> (i32, i32) {
    (arrangement::clamped(origin.0 + by.0), arrangement::clamped(origin.1 + by.1))
}

/// Where a dragged monitor snaps to.
pub open spec fn snapped_place(
    monitors: Seq<MonitorView>,
    dragged: int,
    origin: (i32, i32),
    by: (i32, i32),
    reach: int,
) -> (i32, i32) {
    let raw = raw_place(origin, by);
    (snapped_x(monitors, dragged, raw.0, reach), snapped_y(monitors, dragged, raw.1, reach))
}

/// How far a monitor is from where it was when the drag began.
pub open spec fn displacement(origin: (i32, i32), place: (i32, i32)) -> (i32, i32) {
    (arrangement::clamped(place.0 - origin.0), arrangement::clamped(place.1 - origin.1))
}

/// The monitors after a step of a drag. A monitor that was added since the
/// drag began is not dragged.
pub open spec fn drag_step(
    monitors: Seq<MonitorView>,
    origins: Seq<(i32, i32)>,
    dragged: int,
    by: (i32, i32),
    reach: int,
) -> Seq<MonitorView> {
    if dragged < origins.len() {
        let origin = origins[dragged];
        let place = snapped_place(monitors, dragged, origin, by, reach);
        arrangement::dragged_monitors(monitors, origins, dragged, displacement(origin, place))
    } else {
        monitors
    }
}

/// The guides that a step of a drag shows.
pub open spec fn drag_guides(
    monitors: Seq<MonitorView>,
    origins: Seq<(i32, i32)>,
    dragged: int,
    by: (i32, i32),
    reach: int,
) -> Seq<GuideView> {
    if dragged < origins.len() {
        let raw = raw_place(origins[dragged], by);
        snap_guides(monitors, dragged, raw.0, raw.1, reach)
    } else {
        Seq::empty()
    }
}

/// Whether a number fits in `i32`.
pub open spec fn fits(value: int) -> bool {
    i32::MIN <= value <= i32::MAX
}

/// A dragged monitor ends where it snaps to, and monitor `at` moves by the same
/// distance from where it was if it is a clone of it, and not at all otherwise.
/// Only where a distance or a place does not fit in `i32` does it fall short.
pub proof fn lemma_drag_step(
    monitors: Seq<MonitorView>,
    origins: Seq<(i32, i32)>,
    dragged: int,
    by: (i32, i32),
    reach: int,
    at: int,
)
    requires
        0 <= dragged < monitors.len(),
        dragged < origins.len(),
        0 <= at < monitors.len(),
    ensures
        ({
            let after = drag_step(monitors, origins, dragged, by, reach);
            let origin = origins[dragged];
            let place = snapped_place(monitors, dragged, origin, by, reach);
            &&& after.len() == monitors.len()
            &&& after[at] == arrangement::placed_at(monitors[at], after[at].x, after[at].y)
            &&& fits(place.0 - origin.0) ==> after[dragged].x == place.0
            &&& fits(place.1 - origin.1) ==> after[dragged].y == place.1
            &&& arrangement::moves_along(monitors, dragged, at) && at < origins.len() ==> {
                &&& fits(place.0 - origin.0) && fits(origins[at].0 + (place.0 - origin.0))
                    ==> after[at].x - origins[at].0 == after[dragged].x - origin.0
                &&& fits(place.1 - origin.1) && fits(origins[at].1 + (place.1 - origin.1))
                    ==> after[at].y - origins[at].1 == after[dragged].y - origin.1
            }
            &&& !arrangement::moves_along(monitors, dragged, at) ==> after[at] == monitors[at]
        }),
{
}

/// A monitor that is off, or that was added after the drag began, does not snap:
/// the one goes exactly as far as it is dragged, the other stays. A monitor that
/// is on and near nothing goes exactly as far as it is dragged, too.
pub proof fn lemma_drag_distance(
    monitors: Seq<MonitorView>,
    origins: Seq<(i32, i32)>,
    dragged: int,
    by: (i32, i32),
    reach: int,
)
    requires
        0 <= dragged < monitors.len(),
    ensures
        ({
            let after = drag_step(monitors, origins, dragged, by, reach);
            let origin = origins[dragged];
            let in_range = fits(origin.0 + by.0) && fits(origin.1 + by.1);
            &&& dragged >= origins.len() ==> after == monitors && drag_guides(
                monitors,
                origins,
                dragged,
                by,
                reach,
            ).len() == 0
            &&& dragged < origins.len() && in_range && !monitors[dragged].enabled
                ==> after[dragged].x == origin.0 + by.0 && after[dragged].y == origin.1 + by.1
                && drag_guides(monitors, origins, dragged, by, reach).len() == 0
            &&& dragged < origins.len() && in_range && snap_guides(
                monitors,
                dragged,
                (origin.0 + by.0) as i32,
                (origin.1 + by.1) as i32,
                reach,
            ).len() == 0 ==> after[dragged].x == origin.0 + by.0 && after[dragged].y == origin.1
                + by.1
            &&& dragged < origins.len() && in_range ==> drag_guides(
                monitors,
                origins,
                dragged,
                by,
                reach,
            ) == snap_guides(
                monitors,
                dragged,
                (origin.0 + by.0) as i32,
                (origin.1 + by.1) as i32,
                reach,
            )
        }),
{
}

/// Where a dragged monitor snaps to is where it was dragged to, moved by no more
/// than the reach, and where it was dragged to is its start plus the distance,
/// as long as that fits.
pub proof fn lemma_drag_stays_within_reach(
    monitors: Seq<MonitorView>,
    dragged: int,
    origin: (i32, i32),
    by: (i32, i32),
    reach: int,
)
    requires
        0 <= dragged < monitors.len(),
        forall|i: int| 0 <= i < monitors.len() ==> is_ordinary(#[trigger] monitors[i]),
        is_near(origin.0 + by.0),
        is_near(origin.1 + by.1),
        reach >= 0,
    ensures
        raw_place(origin, by) == ((origin.0 + by.0) as i32, (origin.1 + by.1) as i32),
        ({
            let place = snapped_place(monitors, dragged, origin, by, reach);
            &&& 2 * magnitude(place.0 - (origin.0 + by.0)) <= reach
            &&& 2 * magnitude(place.1 - (origin.1 + by.1)) <= reach + 1
        }),
{
    let raw = raw_place(origin, by);
    if monitors[dragged].enabled {
        let beside = lemma_snaps_to_the_nearest_edge(monitors, dragged, raw.0, reach);
        let along = lemma_snaps_to_the_nearest_height(monitors, dragged, raw.1, reach);
    }
}

/// Drags a monitor, together with its clones, by a distance from where they
/// were when the drag began, to what is within `reach` half pixels of there.
pub fn drag_monitor(
    layout: &mut MonitorLayout,
    origins: &Vec<(i32, i32)>,
    dragged: usize,
    by_x: i32,
    by_y: i32,
    reach: i64,
) -> (r: DragResult)
    requires
        dragged < old(layout)@.monitors.len(),
    ensures
        final(layout)@ == (LayoutView {
            monitors: drag_step(
                old(layout)@.monitors,
                origins@,
                dragged as int,
                (by_x, by_y),
                reach as int,
            ),
            ..old(layout)@
        }),
        r.changed == (final(layout)@.monitors != old(layout)@.monitors),
        order::views(r.guides@) == drag_guides(
            old(layout)@.monitors,
            origins@,
            dragged as int,
            (by_x, by_y),
            reach as int,
        ),
{
    if dragged >= origins.len() {
        let guides: Vec<SnapGuide> = Vec::new();
        assert(order::views(guides@) =~= Seq::empty());
        return DragResult { changed: false, guides };
    }
    let (origin_x, origin_y) = origins[dragged];
    let raw_x = saturating_sum(origin_x, by_x);
    let raw_y = saturating_sum(origin_y, by_y);
    let snapped = snap_monitor_position(layout, dragged, raw_x, raw_y, reach);
    let dx = saturating_difference(snapped.x, origin_x);
    let dy = saturating_difference(snapped.y, origin_y);
    assert(layout@.monitors.len() == layout.monitors@.len());
    let changed = drag_monitors(&mut layout.monitors, origins, dragged, dx, dy);
    DragResult { changed, guides: snapped.guides }
}

} // verus!
