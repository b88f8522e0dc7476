//! Putting a layout's positions, resolutions and rates into the active paths.

use vstd::prelude::*;
use vstd::string::*;
use crate::display::paths::{DisplayPath, ModeInfo, Rational, SourceMode, Snapshot, TargetMeta, INVALID_MODE_INDEX};
use crate::display::paths;
use crate::model::{IdentityView, MonitorConfig, MonitorLayout, MonitorView};
use crate::order;

verus! {

/// What single-precision arithmetic says of a monitor's saved rate.
#[derive(Debug, Clone, Copy, PartialEq, Eq, Structural)]
pub struct RateRounding {
    /// Whether the exact fraction is within a hundredth of the saved rate.
    pub exact_matches: bool,
    /// The saved rate in thousandths, rounded and kept within `u32`.
    pub millihertz: u32,
}

/// The rate to ask for: the exact fraction while it matches the saved rate,
/// otherwise that rate in thousandths.
pub open spec fn requested_rate(saved: MonitorView, rounding: RateRounding) -> Rational {
    if saved.refresh_numerator matches Some(numerator) && numerator > 0 && (
    saved.refresh_denominator matches Some(denominator) && denominator > 0)
        && rounding.exact_matches {
        Rational {
            numerator: saved.refresh_numerator->0,
            denominator: saved.refresh_denominator->0,
        }
    } else {
        Rational { numerator: rounding.millihertz, denominator: 1000 }
    }
}

/// The rate to ask for.
pub fn saved_refresh_rational(saved: &MonitorConfig, rounding: RateRounding) -> (r: Rational)
    ensures
        r == requested_rate(saved@, rounding),
{
    if let (Some(numerator), Some(denominator)) = (
        saved.refresh_numerator,
        saved.refresh_denominator,
    ) {
        if numerator > 0 && denominator > 0 && rounding.exact_matches {
            return Rational { numerator, denominator };
        }
    }
    Rational { numerator: rounding.millihertz, denominator: 1000 }
}

/// A path with another rate and without the timing that belonged to the old
/// one.
pub open spec fn with_rate(path: DisplayPath, rate: Rational) -> DisplayPath {
    DisplayPath { refresh_rate: rate, target_mode_index: INVALID_MODE_INDEX, ..path }
}

/// Asks for a rate and drops the concrete timing, so that Windows honors it.
pub fn set_path_refresh_rate(path: &mut DisplayPath, refresh_rate: Rational)
    ensures
        *final(path) == with_rate(*old(path), refresh_rate),
{
    path.refresh_rate = refresh_rate;
    path.target_mode_index = INVALID_MODE_INDEX;
}

/// A path with the orientation, scaling and rate that were saved.
pub open spec fn with_target_settings(
    path: DisplayPath,
    saved: MonitorView,
    rounding: RateRounding,
) -> DisplayPath {
    let turned = DisplayPath {
        rotation: match saved.rotation {
            Some(rotation) => rotation,
            None => path.rotation,
        },
        scaling: match saved.scaling {
            Some(scaling) => scaling,
            None => path.scaling,
        },
        ..path
    };
    if saved.refresh_hz.at_least_one() {
        with_rate(turned, requested_rate(saved, rounding))
    } else {
        turned
    }
}

/// Puts the saved orientation, scaling and rate into a path.
pub fn patch_target_settings(path: &mut DisplayPath, saved: &MonitorConfig, rounding: RateRounding)
    ensures
        *final(path) == with_target_settings(*old(path), saved@, rounding),
{
    if let Some(rotation) = saved.rotation {
        path.rotation = rotation;
    }
    if let Some(scaling) = saved.scaling {
        path.scaling = scaling;
    }
    if saved.refresh_hz.reaches_one() {
        set_path_refresh_rate(path, saved_refresh_rational(saved, rounding));
    }
}

/// The first enabled monitor of `monitors` that this identity names, at or
/// after `from`.
pub open spec fn saved_for(
    monitors: Seq<MonitorView>,
    identity: IdentityView,
    from: int,
) -> Option<int>
    decreases monitors.len() - from,
{
    if from < 0 || from >= monitors.len() {
        None
    } else if monitors[from].enabled && monitors[from].identity.matches(identity) {
        Some(from)
    } else {
        saved_for(monitors, identity, from + 1)
    }
}

/// A source mode moved to where a monitor was saved, with its resolution where
/// that is not zero.
pub open spec fn moved_mode(mode: SourceMode, saved: MonitorView) -> SourceMode {
    if saved.width > 0 && saved.height > 0 {
        SourceMode { x: saved.x, y: saved.y, width: saved.width, height: saved.height }
    } else {
        SourceMode { x: saved.x, y: saved.y, ..mode }
    }
}

/// Paths and modes after the monitor at the end of path `at` was patched.
pub open spec fn patched_path(
    monitors: Seq<MonitorView>,
    roundings: Seq<RateRounding>,
    identity: IdentityView,
    before: (Seq<DisplayPath>, Seq<ModeInfo>),
    at: int,
) -> (Seq<DisplayPath>, Seq<ModeInfo>) {
    match saved_for(monitors, identity, 0) {
        None => before,
        Some(index) => {
            let saved = monitors[index];
            let path = with_target_settings(before.0[at], saved, roundings[index]);
            let modes = match paths::source_mode(path, before.1) {
                Some(mode) => before.1.update(
                    path.source_mode_index as int,
                    ModeInfo::Source(moved_mode(mode, saved)),
                ),
                None => before.1,
            };
            (before.0.update(at, path), modes)
        },
    }
}

/// Paths and modes after the first `count` paths were patched.
pub open spec fn patched(
    monitors: Seq<MonitorView>,
    roundings: Seq<RateRounding>,
    identities: Seq<IdentityView>,
    before: (Seq<DisplayPath>, Seq<ModeInfo>),
    count: int,
) -> (Seq<DisplayPath>, Seq<ModeInfo>)
    decreases count,
{
    if count <= 0 {
        before
    } else {
        patched_path(
            monitors,
            roundings,
            identities[count - 1],
            patched(monitors, roundings, identities, before, count - 1),
            count - 1,
        )
    }
}

/// The identities behind the paths up to the first whose target gave no answer.
pub open spec fn leading_identities(metas: Seq<Result<TargetMeta, i32>>) -> Seq<IdentityView>
    decreases metas.len(),
{
    if metas.len() == 0 {
        Seq::empty()
    } else {
        match metas[0] {
            Err(_) => Seq::empty(),
            Ok(meta) => seq![meta@.identity] + leading_identities(metas.skip(1)),
        }
    }
}

/// Patching changes neither how many paths and modes there are, nor where a
/// path leads, nor which modes belong to sources.
pub proof fn lemma_patching_keeps_routes(
    monitors: Seq<MonitorView>,
    roundings: Seq<RateRounding>,
    identities: Seq<IdentityView>,
    before: (Seq<DisplayPath>, Seq<ModeInfo>),
    count: int,
)
    requires
        count <= before.0.len(),
    ensures
        ({
            let after = patched(monitors, roundings, identities, before, count);
            &&& after.0.len() == before.0.len()
            &&& after.1.len() == before.1.len()
            &&& forall|i: int|
                0 <= i < before.0.len() ==> (#[trigger] after.0[i]).source()
                    == before.0[i].source() && after.0[i].target_id == before.0[i].target_id
                    && after.0[i].target_adapter_low == before.0[i].target_adapter_low
                    && after.0[i].target_adapter_high == before.0[i].target_adapter_high
                    && after.0[i].flags == before.0[i].flags && after.0[i].source_mode_index
                    == before.0[i].source_mode_index
            &&& forall|i: int|
                0 <= i < before.1.len() ==> ((#[trigger] after.1[i]) is Source
                    <==> before.1[i] is Source)
        }),
    decreases count,
{
    if count > 0 {
        lemma_patching_keeps_routes(monitors, roundings, identities, before, count - 1);
    }
}

/// Every path to a monitor of the layout ends up with that monitor's saved
/// settings, and every other path stays as it was.
pub proof fn lemma_patched_targets(
    monitors: Seq<MonitorView>,
    roundings: Seq<RateRounding>,
    identities: Seq<IdentityView>,
    before: (Seq<DisplayPath>, Seq<ModeInfo>),
    count: int,
    at: int,
)
    requires
        0 <= at < before.0.len(),
        count <= before.0.len(),
    ensures
        patched(monitors, roundings, identities, before, count).0[at] == (match saved_for(
            monitors,
            identities[at],
            0,
        ) {
            Some(index) if at < count => with_target_settings(
                before.0[at],
                monitors[index],
                roundings[index],
            ),
            _ => before.0[at],
        }),
    decreases count,
{
    if count > 0 {
        lemma_patching_keeps_routes(monitors, roundings, identities, before, count - 1);
        lemma_patched_targets(monitors, roundings, identities, before, count - 1, at);
    }
}

/// The source of a path to a monitor of the layout ends up where that monitor
/// was saved and with its resolution, as long as every monitor that shares the
/// source was saved at the same place.
pub proof fn lemma_patched_modes(
    monitors: Seq<MonitorView>,
    roundings: Seq<RateRounding>,
    identities: Seq<IdentityView>,
    before: (Seq<DisplayPath>, Seq<ModeInfo>),
    count: int,
    at: int,
    index: int,
)
    requires
        0 <= at < count <= before.0.len(),
        saved_for(monitors, identities[at], 0) == Some(index),
        paths::source_mode(before.0[at], before.1) is Some,
        monitors[index].width > 0,
        monitors[index].height > 0,
        forall|other: int|
            0 <= other < count && (#[trigger] before.0[other]).source_mode_index
                == before.0[at].source_mode_index ==> (saved_for(
                monitors,
                identities[other],
                0,
            ) matches Some(saved) ==> monitors[saved].geometry() == monitors[index].geometry()),
    ensures
        patched(monitors, roundings, identities, before, count).1[before.0[at].source_mode_index as int]
            == ModeInfo::Source(
            SourceMode {
                x: monitors[index].x,
                y: monitors[index].y,
                width: monitors[index].width,
                height: monitors[index].height,
            },
        ),
    decreases count,
{
    let last = count - 1;
    let earlier = patched(monitors, roundings, identities, before, last);
    lemma_patching_keeps_routes(monitors, roundings, identities, before, last);
    assert(earlier.0[last].source_mode_index == before.0[last].source_mode_index);
    if at < last {
        lemma_patched_modes(monitors, roundings, identities, before, last, at, index);
    } else {
        assert(earlier.1[before.0[at].source_mode_index as int] is Source);
    }
}

/// The orientation and scaling that a monitor was saved with are asked for,
/// whatever the path had before; where none was saved, the path keeps its own.
/// A usable rate is asked for as the exact fraction while that holds, and in
/// thousandths otherwise, and the timing that went with the old one is dropped.
/// Nothing else of the path changes.
pub proof fn lemma_saved_settings_are_asked_for(
    path: DisplayPath,
    saved: MonitorView,
    rounding: RateRounding,
)
    ensures
        ({
            let after = with_target_settings(path, saved, rounding);
            &&& saved.rotation matches Some(rotation) ==> after.rotation == rotation
            &&& saved.rotation is None ==> after.rotation == path.rotation
            &&& saved.scaling matches Some(scaling) ==> after.scaling == scaling
            &&& saved.scaling is None ==> after.scaling == path.scaling
        }),
        ({
            let after = with_target_settings(path, saved, rounding);
            let exact = saved.refresh_numerator is Some && saved.refresh_denominator is Some
                && saved.refresh_numerator->0 != 0 && saved.refresh_denominator->0 != 0
                && rounding.exact_matches;
            &&& saved.refresh_hz.at_least_one() ==> after.target_mode_index == 0xFFFF_FFFF
            &&& saved.refresh_hz.at_least_one() && exact ==> Some(after.refresh_rate.numerator)
                == saved.refresh_numerator && Some(after.refresh_rate.denominator)
                == saved.refresh_denominator
            &&& saved.refresh_hz.at_least_one() && !exact ==> after.refresh_rate.numerator
                == rounding.millihertz && after.refresh_rate.denominator == 1000
            &&& !saved.refresh_hz.at_least_one() ==> after.refresh_rate == path.refresh_rate
                && after.target_mode_index == path.target_mode_index
        }),
        ({
            let after = with_target_settings(path, saved, rounding);
            &&& after.source_adapter_low == path.source_adapter_low
            &&& after.source_adapter_high == path.source_adapter_high
            &&& after.source_id == path.source_id
            &&& after.source_mode_index == path.source_mode_index
            &&& after.source_status_flags == path.source_status_flags
            &&& after.target_adapter_low == path.target_adapter_low
            &&& after.target_adapter_high == path.target_adapter_high
            &&& after.target_id == path.target_id
            &&& after.output_technology == path.output_technology
            &&& after.scan_line_ordering == path.scan_line_ordering
            &&& after.target_available == path.target_available
            &&& after.target_status_flags == path.target_status_flags
            &&& after.flags == path.flags
        }),
{
}

/// Asking for the same settings twice is asking for them once.
pub proof fn lemma_patching_settles(path: DisplayPath, saved: MonitorView, rounding: RateRounding)
    ensures
        with_target_settings(with_target_settings(path, saved, rounding), saved, rounding)
            == with_target_settings(path, saved, rounding),
{
}

/// A path takes its settings from the first monitor of the layout that is on
/// and that its target is; where there is none, from nowhere.
pub proof fn lemma_saved_for(monitors: Seq<MonitorView>, identity: IdentityView, from: int)
    requires
        0 <= from,
    ensures
        saved_for(monitors, identity, from) matches Some(index) ==> {
            &&& from <= index < monitors.len()
            &&& monitors[index].enabled
            &&& monitors[index].identity.matches(identity)
            &&& forall|i: int|
                from <= i < index ==> !((#[trigger] monitors[i]).enabled
                    && monitors[i].identity.matches(identity))
        },
        saved_for(monitors, identity, from) is None ==> forall|i: int|
            from <= i < monitors.len() ==> !((#[trigger] monitors[i]).enabled
                && monitors[i].identity.matches(identity)),
    decreases monitors.len() - from,
{
    if from < monitors.len() {
        lemma_saved_for(monitors, identity, from + 1);
    }
}

/// Every active path to a monitor that is on in the layout is asked for that
/// monitor's own orientation, scaling and rate.
pub proof fn lemma_patched_path_settings(
    monitors: Seq<MonitorView>,
    roundings: Seq<RateRounding>,
    identities: Seq<IdentityView>,
    before: (Seq<DisplayPath>, Seq<ModeInfo>),
    at: int,
    index: int,
)
    requires
        before.0.len() == identities.len(),
        0 <= at < identities.len(),
        0 <= index < monitors.len(),
        monitors[index].enabled,
        monitors[index].identity.matches(identities[at]),
        forall|i: int|
            0 <= i < index ==> !((#[trigger] monitors[i]).enabled && monitors[i].identity.matches(
                identities[at],
            )),
    ensures
        ({
            let saved = monitors[index];
            let path = before.0[at];
            let after = patched(
                monitors,
                roundings,
                identities,
                before,
                identities.len() as int,
            ).0[at];
            &&& after.rotation == (if saved.rotation is Some { saved.rotation->0 } else {
                path.rotation
            })
            &&& after.scaling == (if saved.scaling is Some { saved.scaling->0 } else {
                path.scaling
            })
            &&& saved.refresh_hz.at_least_one() && saved.refresh_numerator is None
                ==> after.refresh_rate == (Rational {
                numerator: roundings[index].millihertz,
                denominator: 1000,
            })
            &&& !saved.refresh_hz.at_least_one() ==> after.refresh_rate == path.refresh_rate
        }),
{
    lemma_saved_for(monitors, identities[at], 0);
    lemma_patched_targets(
        monitors,
        roundings,
        identities,
        before,
        identities.len() as int,
        at,
    );
}

/// A path whose target is no monitor that is on in the layout stays exactly as
/// it was, and a mode that no path to such a monitor uses stays too.
pub proof fn lemma_patching_touches_nothing_else(
    monitors: Seq<MonitorView>,
    roundings: Seq<RateRounding>,
    identities: Seq<IdentityView>,
    before: (Seq<DisplayPath>, Seq<ModeInfo>),
    count: int,
    at: int,
    mode: int,
)
    requires
        0 <= count <= identities.len(),
        before.0.len() == identities.len(),
        0 <= at < identities.len(),
        0 <= mode < before.1.len(),
    ensures
        (forall|i: int|
            0 <= i < monitors.len() ==> !((#[trigger] monitors[i]).enabled
                && monitors[i].identity.matches(identities[at]))) ==> patched(
            monitors,
            roundings,
            identities,
            before,
            count,
        ).0[at] == before.0[at],
        (forall|p: int|
            0 <= p < before.0.len() ==> (#[trigger] before.0[p]).source_mode_index != mode)
            ==> patched(monitors, roundings, identities, before, count).1[mode] == before.1[mode],
    decreases count,
{
    lemma_saved_for(monitors, identities[at], 0);
    lemma_patched_targets(monitors, roundings, identities, before, count, at);
    if count > 0 {
        lemma_patching_touches_nothing_else(
            monitors,
            roundings,
            identities,
            before,
            count - 1,
            at,
            mode,
        );
        lemma_patching_keeps_routes(monitors, roundings, identities, before, count - 1);
        let earlier = patched(monitors, roundings, identities, before, count - 1);
        assert(earlier.0[count - 1].source_mode_index == before.0[count - 1].source_mode_index);
    }
}

/// A source is moved to where its monitor was saved; a saved size of nothing
/// leaves the source its own.
pub proof fn lemma_moved_mode(mode: SourceMode, saved: MonitorView)
    ensures
        moved_mode(mode, saved).x == saved.x,
        moved_mode(mode, saved).y == saved.y,
        saved.width != 0 && saved.height != 0 ==> moved_mode(mode, saved).width == saved.width
            && moved_mode(mode, saved).height == saved.height,
        saved.width == 0 || saved.height == 0 ==> moved_mode(mode, saved).width == mode.width
            && moved_mode(mode, saved).height == mode.height,
{
}

/// Targets are asked about up to the first that gives no answer, in order.
pub proof fn lemma_leading_identities(metas: Seq<Result<TargetMeta, i32>>)
    ensures
        leading_identities(metas).len() <= metas.len(),
        forall|i: int|
            0 <= i < leading_identities(metas).len() ==> (#[trigger] metas[i]) is Ok
                && leading_identities(metas)[i] == metas[i]->Ok_0@.identity,
        leading_identities(metas).len() < metas.len() ==> metas[leading_identities(
            metas,
        ).len() as int] is Err,
    decreases metas.len(),
{
    if metas.len() > 0 && metas[0] is Ok {
        let rest = metas.skip(1);
        lemma_leading_identities(rest);
        let all = leading_identities(metas);
        assert forall|i: int| 0 <= i < all.len() implies (#[trigger] metas[i]) is Ok && all[i]
            == metas[i]->Ok_0@.identity by {
            if i > 0 {
                assert(rest[i - 1] == metas[i]);
            }
        }
        if all.len() < metas.len() {
            assert(rest[all.len() - 1] == metas[all.len() as int]);
        }
    }
}

fn find_saved(monitors: &Vec<MonitorConfig>, meta: &TargetMeta) -> (r: Option<usize>)
    ensures
        r is Some <==> saved_for(order::views(monitors@), meta@.identity, 0) is Some,
        r matches Some(at) ==> at < monitors@.len() && saved_for(
            order::views(monitors@),
            meta@.identity,
            0,
        ) == Some(at as int),
{
    let ghost all = order::views(monitors@);
    let mut at: usize = 0;
    while at < monitors.len()
        invariant
            at <= monitors@.len(),
            all == order::views(monitors@),
            saved_for(all, meta@.identity, 0) == saved_for(all, meta@.identity, at as int),
        decreases monitors@.len() - at,
    {
        assert(all[at as int] == monitors@[at as int]@);
        if monitors[at].enabled && monitors[at].identity.matches(&meta.identity) {
            return Some(at);
        }
        at = at + 1;
    }
    None
}

/// Puts the layout's saved settings into the active paths and modes. `metas`
/// tells what is at the end of each path, `roundings` what arithmetic says of
/// each monitor's rate. Stops at the first target that gave no answer and
/// returns its status.
pub fn patch_active_modes(
    layout: &MonitorLayout,
    roundings: &Vec<RateRounding>,
    metas: &Vec<Result<TargetMeta, i32>>,
    active: &mut Snapshot,
) -> (r: Result<(), i32>)
    requires
        roundings@.len() == layout@.monitors.len(),
        metas@.len() == old(active).paths@.len(),
    ensures
        r is Ok <==> leading_identities(metas@).len() == metas@.len(),
        r matches Err(code) ==> metas@[leading_identities(metas@).len() as int] == Err::<
            TargetMeta,
            i32,
        >(code),
        (final(active).paths@, final(active).modes@) == patched(
            layout@.monitors,
            roundings@,
            leading_identities(metas@),
            (old(active).paths@, old(active).modes@),
            leading_identities(metas@).len() as int,
        ),
{
    let ghost monitors = layout@.monitors;
    let ghost before = (active.paths@, active.modes@);
    let ghost identities = leading_identities(metas@);
    let mut at: usize = 0;
    proof {
        assert(metas@.skip(0) =~= metas@);
        assert(identities.skip(0) =~= identities);
    }
    while at < active.paths.len()
        invariant
            at <= active.paths@.len(),
            active.paths@.len() == metas@.len(),
            monitors == layout@.monitors,
            monitors == order::views(layout.monitors@),
            roundings@.len() == monitors.len(),
            before == (old(active).paths@, old(active).modes@),
            identities == leading_identities(metas@),
            at <= identities.len(),
            identities.skip(at as int) == leading_identities(metas@.skip(at as int)),
            (active.paths@, active.modes@) == patched(
                monitors,
                roundings@,
                identities,
                before,
                at as int,
            ),
        decreases active.paths@.len() - at,
    {
        proof {
            assert(metas@.skip(at as int)[0] == metas@[at as int]);
            assert(metas@.skip(at as int).skip(1) =~= metas@.skip(at + 1));
        }
        let meta = match &metas[at] {
            Ok(meta) => meta,
            Err(code) => {
                return Err(*code);
            },
        };
        let ghost current = (active.paths@, active.modes@);
        proof {
            let rest = leading_identities(metas@.skip(at + 1));
            assert(identities.skip(at as int) == seq![meta@.identity] + rest);
            assert(identities.skip(at as int).len() == identities.len() - at);
            assert(identities.skip(at as int)[0] == meta@.identity);
            assert(identities.skip(at as int).skip(1) =~= identities.skip(at + 1));
            assert((seq![meta@.identity] + rest).skip(1) =~= rest);
        }
        if let Some(index) = find_saved(&layout.monitors, meta) {
            let saved = &layout.monitors[index];
            assert(monitors[index as int] == saved@);
            let mut path = active.paths[at];
            patch_target_settings(&mut path, saved, roundings[index]);
            active.paths.set(at, path);
            let source: usize = path.source_mode_index as usize;
            if source < active.modes.len() {
                if let ModeInfo::Source(mode) = active.modes[source] {
                    let mut moved = mode;
                    moved.x = saved.x;
                    moved.y = saved.y;
                    if saved.width > 0 && saved.height > 0 {
                        moved.width = saved.width;
                        moved.height = saved.height;
                    }
                    active.modes.set(source, ModeInfo::Source(moved));
                }
            }
        }
        proof {
            let step = patched_path(
                monitors,
                roundings@,
                identities[at as int],
                current,
                at as int,
            );
            assert(active.paths@ =~= step.0);
            assert(active.modes@ =~= step.1);
        }
        at = at + 1;
    }
    proof {
        assert(metas@.skip(at as int) =~= Seq::empty());
    }
    Ok(())
}

} // verus!
