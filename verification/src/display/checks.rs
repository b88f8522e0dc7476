//! What a layout must satisfy before Windows is asked to apply it.

use vstd::prelude::*;
use vstd::string::*;
use crate::model::{enabled_monitors, MonitorConfig, MonitorLayout, MonitorView};
use crate::model;
use crate::order;
use crate::text;

verus! {

/// Why a layout cannot be applied.
#[derive(Debug)]
pub enum LayoutError {
    AllOff,
    Duplicate(String),
    ZeroSize(String),
    InvalidRefresh(String),
    InvalidOrientation(String),
    CloneGeometry(String, String),
    NoPrimary,
    ManyPrimaries,
}

/// The contents of a [`LayoutError`].
#[verifier::ext_equal]
pub enum LayoutFault {
    AllOff,
    Duplicate(Seq<char>),
    ZeroSize(Seq<char>),
    InvalidRefresh(Seq<char>),
    InvalidOrientation(Seq<char>),
    CloneGeometry(Seq<char>, Seq<char>),
    NoPrimary,
    ManyPrimaries,
}

impl View for LayoutError {
    type V = LayoutFault;

    open spec fn view(&self) -> LayoutFault {
        match self {
            LayoutError::AllOff => LayoutFault::AllOff,
            LayoutError::Duplicate(name) => LayoutFault::Duplicate(name@),
            LayoutError::ZeroSize(name) => LayoutFault::ZeroSize(name@),
            LayoutError::InvalidRefresh(name) => LayoutFault::InvalidRefresh(name@),
            LayoutError::InvalidOrientation(name) => LayoutFault::InvalidOrientation(name@),
            LayoutError::CloneGeometry(first, second) => LayoutFault::CloneGeometry(
                first@,
                second@,
            ),
            LayoutError::NoPrimary => LayoutFault::NoPrimary,
            LayoutError::ManyPrimaries => LayoutFault::ManyPrimaries,
        }
    }
}

impl LayoutFault {
    /// What the user reads.
    pub open spec fn message(self) -> Seq<char> {
        match self {
            LayoutFault::AllOff => "a layout must keep at least one monitor enabled"@,
            LayoutFault::Duplicate(name) => "monitor '"@ + name
                + "' appears more than once in this layout"@,
            LayoutFault::ZeroSize(name) => "monitor '"@ + name
                + "' must have a non-zero width and height"@,
            LayoutFault::InvalidRefresh(name) => "monitor '"@ + name
                + "' has an invalid refresh rate"@,
            LayoutFault::InvalidOrientation(name) => "monitor '"@ + name
                + "' has an invalid orientation value"@,
            LayoutFault::CloneGeometry(first, second) => "cloned monitors '"@ + first + "' and '"@
                + second + "' must share the same position and source resolution"@,
            LayoutFault::NoPrimary =>
                "one enabled monitor must be primary at (0, 0); use 'Make primary'"@,
            LayoutFault::ManyPrimaries =>
                "more than one independent monitor is positioned at (0, 0); move the others or make one monitor primary"@,
        }
    }
}

/// What the user reads names the monitor at fault and what is wrong with it.
pub proof fn lemma_fault_messages(name: Seq<char>, other: Seq<char>)
    ensures
        LayoutFault::AllOff.message() == "a layout must keep at least one monitor enabled"@,
        LayoutFault::Duplicate(name).message() == "monitor '"@ + name
            + "' appears more than once in this layout"@,
        LayoutFault::ZeroSize(name).message() == "monitor '"@ + name
            + "' must have a non-zero width and height"@,
        LayoutFault::InvalidRefresh(name).message() == "monitor '"@ + name
            + "' has an invalid refresh rate"@,
        LayoutFault::InvalidOrientation(name).message() == "monitor '"@ + name
            + "' has an invalid orientation value"@,
        LayoutFault::CloneGeometry(name, other).message() == "cloned monitors '"@ + name
            + "' and '"@ + other + "' must share the same position and source resolution"@,
        LayoutFault::NoPrimary.message()
            == "one enabled monitor must be primary at (0, 0); use 'Make primary'"@,
        LayoutFault::ManyPrimaries.message()
            == "more than one independent monitor is positioned at (0, 0); move the others or make one monitor primary"@,
{
}

fn framed(before: &str, name: &str, after: &str) -> (r: String)
    ensures
        r@ == before@ + name@ + after@,
{
    let mut out = before.to_string();
    out.append(name);
    out.append(after);
    out
}

impl LayoutError {
    /// What the user reads.
    pub fn message(&self) -> (r: String)
        ensures
            r@ == self@.message(),
    {
        match self {
            LayoutError::AllOff => "a layout must keep at least one monitor enabled".to_string(),
            LayoutError::Duplicate(name) => framed(
                "monitor '",
                name.as_str(),
                "' appears more than once in this layout",
            ),
            LayoutError::ZeroSize(name) => framed(
                "monitor '",
                name.as_str(),
                "' must have a non-zero width and height",
            ),
            LayoutError::InvalidRefresh(name) => framed(
                "monitor '",
                name.as_str(),
                "' has an invalid refresh rate",
            ),
            LayoutError::InvalidOrientation(name) => framed(
                "monitor '",
                name.as_str(),
                "' has an invalid orientation value",
            ),
            LayoutError::CloneGeometry(first, second) => {
                let mut out = framed("cloned monitors '", first.as_str(), "' and '");
                out.append(second.as_str());
                out.append("' must share the same position and source resolution");
                out
            },
            LayoutError::NoPrimary =>
                "one enabled monitor must be primary at (0, 0); use 'Make primary'".to_string(),
            LayoutError::ManyPrimaries =>
                "more than one independent monitor is positioned at (0, 0); move the others or make one monitor primary".to_string(),
        }
    }
}

/// Whether an earlier monitor has the same stable key.
pub open spec fn is_repeated(monitors: Seq<MonitorView>, at: int) -> bool {
    exists|i: int|
        0 <= i < at && (#[trigger] monitors[i]).identity.stable_key()
            == monitors[at].identity.stable_key()
}

/// What is wrong with one monitor by itself, given those before it.
pub open spec fn monitor_fault(monitors: Seq<MonitorView>, at: int) -> Option<LayoutFault> {
    let monitor = monitors[at];
    if is_repeated(monitors, at) {
        Some(LayoutFault::Duplicate(monitor.friendly_name))
    } else if monitor.width == 0 || monitor.height == 0 {
        Some(LayoutFault::ZeroSize(monitor.friendly_name))
    } else if !monitor.refresh_hz.is_usable() {
        Some(LayoutFault::InvalidRefresh(monitor.friendly_name))
    } else if monitor.rotation matches Some(rotation) && !(1 <= rotation <= 4) {
        Some(LayoutFault::InvalidOrientation(monitor.friendly_name))
    } else {
        None
    }
}

/// What is wrong with the first monitor from `from` on that has a fault.
pub open spec fn first_monitor_fault(monitors: Seq<MonitorView>, from: int) -> Option<LayoutFault>
    decreases monitors.len() - from,
{
    if from < 0 || from >= monitors.len() {
        None
    } else if monitor_fault(monitors, from) is Some {
        monitor_fault(monitors, from)
    } else {
        first_monitor_fault(monitors, from + 1)
    }
}

/// The first monitor of clone group `group`, at or after `from`.
pub open spec fn first_of_group(monitors: Seq<MonitorView>, group: u32, from: int) -> int
    decreases monitors.len() - from,
{
    if from < 0 || from >= monitors.len() || monitors[from].clone_group == Some(group) {
        from
    } else {
        first_of_group(monitors, group, from + 1)
    }
}

/// How a cloned monitor disagrees with the first of its group.
pub open spec fn clone_fault(monitors: Seq<MonitorView>, at: int) -> Option<LayoutFault> {
    match monitors[at].clone_group {
        None => None,
        Some(group) => {
            let first = monitors[first_of_group(monitors, group, 0)];
            if first.geometry() != monitors[at].geometry() {
                Some(LayoutFault::CloneGeometry(first.friendly_name, monitors[at].friendly_name))
            } else {
                None
            }
        },
    }
}

/// The first disagreement within a clone group, from `from` on.
pub open spec fn first_clone_fault(monitors: Seq<MonitorView>, from: int) -> Option<LayoutFault>
    decreases monitors.len() - from,
{
    if from < 0 || from >= monitors.len() {
        None
    } else if clone_fault(monitors, from) is Some {
        clone_fault(monitors, from)
    } else {
        first_clone_fault(monitors, from + 1)
    }
}

/// Whether a monitor is at the origin.
pub open spec fn at_origin(monitor: MonitorView) -> bool {
    monitor.x == 0 && monitor.y == 0
}

/// Whether some monitor is at the origin.
pub open spec fn has_primary(monitors: Seq<MonitorView>) -> bool {
    exists|i: int| 0 <= i < monitors.len() && at_origin(#[trigger] monitors[i])
}

/// Whether two monitors that are not placed together are both at the origin.
pub open spec fn has_rival_primaries(monitors: Seq<MonitorView>) -> bool {
    exists|i: int, j: int|
        0 <= i < j < monitors.len() && at_origin(#[trigger] monitors[i]) && at_origin(
            #[trigger] monitors[j],
        ) && monitors[i].group_key() != monitors[j].group_key()
}

/// What is wrong with a layout whose enabled monitors these are.
pub open spec fn enabled_fault(enabled: Seq<MonitorView>) -> Option<LayoutFault> {
    if enabled.len() == 0 {
        Some(LayoutFault::AllOff)
    } else if first_monitor_fault(enabled, 0) is Some {
        first_monitor_fault(enabled, 0)
    } else if first_clone_fault(enabled, 0) is Some {
        first_clone_fault(enabled, 0)
    } else if !has_primary(enabled) {
        Some(LayoutFault::NoPrimary)
    } else if has_rival_primaries(enabled) {
        Some(LayoutFault::ManyPrimaries)
    } else {
        None
    }
}

/// What is wrong with a layout, if anything.
pub open spec fn layout_fault(monitors: Seq<MonitorView>) -> Option<LayoutFault> {
    enabled_fault(model::enabled_of(monitors))
}

/// Whether a set of enabled monitors can be applied.
pub open spec fn is_applicable(enabled: Seq<MonitorView>) -> bool {
    &&& enabled.len() > 0
    &&& forall|i: int, j: int|
        0 <= i < j < enabled.len() ==> (#[trigger] enabled[i]).identity.stable_key() != (
        #[trigger] enabled[j]).identity.stable_key()
    &&& forall|i: int|
        0 <= i < enabled.len() ==> (#[trigger] enabled[i]).width > 0 && enabled[i].height > 0
            && enabled[i].refresh_hz.is_usable() && (enabled[i].rotation matches Some(rotation)
            ==> 1 <= rotation <= 4)
    &&& forall|i: int, j: int|
        0 <= i < j < enabled.len() && (#[trigger] enabled[i]).clone_group is Some
            && enabled[i].clone_group == (#[trigger] enabled[j]).clone_group
            ==> enabled[i].geometry() == enabled[j].geometry()
    &&& has_primary(enabled)
    &&& !has_rival_primaries(enabled)
}

proof fn lemma_first_monitor_fault(monitors: Seq<MonitorView>, from: int)
    requires
        0 <= from <= monitors.len(),
    ensures
        first_monitor_fault(monitors, from) is None <==> forall|i: int|
            from <= i < monitors.len() ==> #[trigger] monitor_fault(monitors, i) is None,
    decreases monitors.len() - from,
{
    if from < monitors.len() {
        lemma_first_monitor_fault(monitors, from + 1);
    }
}

proof fn lemma_first_clone_fault(monitors: Seq<MonitorView>, from: int)
    requires
        0 <= from <= monitors.len(),
    ensures
        first_clone_fault(monitors, from) is None <==> forall|i: int|
            from <= i < monitors.len() ==> #[trigger] clone_fault(monitors, i) is None,
    decreases monitors.len() - from,
{
    if from < monitors.len() {
        lemma_first_clone_fault(monitors, from + 1);
    }
}

proof fn lemma_first_of_group(monitors: Seq<MonitorView>, group: u32, from: int, at: int)
    requires
        0 <= from <= at < monitors.len(),
        monitors[at].clone_group == Some(group),
    ensures
        from <= first_of_group(monitors, group, from) <= at,
        monitors[first_of_group(monitors, group, from)].clone_group == Some(group),
    decreases at - from,
{
    if monitors[from].clone_group != Some(group) {
        lemma_first_of_group(monitors, group, from + 1, at);
    }
}

/// A layout is accepted exactly where at least one monitor is on, no monitor
/// occurs twice, every one has a size, a rate and an orientation that Windows
/// knows, clones agree, and one place is primary.
pub proof fn lemma_layout_fault(monitors: Seq<MonitorView>)
    ensures
        layout_fault(monitors) is None <==> is_applicable(model::enabled_of(monitors)),
{
    let enabled = model::enabled_of(monitors);
    lemma_first_monitor_fault(enabled, 0);
    lemma_first_clone_fault(enabled, 0);
    if layout_fault(monitors) is None {
        assert forall|i: int, j: int| 0 <= i < j < enabled.len() implies (
        #[trigger] enabled[i]).identity.stable_key() != (
        #[trigger] enabled[j]).identity.stable_key() by {
            assert(monitor_fault(enabled, j) is None);
        }
        assert forall|i: int| 0 <= i < enabled.len() implies (#[trigger] enabled[i]).width > 0
            && enabled[i].height > 0 && enabled[i].refresh_hz.is_usable() && (
        enabled[i].rotation matches Some(rotation) ==> 1 <= rotation <= 4) by {
            assert(monitor_fault(enabled, i) is None);
        }
        assert forall|i: int, j: int|
            0 <= i < j < enabled.len() && (#[trigger] enabled[i]).clone_group is Some
                && enabled[i].clone_group == (#[trigger] enabled[j]).clone_group implies enabled[i].geometry()
            == enabled[j].geometry() by {
            assert(clone_fault(enabled, i) is None);
            assert(clone_fault(enabled, j) is None);
        }
    }
    if is_applicable(enabled) {
        assert forall|i: int| 0 <= i < enabled.len() implies #[trigger] monitor_fault(
            enabled,
            i,
        ) is None by {
            if is_repeated(enabled, i) {
                let j = choose|j: int|
                    0 <= j < i && (#[trigger] enabled[j]).identity.stable_key()
                        == enabled[i].identity.stable_key();
                assert(enabled[j].identity.stable_key() != enabled[i].identity.stable_key());
            }
        }
        assert forall|i: int| 0 <= i < enabled.len() implies #[trigger] clone_fault(
            enabled,
            i,
        ) is None by {
            if let Some(group) = enabled[i].clone_group {
                lemma_first_of_group(enabled, group, 0, i);
                let first = first_of_group(enabled, group, 0);
                if first < i {
                    assert(enabled[first].geometry() == enabled[i].geometry());
                }
            }
        }
    }
}

/// A layout that turns every monitor off is refused, whatever else it holds.
pub proof fn lemma_all_off_is_refused(monitors: Seq<MonitorView>)
    requires
        forall|i: int| 0 <= i < monitors.len() ==> !(#[trigger] monitors[i]).enabled,
    ensures
        layout_fault(monitors) == Some(LayoutFault::AllOff),
{
    model::lemma_enabled_of(monitors);
    let enabled = model::enabled_of(monitors);
    if enabled.len() > 0 {
        assert(enabled[0].enabled);
        assert(monitors.contains(enabled[0]));
    }
}

/// What makes a layout acceptable, written out over the monitors that are on:
/// there is one, none occurs twice, each has a size, a finite rate of at least
/// one hertz and one of the four orientations or none, clones agree in place
/// and size, some monitor is at the origin, and any two that are there are
/// clones of each other.
pub proof fn lemma_accepted_layouts(monitors: Seq<MonitorView>)
    ensures
        layout_fault(monitors) is None <==> {
            let on = model::enabled_of(monitors);
            &&& on.len() > 0
            &&& forall|i: int, j: int|
                0 <= i < j < on.len() ==> (#[trigger] on[i]).identity.stable_key() != (
                #[trigger] on[j]).identity.stable_key()
            &&& forall|i: int|
                0 <= i < on.len() ==> (#[trigger] on[i]).width != 0 && on[i].height != 0
                    && 0x3F80_0000 <= on[i].refresh_hz.bits < 0x7F80_0000 && (on[i].rotation is None
                    || 1 <= on[i].rotation->0 <= 4)
            &&& forall|i: int, j: int|
                0 <= i < j < on.len() && (#[trigger] on[i]).clone_group is Some
                    && on[i].clone_group == (#[trigger] on[j]).clone_group ==> on[i].x == on[j].x
                    && on[i].y == on[j].y && on[i].width == on[j].width && on[i].height
                    == on[j].height
            &&& exists|i: int| 0 <= i < on.len() && (#[trigger] on[i]).x == 0 && on[i].y == 0
            &&& forall|i: int, j: int|
                0 <= i < j < on.len() && (#[trigger] on[i]).x == 0 && on[i].y == 0 && (
                #[trigger] on[j]).x == 0 && on[j].y == 0 ==> on[i].clone_group is Some
                    && on[i].clone_group == on[j].clone_group
        },
{
    lemma_layout_fault(monitors);
    let on = model::enabled_of(monitors);
    if is_applicable(on) {
        let i = choose|i: int| 0 <= i < on.len() && at_origin(#[trigger] on[i]);
        assert(on[i].x == 0 && on[i].y == 0);
    }
    if exists|i: int| 0 <= i < on.len() && (#[trigger] on[i]).x == 0 && on[i].y == 0 {
        let i = choose|i: int| 0 <= i < on.len() && (#[trigger] on[i]).x == 0 && on[i].y == 0;
        assert(at_origin(on[i]));
    }
}

/// A layout that is refused is refused for what is wrong with it, and the
/// monitor that is named is the one at fault.
pub proof fn lemma_fault_is_real(monitors: Seq<MonitorView>)
    ensures
        ({
            let on = model::enabled_of(monitors);
            &&& layout_fault(monitors) matches Some(LayoutFault::Duplicate(name)) ==> exists|
                i: int,
                j: int,
            |
                0 <= i < j < on.len() && (#[trigger] on[i]).identity.stable_key() == (
                #[trigger] on[j]).identity.stable_key() && on[j].friendly_name == name
            &&& layout_fault(monitors) matches Some(LayoutFault::ZeroSize(name)) ==> exists|i: int|
                0 <= i < on.len() && ((#[trigger] on[i]).width == 0 || on[i].height == 0)
                    && on[i].friendly_name == name
            &&& layout_fault(monitors) matches Some(LayoutFault::InvalidRefresh(name)) ==> exists|
                i: int,
            |
                0 <= i < on.len() && ((#[trigger] on[i]).refresh_hz.bits < 0x3F80_0000
                    || on[i].refresh_hz.bits >= 0x7F80_0000) && on[i].friendly_name == name
            &&& layout_fault(monitors) matches Some(LayoutFault::InvalidOrientation(name))
                ==> exists|i: int|
                0 <= i < on.len() && (#[trigger] on[i]).rotation is Some && (on[i].rotation->0 < 1
                    || on[i].rotation->0 > 4) && on[i].friendly_name == name
            &&& layout_fault(monitors) matches Some(LayoutFault::CloneGeometry(first, second))
                ==> exists|i: int, j: int|
                0 <= i < j < on.len() && (#[trigger] on[i]).clone_group is Some && (
                #[trigger] on[j]).clone_group == on[i].clone_group && (on[i].x, on[i].y, on[i].width,
                    on[i].height) != (on[j].x, on[j].y, on[j].width, on[j].height)
                    && on[i].friendly_name == first && on[j].friendly_name == second
            &&& layout_fault(monitors) matches Some(LayoutFault::NoPrimary) ==> forall|i: int|
                0 <= i < on.len() ==> (#[trigger] on[i]).x != 0 || on[i].y != 0
            &&& layout_fault(monitors) matches Some(LayoutFault::ManyPrimaries) ==> exists|
                i: int,
                j: int,
            |
                0 <= i < j < on.len() && (#[trigger] on[i]).x == 0 && on[i].y == 0 && (
                #[trigger] on[j]).x == 0 && on[j].y == 0 && on[i].group_key() != on[j].group_key()
        }),
{
    let on = model::enabled_of(monitors);
    if first_monitor_fault(on, 0) is Some {
        let at = lemma_faulty_monitor(on, 0);
        assert(monitor_fault(on, at) == first_monitor_fault(on, 0));
        if is_repeated(on, at) {
            let i = choose|i: int|
                0 <= i < at && (#[trigger] on[i]).identity.stable_key()
                    == on[at].identity.stable_key();
            assert(on[i].identity.stable_key() == on[at].identity.stable_key());
        }
    } else if first_clone_fault(on, 0) is Some {
        let at = lemma_faulty_clone(on, 0);
        let group = on[at].clone_group->0;
        lemma_first_of_group(on, group, 0, at);
        let first = first_of_group(on, group, 0);
        assert(first < at);
        assert(on[first].clone_group == on[at].clone_group);
    } else if !has_primary(on) {
        assert forall|i: int| 0 <= i < on.len() implies (#[trigger] on[i]).x != 0 || on[i].y
            != 0 by {
            assert(!at_origin(on[i]));
        }
    }
}

/// Faults of single monitors are told before disagreements among clones, those
/// before a missing primary, and that before one too many. Of the faults of
/// single monitors, the first monitor's is told.
pub proof fn lemma_fault_order(monitors: Seq<MonitorView>)
    ensures
        ({
            let on = model::enabled_of(monitors);
            let fault = layout_fault(monitors);
            &&& on.len() > 0 && (on[0].width == 0 || on[0].height == 0) ==> fault == Some(
                LayoutFault::ZeroSize(on[0].friendly_name),
            )
            &&& (fault is Some && fault->0 is CloneGeometry) || fault == Some(
                LayoutFault::NoPrimary,
            ) || fault == Some(LayoutFault::ManyPrimaries) ==> forall|i: int|
                0 <= i < on.len() ==> (#[trigger] on[i]).width != 0 && on[i].height != 0
                    && 0x3F80_0000 <= on[i].refresh_hz.bits < 0x7F80_0000 && (on[i].rotation is None
                    || 1 <= on[i].rotation->0 <= 4)
            &&& fault == Some(LayoutFault::NoPrimary) || fault == Some(LayoutFault::ManyPrimaries)
                ==> forall|i: int, j: int|
                0 <= i < j < on.len() && (#[trigger] on[i]).clone_group is Some
                    && on[i].clone_group == (#[trigger] on[j]).clone_group ==> on[i].x == on[j].x
                    && on[i].y == on[j].y && on[i].width == on[j].width && on[i].height
                    == on[j].height
        }),
{
    let on = model::enabled_of(monitors);
    lemma_first_monitor_fault(on, 0);
    lemma_first_clone_fault(on, 0);
    if on.len() > 0 && first_monitor_fault(on, 0) is None {
        assert forall|i: int| 0 <= i < on.len() implies (#[trigger] on[i]).width != 0
            && on[i].height != 0 && 0x3F80_0000 <= on[i].refresh_hz.bits < 0x7F80_0000 && (
        on[i].rotation is None || 1 <= on[i].rotation->0 <= 4) by {
            assert(monitor_fault(on, i) is None);
        }
        if first_clone_fault(on, 0) is None {
            assert forall|i: int, j: int|
                0 <= i < j < on.len() && (#[trigger] on[i]).clone_group is Some
                    && on[i].clone_group == (#[trigger] on[j]).clone_group implies on[i].x
                == on[j].x && on[i].y == on[j].y && on[i].width == on[j].width && on[i].height
                == on[j].height by {
                assert(clone_fault(on, i) is None);
                assert(clone_fault(on, j) is None);
            }
        }
    }
    if on.len() > 0 {
        assert(!is_repeated(on, 0));
        lemma_faults_with_a_monitor_on(on, 0);
        if first_monitor_fault(on, 0) is Some {
            let at = lemma_faulty_monitor(on, 0);
        }
        if first_clone_fault(on, 0) is Some {
            let at = lemma_faulty_clone(on, 0);
        }
    }
}

proof fn lemma_faulty_monitor(monitors: Seq<MonitorView>, from: int) -> (at: int)
    requires
        0 <= from,
        first_monitor_fault(monitors, from) is Some,
    ensures
        from <= at < monitors.len(),
        monitor_fault(monitors, at) == first_monitor_fault(monitors, from),
    decreases monitors.len() - from,
{
    if monitor_fault(monitors, from) is Some {
        from
    } else {
        lemma_faulty_monitor(monitors, from + 1)
    }
}

proof fn lemma_faulty_clone(monitors: Seq<MonitorView>, from: int) -> (at: int)
    requires
        0 <= from,
        first_clone_fault(monitors, from) is Some,
    ensures
        from <= at < monitors.len(),
        clone_fault(monitors, at) == first_clone_fault(monitors, from),
    decreases monitors.len() - from,
{
    if clone_fault(monitors, from) is Some {
        from
    } else {
        lemma_faulty_clone(monitors, from + 1)
    }
}

proof fn lemma_faults_with_a_monitor_on(enabled: Seq<MonitorView>, from: int)
    requires
        0 <= from,
    ensures
        first_monitor_fault(enabled, from) != Some(LayoutFault::AllOff),
        first_clone_fault(enabled, from) != Some(LayoutFault::AllOff),
    decreases enabled.len() - from,
{
    if from < enabled.len() {
        lemma_faults_with_a_monitor_on(enabled, from + 1);
    }
}

/// Only a layout without an enabled monitor is refused for turning every
/// monitor off.
pub proof fn lemma_all_off_fault(monitors: Seq<MonitorView>)
    ensures
        layout_fault(monitors) == Some(LayoutFault::AllOff) <==> model::enabled_of(monitors).len()
            == 0,
{
    lemma_faults_with_a_monitor_on(model::enabled_of(monitors), 0);
}

fn repeats(monitors: &Vec<MonitorConfig>, at: usize) -> (r: bool)
    requires
        at < monitors@.len(),
    ensures
        r == is_repeated(order::views(monitors@), at as int),
{
    let key = monitors[at].identity.stable_key();
    let mut index: usize = 0;
    while index < at
        invariant
            index <= at < monitors@.len(),
            key@ == monitors@[at as int]@.identity.stable_key(),
            forall|i: int|
                0 <= i < index ==> (#[trigger] order::views(monitors@)[i]).identity.stable_key()
                    != key@,
        decreases at - index,
    {
        let other = monitors[index].identity.stable_key();
        if text::same_text(key.as_str(), other.as_str()) {
            assert(order::views(monitors@)[index as int].identity.stable_key() == key@);
            return true;
        }
        index = index + 1;
    }
    false
}

fn check_monitor(monitors: &Vec<MonitorConfig>, at: usize) -> (r: Option<LayoutError>)
    requires
        at < monitors@.len(),
    ensures
        model::option_view(r) == monitor_fault(order::views(monitors@), at as int),
{
    let monitor = &monitors[at];
    assert(order::views(monitors@)[at as int] == monitor@);
    if repeats(monitors, at) {
        return Some(LayoutError::Duplicate(monitor.friendly_name.clone()));
    }
    if monitor.width == 0 || monitor.height == 0 {
        return Some(LayoutError::ZeroSize(monitor.friendly_name.clone()));
    }
    if !monitor.refresh_hz.usable() {
        return Some(LayoutError::InvalidRefresh(monitor.friendly_name.clone()));
    }
    if let Some(rotation) = monitor.rotation {
        if !(1 <= rotation && rotation <= 4) {
            return Some(LayoutError::InvalidOrientation(monitor.friendly_name.clone()));
        }
    }
    None
}

fn check_clone(monitors: &Vec<MonitorConfig>, at: usize) -> (r: Option<LayoutError>)
    requires
        at < monitors@.len(),
    ensures
        model::option_view(r) == clone_fault(order::views(monitors@), at as int),
{
    let ghost all = order::views(monitors@);
    assert(all[at as int] == monitors@[at as int]@);
    match monitors[at].clone_group {
        None => None,
        Some(group) => {
            proof {
                lemma_first_of_group(all, group, 0, at as int);
            }
            let mut first: usize = 0;
            while monitors[first].clone_group != Some(group)
                invariant
                    all == order::views(monitors@),
                    at < monitors@.len(),
                    first <= at,
                    all[at as int].clone_group == Some(group),
                    first_of_group(all, group, 0) == first_of_group(all, group, first as int),
                decreases at - first,
            {
                assert(all[first as int] == monitors@[first as int]@);
                proof {
                    lemma_first_of_group(all, group, first as int, at as int);
                }
                first = first + 1;
            }
            assert(all[first as int] == monitors@[first as int]@);
            let lead = &monitors[first];
            let monitor = &monitors[at];
            if lead.x != monitor.x || lead.y != monitor.y || lead.width != monitor.width
                || lead.height != monitor.height {
                Some(
                    LayoutError::CloneGeometry(
                        lead.friendly_name.clone(),
                        monitor.friendly_name.clone(),
                    ),
                )
            } else {
                None
            }
        },
    }
}

/// Which of the two faults of the origin there is.
fn check_primary(monitors: &Vec<MonitorConfig>) -> (r: Option<LayoutError>)
    ensures
        model::option_view(r) == (if !has_primary(order::views(monitors@)) {
            Some(LayoutFault::NoPrimary)
        } else if has_rival_primaries(order::views(monitors@)) {
            Some(LayoutFault::ManyPrimaries)
        } else {
            None::<LayoutFault>
        }),
{
    let ghost all = order::views(monitors@);
    let mut first: usize = 0;
    while first < monitors.len() && !(monitors[first].x == 0 && monitors[first].y == 0)
        invariant
            all == order::views(monitors@),
            first <= monitors@.len(),
            forall|i: int| 0 <= i < first ==> !at_origin(#[trigger] all[i]),
        decreases monitors@.len() - first,
    {
        assert(all[first as int] == monitors@[first as int]@);
        first = first + 1;
    }
    if first == monitors.len() {
        return Some(LayoutError::NoPrimary);
    }
    assert(all[first as int] == monitors@[first as int]@);
    let key = monitors[first].group_key();
    let mut index: usize = first + 1;
    while index < monitors.len()
        invariant
            all == order::views(monitors@),
            first < index <= monitors@.len(),
            at_origin(all[first as int]),
            key@ == all[first as int].group_key(),
            forall|i: int| 0 <= i < first ==> !at_origin(#[trigger] all[i]),
            forall|i: int|
                first <= i < index && at_origin(#[trigger] all[i]) ==> all[i].group_key() == key@,
        decreases monitors@.len() - index,
    {
        assert(all[index as int] == monitors@[index as int]@);
        if monitors[index].x == 0 && monitors[index].y == 0 {
            let other = monitors[index].group_key();
            if !key.same(&other) {
                assert(at_origin(all[first as int]) && at_origin(all[index as int]));
                return Some(LayoutError::ManyPrimaries);
            }
        }
        index = index + 1;
    }
    None
}

/// Checks a layout before Windows is asked for anything.
pub fn validate_layout(layout: &MonitorLayout) -> (r: Result<(), LayoutError>)
    ensures
        r is Ok <==> layout_fault(layout@.monitors) is None,
        r matches Err(error) ==> layout_fault(layout@.monitors) == Some(error@),
{
    let enabled = enabled_monitors(&layout.monitors);
    let ghost all = order::views(enabled@);
    if enabled.len() == 0 {
        return Err(LayoutError::AllOff);
    }
    let mut index: usize = 0;
    while index < enabled.len()
        invariant
            index <= enabled@.len(),
            all == order::views(enabled@),
            enabled@.len() > 0,
            all == model::enabled_of(layout@.monitors),
            first_monitor_fault(all, 0) == first_monitor_fault(all, index as int),
        decreases enabled@.len() - index,
    {
        if let Some(error) = check_monitor(&enabled, index) {
            return Err(error);
        }
        index = index + 1;
    }
    let mut index: usize = 0;
    while index < enabled.len()
        invariant
            index <= enabled@.len(),
            all == order::views(enabled@),
            enabled@.len() > 0,
            all == model::enabled_of(layout@.monitors),
            first_monitor_fault(all, 0) is None,
            first_clone_fault(all, 0) == first_clone_fault(all, index as int),
        decreases enabled@.len() - index,
    {
        if let Some(error) = check_clone(&enabled, index) {
            return Err(error);
        }
        index = index + 1;
    }
    match check_primary(&enabled) {
        Some(error) => Err(error),
        None => Ok(()),
    }
}

} // verus!
