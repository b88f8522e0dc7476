//! Applying a layout: what Windows is asked, in which order, and with what.

use vstd::prelude::*;
use crate::display::paths::{DisplayPath, ModeInfo, QueriedPath, QueriedView, Snapshot, TargetMeta};
use crate::display::restore::RateRounding;
use crate::display::steps::ApplyStage;
use crate::display::{checks, paths, restore, selection, steps};
use crate::model::{LayoutView, MonitorLayout, MonitorView};
use crate::model;
use crate::order;
use crate::text;

verus! {

/// What comes next.
#[derive(Debug, Clone, Copy, PartialEq, Eq, Structural)]
pub enum ApplyStep {
    /// Query all paths.
    QueryAll,
    /// Hand Windows the paths, or the paths and modes.
    Request(ApplyStage),
    /// Query the paths that are active by now.
    QueryActive,
    /// The layout is applied.
    Done,
}

/// A layout that is being applied.
#[derive(Debug)]
pub struct LayoutApply {
    layout: MonitorLayout,
    step: ApplyStep,
    topology: Snapshot,
}

/// The contents of a [`LayoutApply`].
#[verifier::ext_equal]
pub struct ApplyView {
    pub layout: LayoutView,
    pub step: ApplyStep,
    pub paths: Seq<DisplayPath>,
    pub modes: Seq<ModeInfo>,
}

impl View for LayoutApply {
    type V = ApplyView;

    closed spec fn view(&self) -> ApplyView {
        ApplyView {
            layout: self.layout@,
            step: self.step,
            paths: self.topology.paths@,
            modes: self.topology.modes@,
        }
    }
}

/// The step before a stage: edited modes need the active paths first.
pub open spec fn step_before(stage: Option<ApplyStage>) -> ApplyStep {
    match stage {
        None => ApplyStep::Done,
        Some(ApplyStage::CheckModes) => ApplyStep::QueryActive,
        Some(next) => ApplyStep::Request(next),
    }
}

impl ApplyView {
    /// After all paths were queried and those of the layout were selected.
    pub open spec fn selected(self, selected: Seq<DisplayPath>) -> ApplyView {
        ApplyView {
            step: ApplyStep::Request(ApplyStage::CheckTopology),
            paths: selected,
            ..self
        }
    }

    /// After Windows agreed to a request.
    pub open spec fn agreed(self, stage: ApplyStage) -> ApplyView {
        ApplyView { step: step_before(stage.following()), ..self }
    }

    /// After the active paths were queried and the saved settings were put
    /// into them.
    pub open spec fn patched(self, edited: (Seq<DisplayPath>, Seq<ModeInfo>)) -> ApplyView {
        ApplyView {
            step: ApplyStep::Request(ApplyStage::CheckModes),
            paths: edited.0,
            modes: edited.1,
            ..self
        }
    }
}

/// Each agreement of Windows leads one request further, and modes are edited
/// between applying the paths and checking the modes, and only there.
pub proof fn lemma_apply_order(view: ApplyView, stage: ApplyStage)
    ensures
        view.agreed(stage).step is QueryActive <==> stage == ApplyStage::ApplyTopology,
        view.agreed(stage).step is Done <==> stage == ApplyStage::ApplyModes,
        view.agreed(stage).step matches ApplyStep::Request(next) ==> steps::requests_before(next)
            == steps::requests_before(stage) + 1 && (next.only_checks() || stage.only_checks()),
        view.agreed(stage).paths == view.paths,
        view.agreed(stage).modes == view.modes,
{
}

/// What is handed to Windows when: after the selection the selected paths, and
/// after the active paths were edited these with their modes. Agreement changes
/// neither, and leads from checking the paths to applying them, from there to a
/// look at what is active, and from checking the modes to applying them and to
/// the end.
pub proof fn lemma_apply_steps(
    view: ApplyView,
    selected: Seq<DisplayPath>,
    edited: (Seq<DisplayPath>, Seq<ModeInfo>),
)
    ensures
        view.selected(selected).paths == selected,
        view.selected(selected).modes == view.modes,
        view.selected(selected).layout == view.layout,
        view.selected(selected).step == ApplyStep::Request(ApplyStage::CheckTopology),
        view.patched(edited).paths == edited.0,
        view.patched(edited).modes == edited.1,
        view.patched(edited).layout == view.layout,
        view.patched(edited).step == ApplyStep::Request(ApplyStage::CheckModes),
        view.agreed(ApplyStage::CheckTopology).step == ApplyStep::Request(
            ApplyStage::ApplyTopology,
        ),
        view.agreed(ApplyStage::ApplyTopology).step == ApplyStep::QueryActive,
        view.agreed(ApplyStage::CheckModes).step == ApplyStep::Request(ApplyStage::ApplyModes),
        view.agreed(ApplyStage::ApplyModes).step == ApplyStep::Done,
{
}

/// Whether a path brings back one of these monitors.
pub open spec fn serves_one(
    queried: Seq<QueriedView>,
    path: DisplayPath,
    monitors: Seq<MonitorView>,
) -> bool {
    exists|m: int|
        0 <= m < monitors.len() && selection::restores(queried, path, #[trigger] monitors[m])
}

/// Whether one of these paths brings a monitor back.
pub open spec fn is_served(
    queried: Seq<QueriedView>,
    paths: Seq<DisplayPath>,
    monitor: MonitorView,
) -> bool {
    exists|p: int|
        0 <= p < paths.len() && selection::restores(queried, #[trigger] paths[p], monitor)
}

/// What is handed to Windows first are the paths to the monitors that are on,
/// one for each, and no others: a monitor that is off is left out. All of them
/// lead to a connected monitor of that very identity and are switched on.
pub proof fn lemma_topology_is_exclusive(
    view: ApplyView,
    queried: Seq<QueriedView>,
    selected: Seq<DisplayPath>,
)
    requires
        model::enabled_of(view.layout.monitors).len() <= usize::MAX,
        selection::selection(queried, model::enabled_of(view.layout.monitors)) == Ok::<
            Seq<DisplayPath>,
            selection::SelectionFault,
        >(selected),
    ensures
        ({
            let enabled = model::enabled_of(view.layout.monitors);
            let after = view.selected(selected);
            &&& after.step == ApplyStep::Request(ApplyStage::CheckTopology)
            &&& after.paths.len() == enabled.len()
            &&& forall|i: int|
                0 <= i < after.paths.len() ==> serves_one(
                    queried,
                    #[trigger] after.paths[i],
                    enabled,
                )
            &&& forall|i: int|
                0 <= i < enabled.len() ==> is_served(queried, after.paths, #[trigger] enabled[i])
        }),
{
    broadcast use vstd::seq_lib::group_to_multiset_ensures;

    let enabled = model::enabled_of(view.layout.monitors);
    let groups = selection::grouping(enabled)->0;
    let members = selection::members_in_order(groups, groups.len() as int);
    selection::lemma_selection(queried, enabled);
    assert forall|i: int| 0 <= i < selected.len() implies serves_one(
        queried,
        #[trigger] selected[i],
        enabled,
    ) by {
        assert(members.contains(members[i]));
        assert(members.to_multiset().count(members[i]) > 0);
        assert(enabled.contains(members[i]));
        let m = choose|m: int| 0 <= m < enabled.len() && enabled[m] == members[i];
        assert(selection::restores(queried, selected[i], enabled[m]));
    }
    assert forall|i: int| 0 <= i < enabled.len() implies is_served(
        queried,
        selected,
        #[trigger] enabled[i],
    ) by {
        assert(enabled.contains(enabled[i]));
        assert(enabled.to_multiset().count(enabled[i]) > 0);
        assert(members.contains(enabled[i]));
        let p = choose|p: int| 0 <= p < members.len() && members[p] == enabled[i];
        assert(selection::restores(queried, selected[p], enabled[i]));
    }
}

impl LayoutApply {
    /// Begins to apply a layout that passes every check; otherwise Windows is
    /// not asked anything.
    pub fn begin(layout: &MonitorLayout) -> (r: Result<LayoutApply, String>)
        ensures
            r is Ok <==> checks::layout_fault(layout@.monitors) is None,
            r matches Ok(apply) ==> apply@ == (ApplyView {
                layout: layout@,
                step: ApplyStep::QueryAll,
                paths: Seq::empty(),
                modes: Seq::empty(),
            }),
            r matches Err(message) ==> (checks::layout_fault(layout@.monitors) matches Some(fault)
                && message@ == fault.message()),
    {
        if let Err(error) = checks::validate_layout(layout) {
            return Err(error.message());
        }
        let apply = LayoutApply {
            layout: layout.clone(),
            step: ApplyStep::QueryAll,
            topology: Snapshot { paths: Vec::new(), modes: Vec::new() },
        };
        assert(apply@.paths =~= Seq::empty() && apply@.modes =~= Seq::empty());
        Ok(apply)
    }

    /// What comes next.
    pub fn step(&self) -> (r: ApplyStep)
        ensures
            r == self@.step,
    {
        self.step
    }

    /// The layout.
    pub fn layout(&self) -> (r: &MonitorLayout)
        ensures
            r@ == self@.layout,
    {
        &self.layout
    }

    /// The paths to hand to Windows.
    pub fn paths(&self) -> (r: &Vec<DisplayPath>)
        ensures
            r@ == self@.paths,
    {
        &self.topology.paths
    }

    /// The modes to hand to Windows.
    pub fn modes(&self) -> (r: &Vec<ModeInfo>)
        ensures
            r@ == self@.modes,
    {
        &self.topology.modes
    }

    /// Takes in all paths and selects those of the layout.
    pub fn queried(&mut self, queried: &Vec<QueriedPath>) -> (r: Result<(), String>)
        requires
            old(self)@.step is QueryAll,
        ensures
            match selection::selection(
                order::views(queried@),
                model::enabled_of(old(self)@.layout.monitors),
            ) {
                Ok(selected) => r is Ok && final(self)@ == old(self)@.selected(selected),
                Err(fault) => r is Err && r->Err_0@ == fault.message() && final(self)@
                    == old(self)@,
            },
    {
        match selection::select_paths(&self.layout, queried) {
            Ok(selected) => {
                self.topology.paths = selected;
                self.step = ApplyStep::Request(ApplyStage::first());
                Ok(())
            },
            Err(error) => Err(error.message()),
        }
    }

    /// Takes in the status with which Windows answered a request.
    pub fn answered(&mut self, code: i32) -> (r: Result<(), String>)
        requires
            old(self)@.step is Request,
        ensures
            ({
                let stage = old(self)@.step->Request_0;
                &&& r is Ok <==> code == 0
                &&& r is Ok ==> final(self)@ == old(self)@.agreed(stage)
                &&& r matches Err(message) ==> message@ == stage.refusal()
                    + " (SetDisplayConfig: "@ + text::signed_decimal(code as int) + ")"@
                    && final(self)@ == old(self)@
            }),
    {
        let stage = match self.step {
            ApplyStep::Request(stage) => stage,
            _ => {
                return Ok(());
            },
        };
        match steps::after_request(stage, code) {
            Ok(next) => {
                self.step = match next {
                    None => ApplyStep::Done,
                    Some(ApplyStage::CheckModes) => ApplyStep::QueryActive,
                    Some(following) => ApplyStep::Request(following),
                };
                Ok(())
            },
            Err(message) => Err(message),
        }
    }

    /// Takes in the active paths and modes and puts the saved settings into
    /// them. `metas` tells what is at the end of each path, `roundings` what
    /// arithmetic says of each monitor's rate.
    pub fn activated(
        &mut self,
        active: Snapshot,
        metas: &Vec<Result<TargetMeta, i32>>,
        roundings: &Vec<RateRounding>,
    ) -> (r: Result<(), String>)
        requires
            old(self)@.step is QueryActive,
            roundings@.len() == old(self)@.layout.monitors.len(),
            metas@.len() == active.paths@.len(),
        ensures
            ({
                let identities = restore::leading_identities(metas@);
                &&& r is Ok <==> identities.len() == metas@.len()
                &&& r is Ok ==> final(self)@ == old(self)@.patched(
                    restore::patched(
                        old(self)@.layout.monitors,
                        roundings@,
                        identities,
                        (active.paths@, active.modes@),
                        identities.len() as int,
                    ),
                )
                &&& r matches Err(message) ==> (metas@[identities.len() as int] matches Err(code)
                    && message@ == "DisplayConfigGetDeviceInfo(GET_TARGET_NAME) failed: "@
                    + text::signed_decimal(code as int)) && final(self)@ == old(self)@
            }),
    {
        let mut edited = active;
        match restore::patch_active_modes(&self.layout, roundings, metas, &mut edited) {
            Ok(_) => {
                self.topology = edited;
                self.step = ApplyStep::Request(ApplyStage::CheckModes);
                Ok(())
            },
            Err(code) => Err(paths::target_meta_failure(code)),
        }
    }
}

} // verus!
