//! One apply of a layout: what was captured before it, what is to be applied
//! next, and how it ended.

use vstd::prelude::*;
use vstd::string::*;
use crate::model::{LayoutView, MonitorLayout};
use crate::model;

verus! {

/// How applying a layout starts.
#[derive(Debug, Clone, Copy, PartialEq, Eq, Structural)]
pub enum ApplyStart {
    /// There is no such layout.
    Missing,
    /// The layout turns every monitor off; Windows is not asked for anything.
    Refused,
    /// Capture what is there now, so that it can be put back.
    Capture,
}

/// An apply under way. It exists only once what was there before is captured,
/// and holds it until the end.
#[derive(Debug)]
pub struct ApplyRun {
    index: usize,
    layout: MonitorLayout,
    previous: MonitorLayout,
    failure: Option<String>,
}

/// The contents of an [`ApplyRun`]: the place and contents of the layout, what
/// was there before, and why the layout was not applied, once that is known.
#[verifier::ext_equal]
pub struct RunView {
    pub index: usize,
    pub layout: LayoutView,
    pub previous: LayoutView,
    pub failure: Option<Seq<char>>,
}

impl View for ApplyRun {
    type V = RunView;

    closed spec fn view(&self) -> RunView {
        RunView {
            index: self.index,
            layout: self.layout@,
            previous: self.previous@,
            failure: model::option_view(self.failure),
        }
    }
}

/// What follows an attempt.
#[derive(Debug)]
pub enum AfterAttempt {
    /// The layout was applied.
    Applied { index: usize, previous: MonitorLayout },
    /// Put back what was there before.
    RollBack(ApplyRun),
    /// The layout was not applied, and what was there before is back.
    RolledBack { index: usize, error: String, previous: MonitorLayout },
    /// Neither worked.
    Stuck { index: usize, error: String, rollback_error: String },
}

/// The contents of an [`AfterAttempt`].
#[verifier::ext_equal]
pub enum StepView {
    Applied(usize, LayoutView),
    RollBack(RunView),
    RolledBack(usize, Seq<char>, LayoutView),
    Stuck(usize, Seq<char>, Seq<char>),
}

impl View for AfterAttempt {
    type V = StepView;

    open spec fn view(&self) -> StepView {
        match *self {
            AfterAttempt::Applied { index, previous } => StepView::Applied(index, previous@),
            AfterAttempt::RollBack(run) => StepView::RollBack(run@),
            AfterAttempt::RolledBack { index, error, previous } => StepView::RolledBack(
                index,
                error@,
                previous@,
            ),
            AfterAttempt::Stuck { index, error, rollback_error } => StepView::Stuck(
                index,
                error@,
                rollback_error@,
            ),
        }
    }
}

/// An apply that has just been started.
pub open spec fn begun(index: usize, layout: LayoutView, previous: LayoutView) -> RunView {
    RunView { index, layout, previous, failure: None }
}

impl RunView {
    /// What is to be applied now: the layout, and once that has failed what was
    /// there before.
    pub open spec fn target(self) -> LayoutView {
        match self.failure {
            None => self.layout,
            Some(_) => self.previous,
        }
    }

    /// What follows once Windows has answered.
    pub open spec fn answered(self, outcome: Result<(), Seq<char>>) -> StepView {
        match self.failure {
            None => match outcome {
                Ok(_) => StepView::Applied(self.index, self.previous),
                Err(error) => StepView::RollBack(RunView { failure: Some(error), ..self }),
            },
            Some(error) => match outcome {
                Ok(_) => StepView::RolledBack(self.index, error, self.previous),
                Err(rollback_error) => StepView::Stuck(self.index, error, rollback_error),
            },
        }
    }
}

impl ApplyRun {
    /// Starts applying a layout, with what was there before.
    pub(crate) fn begin(index: usize, layout: MonitorLayout, previous: MonitorLayout) -> (r: Self)
        ensures
            r@ == begun(index, layout@, previous@),
    {
        ApplyRun { index, layout, previous, failure: None }
    }

    /// What is to be applied now.
    pub fn target(&self) -> (r: &MonitorLayout)
        ensures
            r@ == self@.target(),
    {
        match &self.failure {
            None => &self.layout,
            Some(_) => &self.previous,
        }
    }

    /// Takes in whether it was applied. A failed layout is followed by one
    /// attempt to put back what was there before, and by nothing more.
    pub fn answered(self, outcome: Result<(), String>) -> (r: AfterAttempt)
        ensures
            r@ == self@.answered(model::result_view(outcome)),
    {
        let ApplyRun { index, layout, previous, failure } = self;
        match failure {
            None => match outcome {
                Ok(_) => AfterAttempt::Applied { index, previous },
                Err(error) => AfterAttempt::RollBack(
                    ApplyRun { index, layout, previous, failure: Some(error) },
                ),
            },
            Some(error) => match outcome {
                Ok(_) => AfterAttempt::RolledBack { index, error, previous },
                Err(rollback_error) => AfterAttempt::Stuck { index, error, rollback_error },
            },
        }
    }
}

/// A run applies the layout first. Only a failure of that is followed by a
/// second attempt, which applies what was captured before; whatever comes of
/// it, there is no third.
pub proof fn lemma_at_most_one_rollback(
    index: usize,
    layout: LayoutView,
    previous: LayoutView,
    first: Result<(), Seq<char>>,
    second: Result<(), Seq<char>>,
)
    ensures
        begun(index, layout, previous).target() == layout,
        first is Ok ==> begun(index, layout, previous).answered(first) == StepView::Applied(
            index,
            previous,
        ),
        first is Err ==> (begun(index, layout, previous).answered(first) matches StepView::RollBack(
            next,
        ) && next.target() == previous && !(next.answered(second) is RollBack)),
{
}

/// What a run ends with tells of its own layout, what was there before it, and
/// the errors that there were, each as what it is.
pub proof fn lemma_run_ends(
    index: usize,
    layout: LayoutView,
    previous: LayoutView,
    error: Seq<char>,
    rollback_error: Seq<char>,
)
    ensures
        begun(index, layout, previous).answered(Err(error)) matches StepView::RollBack(next) && {
            &&& next.answered(Ok(())) == StepView::RolledBack(index, error, previous)
            &&& next.answered(Err(rollback_error)) == StepView::Stuck(index, error, rollback_error)
            &&& next.layout == layout && next.previous == previous && next.index == index
        },
{
}

} // verus!
