//! What the program does about the monitors when it starts: where Windows shows
//! nothing, bring back what worked last, or what is connected; where it shows
//! something, remember that.

use vstd::prelude::*;
use crate::app::{AppStatus, AppView, MonManApp, StatusView};
use crate::app;
use crate::audio::AudioDeviceInventory;
use crate::model::{AppConfig, ConfigView, LayoutView, MonitorLayout};
use crate::model;
use crate::order;
use crate::startup;

verus! {

/// What comes next.
#[derive(Debug)]
pub enum StartupStep {
    /// Find out whether Windows shows anything.
    Inspect,
    /// Apply what worked last.
    ApplySaved,
    /// Capture what applying it led to.
    CaptureSaved,
    /// Have Windows show what is connected; this is why what worked last could
    /// not be applied, where it was tried.
    RestoreConnected(Option<String>),
    /// Capture what that led to.
    CaptureConnected,
    /// Capture what Windows shows.
    CaptureHealthy,
    /// Nothing.
    Done,
}

/// The contents of a [`StartupStep`].
#[verifier::ext_equal]
pub enum StepView {
    Inspect,
    ApplySaved,
    CaptureSaved,
    RestoreConnected(Option<Seq<char>>),
    CaptureConnected,
    CaptureHealthy,
    Done,
}

impl View for StartupStep {
    type V = StepView;

    open spec fn view(&self) -> StepView {
        match *self {
            StartupStep::Inspect => StepView::Inspect,
            StartupStep::ApplySaved => StepView::ApplySaved,
            StartupStep::CaptureSaved => StepView::CaptureSaved,
            StartupStep::RestoreConnected(error) => StepView::RestoreConnected(
                model::option_view(error),
            ),
            StartupStep::CaptureConnected => StepView::CaptureConnected,
            StartupStep::CaptureHealthy => StepView::CaptureHealthy,
            StartupStep::Done => StepView::Done,
        }
    }
}

/// How far starting has come.
pub struct Startup {
    pub config: AppConfig,
    pub status: AppStatus,
    pub dirty: bool,
    pub step: StartupStep,
}

/// The contents of a [`Startup`].
#[verifier::ext_equal]
pub struct StartupView {
    pub config: ConfigView,
    pub status: StatusView,
    pub dirty: bool,
    pub step: StepView,
}

impl View for Startup {
    type V = StartupView;

    open spec fn view(&self) -> StartupView {
        StartupView {
            config: self.config@,
            status: self.status@,
            dirty: self.dirty,
            step: self.step@,
        }
    }
}

/// Whether any monitor is on.
pub open spec fn is_on(layout: LayoutView) -> bool {
    exists|i: int| 0 <= i < layout.monitors.len() && (#[trigger] layout.monitors[i]).enabled
}

fn shows_anything(layout: &MonitorLayout) -> (r: bool)
    ensures
        r == is_on(layout@),
{
    let mut at: usize = 0;
    assert(layout@.monitors.len() == layout.monitors@.len());
    while at < layout.monitors.len()
        invariant
            at <= layout.monitors@.len(),
            layout@.monitors.len() == layout.monitors@.len(),
            forall|i: int| 0 <= i < at ==> !(#[trigger] layout@.monitors[i]).enabled,
        decreases layout.monitors@.len() - at,
    {
        assert(layout@.monitors[at as int] == layout.monitors@[at as int]@);
        if layout.monitors[at].enabled {
            return true;
        }
        at = at + 1;
    }
    false
}

/// How starting begins.
pub open spec fn started(loaded: Result<ConfigView, Seq<char>>) -> StartupView {
    match loaded {
        Ok(config) => StartupView {
            config,
            status: app::informed("Ready"@),
            dirty: false,
            step: StepView::Inspect,
        },
        Err(error) => StartupView {
            config: ConfigView { layouts: Seq::empty(), last_known_working: None },
            status: app::warned("Could not load layouts: "@ + error),
            dirty: false,
            step: StepView::Done,
        },
    }
}

impl StartupView {
    /// At an end, with this to show.
    pub open spec fn ended(self, status: StatusView) -> StartupView {
        StartupView { status, step: StepView::Done, ..self }
    }

    /// At another step.
    pub open spec fn at(self, step: StepView) -> StartupView {
        StartupView { step, ..self }
    }

    /// With another recovery snapshot.
    pub open spec fn remembering(self, snapshot: LayoutView) -> StartupView {
        StartupView {
            config: ConfigView { last_known_working: Some(snapshot), ..self.config },
            dirty: true,
            ..self
        }
    }

    /// After the topology was looked at: whether it needs recovery.
    pub open spec fn inspected(self, outcome: Result<bool, Seq<char>>) -> StartupView {
        match outcome {
            Ok(true) => if self.config.last_known_working is Some {
                self.at(StepView::ApplySaved)
            } else {
                self.at(StepView::RestoreConnected(None))
            },
            Ok(false) => self.at(StepView::CaptureHealthy),
            Err(error) => self.ended(
                app::warned("Could not inspect the startup monitor topology: "@ + error),
            ),
        }
    }

    /// After what worked last was applied, or could not be.
    pub open spec fn saved_applied(self, outcome: Result<(), Seq<char>>) -> StartupView {
        match outcome {
            Ok(_) => self.at(StepView::CaptureSaved),
            Err(error) => self.at(StepView::RestoreConnected(Some(error))),
        }
    }

    /// After Windows was told to show what is connected.
    pub open spec fn connected_restored(self, outcome: Result<(), Seq<char>>) -> StartupView {
        match outcome {
            Ok(_) => self.at(StepView::CaptureConnected),
            Err(error) => self.ended(
                match self.step {
                    StepView::RestoreConnected(Some(saved_error)) => app::warned(
                        "Startup recovery failed: the saved topology is unavailable ("@
                            + saved_error
                            + "), and Windows could not activate the monitors connected now ("@
                            + error + ")"@,
                    ),
                    _ => app::warned(
                        "Startup recovery failed because Windows could not activate the monitors connected now: "@
                            + error,
                    ),
                },
            ),
        }
    }

    /// After what Windows shows was captured.
    pub open spec fn captured(self, outcome: Result<LayoutView, Seq<char>>) -> StartupView {
        match self.step {
            StepView::CaptureSaved => match self.config.last_known_working {
                Some(saved) => self.remembering(app::snapshot_of(outcome, saved)).ended(
                    app::informed(
                        "Recovered the last known working monitor topology because Windows had no available active display"@,
                    ),
                ),
                None => self,
            },
            StepView::CaptureConnected => match outcome {
                Ok(snapshot) => if is_on(snapshot) {
                    self.remembering(app::sanitized(snapshot)).ended(
                        app::informed(
                            "Recovered a working topology for the monitors connected now"@,
                        ),
                    )
                } else {
                    self.ended(
                        app::warned(
                            "Windows restored the connected-monitor topology, but MonMan could not find an active monitor to record"@,
                        ),
                    )
                },
                Err(error) => self.ended(
                    app::warned(
                        "Windows restored the connected-monitor topology, but MonMan could not record it: "@
                            + error,
                    ),
                ),
            },
            StepView::CaptureHealthy => match outcome {
                Ok(snapshot) => if is_on(snapshot) {
                    self.remembering(app::sanitized(snapshot)).ended(self.status)
                } else {
                    self.ended(self.status)
                },
                Err(error) => self.ended(
                    app::warned("Could not record the current working topology: "@ + error),
                ),
            },
            _ => self,
        }
    }

    /// The program's state once it has started.
    pub open spec fn finished(
        self,
        tray: Result<(), Seq<char>>,
        startup_launch: bool,
        now: u64,
    ) -> AppView {
        AppView {
            config: self.config,
            selected: if self.config.layouts.len() > 0 {
                Some(0usize)
            } else {
                None
            },
            audio_devices: crate::audio::no_devices(),
            controller_devices: Seq::empty(),
            controller_capture_layout: None,
            controller_capture_status: Seq::empty(),
            tray: tray is Ok,
            available_update: None,
            update_in_progress: false,
            exit_requested: false,
            initial_window_visibility: if startup_launch {
                Some(tray is Err)
            } else {
                None
            },
            status: match tray {
                Ok(_) => if self.status.is_error {
                    self.status
                } else {
                    app::informed("Ready — closing the window keeps MonMan running in the tray"@)
                },
                Err(error) => app::warned(
                    "System tray is unavailable; closing MonMan will exit: "@ + error,
                ),
            },
            dirty: self.dirty,
            last_persist: now,
            undo_layout: None,
        }
    }
}

/// Where the layouts cannot be loaded, the monitors are left alone.
pub proof fn lemma_unreadable_layouts_touch_nothing(error: Seq<char>)
    ensures
        started(Err(error)).step == StepView::Done,
        !started(Err(error)).dirty,
        started(Err(error)).status.is_error,
{
}

/// Only a topology that needs recovery is changed; a healthy one is recorded,
/// and one that could not be looked at is left alone.
pub proof fn lemma_recovery_only_when_needed(
    startup: StartupView,
    outcome: Result<bool, Seq<char>>,
)
    ensures
        ({
            let next = startup.inspected(outcome).step;
            (next is ApplySaved || next is RestoreConnected) <==> outcome == Ok::<bool, Seq<char>>(
                true,
            )
        }),
        startup.inspected(outcome).config == startup.config,
{
}

/// What worked last is tried before what is connected, and what is connected
/// is only tried where there is nothing else or that failed.
pub proof fn lemma_saved_topology_comes_first(startup: StartupView, error: Seq<char>)
    ensures
        startup.config.last_known_working is Some ==> startup.inspected(Ok(true)).step
            == StepView::ApplySaved,
        startup.saved_applied(Ok(())).step == StepView::CaptureSaved,
        startup.saved_applied(Err(error)).step == StepView::RestoreConnected(Some(error)),
{
}

/// Starting never changes a layout. A recovery snapshot that it records holds
/// nothing but monitors; one that it takes from Windows rather than from the
/// last one has a monitor that is on.
pub proof fn lemma_recorded_topology(
    startup: StartupView,
    outcome: Result<LayoutView, Seq<char>>,
)
    ensures
        ({
            let after = startup.captured(outcome);
            &&& after.config.layouts == startup.config.layouts
            &&& after.config != startup.config ==> after.dirty
            &&& after.config != startup.config ==> (after.config.last_known_working matches Some(
                snapshot,
            ) && snapshot == app::sanitized(snapshot))
            &&& startup.step is CaptureConnected || startup.step is CaptureHealthy ==> (
            after.config != startup.config ==> is_on(after.config.last_known_working->0))
        }),
{
    if let Ok(snapshot) = outcome {
        assert(app::sanitized(snapshot).monitors == snapshot.monitors);
        if is_on(snapshot) {
            let i = choose|i: int|
                0 <= i < snapshot.monitors.len() && (#[trigger] snapshot.monitors[i]).enabled;
            assert(app::sanitized(snapshot).monitors[i].enabled);
        }
    }
}

/// Starting begins by looking at the displays, with what was loaded; where
/// nothing could be loaded, with no layouts and a message.
pub proof fn lemma_started(config: ConfigView, error: Seq<char>)
    ensures
        started(Ok(config)).config == config,
        started(Ok(config)).step == StepView::Inspect,
        !started(Ok(config)).dirty && !started(Ok(config)).status.is_error,
        started(Err(error)).config.layouts.len() == 0,
        started(Err(error)).config.last_known_working is None,
        started(Err(error)).status.message == "Could not load layouts: "@ + error,
{
}

/// What follows a look at the displays: what worked last is applied where there
/// is such a thing and nothing is shown, what is connected is asked for where
/// there is not, a healthy topology is captured, and a look that failed is told.
pub proof fn lemma_inspected(startup: StartupView, error: Seq<char>)
    ensures
        startup.config.last_known_working is Some ==> startup.inspected(Ok(true)).step
            == StepView::ApplySaved,
        startup.config.last_known_working is None ==> startup.inspected(Ok(true)).step
            == StepView::RestoreConnected(None),
        startup.inspected(Ok(false)).step == StepView::CaptureHealthy,
        startup.inspected(Err(error)).step == StepView::Done,
        startup.inspected(Err(error)).status.is_error,
        startup == (StartupView { step: startup.step, ..startup.inspected(Ok(true)) }),
        startup == (StartupView { step: startup.step, ..startup.inspected(Ok(false)) }),
        startup.inspected(Err(error)).config == startup.config,
        startup.inspected(Err(error)).dirty == startup.dirty,
{
}

/// What is connected is captured once Windows shows it; where it does not,
/// starting ends with a message that names every error there was.
pub proof fn lemma_connected_restored(
    startup: StartupView,
    saved_error: Seq<char>,
    error: Seq<char>,
)
    ensures
        startup.connected_restored(Ok(())).step == StepView::CaptureConnected,
        startup.connected_restored(Err(error)).step == StepView::Done,
        startup.connected_restored(Err(error)).status.is_error,
        startup.connected_restored(Err(error)).config == startup.config,
        startup.connected_restored(Ok(())).config == startup.config,
        startup.step == StepView::RestoreConnected(Some(saved_error))
            ==> startup.connected_restored(Err(error)).status.message
            == "Startup recovery failed: the saved topology is unavailable ("@ + saved_error
            + "), and Windows could not activate the monitors connected now ("@ + error + ")"@,
        startup.step == StepView::RestoreConnected(None) ==> startup.connected_restored(
            Err(error),
        ).status.message
            == "Startup recovery failed because Windows could not activate the monitors connected now: "@
            + error,
        startup.saved_applied(Ok(())).config == startup.config,
        startup.saved_applied(Err(error)).config == startup.config,
        startup.saved_applied(Err(error)).status == startup.status,
{
}

/// What is recorded at the end of starting. After what worked last was brought
/// back: what Windows shows, or that itself where it cannot be captured. After
/// what is connected was brought up, or where all was well: what Windows shows,
/// where a monitor of it is on, and otherwise nothing.
pub proof fn lemma_captured_at_start(
    startup: StartupView,
    saved: LayoutView,
    shown: LayoutView,
    error: Seq<char>,
    i: int,
)
    ensures
        startup.step is CaptureSaved && startup.config.last_known_working == Some(saved) ==> {
            let (found, unknown) = (startup.captured(Ok(shown)), startup.captured(Err(error)));
            &&& found.step is Done && unknown.step is Done
            &&& found.dirty && unknown.dirty
            &&& !found.status.is_error && !unknown.status.is_error
            &&& found.config.last_known_working matches Some(kept) && kept.monitors
                == shown.monitors
            &&& unknown.config.last_known_working matches Some(kept) && kept.monitors
                == saved.monitors
        },
        (startup.step is CaptureConnected || startup.step is CaptureHealthy) && 0 <= i
            < shown.monitors.len() && shown.monitors[i].enabled ==> {
            let after = startup.captured(Ok(shown));
            &&& after.step is Done && after.dirty
            &&& after.config.last_known_working matches Some(kept) && kept.monitors
                == shown.monitors
            &&& startup.step is CaptureConnected ==> !after.status.is_error
            &&& startup.step is CaptureHealthy ==> after.status == startup.status
        },
        (startup.step is CaptureConnected || startup.step is CaptureHealthy) && (forall|k: int|
            0 <= k < shown.monitors.len() ==> !(#[trigger] shown.monitors[k]).enabled) ==> {
            let after = startup.captured(Ok(shown));
            &&& after.step is Done
            &&& after.config == startup.config && after.dirty == startup.dirty
            &&& startup.step is CaptureConnected ==> after.status.is_error
            &&& startup.step is CaptureHealthy ==> after.status == startup.status
        },
        startup.step is CaptureConnected || startup.step is CaptureHealthy ==> {
            let after = startup.captured(Err(error));
            &&& after.step is Done
            &&& after.config == startup.config && after.dirty == startup.dirty
            &&& after.status.is_error
        },
{
    if 0 <= i < shown.monitors.len() && shown.monitors[i].enabled {
        assert(is_on(shown));
    }
}

/// What starting tells the user at the end of each course that it can take.
pub proof fn lemma_startup_messages(
    startup: StartupView,
    saved: LayoutView,
    shown: LayoutView,
    error: Seq<char>,
    now: u64,
)
    ensures
        startup.inspected(Err(error)).status.message
            == "Could not inspect the startup monitor topology: "@ + error,
        startup.step is CaptureSaved && startup.config.last_known_working == Some(saved)
            ==> startup.captured(Ok(shown)).status.message
            == "Recovered the last known working monitor topology because Windows had no available active display"@
            && startup.captured(Err(error)).status == startup.captured(Ok(shown)).status,
        startup.step is CaptureConnected && is_on(shown) ==> startup.captured(
            Ok(shown),
        ).status.message == "Recovered a working topology for the monitors connected now"@,
        startup.step is CaptureConnected && !is_on(shown) ==> startup.captured(
            Ok(shown),
        ).status.message
            == "Windows restored the connected-monitor topology, but MonMan could not find an active monitor to record"@,
        startup.step is CaptureConnected ==> startup.captured(Err(error)).status.message
            == "Windows restored the connected-monitor topology, but MonMan could not record it: "@
            + error,
        startup.step is CaptureHealthy ==> startup.captured(Err(error)).status.message
            == "Could not record the current working topology: "@ + error,
        !startup.status.is_error ==> startup.finished(Ok(()), false, now).status.message
            == "Ready — closing the window keeps MonMan running in the tray"@,
{
}

/// The program starts with its first layout selected, nothing to undo, and with
/// what starting has to tell, unless there is no tray, which is told instead. A
/// launch in the background shows the window only where there is no tray.
pub proof fn lemma_finished(
    startup: StartupView,
    error: Seq<char>,
    startup_launch: bool,
    now: u64,
)
    ensures
        ({
            let good = startup.finished(Ok(()), startup_launch, now);
            let bare = startup.finished(Err(error), startup_launch, now);
            &&& good.config == startup.config && bare.config == startup.config
            &&& good.dirty == startup.dirty && bare.dirty == startup.dirty
            &&& startup.config.layouts.len() == 0 ==> good.selected is None && bare.selected is None
            &&& startup.config.layouts.len() > 0 ==> good.selected == Some(0usize) && bare.selected
                == Some(0usize)
            &&& good.undo_layout is None && bare.undo_layout is None
            &&& good.tray && !bare.tray
            &&& !startup_launch ==> good.initial_window_visibility is None
                && bare.initial_window_visibility is None
            &&& startup_launch ==> good.initial_window_visibility == Some(false)
                && bare.initial_window_visibility == Some(true)
            &&& startup.status.is_error ==> good.status == startup.status
            &&& !startup.status.is_error ==> !good.status.is_error
            &&& bare.status.is_error
            &&& bare.status.message == "System tray is unavailable; closing MonMan will exit: "@
                + error
            &&& good.last_persist == now && bare.last_persist == now
            &&& !good.exit_requested && !bare.exit_requested
            &&& !good.update_in_progress && good.available_update is None
            &&& good.controller_capture_layout is None && bare.controller_capture_layout is None
        }),
{
}

impl Startup {
    /// Begins with what was read from the disk.
    pub fn begin(loaded: Result<AppConfig, String>) -> (r: Startup)
        ensures
            r@ == started(model::result_view(loaded)),
    {
        match loaded {
            Ok(config) => Startup {
                config,
                status: app::noted("Ready"),
                dirty: false,
                step: StartupStep::Inspect,
            },
            Err(error) => Startup {
                config: AppConfig::default(),
                status: app::failed("Could not load layouts: ", error.as_str()),
                dirty: false,
                step: StartupStep::Done,
            },
        }
    }

    /// Takes in whether the topology needs recovery.
    pub fn inspected(&mut self, outcome: Result<bool, String>)
        requires
            old(self)@.step is Inspect,
        ensures
            final(self)@ == old(self)@.inspected(
                match outcome {
                    Ok(needed) => Ok(needed),
                    Err(error) => Err(error@),
                },
            ),
    {
        match outcome {
            Ok(needed) => {
                if !needed {
                    self.step = StartupStep::CaptureHealthy;
                } else if self.config.last_known_working.is_some() {
                    self.step = StartupStep::ApplySaved;
                } else {
                    self.step = StartupStep::RestoreConnected(None);
                }
            },
            Err(error) => {
                self.status = app::failed(
                    "Could not inspect the startup monitor topology: ",
                    error.as_str(),
                );
                self.step = StartupStep::Done;
            },
        }
    }

    /// Takes in whether what worked last could be applied.
    pub fn saved_applied(&mut self, outcome: Result<(), String>)
        requires
            old(self)@.step is ApplySaved,
        ensures
            final(self)@ == old(self)@.saved_applied(
                match outcome {
                    Ok(_) => Ok(()),
                    Err(error) => Err(error@),
                },
            ),
    {
        match outcome {
            Ok(_) => {
                self.step = StartupStep::CaptureSaved;
            },
            Err(error) => {
                self.step = StartupStep::RestoreConnected(Some(error));
            },
        }
    }

    /// Takes in whether Windows shows what is connected.
    pub fn connected_restored(&mut self, outcome: Result<(), String>)
        requires
            old(self)@.step is RestoreConnected,
        ensures
            final(self)@ == old(self)@.connected_restored(
                match outcome {
                    Ok(_) => Ok(()),
                    Err(error) => Err(error@),
                },
            ),
    {
        match outcome {
            Ok(_) => {
                self.step = StartupStep::CaptureConnected;
            },
            Err(error) => {
                let message = match &self.step {
                    StartupStep::RestoreConnected(Some(saved_error)) => {
                        let mut message = app::named(
                            "Startup recovery failed: the saved topology is unavailable (",
                            saved_error.as_str(),
                            "), and Windows could not activate the monitors connected now (",
                        );
                        message.append(error.as_str());
                        message.append(")");
                        message
                    },
                    _ => {
                        let mut message =
                            "Startup recovery failed because Windows could not activate the monitors connected now: ".to_string();
                        message.append(error.as_str());
                        message
                    },
                };
                self.status = AppStatus::error(message);
                self.step = StartupStep::Done;
            },
        }
    }

    fn remember(&mut self, snapshot: MonitorLayout)
        ensures
            final(self)@ == old(self)@.remembering(snapshot@),
    {
        self.config.last_known_working = Some(snapshot);
        self.dirty = true;
    }

    /// Takes in what Windows shows.
    pub fn captured(&mut self, outcome: Result<MonitorLayout, String>)
        requires
            old(self)@.step is CaptureSaved || old(self)@.step is CaptureConnected
                || old(self)@.step is CaptureHealthy,
        ensures
            final(self)@ == old(self)@.captured(model::result_view(outcome)),
    {
        match &self.step {
            StartupStep::CaptureSaved => {
                let saved = match &self.config.last_known_working {
                    Some(saved) => saved.clone(),
                    None => {
                        return;
                    },
                };
                self.remember(app::working_snapshot(outcome, &saved));
                self.status = app::noted(
                    "Recovered the last known working monitor topology because Windows had no available active display",
                );
            },
            StartupStep::CaptureConnected => match outcome {
                Ok(snapshot) => {
                    if shows_anything(&snapshot) {
                        self.remember(app::sanitized_working_snapshot(snapshot));
                        self.status = app::noted(
                            "Recovered a working topology for the monitors connected now",
                        );
                    } else {
                        self.status = AppStatus::error(
                            "Windows restored the connected-monitor topology, but MonMan could not find an active monitor to record".to_string(),
                        );
                    }
                },
                Err(error) => {
                    self.status = app::failed(
                        "Windows restored the connected-monitor topology, but MonMan could not record it: ",
                        error.as_str(),
                    );
                },
            },
            _ => match outcome {
                Ok(snapshot) => {
                    if shows_anything(&snapshot) {
                        self.remember(app::sanitized_working_snapshot(snapshot));
                    }
                },
                Err(error) => {
                    self.status = app::failed(
                        "Could not record the current working topology: ",
                        error.as_str(),
                    );
                },
            },
        }
        self.step = StartupStep::Done;
    }

    /// The program's state once it has started, with or without a tray icon.
    pub fn finish(self, tray: Result<(), String>, startup_launch: bool, now: u64) -> (r: MonManApp)
        requires
            self@.step is Done,
        ensures
            r@ == self@.finished(
                match tray {
                    Ok(_) => Ok(()),
                    Err(error) => Err(error@),
                },
                startup_launch,
                now,
            ),
    {
        assert(self@.config.layouts.len() == self.config.layouts@.len());
        let selected = if self.config.layouts.is_empty() {
            None
        } else {
            Some(0)
        };
        let tray_available = tray.is_ok();
        let status = match tray {
            Ok(_) => if self.status.is_error {
                self.status
            } else {
                app::noted("Ready — closing the window keeps MonMan running in the tray")
            },
            Err(error) => app::failed(
                "System tray is unavailable; closing MonMan will exit: ",
                error.as_str(),
            ),
        };
        let app = MonManApp {
            config: self.config,
            selected,
            audio_devices: AudioDeviceInventory::default(),
            controller_devices: Vec::new(),
            controller_capture_layout: None,
            controller_capture_status: String::new(),
            tray: tray_available,
            available_update: None,
            update_in_progress: false,
            exit_requested: false,
            initial_window_visibility: startup::startup_window_visibility(
                startup_launch,
                tray_available,
            ),
            status,
            dirty: self.dirty,
            last_persist: now,
            undo_layout: None,
        };
        proof {
            assert(order::views(app.controller_devices@) =~= Seq::empty());
            assert(app.controller_capture_status@ =~= Seq::empty());
        }
        app
    }
}

} // verus!
