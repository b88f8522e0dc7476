//! The program's state, and how it answers to what the user and Windows do.
//!
//! Talking to Windows, to the disk and to other threads happens elsewhere; what
//! came of it is handed in.

use vstd::prelude::*;
use vstd::string::*;
use crate::app::applying::{ApplyRun, ApplyStart, StepView};
use crate::arrangement::enabled_count;
use crate::audio::{AudioDeviceInventory, InventoryView};
use crate::controllers::{ControllerDeviceInfo, ControllerSpec, DeviceInfoView, SpecView};
use crate::display::checks::{self, LayoutError, LayoutFault};
use crate::hotkeys::{FailureView, HotkeyRegistrationFailure, HotkeySpec};
use crate::model::{AppConfig, ConfigView, ControllerBinding, ControllerBindingView, HotkeyBinding, Hertz, LayoutView, MonitorConfig, MonitorLayout, MonitorView};
use crate::model;
use crate::order;
use crate::text;
use crate::tray::TrayEvent;
use crate::updater::{AvailableUpdate, UpdateEvent, UpdateView};

pub mod applying;
pub mod recovery;
pub mod sync;

verus! {

/// How long edits are collected before they are saved, in milliseconds.
pub const SAVE_INTERVAL: u64 = 500;

// ---------------------------------------------------------------------------
// State
// ---------------------------------------------------------------------------

/// What the status bar shows.
#[derive(Debug)]
pub struct AppStatus {
    pub message: String,
    pub is_error: bool,
}

/// The contents of an [`AppStatus`].
#[verifier::ext_equal]
pub struct StatusView {
    pub message: Seq<char>,
    pub is_error: bool,
}

impl View for AppStatus {
    type V = StatusView;

    open spec fn view(&self) -> StatusView {
        StatusView { message: self.message@, is_error: self.is_error }
    }
}

/// Something that went well.
pub open spec fn informed(message: Seq<char>) -> StatusView {
    StatusView { message, is_error: false }
}

/// Something that went wrong.
pub open spec fn warned(message: Seq<char>) -> StatusView {
    StatusView { message, is_error: true }
}

impl AppStatus {
    /// Something that went well.
    pub fn info(message: String) -> (r: AppStatus)
        ensures
            r@ == informed(message@),
    {
        AppStatus { message, is_error: false }
    }

    /// Something that went wrong.
    pub fn error(message: String) -> (r: AppStatus)
        ensures
            r@ == warned(message@),
    {
        AppStatus { message, is_error: true }
    }
}

pub(crate) fn noted(message: &str) -> (r: AppStatus)
    ensures
        r@ == informed(message@),
{
    AppStatus::info(message.to_string())
}

pub(crate) fn failed(action: &str, error: &str) -> (r: AppStatus)
    ensures
        r@ == warned(action@ + error@),
{
    let mut message = action.to_string();
    message.append(error);
    AppStatus::error(message)
}

pub(crate) fn named(before: &str, name: &str, after: &str) -> (r: String)
    ensures
        r@ == before@ + name@ + after@,
{
    let mut out = before.to_string();
    out.append(name);
    out.append(after);
    out
}

/// The program's state.
pub struct MonManApp {
    pub config: AppConfig,
    pub selected: Option<usize>,
    pub audio_devices: AudioDeviceInventory,
    pub controller_devices: Vec<ControllerDeviceInfo>,
    pub controller_capture_layout: Option<usize>,
    pub controller_capture_status: String,
    /// Whether there is a tray icon.
    pub tray: bool,
    pub available_update: Option<AvailableUpdate>,
    pub update_in_progress: bool,
    pub exit_requested: bool,
    pub initial_window_visibility: Option<bool>,
    pub status: AppStatus,
    /// Whether there are edits that were not saved.
    pub dirty: bool,
    /// When edits were last saved, in milliseconds.
    pub last_persist: u64,
    /// What to go back to from the most recent apply.
    pub undo_layout: Option<MonitorLayout>,
}

/// The contents of a [`MonManApp`].
#[verifier::ext_equal]
pub struct AppView {
    pub config: ConfigView,
    pub selected: Option<usize>,
    pub audio_devices: InventoryView,
    pub controller_devices: Seq<DeviceInfoView>,
    pub controller_capture_layout: Option<usize>,
    pub controller_capture_status: Seq<char>,
    pub tray: bool,
    pub available_update: Option<UpdateView>,
    pub update_in_progress: bool,
    pub exit_requested: bool,
    pub initial_window_visibility: Option<bool>,
    pub status: StatusView,
    pub dirty: bool,
    pub last_persist: u64,
    pub undo_layout: Option<LayoutView>,
}

impl View for MonManApp {
    type V = AppView;

    open spec fn view(&self) -> AppView {
        AppView {
            config: self.config@,
            selected: self.selected,
            audio_devices: self.audio_devices@,
            controller_devices: order::views(self.controller_devices@),
            controller_capture_layout: self.controller_capture_layout,
            controller_capture_status: self.controller_capture_status@,
            tray: self.tray,
            available_update: model::option_view(self.available_update),
            update_in_progress: self.update_in_progress,
            exit_requested: self.exit_requested,
            initial_window_visibility: self.initial_window_visibility,
            status: self.status@,
            dirty: self.dirty,
            last_persist: self.last_persist,
            undo_layout: model::option_view(self.undo_layout),
        }
    }
}

/// What goes along with a working topology in the recovery snapshot: nothing
/// but the monitors.
pub open spec fn sanitized(layout: LayoutView) -> LayoutView {
    LayoutView {
        name: "Last known working topology"@,
        monitors: layout.monitors,
        playback_device: None,
        microphone_device: None,
        hotkey: None,
        controller_hotkey: None,
    }
}

/// Leaves nothing in a layout but its monitors.
pub fn sanitized_working_snapshot(layout: MonitorLayout) -> (r: MonitorLayout)
    ensures
        r@ == sanitized(layout@),
{
    MonitorLayout {
        name: "Last known working topology".to_string(),
        monitors: layout.monitors,
        playback_device: None,
        microphone_device: None,
        hotkey: None,
        controller_hotkey: None,
    }
}

/// The recovery snapshot after a layout was applied: what Windows shows, or
/// what was applied where that could not be captured.
pub open spec fn snapshot_of(
    captured: Result<LayoutView, Seq<char>>,
    applied: LayoutView,
) -> LayoutView {
    match captured {
        Ok(layout) => sanitized(layout),
        Err(_) => sanitized(applied),
    }
}

/// The recovery snapshot after a layout was applied.
pub fn working_snapshot(captured: Result<MonitorLayout, String>, applied: &MonitorLayout) -> (r:
    MonitorLayout)
    ensures
        r@ == snapshot_of(model::result_view(captured), applied@),
{
    match captured {
        Ok(layout) => sanitized_working_snapshot(layout),
        Err(_) => sanitized_working_snapshot(applied.clone()),
    }
}

// ---------------------------------------------------------------------------
// What happens to the state
// ---------------------------------------------------------------------------

/// The keyboard shortcuts of the first `count` layouts.
pub open spec fn hotkey_specs_of(layouts: Seq<LayoutView>, count: int) -> Seq<HotkeySpec>
    decreases count,
{
    if count <= 0 {
        Seq::empty()
    } else {
        let before = hotkey_specs_of(layouts, count - 1);
        match layouts[count - 1].hotkey {
            Some(binding) => before.push(
                HotkeySpec { layout_index: (count - 1) as usize, binding },
            ),
            None => before,
        }
    }
}

/// The controller shortcuts of the first `count` layouts that have a button.
pub open spec fn controller_specs_of(layouts: Seq<LayoutView>, count: int) -> Seq<SpecView>
    decreases count,
{
    if count <= 0 {
        Seq::empty()
    } else {
        let before = controller_specs_of(layouts, count - 1);
        match layouts[count - 1].controller_hotkey {
            Some(binding) if binding.buttons.len() > 0 => before.push(
                SpecView { layout_index: (count - 1) as usize, binding },
            ),
            _ => before,
        }
    }
}

/// A layout in which no monitor is on.
pub open spec fn all_off(layout: LayoutView) -> LayoutView {
    LayoutView {
        monitors: layout.monitors.map_values(|monitor: MonitorView| sync::turned_off(monitor)),
        ..layout
    }
}

/// How a shortcut that was not registered is listed.
pub open spec fn failure_line(layouts: Seq<LayoutView>, failure: FailureView) -> Seq<char> {
    (if failure.layout_index < layouts.len() {
        layouts[failure.layout_index as int].name
    } else {
        "unknown layout"@
    }) + " ["@ + failure.binding.label_text() + "]: "@ + failure.reason
}

/// How shortcuts that were not registered are listed.
pub open spec fn failure_lines(
    layouts: Seq<LayoutView>,
    failures: Seq<FailureView>,
) -> Seq<Seq<char>> {
    failures.map_values(|failure: FailureView| failure_line(layouts, failure))
}

impl AppView {
    /// With another status.
    pub open spec fn showing(self, status: StatusView) -> AppView {
        AppView { status, ..self }
    }

    /// With other layouts, which are to be saved.
    pub open spec fn with_layouts(self, layouts: Seq<LayoutView>) -> AppView {
        AppView { config: ConfigView { layouts, ..self.config }, dirty: true, ..self }
    }

    /// With a layout more, which is selected.
    pub open spec fn with_added(self, layout: LayoutView, message: Seq<char>) -> AppView {
        AppView {
            selected: Some(self.config.layouts.len() as usize),
            ..self.with_layouts(self.config.layouts.push(layout))
        }.showing(informed(message))
    }

    /// With another recovery snapshot.
    pub open spec fn remembering(self, snapshot: LayoutView) -> AppView {
        AppView {
            config: ConfigView { last_known_working: Some(snapshot), ..self.config },
            dirty: true,
            ..self
        }
    }

    /// No longer recording a chord.
    pub open spec fn not_recording(self) -> AppView {
        AppView {
            controller_capture_layout: None,
            controller_capture_status: Seq::empty(),
            ..self
        }
    }

    /// With the audio devices that were listed, where they could be.
    pub open spec fn with_audio(
        self,
        listed: Result<InventoryView, Seq<char>>,
        announce: bool,
    ) -> AppView {
        match listed {
            Ok(devices) => {
                let after = AppView { audio_devices: devices, ..self };
                if announce {
                    after.showing(
                        informed(
                            "Audio devices refreshed: "@ + text::decimal(devices.playback.len())
                                + " playback, "@ + text::decimal(devices.microphones.len())
                                + " microphone"@,
                        ),
                    )
                } else {
                    after
                }
            },
            Err(error) => self.showing(warned("Could not enumerate audio devices: "@ + error)),
        }
    }

    /// The selected layout's place, where it exists.
    pub open spec fn current(self) -> Option<int> {
        match self.selected {
            Some(index) if index < self.config.layouts.len() => Some(index as int),
            _ => None,
        }
    }

    /// After the current topology and devices were captured as a new layout.
    pub open spec fn captured(self, layout: Result<LayoutView, Seq<char>>) -> AppView {
        match layout {
            Ok(layout) => self.with_added(
                layout,
                "Captured current Windows display topology and audio devices"@,
            ),
            Err(error) => self.showing(warned("Capture failed: "@ + error)),
        }
    }

    /// After the connected monitors were made into a new layout, all of them
    /// off.
    pub open spec fn customized(self, layout: Result<LayoutView, Seq<char>>) -> AppView {
        match layout {
            Ok(layout) => self.with_added(
                all_off(layout),
                "Created a custom layout from currently connected monitors"@,
            ),
            Err(error) => self.showing(
                warned("Could not enumerate connected monitors: "@ + error),
            ),
        }
    }

    /// After the selected layout was captured anew; its shortcuts stay.
    pub open spec fn recaptured(self, layout: Result<LayoutView, Seq<char>>) -> AppView {
        match self.current() {
            None => self,
            Some(index) => match layout {
                Ok(layout) => self.with_layouts(
                    self.config.layouts.update(
                        index,
                        LayoutView {
                            hotkey: self.config.layouts[index].hotkey,
                            controller_hotkey: self.config.layouts[index].controller_hotkey,
                            ..layout
                        },
                    ),
                ).showing(
                    informed("Replaced this layout with the current display and audio devices"@),
                ),
                Err(error) => self.showing(warned("Capture failed: "@ + error)),
            },
        }
    }

    /// After the connected monitors were taken into the selected layout.
    pub open spec fn synced(
        self,
        connected: Result<LayoutView, Seq<char>>,
        close: Seq<(Hertz, Hertz)>,
    ) -> AppView {
        match self.current() {
            None => self,
            Some(index) => match connected {
                Ok(listed) => {
                    let layout = self.config.layouts[index];
                    let monitors = sync::merged(
                        layout.monitors,
                        listed.monitors,
                        close,
                        listed.monitors.len() as int,
                    );
                    let added = (monitors.len() - layout.monitors.len()) as nat;
                    let matched = (listed.monitors.len() - added) as nat;
                    AppView {
                        dirty: self.dirty || listed.monitors.len() > 0,
                        ..self.with_layouts(
                            self.config.layouts.update(
                                index,
                                LayoutView {
                                    monitors: order::stable_sorted::<MonitorConfig>(monitors),
                                    ..layout
                                },
                            ),
                        )
                    }.showing(
                        informed(
                            "Monitor list refreshed: "@ + text::decimal(added) + " added, "@
                                + text::decimal(matched) + " matched"@,
                        ),
                    )
                },
                Err(error) => self.showing(warned("Could not refresh monitors: "@ + error)),
            },
        }
    }

    /// After the selected layout was copied; the copy comes next, is selected
    /// and has no shortcuts.
    pub open spec fn duplicated(self) -> AppView {
        match self.current() {
            None => self,
            Some(index) => {
                let layout = self.config.layouts[index];
                let copy = LayoutView {
                    name: layout.name + " copy"@,
                    hotkey: None,
                    controller_hotkey: None,
                    ..layout
                };
                AppView {
                    selected: Some((index + 1) as usize),
                    ..self.with_layouts(self.config.layouts.insert(index + 1, copy))
                }.showing(informed("Duplicated layout (hotkeys cleared on the copy)"@))
            },
        }
    }

    /// After a layout was deleted; the next one is selected, or the last. A
    /// recording is given up.
    pub open spec fn deleted(self, index: int) -> AppView {
        let layouts = self.config.layouts.remove(index);
        AppView {
            selected: if layouts.len() == 0 {
                None
            } else if index < layouts.len() {
                Some(index as usize)
            } else {
                Some((layouts.len() - 1) as usize)
            },
            ..(if self.controller_capture_layout is Some {
                self.not_recording()
            } else {
                self
            }).with_layouts(layouts)
        }.showing(informed("Deleted layout"@))
    }

    /// How applying a layout starts: one that would turn every monitor off is
    /// refused there and then.
    pub open spec fn apply_start(self, index: int) -> ApplyStart {
        if !(0 <= index < self.config.layouts.len()) {
            ApplyStart::Missing
        } else if checks::layout_fault(self.config.layouts[index].monitors) == Some(
            LayoutFault::AllOff,
        ) {
            ApplyStart::Refused
        } else {
            ApplyStart::Capture
        }
    }

    /// After a layout was refused because it turns every monitor off.
    pub open spec fn refused(self, index: int) -> AppView {
        self.showing(
            warned(
                "Could not apply '"@ + self.config.layouts[index].name + "': "@
                    + LayoutFault::AllOff.message(),
            ),
        )
    }

    /// After applying was given up because what is there now could not be
    /// captured first.
    pub open spec fn cancelled(self, error: Seq<char>) -> AppView {
        self.showing(
            warned(
                "Apply cancelled because the current display and audio settings could not be captured for rollback: "@
                    + error,
            ),
        )
    }

    /// After a layout was applied: what was there before can be gone back to,
    /// and what is there now is remembered as working.
    pub open spec fn applied(
        self,
        index: int,
        previous: LayoutView,
        audio: Result<InventoryView, Seq<char>>,
        captured: Result<LayoutView, Seq<char>>,
    ) -> AppView {
        let layout = self.config.layouts[index];
        AppView { undo_layout: Some(previous), ..self.with_audio(audio, false) }.remembering(
            snapshot_of(captured, layout),
        ).showing(informed("Applied '"@ + layout.name + "'"@))
    }

    /// After a layout could not be applied and what was there before was put
    /// back.
    pub open spec fn rolled_back(
        self,
        index: int,
        error: Seq<char>,
        previous: LayoutView,
        audio: Result<InventoryView, Seq<char>>,
        captured: Result<LayoutView, Seq<char>>,
    ) -> AppView {
        self.with_audio(audio, false).remembering(snapshot_of(captured, previous)).showing(
            warned(
                "Could not apply '"@ + self.config.layouts[index].name + "': "@ + error
                    + ". The previous display and audio settings were restored."@,
            ),
        )
    }

    /// After a layout could not be applied and what was there before could not
    /// be put back either.
    pub open spec fn stuck(
        self,
        index: int,
        error: Seq<char>,
        rollback_error: Seq<char>,
    ) -> AppView {
        self.showing(
            warned(
                "Could not apply '"@ + self.config.layouts[index].name + "': "@ + error
                    + ". Automatic rollback also failed: "@ + rollback_error,
            ),
        )
    }

    /// After an apply came to its end.
    pub open spec fn ended(
        self,
        end: StepView,
        audio: Result<InventoryView, Seq<char>>,
        captured: Result<LayoutView, Seq<char>>,
    ) -> AppView {
        match end {
            StepView::Applied(index, previous) => self.applied(
                index as int,
                previous,
                audio,
                captured,
            ),
            StepView::RolledBack(index, error, previous) => self.rolled_back(
                index as int,
                error,
                previous,
                audio,
                captured,
            ),
            StepView::Stuck(index, error, rollback_error) => self.stuck(
                index as int,
                error,
                rollback_error,
            ),
            StepView::RollBack(_) => self,
        }
    }

    /// The whole of an apply: the layouts that Windows is asked to apply, in
    /// order, and the state at the end. `before` is what was captured at the
    /// start, `first` and `second` what came of the attempts that were made,
    /// `audio` and `captured` what was found after them.
    pub open spec fn apply_course(
        self,
        index: usize,
        before: Result<LayoutView, Seq<char>>,
        first: Result<(), Seq<char>>,
        second: Result<(), Seq<char>>,
        audio: Result<InventoryView, Seq<char>>,
        captured: Result<LayoutView, Seq<char>>,
    ) -> (Seq<LayoutView>, AppView) {
        match self.apply_start(index as int) {
            ApplyStart::Missing => (seq![], self),
            ApplyStart::Refused => (seq![], self.refused(index as int)),
            ApplyStart::Capture => match before {
                Err(error) => (seq![], self.cancelled(error)),
                Ok(previous) => {
                    let run = applying::begun(
                        index,
                        self.config.layouts[index as int],
                        previous,
                    );
                    match run.answered(first) {
                        StepView::RollBack(next) => (
                            seq![run.target(), next.target()],
                            self.ended(next.answered(second), audio, captured),
                        ),
                        end => (seq![run.target()], self.ended(end, audio, captured)),
                    }
                },
            },
        }
    }

    /// After the last apply was undone, where it could be.
    pub open spec fn undone(
        self,
        outcome: Result<(), Seq<char>>,
        audio: Result<InventoryView, Seq<char>>,
        captured: Result<LayoutView, Seq<char>>,
    ) -> AppView {
        match self.undo_layout {
            None => self,
            Some(previous) => match outcome {
                Ok(_) => AppView {
                    undo_layout: None,
                    ..self.with_audio(audio, false).remembering(snapshot_of(captured, previous))
                }.showing(
                    informed(
                        "Restored the display and audio settings from before the last successful apply"@,
                    ),
                ),
                Err(error) => self.showing(
                    warned("Could not restore the previous profile: "@ + error),
                ),
            },
        }
    }

    /// The whole of an undo: the layouts that Windows is asked to apply, and the
    /// state at the end. `outcome` is what came of the attempt, if one was made,
    /// `audio` and `captured` what was found after it.
    pub open spec fn undo_course(
        self,
        outcome: Result<(), Seq<char>>,
        audio: Result<InventoryView, Seq<char>>,
        captured: Result<LayoutView, Seq<char>>,
    ) -> (Seq<LayoutView>, AppView) {
        match self.undo_layout {
            None => (seq![], self),
            Some(previous) => (seq![previous], self.undone(outcome, audio, captured)),
        }
    }

    /// After the keyboard shortcuts were registered.
    pub open spec fn registered(self, failures: Seq<FailureView>) -> AppView {
        if failures.len() == 0 {
            if "Some global hotkeys could not be registered:"@.is_prefix_of(self.status.message) {
                self.showing(informed("Global hotkeys updated"@))
            } else {
                self
            }
        } else {
            self.showing(
                warned(
                    "Some global hotkeys could not be registered: "@ + text::join(
                        failure_lines(self.config.layouts, failures),
                        "; "@,
                    ),
                ),
            )
        }
    }

    /// What is to be done with unsaved edits now, and the state after it.
    pub open spec fn persisting(self, now: u64) -> (PersistStep, AppView) {
        if !self.dirty {
            (PersistStep::Nothing, self)
        } else if elapsed(self.last_persist, now) < SAVE_INTERVAL {
            (
                PersistStep::Wait((SAVE_INTERVAL - elapsed(self.last_persist, now)) as u64),
                self,
            )
        } else {
            (PersistStep::Save, AppView { last_persist: now, ..self })
        }
    }

    /// After the edits were saved, or could not be.
    pub open spec fn saved(self, outcome: Result<(), Seq<char>>) -> AppView {
        match outcome {
            Ok(_) => AppView { dirty: false, ..self },
            Err(error) => self.showing(warned("Could not save layouts: "@ + error)),
        }
    }

    /// After the layouts were saved on request, or could not be.
    pub open spec fn saved_on_request(self, outcome: Result<(), Seq<char>>) -> AppView {
        match outcome {
            Ok(_) => self.saved(outcome).showing(informed("Layouts saved"@)),
            Err(_) => self.saved(outcome),
        }
    }

    /// After a recording was asked for.
    pub open spec fn recording_asked(
        self,
        layout_index: usize,
        outcome: Result<(), Seq<char>>,
    ) -> AppView {
        match outcome {
            Ok(_) => (AppView {
                controller_capture_layout: Some(layout_index),
                controller_capture_status:
                    "Release all controller buttons, then press the desired chord"@,
                ..self
            }).showing(informed("Listening for a controller hotkey"@)),
            Err(error) => self.showing(warned("Could not start controller binding: "@ + error)),
        }
    }

    /// After a recording was given up.
    pub open spec fn recording_dropped(self, outcome: Result<(), Seq<char>>) -> AppView {
        match outcome {
            Ok(_) => self.not_recording(),
            Err(error) => self.not_recording().showing(
                warned("Could not cancel controller binding: "@ + error),
            ),
        }
    }

    /// After the tray icon stopped working.
    pub open spec fn without_tray(self, error: Seq<char>) -> AppView {
        (AppView { tray: false, ..self }).showing(
            warned("System tray stopped working: "@ + error),
        )
    }

    /// After an update was found.
    pub open spec fn offered(self, update: UpdateView) -> AppView {
        AppView {
            available_update: Some(update),
            status: if self.status.is_error {
                self.status
            } else {
                informed("Update "@ + update.tag + " is available"@)
            },
            ..self
        }
    }

    /// After the installer was started.
    pub open spec fn launched(self) -> AppView {
        (AppView { exit_requested: true, ..self }).showing(
            informed("Update verified and installer launched; MonMan will restart"@),
        )
    }

    /// After an update could not be installed.
    pub open spec fn not_installed(self, error: Seq<char>) -> AppView {
        (AppView { update_in_progress: false, ..self }).showing(
            warned("Update failed: "@ + error),
        )
    }

    /// What the update button says.
    pub open spec fn update_text(self) -> Option<Seq<char>> {
        match self.available_update {
            None => None,
            Some(update) => Some(
                if self.update_in_progress {
                    "Installing "@ + update.tag + "…"@
                } else {
                    "Update to "@ + update.tag
                },
            ),
        }
    }

    /// While the update that is offered is being installed.
    pub open spec fn installing(self) -> AppView {
        match self.available_update {
            None => self,
            Some(update) => (AppView { update_in_progress: true, ..self }).showing(
                informed("Downloading update "@ + update.tag + "…"@),
            ),
        }
    }

    /// What hiding the window comes to, and the state after it.
    pub open spec fn hidden(self) -> (WindowAction, AppView) {
        if self.tray {
            (
                WindowAction::Hide,
                self.showing(
                    informed(
                        "MonMan is running in the system tray; keyboard and controller hotkeys remain active"@,
                    ),
                ),
            )
        } else {
            (WindowAction::Nothing, self)
        }
    }

    /// What closing the window comes to, and the state after it.
    pub open spec fn closed(self) -> (WindowAction, AppView) {
        if !self.exit_requested && self.tray {
            self.hidden()
        } else {
            (WindowAction::Close, AppView { exit_requested: true, ..self })
        }
    }

    /// After a chord was recorded for a layout.
    pub open spec fn recorded(self, index: usize, binding: ControllerBindingView) -> AppView {
        let after = self.not_recording();
        if index < self.config.layouts.len() {
            after.with_layouts(
                self.config.layouts.update(
                    index as int,
                    LayoutView {
                        controller_hotkey: Some(binding),
                        ..self.config.layouts[index as int]
                    },
                ),
            ).showing(informed("Controller hotkey saved: "@ + binding.label()))
        } else {
            after
        }
    }
}

// ---------------------------------------------------------------------------
// What holds of the state
// ---------------------------------------------------------------------------

/// A copy has the original's monitors and devices but no shortcuts, and every
/// other layout stays as it was.
pub proof fn lemma_duplicate(app: AppView, index: int)
    requires
        app.current() == Some(index),
        app.config.layouts.len() < usize::MAX,
    ensures
        ({
            let after = app.duplicated();
            let copy = after.config.layouts[index + 1];
            &&& after.config.layouts.len() == app.config.layouts.len() + 1
            &&& after.current() == Some(index + 1)
            &&& copy.monitors == app.config.layouts[index].monitors
            &&& copy.playback_device == app.config.layouts[index].playback_device
            &&& copy.microphone_device == app.config.layouts[index].microphone_device
            &&& copy.hotkey is None && copy.controller_hotkey is None
            &&& after.config.layouts.remove(index + 1) == app.config.layouts
        }),
{
    let after = app.duplicated();
    assert(after.config.layouts.remove(index + 1) =~= app.config.layouts);
}

/// The recovery snapshot is a topology and nothing more: exactly the monitors
/// that Windows shows, or that were applied where that could not be captured.
pub proof fn lemma_snapshot(layout: LayoutView, applied: LayoutView, error: Seq<char>)
    ensures
        snapshot_of(Ok(layout), applied).monitors == layout.monitors,
        snapshot_of(Err(error), applied).monitors == applied.monitors,
        sanitized(layout).monitors == layout.monitors,
        sanitized(layout).name == "Last known working topology"@,
        sanitized(layout).hotkey is None && sanitized(layout).controller_hotkey is None,
        sanitized(layout).playback_device is None && sanitized(layout).microphone_device is None,
        snapshot_of(Ok(layout), applied) == sanitized(layout),
        snapshot_of(Err(error), applied) == sanitized(applied),
{
}

/// A layout with a keyboard shortcut is listed with it, under its own place, and
/// no other is; the same holds of chords that have a button.
pub proof fn lemma_shortcuts_of_layouts(
    layouts: Seq<LayoutView>,
    count: int,
    at: int,
    binding: HotkeyBinding,
    chord: ControllerBindingView,
)
    requires
        0 <= at < count <= layouts.len() <= usize::MAX,
    ensures
        layouts[at].hotkey == Some(binding) <==> hotkey_specs_of(layouts, count).contains(
            (HotkeySpec { layout_index: at as usize, binding }),
        ),
        layouts[at].controller_hotkey == Some(chord) && chord.buttons.len() > 0
            <==> controller_specs_of(layouts, count).contains(
            (SpecView { layout_index: at as usize, binding: chord }),
        ),
    decreases count,
{
    let last = count - 1;
    let keys = hotkey_specs_of(layouts, last);
    let chords = controller_specs_of(layouts, last);
    let all_keys = hotkey_specs_of(layouts, count);
    let all_chords = controller_specs_of(layouts, count);
    let key = HotkeySpec { layout_index: at as usize, binding };
    let spec = SpecView { layout_index: at as usize, binding: chord };
    lemma_listed_places(layouts, last);
    if at < last {
        lemma_shortcuts_of_layouts(layouts, last, at, binding, chord);
    } else {
        if layouts[at].hotkey == Some(binding) {
            assert(all_keys[keys.len() as int] == key);
        }
        if layouts[at].controller_hotkey == Some(chord) && chord.buttons.len() > 0 {
            assert(all_chords[chords.len() as int] == spec);
        }
    }
    if keys.contains(key) {
        let k = choose|k: int| 0 <= k < keys.len() && keys[k] == key;
        assert(all_keys[k] == key);
    }
    if all_keys.contains(key) {
        let k = choose|k: int| 0 <= k < all_keys.len() && all_keys[k] == key;
        if k < keys.len() {
            assert(keys[k] == key);
        }
    }
    if chords.contains(spec) {
        let k = choose|k: int| 0 <= k < chords.len() && chords[k] == spec;
        assert(all_chords[k] == spec);
    }
    if all_chords.contains(spec) {
        let k = choose|k: int| 0 <= k < all_chords.len() && all_chords[k] == spec;
        if k < chords.len() {
            assert(chords[k] == spec);
        }
    }
}

proof fn lemma_listed_places(layouts: Seq<LayoutView>, count: int)
    requires
        0 <= count <= layouts.len() <= usize::MAX,
    ensures
        forall|i: int|
            0 <= i < hotkey_specs_of(layouts, count).len() ==> (#[trigger] hotkey_specs_of(
                layouts,
                count,
            )[i]).layout_index < count,
        forall|i: int|
            0 <= i < controller_specs_of(layouts, count).len() ==> (#[trigger] controller_specs_of(
                layouts,
                count,
            )[i]).layout_index < count,
    decreases count,
{
    if count > 0 {
        lemma_listed_places(layouts, count - 1);
        let before = controller_specs_of(layouts, count - 1);
        let after = controller_specs_of(layouts, count);
        assert forall|i: int| 0 <= i < after.len() implies (#[trigger] after[i]).layout_index
            < count by {
            if i < before.len() {
                assert(after[i] == before[i]);
            }
        }
    }
}

/// A layout with every monitor off keeps everything else of itself and of its
/// monitors, but for clone groups, which are dissolved.
pub proof fn lemma_all_off_keeps_the_rest(layout: LayoutView, i: int)
    requires
        0 <= i < layout.monitors.len(),
    ensures
        ({
            let after = all_off(layout);
            &&& after.monitors.len() == layout.monitors.len()
            &&& !after.monitors[i].enabled
            &&& after.monitors[i].clone_group is None
            &&& layout.monitors[i] == (MonitorView {
                enabled: layout.monitors[i].enabled,
                clone_group: layout.monitors[i].clone_group,
                ..after.monitors[i]
            })
            &&& layout == (LayoutView { monitors: layout.monitors, ..after })
        }),
{
}

/// A captured layout is added at the end as it was captured, is selected and is
/// to be saved; a custom one is added in the same way with every monitor off.
/// Where there was nothing to capture, only the message changes.
pub proof fn lemma_added_layouts(app: AppView, layout: LayoutView, error: Seq<char>)
    requires
        app.config.layouts.len() < usize::MAX,
    ensures
        ({
            let after = app.captured(Ok(layout));
            &&& after.config.layouts == app.config.layouts.push(layout)
            &&& after.selected == Some(app.config.layouts.len() as usize)
            &&& after.dirty && !after.status.is_error
            &&& after.config.last_known_working == app.config.last_known_working
            &&& app == (AppView {
                config: app.config,
                selected: app.selected,
                dirty: app.dirty,
                status: app.status,
                ..after
            })
        }),
        ({
            let after = app.customized(Ok(layout));
            &&& after.config.layouts == app.config.layouts.push(all_off(layout))
            &&& after.selected == Some(app.config.layouts.len() as usize)
            &&& after.dirty && !after.status.is_error
            &&& after.config.last_known_working == app.config.last_known_working
        }),
        app.captured(Err(error)).status.is_error,
        app == (AppView { status: app.status, ..app.captured(Err(error)) }),
        app.customized(Err(error)).status.is_error,
        app == (AppView { status: app.status, ..app.customized(Err(error)) }),
        app.captured(Err(error)).status.message == "Capture failed: "@ + error,
        app.customized(Err(error)).status.message == "Could not enumerate connected monitors: "@
            + error,
{
}

/// Capturing a layout anew replaces its name, monitors and audio devices by what
/// was captured and keeps its shortcuts; no other layout changes. Without a
/// selection, nothing does.
pub proof fn lemma_recaptured(
    app: AppView,
    layout: LayoutView,
    error: Seq<char>,
    index: int,
    other: int,
)
    requires
        0 <= other < app.config.layouts.len(),
        other != index,
    ensures
        app.current() is None ==> app.recaptured(Ok(layout)) == app && app.recaptured(Err(error))
            == app,
        app.current() == Some(index) ==> {
            let after = app.recaptured(Ok(layout));
            let (old, new) = (app.config.layouts[index], after.config.layouts[index]);
            &&& after.config.layouts.len() == app.config.layouts.len()
            &&& after.config.layouts[other] == app.config.layouts[other]
            &&& new.monitors == layout.monitors
            &&& new.name == layout.name
            &&& new.playback_device == layout.playback_device
            &&& new.microphone_device == layout.microphone_device
            &&& new.hotkey == old.hotkey
            &&& new.controller_hotkey == old.controller_hotkey
            &&& after.dirty && !after.status.is_error
            &&& after.selected == app.selected
            &&& app.recaptured(Err(error)).status.is_error
            &&& app.recaptured(Err(error)).config == app.config
            &&& app.recaptured(Err(error)).dirty == app.dirty
        },
{
}

/// The selected layout is the one whose place is selected, where there is one.
pub proof fn lemma_current(app: AppView, index: usize)
    ensures
        app.selected is None ==> app.current() is None,
        app.selected == Some(index) && index < app.config.layouts.len() ==> app.current() == Some(
            index as int,
        ),
        app.selected == Some(index) && index >= app.config.layouts.len() ==> app.current() is None,
{
}

/// Syncing tells how many monitors were added and how many were there already,
/// and is to be saved where any is connected. Where the connected ones could not
/// be listed, only the message changes.
pub proof fn lemma_synced(
    app: AppView,
    connected: LayoutView,
    close: Seq<(Hertz, Hertz)>,
    error: Seq<char>,
    index: int,
)
    requires
        app.current() == Some(index),
    ensures
        ({
            let after = app.synced(Ok(connected), close);
            let grown = after.config.layouts[index].monitors.len()
                - app.config.layouts[index].monitors.len();
            &&& 0 <= grown <= connected.monitors.len()
            &&& after.status.message == "Monitor list refreshed: "@ + text::decimal(grown as nat)
                + " added, "@ + text::decimal((connected.monitors.len() - grown) as nat)
                + " matched"@
            &&& !after.status.is_error
            &&& after.dirty <==> app.dirty || connected.monitors.len() > 0
            &&& after.selected == app.selected
            &&& after.config.last_known_working == app.config.last_known_working
            &&& after.config.layouts[index].playback_device
                == app.config.layouts[index].playback_device
            &&& after.config.layouts[index].microphone_device
                == app.config.layouts[index].microphone_device
            &&& after.config.layouts[index].controller_hotkey
                == app.config.layouts[index].controller_hotkey
            &&& after.config.layouts[index].hotkey == app.config.layouts[index].hotkey
            &&& after.config.layouts[index].name == app.config.layouts[index].name
        }),
        app.synced(Err(error), close).status.is_error,
        app == (AppView { status: app.status, ..app.synced(Err(error), close) }),
{
    let before = app.config.layouts[index];
    let count = connected.monitors.len() as int;
    let merged = sync::merged(before.monitors, connected.monitors, close, count);
    sync::lemma_sync_enables_nothing(before.monitors, connected.monitors, close, count);
    order::lemma_stable_sorted::<MonitorConfig>(merged);
}

/// A copy comes right behind the layout it was made of, under its name with
/// ` copy` behind it, and is selected; the other layouts keep their order.
pub proof fn lemma_copy(app: AppView, index: int, i: int)
    requires
        app.current() == Some(index),
        app.config.layouts.len() < usize::MAX,
        0 <= i < app.config.layouts.len(),
    ensures
        ({
            let after = app.duplicated();
            &&& after.config.layouts[index + 1].name == app.config.layouts[index].name + " copy"@
            &&& after.selected == Some((index + 1) as usize)
            &&& i <= index ==> after.config.layouts[i] == app.config.layouts[i]
            &&& i > index ==> after.config.layouts[i + 1] == app.config.layouts[i]
            &&& after.dirty && !after.status.is_error
            &&& app == (AppView {
                config: app.config,
                selected: app.selected,
                dirty: app.dirty,
                status: app.status,
                ..after
            })
        }),
        app.config.last_known_working == app.duplicated().config.last_known_working,
{
}

/// Without a selected layout, there is nothing to copy.
pub proof fn lemma_nothing_to_copy(app: AppView)
    requires
        app.current() is None,
    ensures
        app.duplicated() == app,
{
}

/// Deleting takes out one layout and keeps the others in order. Selected is then
/// the one that took its place, or the last one, or none where none is left. A
/// recording under way is given up.
pub proof fn lemma_deleted(app: AppView, index: int, i: int)
    requires
        0 <= index < app.config.layouts.len() <= usize::MAX,
        0 <= i < app.config.layouts.len(),
    ensures
        ({
            let after = app.deleted(index);
            let left = app.config.layouts.len() - 1;
            &&& after.config.layouts.len() == left
            &&& i < index ==> after.config.layouts[i] == app.config.layouts[i]
            &&& i > index ==> after.config.layouts[i - 1] == app.config.layouts[i]
            &&& left == 0 ==> after.selected is None
            &&& index < left ==> after.selected == Some(index as usize)
            &&& left > 0 && index == left ==> after.selected == Some((left - 1) as usize)
            &&& app.controller_capture_layout is Some ==> after.controller_capture_layout is None
                && after.controller_capture_status.len() == 0
            &&& app.controller_capture_layout is None ==> after.controller_capture_status
                == app.controller_capture_status
            &&& after.dirty && !after.status.is_error
            &&& after.config.last_known_working == app.config.last_known_working
            &&& after.undo_layout == app.undo_layout
        }),
{
}

/// The audio devices that were listed are the ones that are shown from then on;
/// a message comes where it was asked for, and where they could not be listed,
/// in which case the devices stay.
pub proof fn lemma_audio_listed(app: AppView, devices: InventoryView, error: Seq<char>)
    ensures
        app.with_audio(Ok(devices), true).audio_devices == devices,
        app.with_audio(Ok(devices), false).audio_devices == devices,
        app.with_audio(Ok(devices), false).status == app.status,
        !app.with_audio(Ok(devices), true).status.is_error,
        app.with_audio(Ok(devices), true).status.message == "Audio devices refreshed: "@
            + text::decimal(devices.playback.len()) + " playback, "@ + text::decimal(
            devices.microphones.len(),
        ) + " microphone"@,
        app.with_audio(Err(error), false).audio_devices == app.audio_devices,
        app.with_audio(Err(error), false).status.is_error,
        app.with_audio(Err(error), true) == app.with_audio(Err(error), false),
        app.with_audio(Err(error), true).status.message == "Could not enumerate audio devices: "@
            + error,
        app.with_audio(Ok(devices), true).config == app.config,
        app.with_audio(Err(error), true).config == app.config,
        app.with_audio(Ok(devices), true).dirty == app.dirty,
{
}

/// Shortcuts that were not registered are listed with layout, keys and reason as
/// an error. Where all were registered, such an error is lifted, and any other
/// message stays.
pub proof fn lemma_registered(app: AppView, failures: Seq<FailureView>, at: int)
    ensures
        failures.len() > 0 ==> app.registered(failures).status.is_error
            && app.registered(failures).status.message
            == "Some global hotkeys could not be registered: "@ + text::join(
            failure_lines(app.config.layouts, failures),
            "; "@,
        ),
        failures.len() == 0 && "Some global hotkeys could not be registered:"@.is_prefix_of(
            app.status.message,
        ) ==> !app.registered(failures).status.is_error,
        failures.len() == 0 && !"Some global hotkeys could not be registered:"@.is_prefix_of(
            app.status.message,
        ) ==> app.registered(failures) == app,
        app == (AppView { status: app.status, ..app.registered(failures) }),
        failure_lines(app.config.layouts, failures).len() == failures.len(),
        0 <= at < failures.len() && failures[at].layout_index < app.config.layouts.len()
            ==> failure_lines(app.config.layouts, failures)[at]
            == app.config.layouts[failures[at].layout_index as int].name + " ["@
            + failures[at].binding.label_text() + "]: "@ + failures[at].reason,
        0 <= at < failures.len() && failures[at].layout_index >= app.config.layouts.len()
            ==> failure_lines(app.config.layouts, failures)[at] == "unknown layout"@ + " ["@
            + failures[at].binding.label_text() + "]: "@ + failures[at].reason,
{
}

/// A recorded chord becomes the shortcut of the layout that it was recorded for
/// and of no other, and the recording is over; where that layout is gone, the
/// chord is dropped.
pub proof fn lemma_recorded(
    app: AppView,
    index: usize,
    binding: ControllerBindingView,
    other: int,
)
    requires
        0 <= other < app.config.layouts.len(),
        other != index,
    ensures
        ({
            let after = app.recorded(index, binding);
            &&& after.controller_capture_layout is None
            &&& after.controller_capture_status.len() == 0
            &&& after.config.layouts.len() == app.config.layouts.len()
            &&& after.config.layouts[other] == app.config.layouts[other]
            &&& index < app.config.layouts.len() ==> {
                let (old, new) = (
                    app.config.layouts[index as int],
                    after.config.layouts[index as int],
                );
                &&& new.controller_hotkey == Some(binding)
                &&& new.hotkey == old.hotkey && new.name == old.name && new.monitors
                    == old.monitors && new.playback_device == old.playback_device
                    && new.microphone_device == old.microphone_device
                &&& after.dirty && !after.status.is_error
                &&& after.status.message == "Controller hotkey saved: "@ + binding.label()
            }
            &&& index >= app.config.layouts.len() ==> after.config == app.config && after.dirty
                == app.dirty && after.status == app.status
            &&& after.selected == app.selected && after.undo_layout == app.undo_layout
        }),
{
}

/// After an apply the user reads which layout it was and what came of it, and
/// the audio devices are those that were found.
pub proof fn lemma_apply_is_told(
    app: AppView,
    index: int,
    previous: LayoutView,
    error: Seq<char>,
    rollback_error: Seq<char>,
    devices: InventoryView,
    captured: Result<LayoutView, Seq<char>>,
)
    ensures
        ({
            let name = app.config.layouts[index].name;
            let applied = app.applied(index, previous, Ok(devices), captured);
            let back = app.rolled_back(index, error, previous, Ok(devices), captured);
            let stuck = app.stuck(index, error, rollback_error);
            &&& applied.status.message == "Applied '"@ + name + "'"@ && !applied.status.is_error
            &&& applied.audio_devices == devices && applied.dirty
            &&& applied.config.last_known_working == Some(
                snapshot_of(captured, app.config.layouts[index]),
            )
            &&& applied.selected == app.selected
            &&& back.status.message == "Could not apply '"@ + name + "': "@ + error
                + ". The previous display and audio settings were restored."@
            &&& back.audio_devices == devices && back.dirty
            &&& back.config.last_known_working == Some(snapshot_of(captured, previous))
            &&& back.selected == app.selected
            &&& stuck.status.message == "Could not apply '"@ + name + "': "@ + error
                + ". Automatic rollback also failed: "@ + rollback_error
            &&& app == (AppView { status: app.status, ..stuck })
        }),
{
}

/// After every operation on the layouts the user reads what was done, or what
/// went wrong and why.
pub proof fn lemma_told(
    app: AppView,
    layout: LayoutView,
    error: Seq<char>,
    close: Seq<(Hertz, Hertz)>,
    index: int,
)
    ensures
        app.captured(Ok(layout)).status.message
            == "Captured current Windows display topology and audio devices"@,
        app.customized(Ok(layout)).status.message
            == "Created a custom layout from currently connected monitors"@,
        app.current() is Some ==> app.recaptured(Ok(layout)).status.message
            == "Replaced this layout with the current display and audio devices"@,
        app.current() is Some ==> app.recaptured(Err(error)).status.message == "Capture failed: "@
            + error,
        app.current() is Some ==> app.synced(Err(error), close).status.message
            == "Could not refresh monitors: "@ + error && app.synced(
            Err(error),
            close,
        ).status.is_error,
        app.current() is Some ==> app.duplicated().status.message
            == "Duplicated layout (hotkeys cleared on the copy)"@
            && !app.duplicated().status.is_error,
        app.deleted(index).status.message == "Deleted layout"@ && !app.deleted(
            index,
        ).status.is_error,
        app.refused(index).status.message == "Could not apply '"@ + app.config.layouts[index].name
            + "': "@ + "a layout must keep at least one monitor enabled"@,
        app.refused(index).status.is_error && app.cancelled(error).status.is_error,
        app.cancelled(error).status.message
            == "Apply cancelled because the current display and audio settings could not be captured for rollback: "@
            + error,
        app == (AppView { status: app.status, ..app.refused(index) }),
        app == (AppView { status: app.status, ..app.cancelled(error) }),
{
}

/// Undoing leaves the layouts, takes over the audio devices that were found, and
/// says what came of it; a failed undo changes nothing but the message.
pub proof fn lemma_undo_is_told(
    app: AppView,
    previous: LayoutView,
    devices: InventoryView,
    captured: Result<LayoutView, Seq<char>>,
    error: Seq<char>,
)
    requires
        app.undo_layout == Some(previous),
    ensures
        ({
            let after = app.undone(Ok(()), Ok(devices), captured);
            &&& after.status.message
                == "Restored the display and audio settings from before the last successful apply"@
            &&& !after.status.is_error
            &&& after.audio_devices == devices
            &&& after.dirty
            &&& after.selected == app.selected
            &&& app.undone(Ok(()), Err(error), captured).audio_devices == app.audio_devices
        }),
        ({
            let after = app.undone(Err(error), Ok(devices), captured);
            &&& after.status.message == "Could not restore the previous profile: "@ + error
            &&& after.status.is_error
            &&& app == (AppView { status: app.status, ..after })
        }),
{
}

/// Unsaved edits are saved as soon as half a second has passed since the last
/// time, and not before; until then the wait is exactly what is left of it, and
/// looking again after it saves. Without unsaved edits nothing is done.
pub proof fn lemma_edits_are_collected(app: AppView, now: u64, later: u64)
    requires
        app.last_persist <= now,
    ensures
        !app.dirty ==> app.persisting(now) == (PersistStep::Nothing, app),
        app.dirty && now >= app.last_persist + 500 ==> app.persisting(now).0 is Save
            && app.persisting(now).1.last_persist == now && app.persisting(now).1.dirty
            && app.persisting(now).1.config == app.config,
        app.dirty && now < app.last_persist + 500 ==> (app.persisting(now).0 matches
            PersistStep::Wait(pause) && now + pause == app.last_persist + 500)
            && app.persisting(now).1 == app,
        app.dirty && (app.persisting(now).0 matches PersistStep::Wait(pause) && later == now
            + pause) ==> app.persisting(later).0 is Save,
        app.dirty && now >= app.last_persist + 500 && now <= later < now + 500
            ==> app.persisting(now).1.persisting(later).0 is Wait,
{
}

/// Saving lifts the mark of unsaved edits; where it fails, the mark stays and the
/// user reads why. Only saving on request is told where it works. The layouts
/// themselves do not change.
pub proof fn lemma_saving(app: AppView, error: Seq<char>)
    ensures
        !app.saved(Ok(())).dirty && !app.saved_on_request(Ok(())).dirty,
        app.saved(Ok(())).status == app.status,
        app == (AppView { dirty: app.dirty, ..app.saved(Ok(())) }),
        app.saved_on_request(Ok(())).status == informed("Layouts saved"@),
        app == (AppView {
            dirty: app.dirty,
            status: app.status,
            ..app.saved_on_request(Ok(()))
        }),
        app.saved(Err(error)).dirty == app.dirty && app.saved_on_request(Err(error)).dirty
            == app.dirty,
        app.saved(Err(error)).status == warned("Could not save layouts: "@ + error),
        app.saved_on_request(Err(error)).status == warned("Could not save layouts: "@ + error),
        app.saved(Err(error)).config == app.config && app.saved_on_request(Err(error)).config
            == app.config,
{
}

/// A recording that begins is shown for its layout; one that cannot begin changes
/// nothing but the message. Giving one up ends it, even where that is not heard.
pub proof fn lemma_recording_is_shown(app: AppView, layout_index: usize, error: Seq<char>)
    ensures
        ({
            let begun = app.recording_asked(layout_index, Ok(()));
            &&& begun.controller_capture_layout == Some(layout_index)
            &&& begun.controller_capture_status
                == "Release all controller buttons, then press the desired chord"@
            &&& begun.status == informed("Listening for a controller hotkey"@)
            &&& begun.config == app.config && begun.dirty == app.dirty
            &&& begun.recording_dropped(Ok(())).controller_capture_layout is None
            &&& begun.recording_dropped(Ok(())).controller_capture_status.len() == 0
            &&& begun.recording_dropped(Ok(())).status == begun.status
            &&& begun.recording_dropped(Err(error)).controller_capture_layout is None
            &&& begun.recording_dropped(Err(error)).status == warned(
                "Could not cancel controller binding: "@ + error,
            )
            &&& begun.recording_dropped(Err(error)).config == app.config
        }),
        app.recording_asked(layout_index, Err(error)).status == warned(
            "Could not start controller binding: "@ + error,
        ),
        app == (AppView {
            status: app.status,
            ..app.recording_asked(layout_index, Err(error))
        }),
{
}

/// Closing the window hides it as long as there is a tray icon to bring it back
/// with and no end was asked for; otherwise it ends the program. Once the tray
/// is lost, or an end asked for, the window never only hides.
pub proof fn lemma_closing(app: AppView, error: Seq<char>)
    ensures
        app.tray && !app.exit_requested ==> app.closed().0 is Hide
            && !app.closed().1.exit_requested && !app.closed().1.status.is_error,
        app.tray ==> app.hidden().0 is Hide && app.hidden().1.status.message
            == "MonMan is running in the system tray; keyboard and controller hotkeys remain active"@,
        !app.tray || app.exit_requested ==> app.closed().0 is Close
            && app.closed().1.exit_requested && app.closed().1.status == app.status,
        !app.tray ==> app.hidden().0 is Nothing && app.hidden().1 == app,
        app.closed().1.config == app.config && app.closed().1.dirty == app.dirty,
        app.hidden().1.config == app.config && app.hidden().1.dirty == app.dirty,
        app.without_tray(error).closed().0 is Close,
        app.without_tray(error).status == warned("System tray stopped working: "@ + error),
        app.without_tray(error).config == app.config,
        app.launched().closed().0 is Close,
{
}

/// An update that was found is offered by its tag without covering up a problem.
/// While it is installed the button says so; where that fails it is offered
/// again, and where it works the program ends.
pub proof fn lemma_updating(app: AppView, update: UpdateView, error: Seq<char>)
    ensures
        ({
            let offered = app.offered(update);
            let busy = offered.installing();
            let failed = busy.not_installed(error);
            &&& offered.available_update == Some(update)
            &&& app.status.is_error ==> offered.status == app.status
            &&& !app.status.is_error ==> offered.status == informed(
                "Update "@ + update.tag + " is available"@,
            )
            &&& app == (AppView {
                available_update: app.available_update,
                status: app.status,
                ..offered
            })
            &&& !app.update_in_progress ==> offered.update_text() == Some(
                "Update to "@ + update.tag,
            )
            &&& busy.update_in_progress && busy.available_update == Some(update)
            &&& busy.update_text() == Some("Installing "@ + update.tag + "…"@)
            &&& busy.status == informed("Downloading update "@ + update.tag + "…"@)
            &&& !failed.update_in_progress && failed.available_update == Some(update)
            &&& failed.update_text() == Some("Update to "@ + update.tag)
            &&& failed.status == warned("Update failed: "@ + error)
            &&& !failed.exit_requested == !app.exit_requested
            &&& busy.launched().exit_requested
            &&& busy.launched().status == informed(
                "Update verified and installer launched; MonMan will restart"@,
            )
            &&& busy.launched().config == app.config
        }),
        app.available_update is None ==> app.update_text() is None && app.installing() == app,
{
}

/// Edits are collected for half a second, and time that seems to run backwards
/// counts as none.
pub proof fn lemma_save_interval(since: u64, now: u64)
    ensures
        SAVE_INTERVAL == 500,
        now >= since ==> elapsed(since, now) + since == now,
        now <= since ==> elapsed(since, now) == 0,
{
}

/// A layout counts as changed by every edit but starting and cancelling to
/// record a chord.
pub proof fn lemma_any_edit(changes: EditorChanges)
    ensures
        changes.name || changes.audio || changes.hotkeys || changes.arrangement || changes.monitors
            ==> changes.any(),
        changes.controller == Some(ControllerEdit::Clear) ==> changes.any(),
        !changes.name && !changes.audio && !changes.hotkeys && !changes.arrangement
            && !changes.monitors && changes.controller != Some(ControllerEdit::Clear)
            ==> !changes.any(),
{
}

/// A message changes nothing but the message; what went wrong is marked so.
pub proof fn lemma_messages(app: AppView, message: Seq<char>, snapshot: LayoutView)
    ensures
        app.showing(warned(message)).status.is_error && !app.showing(
            informed(message),
        ).status.is_error,
        app.showing(warned(message)).status.message == message && app.showing(
            informed(message),
        ).status.message == message,
        app == (AppView { status: app.status, ..app.showing(warned(message)) }),
        app.remembering(snapshot).config.last_known_working == Some(snapshot),
        app.remembering(snapshot).config.layouts == app.config.layouts,
        app.remembering(snapshot).dirty,
        app.not_recording().controller_capture_layout is None,
        app.not_recording().config == app.config && app.not_recording().status == app.status,
{
}

/// Copying a layout and deleting the copy leaves the layouts as they were.
pub proof fn lemma_duplicate_then_delete(app: AppView, index: int)
    requires
        app.current() == Some(index),
        app.config.layouts.len() < usize::MAX,
    ensures
        app.duplicated().deleted(index + 1).config == app.config,
{
    lemma_duplicate(app, index);
}

/// Whatever happens, the selection stays a layout that exists, or none.
pub open spec fn selection_exists(app: AppView) -> bool {
    app.selected matches Some(index) ==> index < app.config.layouts.len()
}

/// Adding, replacing, copying and deleting layouts leave a selection that
/// exists.
pub proof fn lemma_selection_exists(
    app: AppView,
    layout: Result<LayoutView, Seq<char>>,
    close: Seq<(Hertz, Hertz)>,
    index: int,
)
    requires
        selection_exists(app),
        app.config.layouts.len() < usize::MAX,
    ensures
        selection_exists(app.captured(layout)),
        selection_exists(app.customized(layout)),
        selection_exists(app.recaptured(layout)),
        selection_exists(app.synced(layout, close)),
        selection_exists(app.duplicated()),
        0 <= index < app.config.layouts.len() ==> selection_exists(app.deleted(index)),
{
}

/// A new custom layout has every monitor off: it is refused until one is
/// switched on.
pub proof fn lemma_custom_layout_is_off(app: AppView, layout: LayoutView)
    ensures
        ({
            let layouts = app.customized(Ok(layout)).config.layouts;
            &&& layouts.len() == app.config.layouts.len() + 1
            &&& crate::display::checks::layout_fault(layouts.last().monitors) == Some(
                crate::display::checks::LayoutFault::AllOff,
            )
        }),
{
    let layouts = app.customized(Ok(layout)).config.layouts;
    checks::lemma_all_off_is_refused(layouts.last().monitors);
}

/// Applying, rolling back and undoing never change a saved layout. Only a
/// successful apply sets what can be gone back to, namely what was there
/// before it; a failed one leaves it as it was, and going back uses it up.
pub proof fn lemma_applying(
    app: AppView,
    index: int,
    previous: LayoutView,
    error: Seq<char>,
    rollback_error: Seq<char>,
    audio: Result<InventoryView, Seq<char>>,
    captured: Result<LayoutView, Seq<char>>,
)
    ensures
        app.applied(index, previous, audio, captured).config.layouts == app.config.layouts,
        app.applied(index, previous, audio, captured).undo_layout == Some(previous),
        app.rolled_back(index, error, previous, audio, captured).config.layouts
            == app.config.layouts,
        app.rolled_back(index, error, previous, audio, captured).undo_layout == app.undo_layout,
        app.rolled_back(index, error, previous, audio, captured).status.is_error,
        app.stuck(index, error, rollback_error).config == app.config,
        app.stuck(index, error, rollback_error).undo_layout == app.undo_layout,
        app.stuck(index, error, rollback_error).status.is_error,
        app.undone(Ok(()), audio, captured).undo_layout is None,
        app.undone(Err(error), audio, captured).undo_layout == app.undo_layout,
        app.undone(Ok(()), audio, captured).config.layouts == app.config.layouts,
        app.undone(Err(error), audio, captured).config == app.config,
{
}

/// A layout without an enabled monitor is refused before Windows is asked for
/// anything: nothing is captured or applied, the user is told, and neither the
/// saved layouts nor what can be gone back to change.
pub proof fn lemma_all_off_is_never_applied(
    app: AppView,
    index: usize,
    before: Result<LayoutView, Seq<char>>,
    first: Result<(), Seq<char>>,
    second: Result<(), Seq<char>>,
    audio: Result<InventoryView, Seq<char>>,
    captured: Result<LayoutView, Seq<char>>,
)
    requires
        index < app.config.layouts.len(),
        !recovery::is_on(app.config.layouts[index as int]),
    ensures
        app.apply_start(index as int) == ApplyStart::Refused,
        ({
            let (asked, after) = app.apply_course(index, before, first, second, audio, captured);
            &&& asked.len() == 0
            &&& after.status.is_error
            &&& after.undo_layout == app.undo_layout
            &&& after.config == app.config
        }),
{
    checks::lemma_all_off_is_refused(app.config.layouts[index as int].monitors);
}

/// Nothing is applied unless what is there was captured first. With that in
/// hand, a layout that is applied makes it what can be gone back to; where
/// the layout fails, the captured one is applied once in its place, what can
/// be gone back to stays, and the recovery snapshot changes only where that
/// worked. The saved layouts never change.
pub proof fn lemma_apply_course(
    app: AppView,
    index: usize,
    before: Result<LayoutView, Seq<char>>,
    first: Result<(), Seq<char>>,
    second: Result<(), Seq<char>>,
    audio: Result<InventoryView, Seq<char>>,
    captured: Result<LayoutView, Seq<char>>,
)
    requires
        index < app.config.layouts.len(),
        recovery::is_on(app.config.layouts[index as int]),
    ensures
        app.apply_start(index as int) == ApplyStart::Capture,
        ({
            let layout = app.config.layouts[index as int];
            let (asked, after) = app.apply_course(index, before, first, second, audio, captured);
            &&& after.config.layouts == app.config.layouts
            &&& before is Err ==> asked.len() == 0 && after.config == app.config
                && after.undo_layout == app.undo_layout && after.status.is_error
            &&& before matches Ok(previous) ==> {
                &&& first is Ok ==> asked == seq![layout] && after.undo_layout == Some(previous)
                    && !after.status.is_error && after.config.last_known_working == Some(
                    snapshot_of(captured, layout),
                )
                &&& first is Err ==> asked == seq![layout, previous] && after.undo_layout
                    == app.undo_layout && after.status.is_error
                &&& first is Err && second is Ok ==> after.config.last_known_working == Some(
                    snapshot_of(captured, previous),
                )
                &&& first is Err && second is Err ==> after.config == app.config
            }
        }),
{
    let monitors = app.config.layouts[index as int].monitors;
    checks::lemma_all_off_fault(monitors);
    model::lemma_enabled_of(monitors);
}

/// What can be gone back to outlasts the rest: adding, editing and removing
/// layouts, recording shortcuts, listing devices, messages, and an apply that
/// is refused or given up all leave it.
pub proof fn lemma_undo_is_kept(
    app: AppView,
    layout: Result<LayoutView, Seq<char>>,
    close: Seq<(Hertz, Hertz)>,
    index: usize,
    status: StatusView,
    audio: Result<InventoryView, Seq<char>>,
    announce: bool,
    failures: Seq<FailureView>,
    binding: ControllerBindingView,
    error: Seq<char>,
)
    ensures
        app.captured(layout).undo_layout == app.undo_layout,
        app.customized(layout).undo_layout == app.undo_layout,
        app.recaptured(layout).undo_layout == app.undo_layout,
        app.synced(layout, close).undo_layout == app.undo_layout,
        app.duplicated().undo_layout == app.undo_layout,
        app.deleted(index as int).undo_layout == app.undo_layout,
        app.showing(status).undo_layout == app.undo_layout,
        app.with_audio(audio, announce).undo_layout == app.undo_layout,
        app.registered(failures).undo_layout == app.undo_layout,
        app.not_recording().undo_layout == app.undo_layout,
        app.recorded(index, binding).undo_layout == app.undo_layout,
        app.refused(index as int).undo_layout == app.undo_layout,
        app.cancelled(error).undo_layout == app.undo_layout,
{
}

/// Undoing an apply applies exactly what was captured before it, however the
/// rest of the state has changed since. Where that works it is used up, and
/// undoing again asks nothing of Windows and changes nothing; where it fails,
/// it can be tried again, and the user is told.
pub proof fn lemma_undo_applies_the_capture(
    app: AppView,
    index: usize,
    previous: LayoutView,
    unused: Result<(), Seq<char>>,
    audio: Result<InventoryView, Seq<char>>,
    captured: Result<LayoutView, Seq<char>>,
    since: AppView,
    error: Seq<char>,
    again: Result<(), Seq<char>>,
)
    requires
        app.apply_start(index as int) is Capture,
        since.undo_layout == app.apply_course(
            index,
            Ok(previous),
            Ok(()),
            unused,
            audio,
            captured,
        ).1.undo_layout,
    ensures
        ({
            let (asked, after) = since.undo_course(Ok(()), audio, captured);
            &&& asked == seq![previous]
            &&& after.undo_layout is None
            &&& !after.status.is_error
            &&& after.config.last_known_working == Some(snapshot_of(captured, previous))
            &&& after.config.layouts == since.config.layouts
            &&& after.undo_course(again, audio, captured) == (Seq::<LayoutView>::empty(), after)
        }),
        ({
            let (asked, after) = since.undo_course(Err(error), audio, captured);
            &&& asked == seq![previous]
            &&& after.undo_layout == Some(previous)
            &&& after.status.is_error
            &&& after.config == since.config
        }),
{
}

/// The recovery snapshot never carries shortcuts or audio devices.
pub proof fn lemma_snapshot_is_bare(
    app: AppView,
    index: int,
    previous: LayoutView,
    audio: Result<InventoryView, Seq<char>>,
    captured: Result<LayoutView, Seq<char>>,
)
    ensures
        app.applied(index, previous, audio, captured).config.last_known_working matches Some(
            snapshot,
        ) && snapshot == sanitized(snapshot),
        snapshot_of(captured, previous) == sanitized(snapshot_of(captured, previous)),
{
}

/// Syncing monitors into a layout adds none that is on, and changes no other
/// layout.
pub proof fn lemma_sync_keeps_layout(
    app: AppView,
    connected: LayoutView,
    close: Seq<(Hertz, Hertz)>,
    index: int,
)
    requires
        app.current() == Some(index),
    ensures
        ({
            let after = app.synced(Ok(connected), close);
            let before = app.config.layouts[index];
            &&& after.config.layouts.len() == app.config.layouts.len()
            &&& forall|i: int|
                0 <= i < app.config.layouts.len() && i != index
                    ==> #[trigger] after.config.layouts[i] == app.config.layouts[i]
            &&& after.config.layouts[index].hotkey == before.hotkey
            &&& after.config.layouts[index].name == before.name
            &&& forall|i: int|
                0 <= i < after.config.layouts[index].monitors.len() && (
                #[trigger] after.config.layouts[index].monitors[i]).enabled ==> exists|j: int|
                    0 <= j < before.monitors.len() && (#[trigger] before.monitors[j]).enabled
                        && before.monitors[j].geometry()
                        == after.config.layouts[index].monitors[i].geometry()
        }),
{
    let before = app.config.layouts[index];
    let count = connected.monitors.len() as int;
    let merged = sync::merged(before.monitors, connected.monitors, close, count);
    let sorted = order::stable_sorted::<MonitorConfig>(merged);
    sync::lemma_sync_enables_nothing(before.monitors, connected.monitors, close, count);
    order::lemma_sorted_members::<MonitorConfig>(merged);
    assert forall|i: int| 0 <= i < sorted.len() && (#[trigger] sorted[i]).enabled implies exists|
        j: int,
    |
        0 <= j < before.monitors.len() && (#[trigger] before.monitors[j]).enabled
            && before.monitors[j].geometry() == sorted[i].geometry() by {
        assert(sorted.contains(sorted[i]));
        assert(merged.contains(sorted[i]));
        let k = choose|k: int| 0 <= k < merged.len() && merged[k] == sorted[i];
        assert(k < before.monitors.len());
        assert(before.monitors[k].enabled);
    }
}

/// After syncing, every connected monitor matches one of the layout's.
pub proof fn lemma_sync_covers_connected(
    app: AppView,
    connected: LayoutView,
    close: Seq<(Hertz, Hertz)>,
    index: int,
    at: int,
)
    requires
        app.current() == Some(index),
        0 <= at < connected.monitors.len(),
    ensures
        ({
            let after = app.synced(Ok(connected), close).config.layouts[index].monitors;
            exists|i: int|
                0 <= i < after.len() && (#[trigger] after[i]).identity.matches(
                    connected.monitors[at].identity,
                )
        }),
{
    let before = app.config.layouts[index].monitors;
    let count = connected.monitors.len() as int;
    let merged = sync::merged(before, connected.monitors, close, count);
    let sorted = order::stable_sorted::<MonitorConfig>(merged);
    sync::lemma_sync_lists_connected(before, connected.monitors, close, at);
    order::lemma_sorted_members::<MonitorConfig>(merged);
    let place = choose|place: int|
        0 <= place < merged.len() && (#[trigger] merged[place]).identity.matches(
            connected.monitors[at].identity,
        );
    assert(merged.contains(merged[place]));
    assert(sorted.contains(merged[place]));
    let at_end = choose|i: int| 0 <= i < sorted.len() && sorted[i] == merged[place];
    let after = app.synced(Ok(connected), close).config.layouts[index].monitors;
    assert(after == sorted);
    assert(after[at_end].identity.matches(connected.monitors[at].identity));
}

// ---------------------------------------------------------------------------
// Steps
// ---------------------------------------------------------------------------

/// What is to be done with unsaved edits.
#[derive(Debug, Clone, Copy, PartialEq, Eq, Structural)]
pub enum PersistStep {
    /// There are none.
    Nothing,
    /// Look again after this many milliseconds.
    Wait(u64),
    /// Save them now.
    Save,
}

/// How long ago something was; a time that is still to come was just now.
pub open spec fn elapsed(since: u64, now: u64) -> int {
    if now < since {
        0
    } else {
        now - since
    }
}

/// What the window is to do.
#[derive(Debug, Clone, Copy, PartialEq, Eq, Structural)]
pub enum WindowAction {
    Show,
    Hide,
    Close,
    Nothing,
}

/// What the user can do with the selected layout.
#[derive(Debug, Clone, Copy, PartialEq, Eq, Structural)]
pub enum LayoutAction {
    Apply,
    Recapture,
    SyncMonitors,
    Duplicate,
    Delete,
}

/// What the user can do with a layout's controller shortcut.
#[derive(Debug, Clone, Copy, PartialEq, Eq, Structural)]
pub enum ControllerEdit {
    BeginCapture,
    CancelCapture,
    Clear,
}

/// What the user did in one pass over the editor.
#[derive(Debug, Clone, Copy, PartialEq, Eq, Structural)]
pub struct EditorChanges {
    pub name: bool,
    pub audio: bool,
    pub hotkeys: bool,
    pub arrangement: bool,
    pub monitors: bool,
    pub controller: Option<ControllerEdit>,
}

impl EditorChanges {
    /// Whether the layout is another one than before.
    pub open spec fn any(self) -> bool {
        self.name || self.audio || self.hotkeys || self.arrangement || self.monitors
            || self.controller == Some(ControllerEdit::Clear)
    }
}

impl MonManApp {
    /// The keyboard shortcuts of the layouts.
    pub fn hotkey_specs(&self) -> (r: Vec<HotkeySpec>)
        ensures
            r@ == hotkey_specs_of(self@.config.layouts, self@.config.layouts.len() as int),
    {
        let ghost all = self@.config.layouts;
        let mut specs: Vec<HotkeySpec> = Vec::new();
        let mut at: usize = 0;
        while at < self.config.layouts.len()
            invariant
                at <= self.config.layouts@.len(),
                all == order::views(self.config.layouts@),
                specs@ == hotkey_specs_of(all, at as int),
            decreases self.config.layouts@.len() - at,
        {
            assert(all[at as int] == self.config.layouts@[at as int]@);
            if let Some(binding) = self.config.layouts[at].hotkey {
                specs.push(HotkeySpec { layout_index: at, binding });
            }
            at = at + 1;
        }
        specs
    }

    /// The controller shortcuts of the layouts that have a button.
    pub fn controller_specs(&self) -> (r: Vec<ControllerSpec>)
        ensures
            order::views(r@) == controller_specs_of(
                self@.config.layouts,
                self@.config.layouts.len() as int,
            ),
    {
        let ghost all = self@.config.layouts;
        let mut specs: Vec<ControllerSpec> = Vec::new();
        let mut at: usize = 0;
        proof {
            assert(order::views(specs@) =~= Seq::empty());
        }
        while at < self.config.layouts.len()
            invariant
                at <= self.config.layouts@.len(),
                all == order::views(self.config.layouts@),
                order::views(specs@) == controller_specs_of(all, at as int),
            decreases self.config.layouts@.len() - at,
        {
            assert(all[at as int] == self.config.layouts@[at as int]@);
            if let Some(binding) = &self.config.layouts[at].controller_hotkey {
                if binding.is_valid() {
                    let spec = ControllerSpec { layout_index: at, binding: binding.clone() };
                    proof {
                        order::lemma_views(specs@, 0, spec);
                    }
                    specs.push(spec);
                }
            }
            at = at + 1;
        }
        specs
    }

    /// Takes in whether the keyboard shortcuts could be handed over.
    pub fn hotkeys_updated(&mut self, outcome: Result<(), String>)
        ensures
            final(self)@ == (match outcome {
                Ok(_) => old(self)@,
                Err(error) => old(self)@.showing(
                    warned("Could not update global hotkeys: "@ + error@),
                ),
            }),
    {
        if let Err(error) = outcome {
            self.status = failed("Could not update global hotkeys: ", error.as_str());
        }
    }

    /// Takes in whether the controller shortcuts could be handed over.
    pub fn controllers_updated(&mut self, outcome: Result<(), String>)
        ensures
            final(self)@ == (match outcome {
                Ok(_) => old(self)@,
                Err(error) => old(self)@.showing(
                    warned("Could not update controller hotkeys: "@ + error@),
                ),
            }),
    {
        if let Err(error) = outcome {
            self.status = failed("Could not update controller hotkeys: ", error.as_str());
        }
    }

    /// Takes in the audio devices.
    pub fn refresh_audio_devices(
        &mut self,
        listed: Result<AudioDeviceInventory, String>,
        announce: bool,
    )
        ensures
            final(self)@ == old(self)@.with_audio(model::result_view(listed), announce),
    {
        match listed {
            Ok(devices) => {
                let playback: u64 = devices.playback.len() as u64;
                let microphones: u64 = devices.microphones.len() as u64;
                proof {
                    assert(devices@.playback.len() == devices.playback@.len());
                    assert(devices@.microphones.len() == devices.microphones@.len());
                }
                self.audio_devices = devices;
                if announce {
                    let mut message = "Audio devices refreshed: ".to_string();
                    message.append(text::decimal_text(playback).as_str());
                    message.append(" playback, ");
                    message.append(text::decimal_text(microphones).as_str());
                    message.append(" microphone");
                    self.status = AppStatus::info(message);
                }
            },
            Err(error) => {
                self.status = failed("Could not enumerate audio devices: ", error.as_str());
            },
        }
    }

    /// What is to be done with unsaved edits now. Where they are to be saved,
    /// this counts as the last time.
    pub fn persist(&mut self, now: u64) -> (r: PersistStep)
        ensures
            (r, final(self)@) == old(self)@.persisting(now),
    {
        if !self.dirty {
            return PersistStep::Nothing;
        }
        let passed: u64 = if now < self.last_persist {
            0
        } else {
            now - self.last_persist
        };
        if passed < SAVE_INTERVAL {
            return PersistStep::Wait(SAVE_INTERVAL - passed);
        }
        self.last_persist = now;
        PersistStep::Save
    }

    /// Takes in whether the edits were saved; where not, they stay unsaved.
    pub fn persisted(&mut self, outcome: Result<(), String>)
        ensures
            final(self)@ == old(self)@.saved(model::result_view(outcome)),
    {
        match outcome {
            Ok(_) => {
                self.dirty = false;
            },
            Err(error) => {
                self.status = failed("Could not save layouts: ", error.as_str());
            },
        }
    }

    /// Takes in whether the layouts were saved on request.
    pub fn save_now(&mut self, outcome: Result<(), String>)
        ensures
            final(self)@ == old(self)@.saved_on_request(model::result_view(outcome)),
    {
        match outcome {
            Ok(_) => {
                self.dirty = false;
                self.status = noted("Layouts saved");
            },
            Err(error) => {
                self.status = failed("Could not save layouts: ", error.as_str());
            },
        }
    }

    /// What a new layout is called.
    pub fn new_layout_name(&self) -> (r: String)
        requires
            self@.config.layouts.len() < usize::MAX,
        ensures
            r@ == "Layout "@ + text::decimal(self@.config.layouts.len() + 1),
    {
        let mut name = "Layout ".to_string();
        let count: u64 = (self.config.layouts.len() + 1) as u64;
        name.append(text::decimal_text(count).as_str());
        proof {
            assert(self@.config.layouts.len() == self.config.layouts@.len());
        }
        name
    }

    fn add_layout(&mut self, layout: MonitorLayout, message: &str)
        ensures
            final(self)@ == old(self)@.with_added(layout@, message@),
    {
        let index = self.config.layouts.len();
        proof {
            order::lemma_views(self.config.layouts@, 0, layout);
            assert(self@.config.layouts.len() == self.config.layouts@.len());
        }
        self.config.layouts.push(layout);
        self.selected = Some(index);
        self.dirty = true;
        self.status = noted(message);
    }

    /// Takes in the captured topology and devices as a new layout.
    pub fn capture_new(&mut self, captured: Result<MonitorLayout, String>)
        ensures
            final(self)@ == old(self)@.captured(model::result_view(captured)),
    {
        match captured {
            Ok(layout) => {
                self.add_layout(
                    layout,
                    "Captured current Windows display topology and audio devices",
                );
            },
            Err(error) => {
                self.status = failed("Capture failed: ", error.as_str());
            },
        }
    }

    /// Takes in the connected monitors as a new layout, all of them off.
    pub fn create_custom(&mut self, captured: Result<MonitorLayout, String>)
        ensures
            final(self)@ == old(self)@.customized(model::result_view(captured)),
    {
        match captured {
            Ok(layout) => {
                let custom = switch_off(layout);
                self.add_layout(
                    custom,
                    "Created a custom layout from currently connected monitors",
                );
            },
            Err(error) => {
                self.status = failed("Could not enumerate connected monitors: ", error.as_str());
            },
        }
    }

    /// The selected layout's place, where it exists.
    pub fn current_index(&self) -> (r: Option<usize>)
        ensures
            match r {
                Some(index) => self@.current() == Some(index as int) && index
                    < self.config.layouts@.len(),
                None => self@.current() is None,
            },
    {
        assert(self@.config.layouts.len() == self.config.layouts@.len());
        match self.selected {
            Some(index) => if index < self.config.layouts.len() {
                Some(index)
            } else {
                None
            },
            None => None,
        }
    }

    /// The name under which the selected layout is captured anew.
    pub fn recapture_name(&self) -> (r: Option<String>)
        ensures
            model::option_view(r) == (match self@.current() {
                Some(index) => Some(self@.config.layouts[index].name),
                None => None,
            }),
    {
        match self.current_index() {
            Some(index) => {
                assert(self@.config.layouts[index as int] == self.config.layouts@[index as int]@);
                Some(self.config.layouts[index].name.clone())
            },
            None => None,
        }
    }

    /// Takes in the captured topology and devices in place of the selected
    /// layout, whose shortcuts stay.
    pub fn recapture_selected(&mut self, captured: Result<MonitorLayout, String>)
        ensures
            final(self)@ == old(self)@.recaptured(model::result_view(captured)),
    {
        let index = match self.current_index() {
            Some(index) => index,
            None => {
                return;
            },
        };
        match captured {
            Ok(layout) => {
                assert(self@.config.layouts[index as int] == self.config.layouts@[index as int]@);
                let mut replacement = layout;
                replacement.hotkey = self.config.layouts[index].hotkey;
                replacement.controller_hotkey = model::clone_binding(
                    &self.config.layouts[index].controller_hotkey,
                );
                proof {
                    order::lemma_views(self.config.layouts@, index as int, replacement);
                }
                self.config.layouts.set(index, replacement);
                self.dirty = true;
                self.status = noted(
                    "Replaced this layout with the current display and audio devices",
                );
            },
            Err(error) => {
                self.status = failed("Capture failed: ", error.as_str());
            },
        }
    }

    /// Takes the connected monitors into the selected layout. `close` holds the
    /// pairs of rates that are as good as equal.
    pub fn merge_connected_monitors(
        &mut self,
        connected: Result<MonitorLayout, String>,
        close: &Vec<(Hertz, Hertz)>,
    )
        ensures
            final(self)@ == old(self)@.synced(model::result_view(connected), close@),
    {
        let index = match self.current_index() {
            Some(index) => index,
            None => {
                return;
            },
        };
        match connected {
            Ok(listed) => {
                let ghost before = self@;
                let ghost saved = self.config.layouts@[index as int]@;
                assert(before.config.layouts[index as int] == saved);
                let mut layout = self.config.layouts[index].clone();
                let mut monitors: Vec<MonitorConfig> = Vec::new();
                std::mem::swap(&mut monitors, &mut layout.monitors);
                let (added, matched) = sync::merge_monitors(
                    &mut monitors,
                    &listed.monitors,
                    close,
                );
                proof {
                    let merged = sync::merged(
                        saved.monitors,
                        listed@.monitors,
                        close@,
                        listed@.monitors.len() as int,
                    );
                    assert(listed@.monitors.len() == listed.monitors@.len());
                    assert(order::views(monitors@) == merged);
                    assert(monitors@.len() == merged.len());
                    assert(added == merged.len() - saved.monitors.len());
                    assert(matched == listed@.monitors.len() - added);
                }
                layout.monitors = order::stable_sort(monitors);
                proof {
                    order::lemma_views(self.config.layouts@, index as int, layout);
                }
                self.config.layouts.set(index, layout);
                self.dirty = self.dirty || added > 0 || matched > 0;
                let mut message = "Monitor list refreshed: ".to_string();
                message.append(text::decimal_text(added as u64).as_str());
                message.append(" added, ");
                message.append(text::decimal_text(matched as u64).as_str());
                message.append(" matched");
                self.status = AppStatus::info(message);
            },
            Err(error) => {
                self.status = failed("Could not refresh monitors: ", error.as_str());
            },
        }
    }

    /// Copies the selected layout. Returns whether there was one.
    pub fn duplicate_selected(&mut self) -> (r: bool)
        ensures
            r == (old(self)@.current() is Some),
            final(self)@ == old(self)@.duplicated(),
    {
        let index = match self.current_index() {
            Some(index) => index,
            None => {
                return false;
            },
        };
        assert(self@.config.layouts[index as int] == self.config.layouts@[index as int]@);
        let mut copy = self.config.layouts[index].clone();
        copy.name.append(" copy");
        copy.hotkey = None;
        copy.controller_hotkey = None;
        assert(index + 1 <= self.config.layouts.len());
        proof {
            order::lemma_views(self.config.layouts@, index + 1, copy);
        }
        self.config.layouts.insert(index + 1, copy);
        self.selected = Some(index + 1);
        self.dirty = true;
        self.status = noted("Duplicated layout (hotkeys cleared on the copy)");
        true
    }

    /// Deletes a layout. Returns whether a chord was being recorded, which is
    /// then to be given up.
    pub fn delete_layout(&mut self, index: usize) -> (r: bool)
        requires
            index < old(self)@.config.layouts.len(),
        ensures
            r == (old(self)@.controller_capture_layout is Some),
            final(self)@ == old(self)@.deleted(index as int),
    {
        assert(self@.config.layouts.len() == self.config.layouts@.len());
        let recording = self.controller_capture_layout.is_some();
        if recording {
            self.clear_controller_capture();
        }
        proof {
            order::lemma_views(
                self.config.layouts@,
                index as int,
                self.config.layouts@[index as int],
            );
        }
        let _removed = self.config.layouts.remove(index);
        let left = self.config.layouts.len();
        self.selected = if left == 0 {
            None
        } else if index < left {
            Some(index)
        } else {
            Some(left - 1)
        };
        self.dirty = true;
        self.status = noted("Deleted layout");
        recording
    }

    /// Starts applying a layout, before anything is asked of Windows.
    pub fn begin_apply(&mut self, index: usize) -> (r: ApplyStart)
        ensures
            r == old(self)@.apply_start(index as int),
            r is Missing <==> index >= old(self)@.config.layouts.len(),
            r is Refused <==> (index < old(self)@.config.layouts.len() && checks::layout_fault(
                old(self)@.config.layouts[index as int].monitors,
            ) == Some(LayoutFault::AllOff)),
            r is Refused ==> final(self)@ == old(self)@.refused(index as int),
            !(r is Refused) ==> final(self)@ == old(self)@,
    {
        assert(self@.config.layouts.len() == self.config.layouts@.len());
        if index >= self.config.layouts.len() {
            return ApplyStart::Missing;
        }
        assert(self@.config.layouts[index as int] == self.config.layouts@[index as int]@);
        proof {
            checks::lemma_all_off_fault(self@.config.layouts[index as int].monitors);
        }
        if enabled_count(&self.config.layouts[index].monitors) > 0 {
            return ApplyStart::Capture;
        }
        let mut message = named(
            "Could not apply '",
            self.config.layouts[index].name.as_str(),
            "': ",
        );
        message.append(LayoutError::AllOff.message().as_str());
        self.status = AppStatus::error(message);
        ApplyStart::Refused
    }

    /// Takes in what is there now. The layout may be applied only with that in
    /// hand; where it could not be captured, applying is given up.
    pub fn after_capture(
        &mut self,
        index: usize,
        captured: Result<MonitorLayout, String>,
    ) -> (r: Option<ApplyRun>)
        requires
            old(self)@.apply_start(index as int) is Capture,
        ensures
            r is Some <==> captured is Ok,
            captured matches Ok(previous) ==> final(self)@ == old(self)@ && r->Some_0@
                == applying::begun(
                index,
                old(self)@.config.layouts[index as int],
                previous@,
            ),
            captured matches Err(error) ==> final(self)@ == old(self)@.cancelled(error@),
    {
        assert(self@.config.layouts.len() == self.config.layouts@.len());
        assert(self@.config.layouts[index as int] == self.config.layouts@[index as int]@);
        match captured {
            Ok(previous) => Some(
                ApplyRun::begin(index, self.config.layouts[index].clone(), previous),
            ),
            Err(error) => {
                self.status = failed(
                    "Apply cancelled because the current display and audio settings could not be captured for rollback: ",
                    error.as_str(),
                );
                None
            },
        }
    }

    fn remember_working_layout(
        &mut self,
        captured: Result<MonitorLayout, String>,
        applied: &MonitorLayout,
    )
        ensures
            final(self)@ == old(self)@.remembering(
                snapshot_of(model::result_view(captured), applied@),
            ),
    {
        self.config.last_known_working = Some(working_snapshot(captured, applied));
        self.dirty = true;
    }

    /// Takes in that a layout was applied.
    pub fn layout_applied(
        &mut self,
        index: usize,
        previous: MonitorLayout,
        audio: Result<AudioDeviceInventory, String>,
        captured: Result<MonitorLayout, String>,
    )
        requires
            index < old(self)@.config.layouts.len(),
        ensures
            final(self)@ == old(self)@.applied(
                index as int,
                previous@,
                model::result_view(audio),
                model::result_view(captured),
            ),
    {
        assert(self@.config.layouts.len() == self.config.layouts@.len());
        assert(self@.config.layouts[index as int] == self.config.layouts@[index as int]@);
        let layout = self.config.layouts[index].clone();
        self.refresh_audio_devices(audio, false);
        self.undo_layout = Some(previous);
        self.remember_working_layout(captured, &layout);
        self.status = AppStatus::info(named("Applied '", layout.name.as_str(), "'"));
    }

    /// Takes in that a layout could not be applied and what was there before is
    /// back.
    pub fn layout_rolled_back(
        &mut self,
        index: usize,
        error: &str,
        previous: &MonitorLayout,
        audio: Result<AudioDeviceInventory, String>,
        captured: Result<MonitorLayout, String>,
    )
        requires
            index < old(self)@.config.layouts.len(),
        ensures
            final(self)@ == old(self)@.rolled_back(
                index as int,
                error@,
                previous@,
                model::result_view(audio),
                model::result_view(captured),
            ),
    {
        assert(self@.config.layouts.len() == self.config.layouts@.len());
        assert(self@.config.layouts[index as int] == self.config.layouts@[index as int]@);
        let mut message = named(
            "Could not apply '",
            self.config.layouts[index].name.as_str(),
            "': ",
        );
        message.append(error);
        message.append(". The previous display and audio settings were restored.");
        self.refresh_audio_devices(audio, false);
        self.remember_working_layout(captured, previous);
        self.status = AppStatus::error(message);
    }

    /// Takes in that a layout could not be applied and what was there before
    /// could not be put back.
    pub fn layout_stuck(&mut self, index: usize, error: &str, rollback_error: &str)
        requires
            index < old(self)@.config.layouts.len(),
        ensures
            final(self)@ == old(self)@.stuck(index as int, error@, rollback_error@),
    {
        assert(self@.config.layouts.len() == self.config.layouts@.len());
        assert(self@.config.layouts[index as int] == self.config.layouts@[index as int]@);
        let mut message = named(
            "Could not apply '",
            self.config.layouts[index].name.as_str(),
            "': ",
        );
        message.append(error);
        message.append(". Automatic rollback also failed: ");
        message.append(rollback_error);
        self.status = AppStatus::error(message);
    }

    /// What is to be applied to undo the last apply, where it can be undone.
    pub fn undo_target(&self) -> (r: Option<&MonitorLayout>)
        ensures
            model::option_view(r) == self@.undo_layout,
    {
        match &self.undo_layout {
            Some(previous) => Some(previous),
            None => None,
        }
    }

    /// Takes in whether what [`Self::undo_target`] gives was applied. Where it
    /// gives nothing, nothing was.
    pub fn undo_last_apply(
        &mut self,
        outcome: Result<(), String>,
        audio: Result<AudioDeviceInventory, String>,
        captured: Result<MonitorLayout, String>,
    )
        ensures
            final(self)@ == old(self)@.undone(
                match outcome {
                    Ok(_) => Ok(()),
                    Err(error) => Err(error@),
                },
                model::result_view(audio),
                model::result_view(captured),
            ),
    {
        let previous = match &self.undo_layout {
            Some(layout) => layout.clone(),
            None => {
                return;
            },
        };
        match outcome {
            Ok(_) => {
                self.refresh_audio_devices(audio, false);
                self.remember_working_layout(captured, &previous);
                self.undo_layout = None;
                self.status = noted(
                    "Restored the display and audio settings from before the last successful apply",
                );
            },
            Err(error) => {
                self.status = failed("Could not restore the previous profile: ", error.as_str());
            },
        }
    }

    /// Takes in which keyboard shortcuts were not registered.
    pub fn hotkeys_registered(&mut self, failures: &Vec<HotkeyRegistrationFailure>)
        ensures
            final(self)@ == old(self)@.registered(order::views(failures@)),
    {
        proof {
            assert(order::views(failures@).len() == failures@.len());
        }
        if failures.len() == 0 {
            if text::starts_with(
                self.status.message.as_str(),
                "Some global hotkeys could not be registered:",
            ) {
                self.status = noted("Global hotkeys updated");
            }
            return;
        }
        let ghost all = order::views(failures@);
        let ghost lines = failure_lines(self@.config.layouts, all);
        let mut details: Vec<String> = Vec::new();
        let mut at: usize = 0;
        while at < failures.len()
            invariant
                at <= failures@.len(),
                all == order::views(failures@),
                lines == failure_lines(self@.config.layouts, all),
                text::texts(details@) == lines.take(at as int),
            decreases failures@.len() - at,
        {
            let failure = &failures[at];
            assert(all[at as int] == failure@);
            assert(self@.config.layouts.len() == self.config.layouts@.len());
            let mut line = if failure.layout_index < self.config.layouts.len() {
                assert(self@.config.layouts[failure.layout_index as int]
                    == self.config.layouts@[failure.layout_index as int]@);
                self.config.layouts[failure.layout_index].name.clone()
            } else {
                "unknown layout".to_string()
            };
            line.append(" [");
            line.append(failure.binding.label().as_str());
            line.append("]: ");
            line.append(failure.reason.as_str());
            let ghost before = details@;
            details.push(line);
            proof {
                assert(text::texts(details@) =~= text::texts(before).push(line@));
                assert(lines.take(at + 1) =~= lines.take(at as int).push(line@));
            }
            at = at + 1;
        }
        proof {
            assert(lines.take(lines.len() as int) =~= lines);
        }
        let joined = text::join_texts(&details, "; ");
        self.status = failed(
            "Some global hotkeys could not be registered: ",
            joined.as_str(),
        );
    }

    fn clear_controller_capture(&mut self)
        ensures
            final(self)@ == old(self)@.not_recording(),
    {
        self.controller_capture_layout = None;
        self.controller_capture_status = String::new();
        proof {
            assert(self.controller_capture_status@ =~= Seq::empty());
        }
    }

    /// Takes in a recorded chord. Returns whether a layout has it now.
    pub fn controller_captured(&mut self, index: usize, binding: ControllerBinding) -> (r: bool)
        requires
            binding@.can_be_shown(),
        ensures
            r == (index < old(self)@.config.layouts.len()),
            final(self)@ == old(self)@.recorded(index, binding@),
    {
        self.clear_controller_capture();
        assert(self@.config.layouts.len() == self.config.layouts@.len());
        if index >= self.config.layouts.len() {
            return false;
        }
        assert(self@.config.layouts[index as int] == self.config.layouts@[index as int]@);
        let label = binding.label();
        let mut layout = self.config.layouts[index].clone();
        layout.controller_hotkey = Some(binding);
        proof {
            order::lemma_views(self.config.layouts@, index as int, layout);
        }
        self.config.layouts.set(index, layout);
        self.dirty = true;
        self.status = AppStatus::info(named("Controller hotkey saved: ", label.as_str(), ""));
        proof {
            reveal_strlit("");
            assert("Controller hotkey saved: "@ + label@ + ""@ =~= "Controller hotkey saved: "@
                + label@);
        }
        true
    }

    /// Takes in how a recording comes along.
    pub fn controller_progress(&mut self, message: String)
        ensures
            final(self)@ == (AppView { controller_capture_status: message@, ..old(self)@ }),
    {
        self.controller_capture_status = message;
    }

    /// Takes in that a recording was given up.
    pub fn controller_cancelled(&mut self, message: String)
        ensures
            final(self)@ == old(self)@.not_recording().showing(informed(message@)),
    {
        self.clear_controller_capture();
        self.status = AppStatus::info(message);
    }

    /// Takes in which controllers are connected.
    pub fn controllers_changed(&mut self, devices: Vec<ControllerDeviceInfo>)
        ensures
            final(self)@ == (AppView { controller_devices: order::views(devices@), ..old(self)@ }),
    {
        self.controller_devices = devices;
    }

    /// Takes in that the controllers do not work.
    pub fn controller_failed(&mut self, message: String)
        ensures
            final(self)@ == old(self)@.not_recording().showing(warned(message@)),
    {
        self.clear_controller_capture();
        self.status = AppStatus::error(message);
    }

    /// Takes in whether a recording was begun.
    pub fn begin_controller_capture(&mut self, layout_index: usize, outcome: Result<(), String>)
        ensures
            final(self)@ == old(self)@.recording_asked(layout_index, model::result_view(outcome)),
    {
        match outcome {
            Ok(_) => {
                self.controller_capture_layout = Some(layout_index);
                self.controller_capture_status =
                    "Release all controller buttons, then press the desired chord".to_string();
                self.status = noted("Listening for a controller hotkey");
            },
            Err(error) => {
                self.status = failed("Could not start controller binding: ", error.as_str());
            },
        }
    }

    /// Takes in whether the recording could be told to stop; it is over either
    /// way.
    pub fn cancel_controller_capture(&mut self, outcome: Result<(), String>)
        ensures
            final(self)@ == old(self)@.recording_dropped(model::result_view(outcome)),
    {
        if let Err(error) = outcome {
            self.status = failed("Could not cancel controller binding: ", error.as_str());
        }
        self.clear_controller_capture();
    }

    /// Takes in what the tray icon tells.
    pub fn handle_tray(&mut self, event: TrayEvent) -> (r: WindowAction)
        ensures
            event is OpenRequested ==> r is Show && final(self)@ == old(self)@,
            event is ExitRequested ==> r is Close && final(self)@ == (AppView {
                exit_requested: true,
                ..old(self)@
            }),
            event matches TrayEvent::Error(error) ==> r is Nothing && final(self)@ == old(
                self,
            )@.without_tray(error@),
    {
        match event {
            TrayEvent::OpenRequested => WindowAction::Show,
            TrayEvent::ExitRequested => {
                self.exit_requested = true;
                WindowAction::Close
            },
            TrayEvent::Error(error) => {
                self.status = failed("System tray stopped working: ", error.as_str());
                self.tray = false;
                WindowAction::Nothing
            },
        }
    }

    /// Takes in what the updater tells. A problem that is shown is not covered
    /// up by the news of an update.
    pub fn handle_updater(&mut self, event: UpdateEvent) -> (r: WindowAction)
        ensures
            event matches UpdateEvent::Available(update) ==> r is Nothing && final(self)@ == old(
                self,
            )@.offered(update@),
            event is InstallerLaunched ==> r is Close && final(self)@ == old(self)@.launched(),
            event matches UpdateEvent::InstallFailed(error) ==> r is Nothing && final(self)@ == old(
                self,
            )@.not_installed(error@),
    {
        match event {
            UpdateEvent::Available(update) => {
                if !self.status.is_error {
                    self.status = AppStatus::info(
                        named("Update ", update.tag.as_str(), " is available"),
                    );
                }
                self.available_update = Some(update);
                WindowAction::Nothing
            },
            UpdateEvent::InstallerLaunched => {
                self.status = noted(
                    "Update verified and installer launched; MonMan will restart",
                );
                self.exit_requested = true;
                WindowAction::Close
            },
            UpdateEvent::InstallFailed(error) => {
                self.update_in_progress = false;
                self.status = failed("Update failed: ", error.as_str());
                WindowAction::Nothing
            },
        }
    }

    /// What the update button says.
    pub fn update_label(&self) -> (r: Option<String>)
        ensures
            model::option_view(r) == self@.update_text(),
    {
        match &self.available_update {
            None => None,
            Some(update) => {
                let mut label = if self.update_in_progress {
                    "Installing ".to_string()
                } else {
                    "Update to ".to_string()
                };
                label.append(update.tag.as_str());
                if self.update_in_progress {
                    label.append("…");
                }
                Some(label)
            },
        }
    }

    /// Begins to install the update that is offered, if there is one.
    pub fn begin_install(&mut self) -> (r: Option<AvailableUpdate>)
        ensures
            model::option_view(r) == old(self)@.available_update,
            final(self)@ == old(self)@.installing(),
    {
        let update = match &self.available_update {
            Some(update) => update.clone(),
            None => {
                return None;
            },
        };
        self.update_in_progress = true;
        self.status = AppStatus::info(named("Downloading update ", update.tag.as_str(), "…"));
        Some(update)
    }

    /// Hides the window where there is a tray icon to bring it back with.
    pub fn hide_to_tray(&mut self) -> (r: WindowAction)
        ensures
            (r, final(self)@) == old(self)@.hidden(),
    {
        if self.tray {
            self.status = noted(
                "MonMan is running in the system tray; keyboard and controller hotkeys remain active",
            );
            WindowAction::Hide
        } else {
            WindowAction::Nothing
        }
    }

    /// Takes in that the program is to end.
    pub fn request_exit(&mut self)
        ensures
            final(self)@ == (AppView { exit_requested: true, ..old(self)@ }),
    {
        self.exit_requested = true;
    }

    /// What closing the window leads to: without an exit request it hides in
    /// the tray, or ends the program where there is none.
    pub fn close_requested(&mut self) -> (r: WindowAction)
        ensures
            (r, final(self)@) == old(self)@.closed(),
    {
        if self.exit_requested {
            return WindowAction::Close;
        }
        if self.tray {
            self.hide_to_tray()
        } else {
            self.exit_requested = true;
            WindowAction::Close
        }
    }

    /// Whether the window is to be shown or hidden now, which is asked once.
    pub fn take_initial_visibility(&mut self) -> (r: Option<bool>)
        ensures
            r == old(self)@.initial_window_visibility,
            final(self)@ == (AppView { initial_window_visibility: None, ..old(self)@ }),
    {
        let visibility = self.initial_window_visibility;
        self.initial_window_visibility = None;
        visibility
    }

    /// The layout that the editor shows; a selection that does not exist is
    /// dropped.
    pub fn edited_layout(&mut self) -> (r: Option<usize>)
        ensures
            match r {
                Some(index) => old(self)@.current() == Some(index as int),
                None => old(self)@.current() is None,
            },
            final(self)@ == (AppView {
                selected: if r is Some {
                    old(self)@.selected
                } else {
                    None
                },
                ..old(self)@
            }),
    {
        let current = self.current_index();
        if current.is_none() {
            self.selected = None;
        }
        current
    }

    /// Takes in what the user did in the editor. What calls for Windows or the
    /// other threads is left to the caller.
    pub fn layout_edited(&mut self, changes: EditorChanges)
        ensures
            final(self)@ == (AppView { dirty: old(self)@.dirty || changes.any(), ..old(self)@ }),
    {
        let cleared = match changes.controller {
            Some(ControllerEdit::Clear) => true,
            _ => false,
        };
        if changes.name || changes.audio || changes.hotkeys || changes.arrangement
            || changes.monitors || cleared {
            self.dirty = true;
        }
    }

    /// Takes in that a layout's controller shortcut was removed.
    pub fn controller_cleared(&mut self)
        ensures
            final(self)@ == old(self)@.showing(informed("Controller hotkey cleared"@)),
    {
        self.status = noted("Controller hotkey cleared");
    }
}

fn switch_off(layout: MonitorLayout) -> (r: MonitorLayout)
    ensures
        r@ == all_off(layout@),
{
    let ghost all = all_off(layout@).monitors;
    let mut off: Vec<MonitorConfig> = Vec::new();
    let mut at: usize = 0;
    while at < layout.monitors.len()
        invariant
            at <= layout.monitors@.len(),
            all == all_off(layout@).monitors,
            layout@.monitors == order::views(layout.monitors@),
            order::views(off@) == all.take(at as int),
        decreases layout.monitors@.len() - at,
    {
        let mut monitor = layout.monitors[at].clone();
        assert(layout@.monitors[at as int] == monitor@);
        monitor.enabled = false;
        monitor.clone_group = None;
        proof {
            order::lemma_views(off@, 0, monitor);
            assert(all.take(at + 1) =~= all.take(at as int).push(monitor@));
        }
        off.push(monitor);
        at = at + 1;
    }
    proof {
        assert(all.take(all.len() as int) =~= all);
    }
    let mut switched = layout;
    switched.monitors = off;
    switched
}

/// Switches a layout's keyboard shortcut on, with the usual one, or off.
pub fn toggle_hotkey(layout: &mut MonitorLayout, enabled: bool)
    ensures
        final(layout)@ == (LayoutView {
            hotkey: if enabled {
                Some(
                    HotkeyBinding {
                        ctrl: true,
                        alt: true,
                        shift: false,
                        win: false,
                        key: model::HotkeyKey::F1,
                    },
                )
            } else {
                None
            },
            ..old(layout)@
        }),
{
    layout.hotkey = if enabled {
        Some(HotkeyBinding::default())
    } else {
        None
    };
}

} // verus!
