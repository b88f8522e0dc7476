use monman::app::applying::{AfterAttempt, ApplyRun, ApplyStart};
use monman::app::recovery::{Startup, StartupStep};
use monman::app::{
    sanitized_working_snapshot, toggle_hotkey, working_snapshot, ControllerEdit, EditorChanges, MonManApp, PersistStep, WindowAction,
};
use monman::audio::{enumerate_devices, AudioDeviceInventory};
use monman::hotkeys::HotkeyRegistrationFailure;
use monman::model::{
    AppConfig, AudioDeviceConfig, ControllerBinding, Hertz, HotkeyBinding, HotkeyKey,
    MonitorConfig, MonitorIdentity, MonitorLayout,
};
use monman::tray::TrayEvent;
use monman::updater::{AvailableUpdate, UpdateEvent};

fn monitor(name: &str, enabled: bool, x: i32) -> MonitorConfig {
    MonitorConfig {
        identity: MonitorIdentity {
            device_path: name.to_string(),
            adapter_low: 0,
            adapter_high: 0,
            target_id: 0,
        },
        friendly_name: name.into(),
        enabled,
        source_adapter_low: 0,
        source_adapter_high: 0,
        source_id: 0,
        clone_group: Some(1),
        rotation: None,
        scaling: None,
        x,
        y: 0,
        width: 1920,
        height: 1080,
        refresh_hz: hertz(60.0),
        refresh_numerator: None,
        refresh_denominator: None,
    }
}

fn hertz(rate: f32) -> Hertz {
    Hertz {
        bits: rate.to_bits(),
    }
}

fn layout(name: &str, monitors: Vec<MonitorConfig>) -> MonitorLayout {
    MonitorLayout {
        name: name.into(),
        monitors,
        playback_device: Some(AudioDeviceConfig {
            id: "p".into(),
            name: "Speakers".into(),
        }),
        microphone_device: None,
        hotkey: Some(HotkeyBinding::default()),
        controller_hotkey: Some(chord()),
    }
}

fn chord() -> ControllerBinding {
    ControllerBinding {
        vendor_id: 1,
        product_id: 2,
        device_name: "Pad".into(),
        buttons: vec![0],
        button_labels: vec!["Cross".into()],
    }
}

fn inventory() -> Result<AudioDeviceInventory, String> {
    Ok(enumerate_devices(
        vec![AudioDeviceConfig {
            id: "p".into(),
            name: "Speakers".into(),
        }],
        vec![],
        None,
        None,
    ))
}

fn failed<T>(error: &str) -> Result<T, String> {
    Err(error.to_string())
}

fn app(names: &[&str]) -> MonManApp {
    let config = AppConfig {
        layouts: names
            .iter()
            .map(|name| layout(name, vec![monitor("A", true, 0)]))
            .collect(),
        last_known_working: None,
    };
    let mut startup = Startup::begin(Ok(config));
    startup.inspected(Ok(false));
    startup.captured(Ok(layout("now", vec![])));
    startup.finish(Ok(()), false, 0)
}

fn names(app: &MonManApp) -> Vec<&str> {
    app.config
        .layouts
        .iter()
        .map(|layout| layout.name.as_str())
        .collect()
}

fn shows(app: &MonManApp, message: &str, is_error: bool) -> bool {
    app.status.message == message && app.status.is_error == is_error
}

#[test]
fn a_healthy_start_records_what_is_shown() {
    let config = AppConfig {
        layouts: vec![layout("Desk", vec![])],
        last_known_working: None,
    };
    let mut startup = Startup::begin(Ok(config));
    assert!(matches!(startup.step, StartupStep::Inspect));
    startup.inspected(Ok(false));
    assert!(matches!(startup.step, StartupStep::CaptureHealthy));
    startup.captured(Ok(layout("now", vec![monitor("A", true, 0)])));
    assert!(matches!(startup.step, StartupStep::Done));
    let app = startup.finish(Ok(()), true, 7);
    let snapshot = app.config.last_known_working.as_ref().unwrap();
    assert_eq!(snapshot.name, "Last known working topology");
    assert!(snapshot.hotkey.is_none() && snapshot.playback_device.is_none());
    assert_eq!(snapshot.monitors.len(), 1);
    assert!(app.dirty && app.tray);
    assert_eq!((app.selected, app.last_persist), (Some(0), 7));
    assert_eq!(app.initial_window_visibility, Some(false));
    assert!(shows(
        &app,
        "Ready — closing the window keeps MonMan running in the tray",
        false
    ));
}

#[test]
fn a_dark_capture_is_not_recorded() {
    let mut startup = Startup::begin(Ok(AppConfig::default()));
    startup.inspected(Ok(false));
    startup.captured(Ok(layout("now", vec![monitor("A", false, 0)])));
    let app = startup.finish(failed("no shell"), true, 0);
    assert!(app.config.last_known_working.is_none() && !app.dirty && !app.tray);
    assert_eq!((app.selected, app.initial_window_visibility), (None, Some(true)));
    assert!(shows(
        &app,
        "System tray is unavailable; closing MonMan will exit: no shell",
        true
    ));
}

#[test]
fn startup_recovery_tries_the_saved_topology_first() {
    let config = || AppConfig {
        layouts: vec![],
        last_known_working: Some(layout("saved", vec![monitor("A", true, 0)])),
    };
    let mut startup = Startup::begin(Ok(config()));
    startup.inspected(Ok(true));
    assert!(matches!(startup.step, StartupStep::ApplySaved));
    startup.saved_applied(Ok(()));
    assert!(matches!(startup.step, StartupStep::CaptureSaved));
    startup.captured(failed("busy"));
    assert!(startup.dirty);
    assert_eq!(
        startup.config.last_known_working.as_ref().unwrap().name,
        "Last known working topology"
    );
    assert_eq!(
        startup.status.message,
        "Recovered the last known working monitor topology because Windows had no available active display"
    );

    let mut startup = Startup::begin(Ok(config()));
    startup.inspected(Ok(true));
    startup.saved_applied(failed("unplugged"));
    assert!(matches!(
        &startup.step,
        StartupStep::RestoreConnected(Some(error)) if error == "unplugged"
    ));
    startup.connected_restored(failed("refused"));
    assert!(startup.status.is_error && !startup.dirty);
    assert_eq!(
        startup.status.message,
        "Startup recovery failed: the saved topology is unavailable (unplugged), and Windows could not activate the monitors connected now (refused)"
    );
}

#[test]
fn startup_recovery_falls_back_to_what_is_connected() {
    let begin = || {
        let mut startup = Startup::begin(Ok(AppConfig::default()));
        startup.inspected(Ok(true));
        assert!(matches!(startup.step, StartupStep::RestoreConnected(None)));
        startup
    };
    let mut startup = begin();
    startup.connected_restored(failed("refused"));
    assert_eq!(
        startup.status.message,
        "Startup recovery failed because Windows could not activate the monitors connected now: refused"
    );

    let mut startup = begin();
    startup.connected_restored(Ok(()));
    startup.captured(Ok(layout("now", vec![monitor("A", true, 0)])));
    assert_eq!(
        startup.status.message,
        "Recovered a working topology for the monitors connected now"
    );
    assert!(startup.dirty && startup.config.last_known_working.is_some());

    let mut startup = begin();
    startup.connected_restored(Ok(()));
    startup.captured(Ok(layout("now", vec![])));
    assert_eq!(
        startup.status.message,
        "Windows restored the connected-monitor topology, but MonMan could not find an active monitor to record"
    );

    let mut startup = begin();
    startup.connected_restored(Ok(()));
    startup.captured(failed("busy"));
    assert_eq!(
        startup.status.message,
        "Windows restored the connected-monitor topology, but MonMan could not record it: busy"
    );
}

#[test]
fn a_start_that_cannot_look_leaves_the_monitors_alone() {
    let startup = Startup::begin(failed("garbled"));
    assert!(matches!(startup.step, StartupStep::Done));
    assert_eq!(startup.status.message, "Could not load layouts: garbled");
    assert!(startup.status.is_error && startup.config.layouts.is_empty());

    let mut startup = Startup::begin(Ok(AppConfig::default()));
    startup.inspected(failed("denied"));
    assert!(matches!(startup.step, StartupStep::Done));
    assert_eq!(
        startup.status.message,
        "Could not inspect the startup monitor topology: denied"
    );

    let mut startup = Startup::begin(Ok(AppConfig::default()));
    startup.inspected(Ok(false));
    startup.captured(failed("denied"));
    assert_eq!(
        startup.status.message,
        "Could not record the current working topology: denied"
    );
}

#[test]
fn captured_layouts_are_added_and_selected() {
    let mut app = app(&["One"]);
    assert_eq!(app.new_layout_name(), "Layout 2");
    app.capture_new(Ok(layout("Layout 2", vec![])));
    assert_eq!((names(&app), app.selected), (vec!["One", "Layout 2"], Some(1)));
    assert!(app.dirty);
    assert!(shows(
        &app,
        "Captured current Windows display topology and audio devices",
        false
    ));
    app.capture_new(failed("busy"));
    assert!(shows(&app, "Capture failed: busy", true));
    assert_eq!(app.config.layouts.len(), 2);
}

#[test]
fn custom_layouts_start_with_everything_off() {
    let mut app = app(&[]);
    app.create_custom(Ok(layout("Layout 1", vec![monitor("A", true, 5)])));
    let custom = &app.config.layouts[0].monitors[0];
    assert!(!custom.enabled && custom.clone_group.is_none());
    assert_eq!((custom.x, custom.width), (5, 1920));
    assert!(shows(
        &app,
        "Created a custom layout from currently connected monitors",
        false
    ));
    app.create_custom(failed("busy"));
    assert!(shows(
        &app,
        "Could not enumerate connected monitors: busy",
        true
    ));
}

#[test]
fn recapturing_keeps_the_shortcuts() {
    let mut app = app(&["One"]);
    assert_eq!(app.recapture_name().as_deref(), Some("One"));
    let mut fresh = layout("One", vec![monitor("B", true, 0)]);
    fresh.hotkey = None;
    fresh.controller_hotkey = None;
    app.recapture_selected(Ok(fresh));
    let replaced = &app.config.layouts[0];
    assert_eq!(replaced.monitors[0].friendly_name, "B");
    assert!(replaced.hotkey.is_some() && replaced.controller_hotkey.is_some());
    assert!(shows(
        &app,
        "Replaced this layout with the current display and audio devices",
        false
    ));
    app.selected = Some(9);
    assert_eq!(app.recapture_name(), None);
    app.recapture_selected(failed("busy"));
    assert!(!app.status.is_error);
}

#[test]
fn syncing_adds_monitors_that_are_off() {
    let mut app = app(&["One"]);
    app.dirty = false;
    let mut renamed = monitor("a", true, 700);
    renamed.friendly_name = "Renamed".into();
    renamed.rotation = Some(2);
    renamed.refresh_numerator = Some(60);
    renamed.refresh_denominator = Some(1);
    let connected = layout("Connected", vec![renamed, monitor("B", true, -50)]);
    let close = vec![(hertz(60.0), hertz(60.0))];
    app.merge_connected_monitors(Ok(connected), &close);
    let monitors = &app.config.layouts[0].monitors;
    assert_eq!(monitors.len(), 2);
    assert_eq!((monitors[0].friendly_name.as_str(), monitors[0].enabled), ("B", false));
    assert_eq!(monitors[0].clone_group, None);
    assert_eq!((monitors[1].friendly_name.as_str(), monitors[1].enabled), ("Renamed", true));
    assert_eq!((monitors[1].x, monitors[1].rotation), (0, Some(2)));
    assert_eq!(monitors[1].refresh_numerator, Some(60));
    assert!(app.dirty);
    assert!(shows(&app, "Monitor list refreshed: 1 added, 1 matched", false));
    app.merge_connected_monitors(failed("busy"), &close);
    assert!(shows(&app, "Could not refresh monitors: busy", true));
}

#[test]
fn a_copy_has_no_shortcuts() {
    let mut app = app(&["One", "Two"]);
    assert!(app.duplicate_selected());
    assert_eq!(names(&app), vec!["One", "One copy", "Two"]);
    assert_eq!(app.selected, Some(1));
    let copy = &app.config.layouts[1];
    assert!(copy.hotkey.is_none() && copy.controller_hotkey.is_none());
    assert!(copy.playback_device.is_some());
    assert_eq!(app.hotkey_specs().len(), 2);
    assert_eq!(app.hotkey_specs()[1].layout_index, 2);
    assert!(!app.delete_layout(1));
    assert_eq!(names(&app), vec!["One", "Two"]);
    app.selected = None;
    assert!(!app.duplicate_selected());
}

#[test]
fn deleting_selects_a_neighbour_and_ends_a_recording() {
    let mut app = app(&["One", "Two"]);
    app.begin_controller_capture(1, Ok(()));
    assert!(app.delete_layout(1));
    assert_eq!((names(&app), app.selected), (vec!["One"], Some(0)));
    assert!(app.controller_capture_layout.is_none() && app.controller_capture_status.is_empty());
    assert!(shows(&app, "Deleted layout", false));
    assert!(!app.delete_layout(0));
    assert_eq!(app.selected, None);
}

#[test]
fn only_chords_with_buttons_are_handed_over() {
    let mut app = app(&["One", "Two"]);
    app.config.layouts[0]
        .controller_hotkey
        .as_mut()
        .unwrap()
        .buttons
        .clear();
    let specs = app.controller_specs();
    assert_eq!(specs.len(), 1);
    assert_eq!(specs[0].layout_index, 1);
    app.hotkeys_updated(failed("gone"));
    assert!(shows(&app, "Could not update global hotkeys: gone", true));
    app.controllers_updated(failed("gone"));
    assert!(shows(&app, "Could not update controller hotkeys: gone", true));
    app.hotkeys_updated(Ok(()));
    app.controllers_updated(Ok(()));
    assert!(shows(&app, "Could not update controller hotkeys: gone", true));
}

#[test]
fn audio_devices_are_announced_on_request() {
    let mut app = app(&[]);
    app.refresh_audio_devices(inventory(), false);
    assert_eq!(app.audio_devices.playback.len(), 1);
    assert!(!app.status.message.starts_with("Audio"));
    app.refresh_audio_devices(inventory(), true);
    assert!(shows(
        &app,
        "Audio devices refreshed: 1 playback, 0 microphone",
        false
    ));
    app.refresh_audio_devices(failed("muted"), false);
    assert!(shows(&app, "Could not enumerate audio devices: muted", true));
    assert_eq!(app.audio_devices.playback.len(), 1);
}

#[test]
fn edits_are_saved_after_a_pause() {
    let mut app = app(&["One"]);
    app.dirty = false;
    assert_eq!(app.persist(100), PersistStep::Nothing);
    app.layout_edited(EditorChanges {
        name: true,
        audio: false,
        hotkeys: false,
        arrangement: false,
        monitors: false,
        controller: None,
    });
    assert!(app.dirty);
    assert_eq!(app.persist(120), PersistStep::Wait(380));
    assert_eq!(app.persist(500), PersistStep::Save);
    app.persisted(failed("full"));
    assert!(app.dirty && shows(&app, "Could not save layouts: full", true));
    assert_eq!(app.persist(999), PersistStep::Wait(1));
    assert_eq!(app.persist(1_000), PersistStep::Save);
    app.persisted(Ok(()));
    assert!(!app.dirty);
    app.save_now(failed("full"));
    assert!(shows(&app, "Could not save layouts: full", true));
    app.save_now(Ok(()));
    assert!(shows(&app, "Layouts saved", false));
}

#[test]
fn an_untouched_editor_leaves_nothing_to_save() {
    let mut app = app(&["One"]);
    app.dirty = false;
    let mut changes = EditorChanges {
        name: false,
        audio: false,
        hotkeys: false,
        arrangement: false,
        monitors: false,
        controller: Some(ControllerEdit::BeginCapture),
    };
    app.layout_edited(changes);
    assert!(!app.dirty);
    changes.controller = Some(ControllerEdit::Clear);
    app.layout_edited(changes);
    assert!(app.dirty);
    app.controller_cleared();
    assert!(shows(&app, "Controller hotkey cleared", false));
    assert_eq!(app.edited_layout(), Some(0));
    app.selected = Some(5);
    assert_eq!((app.edited_layout(), app.selected), (None, None));
}

/// A run of the first layout of an app, with the profile that was there before.
fn run(app: &mut MonManApp) -> ApplyRun {
    app.config.layouts[0].monitors = vec![monitor("A", true, 0)];
    assert_eq!(app.begin_apply(0), ApplyStart::Capture);
    let previous = layout("Previous profile", vec![monitor("P", true, 0)]);
    app.after_capture(0, Ok(previous)).unwrap()
}

#[test]
fn a_failed_attempt_is_followed_by_one_rollback() {
    let mut app = app(&["One"]);
    let first = run(&mut app);
    assert_eq!(first.target().name, "One");
    assert!(matches!(
        first.answered(Ok(())),
        AfterAttempt::Applied { index: 0, previous } if previous.name == "Previous profile"
    ));
    let next = match run(&mut app).answered(failed("first")) {
        AfterAttempt::RollBack(next) => next,
        other => panic!("unexpected {other:?}"),
    };
    assert_eq!(next.target().name, "Previous profile");
    assert!(matches!(
        next.answered(failed("second")),
        AfterAttempt::Stuck { index: 0, error, rollback_error }
            if error == "first" && rollback_error == "second"
    ));
    let next = match run(&mut app).answered(failed("first")) {
        AfterAttempt::RollBack(next) => next,
        other => panic!("unexpected {other:?}"),
    };
    assert!(matches!(
        next.answered(Ok(())),
        AfterAttempt::RolledBack { index: 0, error, previous }
            if error == "first" && previous.name == "Previous profile"
    ));
}

#[test]
fn a_layout_without_a_monitor_on_is_refused_at_once() {
    let mut app = app(&["One"]);
    app.config.layouts[0].monitors = vec![monitor("A", false, 0), monitor("B", false, 1920)];
    app.undo_layout = Some(layout("Earlier", vec![]));
    app.config.last_known_working = Some(layout("Kept", vec![]));
    assert_eq!(app.begin_apply(0), ApplyStart::Refused);
    assert!(shows(
        &app,
        "Could not apply 'One': a layout must keep at least one monitor enabled",
        true
    ));
    assert_eq!(app.undo_layout.as_ref().unwrap().name, "Earlier");
    assert_eq!(app.config.last_known_working.as_ref().unwrap().name, "Kept");
    assert_eq!(names(&app), vec!["One"]);
    app.config.layouts[0].monitors.clear();
    assert_eq!(app.begin_apply(0), ApplyStart::Refused);
}

#[test]
fn starting_to_apply_changes_nothing_by_itself() {
    let mut app = app(&["One"]);
    app.config.layouts[0].monitors = vec![monitor("A", false, 0), monitor("B", true, 1920)];
    let shown = app.status.message.clone();
    assert_eq!(app.begin_apply(1), ApplyStart::Missing);
    assert_eq!(app.begin_apply(0), ApplyStart::Capture);
    assert_eq!(app.status.message, shown);
}

#[test]
fn nothing_is_applied_without_a_capture() {
    let mut app = app(&["One"]);
    app.config.layouts[0].monitors = vec![monitor("A", true, 0)];
    app.undo_layout = Some(layout("Earlier", vec![]));
    assert_eq!(app.begin_apply(0), ApplyStart::Capture);
    assert!(app.after_capture(0, failed("busy")).is_none());
    assert!(shows(
        &app,
        "Apply cancelled because the current display and audio settings could not be captured for rollback: busy",
        true
    ));
    assert_eq!(app.undo_layout.as_ref().unwrap().name, "Earlier");
    assert_eq!(names(&app), vec!["One"]);
}

#[test]
fn an_applied_layout_can_be_undone_once() {
    let mut app = app(&["One"]);
    app.layout_applied(
        0,
        layout("Previous profile", vec![]),
        inventory(),
        Ok(layout("now", vec![monitor("A", true, 3)])),
    );
    assert!(shows(&app, "Applied 'One'", false));
    let snapshot = app.config.last_known_working.as_ref().unwrap();
    assert_eq!(snapshot.name, "Last known working topology");
    assert_eq!(snapshot.monitors[0].x, 3);
    assert_eq!(app.undo_target().unwrap().name, "Previous profile");
    app.undo_last_apply(failed("busy"), inventory(), failed("busy"));
    assert!(shows(
        &app,
        "Could not restore the previous profile: busy",
        true
    ));
    assert!(app.undo_layout.is_some());
    app.undo_last_apply(Ok(()), inventory(), failed("busy"));
    assert!(shows(
        &app,
        "Restored the display and audio settings from before the last successful apply",
        false
    ));
    assert!(app.undo_target().is_none());
    app.undo_last_apply(failed("again"), inventory(), failed("busy"));
    assert!(!app.status.is_error);
}

#[test]
fn undoing_applies_what_was_captured_before_the_apply() {
    let mut app = app(&["One"]);
    assert!(app.undo_target().is_none());
    match run(&mut app).answered(Ok(())) {
        AfterAttempt::Applied { index, previous } => {
            app.layout_applied(index, previous, inventory(), failed("busy"));
        }
        other => panic!("unexpected {other:?}"),
    }
    assert!(app.duplicate_selected());
    app.capture_new(failed("busy"));
    let target = app.undo_target().unwrap();
    assert_eq!(target.name, "Previous profile");
    assert_eq!(target.monitors[0].friendly_name, "P");
}

#[test]
fn a_failed_apply_keeps_the_layouts_and_the_undo() {
    let mut app = app(&["One"]);
    let previous = layout("Previous profile", vec![monitor("P", true, 0)]);
    app.layout_rolled_back(0, "refused", &previous, inventory(), failed("busy"));
    assert!(shows(
        &app,
        "Could not apply 'One': refused. The previous display and audio settings were restored.",
        true
    ));
    assert!(app.undo_layout.is_none());
    let snapshot = app.config.last_known_working.as_ref().unwrap();
    assert_eq!(snapshot.monitors[0].friendly_name, "P");
    app.layout_stuck(0, "refused", "lost");
    assert!(shows(
        &app,
        "Could not apply 'One': refused. Automatic rollback also failed: lost",
        true
    ));
    assert_eq!(names(&app), vec!["One"]);
}

#[test]
fn snapshots_hold_nothing_but_monitors() {
    let full = layout("Desk", vec![monitor("A", true, 0)]);
    let bare = working_snapshot(failed("busy"), &full);
    assert_eq!((bare.name.as_str(), bare.monitors.len()), ("Last known working topology", 1));
    assert!(bare.hotkey.is_none() && bare.controller_hotkey.is_none());
    assert!(bare.playback_device.is_none() && bare.microphone_device.is_none());
    assert!(sanitized_working_snapshot(full).hotkey.is_none());
}

#[test]
fn refused_shortcuts_are_listed_until_they_work() {
    let mut app = app(&["One"]);
    let failures = vec![
        HotkeyRegistrationFailure {
            layout_index: 0,
            binding: HotkeyBinding::default(),
            reason: "taken".into(),
        },
        HotkeyRegistrationFailure {
            layout_index: 8,
            binding: HotkeyBinding {
                ctrl: false,
                alt: false,
                shift: false,
                win: false,
                key: HotkeyKey::Num7,
            },
            reason: "bare".into(),
        },
    ];
    app.hotkeys_registered(&failures);
    assert!(shows(
        &app,
        "Some global hotkeys could not be registered: One [Ctrl+Alt+F1]: taken; unknown layout [7]: bare",
        true
    ));
    app.hotkeys_registered(&vec![]);
    assert!(shows(&app, "Global hotkeys updated", false));
    app.save_now(Ok(()));
    app.hotkeys_registered(&vec![]);
    assert!(shows(&app, "Layouts saved", false));
}

#[test]
fn a_recorded_chord_goes_to_its_layout() {
    let mut app = app(&["One"]);
    app.config.layouts[0].controller_hotkey = None;
    app.begin_controller_capture(0, failed("off"));
    assert!(shows(&app, "Could not start controller binding: off", true));
    assert!(app.controller_capture_layout.is_none());
    app.begin_controller_capture(0, Ok(()));
    assert!(shows(&app, "Listening for a controller hotkey", false));
    app.controller_progress("Recording Cross".into());
    assert_eq!(app.controller_capture_status, "Recording Cross");
    assert!(app.controller_captured(0, chord()));
    assert!(shows(&app, "Controller hotkey saved: Pad: Cross", false));
    assert!(app.config.layouts[0].controller_hotkey.is_some());
    assert!(app.controller_capture_layout.is_none());
    assert!(!app.controller_captured(4, chord()));
}

#[test]
fn a_recording_ends_with_what_went_wrong() {
    let mut app = app(&["One"]);
    app.begin_controller_capture(0, Ok(()));
    app.controller_cancelled("Controller binding cancelled".into());
    assert!(shows(&app, "Controller binding cancelled", false));
    app.begin_controller_capture(0, Ok(()));
    app.controller_failed("Lost it".into());
    assert!(shows(&app, "Lost it", true) && app.controller_capture_layout.is_none());
    app.begin_controller_capture(0, Ok(()));
    app.cancel_controller_capture(failed("gone"));
    assert!(shows(&app, "Could not cancel controller binding: gone", true));
    assert!(app.controller_capture_layout.is_none());
    app.controllers_changed(vec![]);
    assert!(app.controller_devices.is_empty());
}

#[test]
fn closing_hides_while_there_is_a_tray() {
    let hidden =
        "MonMan is running in the system tray; keyboard and controller hotkeys remain active";
    let mut app = app(&[]);
    assert_eq!(app.close_requested(), WindowAction::Hide);
    assert!(shows(&app, hidden, false) && !app.exit_requested);
    assert_eq!(
        app.handle_tray(TrayEvent::OpenRequested),
        WindowAction::Show
    );
    assert_eq!(
        app.handle_tray(TrayEvent::Error("explorer".into())),
        WindowAction::Nothing
    );
    assert!(shows(&app, "System tray stopped working: explorer", true) && !app.tray);
    assert_eq!(app.hide_to_tray(), WindowAction::Nothing);
    assert_eq!(app.close_requested(), WindowAction::Close);
    assert!(app.exit_requested);
    let mut other = self::app(&[]);
    assert_eq!(
        other.handle_tray(TrayEvent::ExitRequested),
        WindowAction::Close
    );
    assert_eq!(other.close_requested(), WindowAction::Close);
    let mut third = self::app(&[]);
    third.request_exit();
    assert!(third.exit_requested);
    assert_eq!(third.take_initial_visibility(), None);
}

#[test]
fn updates_are_offered_and_installed() {
    let update = || AvailableUpdate {
        tag: "v2.0.0".into(),
        asset_name: String::new(),
        download_url: String::new(),
        sha256: String::new(),
        size: 0,
    };
    let mut app = app(&[]);
    assert!(app.begin_install().is_none() && app.update_label().is_none());
    assert_eq!(
        app.handle_updater(UpdateEvent::Available(update())),
        WindowAction::Nothing
    );
    assert!(shows(&app, "Update v2.0.0 is available", false));
    assert_eq!(app.update_label().as_deref(), Some("Update to v2.0.0"));
    assert_eq!(app.begin_install().unwrap().tag, "v2.0.0");
    assert!(shows(&app, "Downloading update v2.0.0…", false));
    assert_eq!(app.update_label().as_deref(), Some("Installing v2.0.0…"));
    app.handle_updater(UpdateEvent::InstallFailed("offline".into()));
    assert!(shows(&app, "Update failed: offline", true) && !app.update_in_progress);
    app.handle_updater(UpdateEvent::Available(update()));
    assert!(shows(&app, "Update failed: offline", true));
    assert_eq!(
        app.handle_updater(UpdateEvent::InstallerLaunched),
        WindowAction::Close
    );
    assert!(app.exit_requested);
    assert!(shows(
        &app,
        "Update verified and installer launched; MonMan will restart",
        false
    ));
}

#[test]
fn the_usual_shortcut_can_be_switched_on_and_off() {
    let mut edited = layout("One", vec![]);
    toggle_hotkey(&mut edited, false);
    assert!(edited.hotkey.is_none());
    toggle_hotkey(&mut edited, true);
    assert_eq!(edited.hotkey.unwrap().label(), "Ctrl+Alt+F1");
}
