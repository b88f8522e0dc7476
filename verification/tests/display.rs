use monman::display::apply::{ApplyStep, LayoutApply};
use monman::display::capture::capture_layout;
use monman::display::checks::{validate_layout, LayoutError};
use monman::display::paths::{
    preferred_size, source_mode_for_path, target_meta, target_meta_failure, valid_rotation,
    wide_z, DisplayPath, ModeInfo, QueriedPath, Rational, Snapshot, SourceMode, TargetMeta,
    TargetName, INVALID_MODE_INDEX, PATH_ACTIVE,
};
use monman::display::restore::{
    patch_active_modes, patch_target_settings, saved_refresh_rational, set_path_refresh_rate,
    RateRounding,
};
use monman::display::routing::assign_sources;
use monman::display::selection::{select_paths, SelectionError};
use monman::display::steps::{
    after_query, after_request, buffer_size_failure, recovery_step, restore_flags,
    restore_refusal, restore_step, topology_state_needs_recovery, ApplyStage, QueryStep,
    RecoveryStep, RestoreStep, ERROR_INSUFFICIENT_BUFFER,
};
use monman::model::{Hertz, MonitorConfig, MonitorIdentity, MonitorLayout};

fn hertz(rate: f32) -> Hertz {
    Hertz {
        bits: rate.to_bits(),
    }
}

fn monitor(name: &str, x: i32, y: i32) -> MonitorConfig {
    MonitorConfig {
        identity: MonitorIdentity {
            device_path: name.to_string(),
            adapter_low: 1,
            adapter_high: 0,
            target_id: 1,
        },
        friendly_name: name.into(),
        enabled: true,
        source_adapter_low: 1,
        source_adapter_high: 0,
        source_id: 0,
        clone_group: None,
        rotation: None,
        scaling: None,
        x,
        y,
        width: 1920,
        height: 1080,
        refresh_hz: hertz(60.0),
        refresh_numerator: None,
        refresh_denominator: None,
    }
}

fn layout(monitors: Vec<MonitorConfig>) -> MonitorLayout {
    MonitorLayout {
        name: "Desk".into(),
        monitors,
        playback_device: None,
        microphone_device: None,
        hotkey: None,
        controller_hotkey: None,
    }
}

fn path(source_id: u32, target_id: u32) -> DisplayPath {
    let mut path = DisplayPath::default();
    path.source_adapter_low = 1;
    path.source_id = source_id;
    path.target_adapter_low = 1;
    path.target_id = target_id;
    path.target_available = true;
    path.rotation = 1;
    path
}

fn route(source_id: u32, name: &str, target_id: u32) -> QueriedPath {
    QueriedPath {
        path: path(source_id, target_id),
        meta: Ok(TargetMeta {
            identity: MonitorIdentity {
                device_path: name.to_string(),
                adapter_low: 1,
                adapter_high: 0,
                target_id,
            },
            friendly_name: name.into(),
        }),
        preferred: None,
        measured_hz: hertz(0.0),
    }
}

fn units(text: &str) -> Vec<u16> {
    let mut units: Vec<u16> = text.encode_utf16().collect();
    units.extend([0, 88]);
    units
}

#[test]
fn source_assignment_rehomes_a_flexible_group() {
    let source_a = (0, 1, 0);
    let source_b = (0, 1, 1);
    let assigned =
        assign_sources(&[vec![source_a, source_b], vec![source_a]]).expect("valid routing");

    assert_eq!(assigned, vec![source_b, source_a]);
}

#[test]
fn source_assignment_rejects_an_impossible_routing() {
    let only_source = (0, 1, 0);
    assert!(assign_sources(&[vec![only_source], vec![only_source]]).is_none());
}

#[test]
fn startup_recovery_triggers_when_no_active_target_is_available() {
    assert!(topology_state_needs_recovery(&[]));
    assert!(topology_state_needs_recovery(&[false]));
    assert!(topology_state_needs_recovery(&[false, false]));
    assert!(!topology_state_needs_recovery(&[true]));
    assert!(!topology_state_needs_recovery(&[false, true]));
}

#[test]
fn setting_refresh_invalidates_the_current_target_timing() {
    let mut path = DisplayPath::default();
    path.target_mode_index = 7;
    let requested = Rational {
        numerator: 143_990,
        denominator: 1_000,
    };

    set_path_refresh_rate(&mut path, requested);

    assert_eq!(path.refresh_rate.numerator, 143_990);
    assert_eq!(path.refresh_rate.denominator, 1_000);
    assert_eq!(path.target_mode_index, INVALID_MODE_INDEX);
}

#[test]
fn final_mode_patch_restores_saved_orientation_and_scaling() {
    let mut path = DisplayPath::default();
    let saved = MonitorConfig {
        identity: MonitorIdentity {
            device_path: String::new(),
            adapter_low: 1,
            adapter_high: 0,
            target_id: 1,
        },
        friendly_name: "Portrait monitor".into(),
        enabled: true,
        source_adapter_low: 1,
        source_adapter_high: 0,
        source_id: 0,
        clone_group: None,
        rotation: Some(2),
        scaling: Some(3),
        x: 0,
        y: 0,
        width: 2560,
        height: 1440,
        refresh_hz: hertz(60.0),
        refresh_numerator: Some(60),
        refresh_denominator: Some(1),
    };

    patch_target_settings(
        &mut path,
        &saved,
        RateRounding {
            exact_matches: true,
            millihertz: 60_000,
        },
    );

    assert_eq!(path.rotation, 2);
    assert_eq!(path.scaling, 3);
    assert_eq!(
        path.refresh_rate,
        Rational {
            numerator: 60,
            denominator: 1
        }
    );
}

#[test]
fn an_edited_rate_is_asked_for_in_thousandths() {
    let mut saved = monitor("A", 0, 0);
    saved.refresh_numerator = Some(60_000);
    saved.refresh_denominator = Some(1_001);
    let edited = RateRounding {
        exact_matches: false,
        millihertz: 144_000,
    };
    let kept = RateRounding {
        exact_matches: true,
        millihertz: 59_940,
    };
    assert_eq!(
        saved_refresh_rational(&saved, edited),
        Rational {
            numerator: 144_000,
            denominator: 1_000
        }
    );
    assert_eq!(
        saved_refresh_rational(&saved, kept),
        Rational {
            numerator: 60_000,
            denominator: 1_001
        }
    );
    saved.refresh_numerator = Some(0);
    assert_eq!(saved_refresh_rational(&saved, kept).denominator, 1_000);
}

#[test]
fn routing_keeps_first_choices_where_they_differ() {
    let assigned = assign_sources(&[
        vec![(0, 1, 2), (0, 1, 0)],
        vec![(0, 1, 1), (0, 1, 0)],
        vec![(0, 1, 0)],
    ]);
    assert_eq!(assigned, Some(vec![(0, 1, 2), (0, 1, 1), (0, 1, 0)]));
    assert_eq!(assign_sources(&[]), Some(vec![]));
    assert_eq!(assign_sources(&[vec![]]), None);
}

#[test]
fn routing_rehomes_along_a_chain() {
    let (a, b, c) = ((0, 1, 0), (0, 1, 1), (0, 1, 2));
    let assigned = assign_sources(&[vec![a, b], vec![b, c], vec![a]]);
    assert_eq!(assigned, Some(vec![b, c, a]));
}

#[test]
fn sound_layouts_are_accepted() {
    assert!(validate_layout(&layout(vec![monitor("A", 0, 0), monitor("B", 1920, 0)])).is_ok());
    let mut off = monitor("A", 0, 0);
    off.enabled = false;
    off.width = 0;
    assert!(validate_layout(&layout(vec![monitor("A", 0, 0), off])).is_ok());
}

#[test]
fn each_fault_of_a_layout_is_named() {
    let fault = |monitors: Vec<MonitorConfig>| validate_layout(&layout(monitors)).unwrap_err();

    let mut off = monitor("A", 0, 0);
    off.enabled = false;
    let error = fault(vec![off]);
    assert!(matches!(error, LayoutError::AllOff));
    assert_eq!(
        error.message(),
        "a layout must keep at least one monitor enabled"
    );

    let error = fault(vec![monitor("A", 0, 0), monitor("a", 1920, 0)]);
    assert!(matches!(error, LayoutError::Duplicate(_)));
    assert_eq!(
        error.message(),
        "monitor 'a' appears more than once in this layout"
    );

    let mut flat = monitor("A", 0, 0);
    flat.height = 0;
    let error = fault(vec![flat]);
    assert!(matches!(error, LayoutError::ZeroSize(_)));
    assert_eq!(
        error.message(),
        "monitor 'A' must have a non-zero width and height"
    );

    for rate in [0.5, f32::NAN, f32::INFINITY, -60.0] {
        let mut odd = monitor("A", 0, 0);
        odd.refresh_hz = hertz(rate);
        let error = fault(vec![odd]);
        assert!(matches!(error, LayoutError::InvalidRefresh(_)));
        assert_eq!(error.message(), "monitor 'A' has an invalid refresh rate");
    }

    for rotation in [0, 5] {
        let mut odd = monitor("A", 0, 0);
        odd.rotation = Some(rotation);
        let error = fault(vec![odd]);
        assert!(matches!(error, LayoutError::InvalidOrientation(_)));
        assert_eq!(
            error.message(),
            "monitor 'A' has an invalid orientation value"
        );
    }

    let mut first = monitor("A", 0, 0);
    let mut second = monitor("B", 10, 0);
    first.clone_group = Some(1);
    second.clone_group = Some(1);
    let error = fault(vec![first, second]);
    assert!(matches!(error, LayoutError::CloneGeometry(_, _)));
    assert_eq!(
        error.message(),
        "cloned monitors 'A' and 'B' must share the same position and source resolution"
    );

    let error = fault(vec![monitor("A", 10, 0)]);
    assert!(matches!(error, LayoutError::NoPrimary));
    assert_eq!(
        error.message(),
        "one enabled monitor must be primary at (0, 0); use 'Make primary'"
    );

    let error = fault(vec![monitor("A", 0, 0), monitor("B", 0, 0)]);
    assert!(matches!(error, LayoutError::ManyPrimaries));
    assert_eq!(
        error.message(),
        "more than one independent monitor is positioned at (0, 0); move the others or make one monitor primary"
    );
}

#[test]
fn only_monitors_that_are_on_get_a_path() {
    let first = monitor("A", 0, 0);
    let mut second = monitor("B", 1920, 0);
    second.enabled = false;
    let queried = vec![route(0, "A", 1), route(1, "B", 2)];
    let selected = select_paths(&layout(vec![first, second]), &queried).unwrap();
    assert_eq!(selected.len(), 1);
    assert_eq!(selected[0].target_id, 1);
    assert_eq!(selected[0].flags & PATH_ACTIVE, PATH_ACTIVE);
    assert_eq!(selected[0].source_mode_index, INVALID_MODE_INDEX);
    assert_eq!(selected[0].target_mode_index, INVALID_MODE_INDEX);
}

#[test]
fn independent_monitors_get_separate_sources() {
    let queried = vec![
        route(0, "A", 1),
        route(1, "A", 1),
        route(0, "B", 2),
        route(1, "B", 2),
    ];
    let selected =
        select_paths(&layout(vec![monitor("A", 0, 0), monitor("B", 1920, 0)]), &queried).unwrap();
    assert_eq!(selected.len(), 2);
    assert_ne!(selected[0].source_key(), selected[1].source_key());
}

#[test]
fn clones_share_their_saved_source() {
    let mut first = monitor("A", 0, 0);
    let mut second = monitor("B", 0, 0);
    first.clone_group = Some(1);
    second.clone_group = Some(1);
    first.source_id = 1;
    second.source_id = 1;
    let queried = vec![
        route(0, "A", 1),
        route(1, "A", 1),
        route(0, "B", 2),
        route(1, "B", 2),
    ];
    let selected = select_paths(&layout(vec![first, second]), &queried).unwrap();
    assert_eq!(selected.len(), 2);
    assert_eq!(selected[0].source_key(), (0, 1, 1));
    assert_eq!(selected[1].source_key(), (0, 1, 1));
}

#[test]
fn each_selection_that_is_impossible_is_explained() {
    let fault = |monitors: Vec<MonitorConfig>, queried: Vec<QueriedPath>| {
        select_paths(&layout(monitors), &queried).unwrap_err()
    };
    let clones = |source: u32| {
        let mut first = monitor("A", 0, 0);
        let mut second = monitor("B", 0, 0);
        first.clone_group = Some(1);
        second.clone_group = Some(1);
        second.source_id = source;
        vec![first, second]
    };

    let error = fault(clones(1), vec![route(0, "A", 1), route(1, "B", 2)]);
    assert!(matches!(error, SelectionError::CloneSources));
    assert_eq!(
        error.message(),
        "clone group contains monitors captured from different display sources"
    );

    let error = fault(vec![monitor("A", 0, 0)], vec![route(0, "B", 1)]);
    assert!(matches!(error, SelectionError::NotConnected(_)));
    assert_eq!(error.message(), "monitor 'A' is not currently connected");

    let error = fault(clones(0), vec![route(0, "A", 1), route(1, "B", 2)]);
    assert!(matches!(error, SelectionError::NoCommonSource(_)));
    assert_eq!(
        error.message(),
        "Windows has no common display source available for cloned monitors 'A' + 'B'"
    );

    let error = fault(
        vec![monitor("A", 0, 0), monitor("B", 1920, 0)],
        vec![route(0, "A", 1), route(0, "B", 2)],
    );
    assert!(matches!(error, SelectionError::CannotAssign));
    assert_eq!(
        error.message(),
        "Windows cannot assign distinct display sources to every enabled monitor/clone group"
    );
}

#[test]
fn a_capture_holds_every_connected_monitor_once() {
    let mut active = route(3, "B", 2);
    active.path.source_mode_index = 0;
    active.path.rotation = 2;
    active.path.scaling = 4;
    active.path.refresh_rate = Rational {
        numerator: 144,
        denominator: 1,
    };
    active.measured_hz = hertz(144.0);
    let modes = vec![ModeInfo::Source(SourceMode {
        x: -5,
        y: 7,
        width: 2560,
        height: 1440,
    })];
    let mut idle = route(0, "A", 1);
    idle.preferred = Some((1280, 1024));
    let mut gone = route(0, "C", 3);
    gone.path.target_available = false;
    let mut silent = route(0, "D", 4);
    silent.meta = Err(31);
    let all = vec![idle, route(0, "B", 2), route(1, "A", 1), gone, silent];

    let layout = capture_layout("Now".into(), &all, &vec![active], &modes);
    assert_eq!(layout.name, "Now");
    assert_eq!(layout.monitors.len(), 2);
    let (b, a) = (&layout.monitors[0], &layout.monitors[1]);
    assert_eq!((b.friendly_name.as_str(), b.enabled), ("B", true));
    assert_eq!((b.x, b.y, b.width, b.height), (-5, 7, 2560, 1440));
    assert_eq!((b.rotation, b.scaling, b.source_id), (Some(2), Some(4), 3));
    assert_eq!(b.refresh_hz, hertz(144.0));
    assert_eq!(
        (b.refresh_numerator, b.refresh_denominator),
        (Some(144), Some(1))
    );
    assert_eq!((a.friendly_name.as_str(), a.enabled), ("A", false));
    assert_eq!((a.x, a.y, a.width, a.height), (0, 0, 1280, 1024));
    assert_eq!((a.scaling, a.refresh_numerator), (None, None));
    assert_eq!(a.refresh_hz, hertz(60.0));
    assert_eq!((a.clone_group, b.clone_group), (None, None));
}

#[test]
fn captured_targets_on_one_source_are_clones() {
    let active = || vec![route(0, "A", 1), route(0, "B", 2), route(1, "C", 3)];
    let layout = capture_layout("Mirror".into(), &active(), &active(), &vec![]);
    let group = |name: &str| {
        layout
            .monitors
            .iter()
            .find(|monitor| monitor.friendly_name == name)
            .unwrap()
            .clone_group
    };
    assert_eq!(group("A"), Some(1));
    assert_eq!(group("B"), Some(1));
    assert_eq!(group("C"), None);
}

#[test]
fn saved_settings_are_put_into_the_active_modes() {
    let mut saved = monitor("A", -100, 50);
    saved.rotation = Some(4);
    let mut active = Snapshot {
        paths: vec![path(0, 1), path(1, 9)],
        modes: vec![
            ModeInfo::Other,
            ModeInfo::Source(SourceMode {
                x: 0,
                y: 0,
                width: 640,
                height: 480,
            }),
        ],
    };
    active.paths[0].source_mode_index = 1;
    active.paths[1].source_mode_index = 0;
    let untouched = active.paths[1];
    let metas = vec![route(0, "A", 1).meta, route(1, "Z", 9).meta];
    let rounding = RateRounding {
        exact_matches: false,
        millihertz: 60_000,
    };
    let outcome = patch_active_modes(&layout(vec![saved]), &vec![rounding], &metas, &mut active);
    assert!(outcome.is_ok());
    assert_eq!(active.paths[0].rotation, 4);
    assert_eq!(active.paths[0].refresh_rate.numerator, 60_000);
    assert_eq!(active.paths[1], untouched);
    assert_eq!(active.modes[0], ModeInfo::Other);
    assert_eq!(
        active.modes[1],
        ModeInfo::Source(SourceMode {
            x: -100,
            y: 50,
            width: 1920,
            height: 1080
        })
    );
}

#[test]
fn a_target_without_an_answer_stops_the_patching() {
    let mut active = Snapshot {
        paths: vec![path(0, 1)],
        modes: vec![],
    };
    let outcome = patch_active_modes(&layout(vec![]), &vec![], &vec![Err(87)], &mut active);
    assert_eq!(outcome, Err(87));
    assert_eq!(
        target_meta_failure(87),
        "DisplayConfigGetDeviceInfo(GET_TARGET_NAME) failed: 87"
    );
}

#[test]
fn a_layout_is_applied_in_checked_stages() {
    let saved = layout(vec![monitor("A", 0, 0)]);
    let mut apply = LayoutApply::begin(&saved).unwrap();
    assert_eq!(apply.step(), ApplyStep::QueryAll);
    apply.queried(&vec![route(2, "A", 1)]).unwrap();
    assert_eq!(apply.step(), ApplyStep::Request(ApplyStage::CheckTopology));
    assert_eq!(apply.paths().len(), 1);
    assert!(apply.answered(0).is_ok());
    assert_eq!(apply.step(), ApplyStep::Request(ApplyStage::ApplyTopology));
    assert!(apply.answered(0).is_ok());
    assert_eq!(apply.step(), ApplyStep::QueryActive);

    let active = Snapshot {
        paths: vec![path(2, 1)],
        modes: vec![ModeInfo::Source(SourceMode {
            x: 9,
            y: 9,
            width: 9,
            height: 9,
        })],
    };
    let rounding = RateRounding {
        exact_matches: false,
        millihertz: 60_000,
    };
    apply
        .activated(active, &vec![route(2, "A", 1).meta], &vec![rounding])
        .unwrap();
    assert_eq!(apply.step(), ApplyStep::Request(ApplyStage::CheckModes));
    assert!(matches!(
        apply.modes()[0],
        ModeInfo::Source(mode) if mode.width == 1920 && mode.x == 0
    ));
    assert!(apply.answered(0).is_ok());
    assert_eq!(apply.step(), ApplyStep::Request(ApplyStage::ApplyModes));
    assert!(apply.answered(0).is_ok());
    assert_eq!(apply.step(), ApplyStep::Done);
    assert_eq!(apply.layout().name, "Desk");
}

#[test]
fn a_refused_stage_ends_the_apply() {
    assert_eq!(
        LayoutApply::begin(&layout(vec![])).unwrap_err(),
        "a layout must keep at least one monitor enabled"
    );
    let mut apply = LayoutApply::begin(&layout(vec![monitor("A", 0, 0)])).unwrap();
    assert_eq!(
        apply.queried(&vec![]).unwrap_err(),
        "monitor 'A' is not currently connected"
    );
    apply.queried(&vec![route(0, "A", 1)]).unwrap();
    assert_eq!(
        apply.answered(87).unwrap_err(),
        "Windows rejected the requested monitor topology (SetDisplayConfig: 87)"
    );
    assert_eq!(apply.step(), ApplyStep::Request(ApplyStage::CheckTopology));
    assert!(apply.answered(0).is_ok() && apply.answered(0).is_ok());
    let active = Snapshot {
        paths: vec![path(0, 1)],
        modes: vec![],
    };
    let rounding = RateRounding {
        exact_matches: true,
        millihertz: 0,
    };
    assert_eq!(
        apply
            .activated(active, &vec![Err(-1)], &vec![rounding])
            .unwrap_err(),
        "DisplayConfigGetDeviceInfo(GET_TARGET_NAME) failed: -1"
    );
}

#[test]
fn each_request_has_its_flags_and_its_refusal() {
    assert_eq!(ApplyStage::CheckTopology.flags(), 0x460);
    assert_eq!(ApplyStage::ApplyTopology.flags(), 0x6a0);
    assert_eq!(ApplyStage::CheckModes.flags(), 0x460);
    assert_eq!(ApplyStage::ApplyModes.flags(), 0x6a0);
    assert!(!ApplyStage::first().carries_modes() && ApplyStage::ApplyModes.carries_modes());
    assert_eq!(
        after_request(ApplyStage::ApplyTopology, 5).unwrap_err(),
        "failed to apply monitor topology (SetDisplayConfig: 5)"
    );
    assert_eq!(
        after_request(ApplyStage::CheckModes, -5).unwrap_err(),
        "topology was enabled, but Windows rejected its edited position/mode data (SetDisplayConfig: -5)"
    );
    assert_eq!(
        after_request(ApplyStage::ApplyModes, 31).unwrap_err(),
        "topology was enabled, but applying its edited position/mode data failed (SetDisplayConfig: 31)"
    );
    assert_eq!(after_request(ApplyStage::ApplyModes, 0).unwrap(), None);
    assert_eq!(restore_flags(), 0x48f);
}

#[test]
fn queries_are_repeated_while_the_topology_changes() {
    assert!(matches!(after_query(0, 0), QueryStep::Accept));
    assert!(matches!(
        after_query(3, ERROR_INSUFFICIENT_BUFFER),
        QueryStep::Retry
    ));
    assert!(matches!(
        after_query(4, ERROR_INSUFFICIENT_BUFFER),
        QueryStep::Fail(message)
            if message == "display topology kept changing while it was being queried"
    ));
    assert!(matches!(
        after_query(0, 5),
        QueryStep::Fail(message) if message == "QueryDisplayConfig failed: 5"
    ));
    assert_eq!(buffer_size_failure(0), None);
    assert_eq!(
        buffer_size_failure(87).unwrap(),
        "GetDisplayConfigBufferSizes failed: 87"
    );
}

#[test]
fn four_dark_looks_call_for_recovery() {
    assert_eq!(recovery_step(0, &[true]), RecoveryStep::Healthy);
    assert_eq!(recovery_step(2, &[false]), RecoveryStep::Wait(250));
    assert_eq!(recovery_step(3, &[]), RecoveryStep::Needed);
    assert_eq!(recovery_step(3, &[true]), RecoveryStep::Healthy);
}

#[test]
fn a_restore_is_given_time_to_show_something() {
    assert!(matches!(restore_step(0, &[true]), RestoreStep::Restored));
    assert!(matches!(restore_step(2, &[false]), RestoreStep::Wait(100)));
    assert!(matches!(
        restore_step(3, &[false]),
        RestoreStep::Fail(message)
            if message == "Windows reported success but still has no available active display"
    ));
    assert_eq!(restore_refusal(0), None);
    assert_eq!(
        restore_refusal(31).unwrap(),
        "Windows could not restore a topology for the currently connected monitors (SetDisplayConfig: 31)"
    );
}

#[test]
fn target_names_end_at_the_first_zero() {
    assert_eq!(wide_z(&units("Ünïcode 🖥")), "Ünïcode 🖥");
    assert_eq!(wide_z(&vec![0xD800, 65]), "\u{fffd}A");
    assert_eq!(wide_z(&vec![]), "");
    let name = |friendly: &str, code: i32| TargetName {
        code,
        friendly: units(friendly),
        device_path: units(r"\\?\DISPLAY"),
    };
    let meta = target_meta(&path(0, 7), &name("Dell", 0)).unwrap();
    assert_eq!(meta.friendly_name, "Dell");
    assert_eq!(meta.identity.device_path, r"\\?\DISPLAY");
    assert_eq!(meta.identity.target_id, 7);
    let meta = target_meta(&path(0, 7), &name("  ", 0)).unwrap();
    assert_eq!(meta.friendly_name, "Monitor 7");
    assert!(matches!(target_meta(&path(0, 7), &name("Dell", 5)), Err(5)));
}

#[test]
fn preferred_sizes_and_rotations_are_checked() {
    assert_eq!(preferred_size(0, 1920, 1080), Some((1920, 1080)));
    assert_eq!(preferred_size(0, 0, 1080), None);
    assert_eq!(preferred_size(1, 1920, 1080), None);
    assert_eq!(valid_rotation(1), Some(1));
    assert_eq!(valid_rotation(4), Some(4));
    assert_eq!(valid_rotation(0), None);
    assert_eq!(valid_rotation(5), None);
    let mut route = path(0, 1);
    route.source_mode_index = INVALID_MODE_INDEX;
    assert_eq!(source_mode_for_path(&route, &vec![ModeInfo::Other]), None);
}

#[test]
fn a_capture_is_brought_back_on_its_own_sources() {
    let all = || {
        let mut routes = Vec::new();
        for source in 0..3 {
            routes.push(route(source, "A", 1));
            routes.push(route(source, "B", 2));
            routes.push(route(source, "C", 3));
        }
        routes
    };
    let active = vec![route(2, "A", 1), route(0, "B", 2), route(2, "C", 3)];
    let captured = capture_layout("Now".into(), &all(), &active, &vec![]);
    let selected = select_paths(&captured, &all()).unwrap();
    assert_eq!(selected.len(), 3);
    for path in selected {
        let expected = if path.target_id == 2 { 0 } else { 2 };
        assert_eq!(path.source_id, expected);
    }
}
