use monman::controllers::buttons::{
    button_name, buttons_label, extract_report, is_dualsense, parse_buttons, sorted_buttons,
    HidDescription, CROSS, DPAD_DOWN, DPAD_LEFT, DPAD_RIGHT, DPAD_UP, DUALSENSE_PRODUCT_ID, L1,
    MUTE, PS, SONY_VENDOR_ID, TRIANGLE,
};
use monman::controllers::{
    ControllerDeviceInfo, ControllerEvent, ControllerManager, ControllerSpec, HidCandidate,
    CAPTURE_TIMEOUT,
};
use monman::model::ControllerBinding;
use std::collections::BTreeSet;

fn candidate(id: &str) -> HidCandidate {
    HidCandidate {
        id: id.into(),
        description: HidDescription {
            vendor_id: SONY_VENDOR_ID,
            product_id: DUALSENSE_PRODUCT_ID,
            usage_page: 1,
            usage: 5,
            product: Some("DualSense".into()),
        },
        wireless: false,
    }
}

fn report(face: u8, shoulders: u8) -> Vec<u8> {
    let mut raw = vec![0_u8; 64];
    raw[0] = 0x01;
    raw[8] = 0x08 | face;
    raw[9] = shoulders;
    raw
}

fn connected() -> ControllerManager {
    let mut manager = ControllerManager::new(0);
    manager.refresh(&vec![candidate("pad")], &vec![Ok(())], 0);
    while manager.try_recv().is_some() {}
    manager
}

fn begin(manager: &mut ControllerManager, layout_index: usize, now: u64) {
    manager.begin_capture(layout_index, now);
    assert!(matches!(
        manager.try_recv(),
        Some(ControllerEvent::CaptureProgress(message))
            if message == "Release all controller buttons, then press the desired chord"
    ));
}

fn chord(layout_index: usize, buttons: &[u32]) -> ControllerSpec {
    ControllerSpec {
        layout_index,
        binding: ControllerBinding {
            vendor_id: SONY_VENDOR_ID,
            product_id: DUALSENSE_PRODUCT_ID,
            device_name: "DualSense".into(),
            buttons: buttons.to_vec(),
            button_labels: Vec::new(),
        },
    }
}

#[test]
fn parses_usb_dualsense_face_button_and_released_dpad() {
    let mut raw = [0_u8; 64];
    raw[0] = 0x01;
    raw[8] = 0x28;
    let parsed = parse_buttons(extract_report(&raw).unwrap());
    assert_eq!(parsed, BTreeSet::from([CROSS]));
}

#[test]
fn parses_dpad_diagonal_as_a_chord() {
    let mut report = [0_u8; 63];
    report[7] = 0x01;
    assert_eq!(
        parse_buttons(&report),
        BTreeSet::from([DPAD_UP, DPAD_RIGHT])
    );
}

#[test]
fn persisted_button_ids_still_match_their_names() {
    assert_eq!(button_name(CROSS), "Cross");
    assert_eq!(button_name(MUTE), "Mute");
    assert_eq!(button_name(MUTE + 1), "Unknown button");
}

#[test]
fn bluetooth_reports_are_read_behind_a_longer_header() {
    let mut raw = [0_u8; 78];
    raw[0] = 0x31;
    raw[9] = 0x88;
    let parsed = parse_buttons(extract_report(&raw).unwrap());
    assert_eq!(parsed, BTreeSet::from([TRIANGLE]));
    assert!(extract_report(&[]).is_none());
    assert!(extract_report(&[0x05, 0, 0]).is_none());
}

#[test]
fn chords_are_listed_in_ascending_order() {
    let buttons = BTreeSet::from([PS, CROSS, L1]);
    assert_eq!(sorted_buttons(&buttons), vec![CROSS, L1, PS]);
    assert_eq!(buttons_label(&buttons), "Cross + L1 + PS");
}

#[test]
fn only_dualsense_gamepads_are_taken() {
    assert!(is_dualsense(&candidate("pad").description));
    let mut other = candidate("pad").description;
    other.vendor_id = 0x045e;
    assert!(!is_dualsense(&other));
}

#[test]
fn a_connected_controller_is_listed_once() {
    let mut manager = ControllerManager::new(0);
    assert!(manager.refresh_due(0));
    manager.refresh(&vec![candidate("pad")], &vec![Ok(())], 0);
    match manager.try_recv() {
        Some(ControllerEvent::DevicesChanged(devices)) => {
            assert_eq!(devices.len(), 1);
            assert_eq!(devices[0].label(), "DualSense (054C:0CE6, USB)");
        }
        other => panic!("unexpected {other:?}"),
    }
    assert!(manager.try_recv().is_none());
    assert_eq!(manager.device_count(), 1);
    assert!(!manager.refresh_due(999) && manager.refresh_due(1_000));
    manager.refresh(&vec![candidate("pad")], &vec![Ok(())], 1_000);
    assert!(manager.try_recv().is_none());
}

#[test]
fn a_controller_that_cannot_be_opened_is_reported_once() {
    let mut manager = ControllerManager::new(0);
    let refused = || vec![Err("denied".to_string())];
    manager.refresh(&vec![candidate("pad")], &refused(), 0);
    let mut errors = Vec::new();
    while let Some(event) = manager.try_recv() {
        if let ControllerEvent::Error(message) = event {
            errors.push(message);
        }
    }
    assert_eq!(
        errors,
        vec!["Could not open DualSense controller input: denied"]
    );
    manager.refresh(&vec![candidate("pad")], &refused(), 1_000);
    assert!(manager.try_recv().is_none());
    manager.refresh_failed("no access".into(), 2_000);
    assert!(matches!(
        manager.try_recv(),
        Some(ControllerEvent::Error(message))
            if message == "Could not open DualSense controller input: no access"
    ));
}

#[test]
fn a_chord_calls_for_its_layout_once_per_press() {
    let mut manager = connected();
    manager.replace(vec![chord(3, &[CROSS, L1])]);
    manager.report(0, &report(0x20, 0));
    manager.update(10);
    assert!(manager.try_recv().is_none());
    manager.report(0, &report(0x20, 0x01));
    manager.update(20);
    assert!(matches!(
        manager.try_recv(),
        Some(ControllerEvent::Triggered(3))
    ));
    manager.update(30);
    assert!(manager.try_recv().is_none());
    manager.report(0, &report(0, 0));
    manager.update(40);
    manager.report(0, &report(0x20, 0x01));
    manager.update(50);
    assert!(matches!(
        manager.try_recv(),
        Some(ControllerEvent::Triggered(3))
    ));
}

#[test]
fn a_recording_waits_for_release_and_keeps_every_button() {
    let mut manager = connected();
    manager.report(0, &report(0x20, 0));
    begin(&mut manager, 2, 100);
    manager.update(110);
    assert!(manager.try_recv().is_none());
    manager.report(0, &report(0, 0));
    manager.update(120);
    manager.report(0, &report(0x20, 0));
    manager.update(130);
    assert!(matches!(
        manager.try_recv(),
        Some(ControllerEvent::CaptureProgress(message))
            if message == "Recording Cross — release the chord to save it"
    ));
    manager.report(0, &report(0x20, 0x01));
    manager.update(140);
    manager.report(0, &report(0, 0x01));
    manager.update(150);
    assert!(manager.try_recv().is_none());
    manager.report(0, &report(0, 0));
    manager.update(160);
    match manager.try_recv() {
        Some(ControllerEvent::Captured {
            layout_index,
            binding,
        }) => {
            assert_eq!(layout_index, 2);
            assert_eq!(binding.buttons, vec![CROSS, L1]);
            assert_eq!(binding.button_labels, vec!["Cross", "L1"]);
            assert_eq!(binding.label(), "DualSense: Cross + L1");
        }
        other => panic!("unexpected {other:?}"),
    }
}

#[test]
fn nothing_is_triggered_while_recording() {
    let mut manager = connected();
    manager.replace(vec![chord(0, &[CROSS])]);
    begin(&mut manager, 1, 0);
    manager.report(0, &report(0x20, 0));
    manager.update(10);
    assert!(manager.try_recv().is_none());
}

#[test]
fn a_recording_ends_at_its_deadline_or_on_request() {
    let mut manager = connected();
    begin(&mut manager, 1, 5);
    manager.update(4 + CAPTURE_TIMEOUT);
    assert!(manager.try_recv().is_none());
    manager.update(5 + CAPTURE_TIMEOUT);
    assert!(matches!(
        manager.try_recv(),
        Some(ControllerEvent::CaptureCancelled(message))
            if message == "Controller binding timed out after 15 seconds"
    ));
    begin(&mut manager, 1, 30_000);
    manager.cancel_capture();
    assert!(matches!(
        manager.try_recv(),
        Some(ControllerEvent::CaptureCancelled(message))
            if message == "Controller binding cancelled"
    ));
    manager.cancel_capture();
    assert!(manager.try_recv().is_none());
}

#[test]
fn a_recording_ends_when_its_controller_goes() {
    let mut manager = connected();
    begin(&mut manager, 1, 0);
    manager.update(10);
    manager.report(0, &report(0x20, 0));
    manager.update(20);
    assert!(matches!(
        manager.try_recv(),
        Some(ControllerEvent::CaptureProgress(_))
    ));
    manager.lost(0, "unplugged", 30);
    assert!(matches!(
        manager.try_recv(),
        Some(ControllerEvent::Error(message))
            if message == "Lost controller input from DualSense: unplugged"
    ));
    assert!(manager.refresh_due(30));
    manager.update(40);
    assert!(matches!(
        manager.try_recv(),
        Some(ControllerEvent::CaptureCancelled(message))
            if message == "The controller disconnected while recording the binding"
    ));
}

#[test]
fn a_wireless_controller_is_labelled_as_such() {
    let info = ControllerDeviceInfo {
        display_name: "Pad".into(),
        vendor_id: 0x1,
        product_id: 0xabcd,
        wireless: true,
    };
    assert_eq!(info.label(), "Pad (0001:ABCD, Bluetooth)");
    assert!(info.same(&info.clone()));
}

#[test]
fn a_recorded_chord_can_be_played() {
    let mut manager = connected();
    begin(&mut manager, 2, 100);
    manager.update(110);
    manager.report(0, &report(0x20, 0x01));
    manager.update(120);
    manager.report(0, &report(0, 0));
    manager.update(130);
    let mut recorded = None;
    while let Some(event) = manager.try_recv() {
        if let ControllerEvent::Captured { binding, .. } = event {
            recorded = Some(binding);
        }
    }
    manager.replace(vec![ControllerSpec {
        layout_index: 2,
        binding: recorded.unwrap(),
    }]);
    manager.report(0, &report(0x60, 0x01));
    manager.update(140);
    assert!(matches!(
        manager.try_recv(),
        Some(ControllerEvent::Triggered(2))
    ));
}

#[test]
fn chords_without_buttons_are_dropped() {
    let mut manager = connected();
    manager.replace(vec![chord(0, &[])]);
    manager.update(10);
    assert!(manager.try_recv().is_none());
}

#[test]
fn the_dpad_never_points_both_ways() {
    for hat in 0..16_u8 {
        let mut report = [0_u8; 63];
        report[7] = hat;
        let pressed = parse_buttons(&report);
        assert!(!(pressed.contains(&DPAD_UP) && pressed.contains(&DPAD_DOWN)));
        assert!(!(pressed.contains(&DPAD_LEFT) && pressed.contains(&DPAD_RIGHT)));
        assert_eq!(pressed.is_empty(), hat >= 8);
    }
}
