use monman::audio::{
    apply_layout, capture_current_devices, ensure_available, enumerate_devices, option_label,
    picked_device, sets_audio, AudioDeviceInventory,
};
use monman::model::{AudioDeviceConfig, MonitorLayout};

fn device(id: &str, name: &str) -> AudioDeviceConfig {
    AudioDeviceConfig {
        id: id.into(),
        name: name.into(),
    }
}

fn layout(
    playback: Option<AudioDeviceConfig>,
    microphone: Option<AudioDeviceConfig>,
) -> MonitorLayout {
    let mut layout = MonitorLayout {
        name: "Desk".into(),
        monitors: vec![],
        playback_device: None,
        microphone_device: None,
        hotkey: None,
        controller_hotkey: None,
    };
    capture_current_devices(&mut layout, playback, microphone);
    layout
}

#[test]
fn devices_are_listed_by_name_without_regard_to_case() {
    let inventory = enumerate_devices(
        vec![device("3", "beta"), device("1", "Gamma"), device("2", "Alpha")],
        vec![],
        Some(device("2", "Alpha")),
        None,
    );
    let ids: Vec<&str> = inventory
        .playback
        .iter()
        .map(|device| device.id.as_str())
        .collect();
    assert_eq!(ids, vec!["2", "3", "1"]);
    assert_eq!(inventory.default_playback_id.as_deref(), Some("2"));
    assert!(inventory.microphones.is_empty() && inventory.default_microphone_id.is_none());
    assert!(AudioDeviceInventory::default().playback.is_empty());
}

#[test]
fn a_layout_without_devices_sets_none() {
    let plain = layout(None, None);
    assert!(!sets_audio(&plain));
    assert!(apply_layout(&plain, &vec![], &vec![]).unwrap().is_empty());
}

#[test]
fn both_devices_are_set_playback_first() {
    let saved = layout(Some(device("p", "Speakers")), Some(device("m", "")));
    assert!(sets_audio(&saved));
    let chosen = apply_layout(
        &saved,
        &vec![device("p", "Renamed")],
        &vec![device("m", "Mic")],
    )
    .unwrap();
    assert_eq!(chosen.len(), 2);
    assert_eq!(chosen[0].endpoint, vec![112, 0]);
    assert_eq!(
        chosen[0].failure,
        "could not select playback device 'Speakers'"
    );
    assert_eq!(chosen[1].endpoint, vec![109, 0]);
    assert_eq!(chosen[1].failure, "could not select microphone 'm'");
}

#[test]
fn endpoints_beyond_the_basic_plane_are_encoded_in_pairs() {
    let saved = layout(Some(device("🔊", "Speakers")), None);
    let chosen = apply_layout(&saved, &vec![device("🔊", "Speakers")], &vec![]).unwrap();
    assert_eq!(chosen[0].endpoint, vec![0xD83D, 0xDD0A, 0]);
}

#[test]
fn a_missing_device_refuses_the_whole_layout() {
    let saved = layout(Some(device("p", "Speakers")), Some(device("m", "Mic")));
    assert_eq!(
        apply_layout(&saved, &vec![], &vec![device("m", "Mic")]).unwrap_err(),
        "saved playback device 'Speakers' is disconnected or unavailable"
    );
    assert_eq!(
        apply_layout(&saved, &vec![device("p", "Speakers")], &vec![]).unwrap_err(),
        "saved microphone device 'Mic' is disconnected or unavailable"
    );
    assert!(ensure_available(&device("m", "Mic"), &vec![device("m", "")], "microphone").is_ok());
}

#[test]
fn the_picker_marks_what_is_missing_and_what_is_default() {
    let devices = vec![device("p", "Speakers")];
    assert_eq!(
        picked_device(&None, &devices),
        (true, "Keep current device".to_string())
    );
    assert_eq!(
        picked_device(&Some(device("p", "Speakers")), &devices),
        (true, "Speakers".to_string())
    );
    assert_eq!(
        picked_device(&Some(device("q", "Old")), &devices),
        (false, "Old (unavailable)".to_string())
    );
    assert_eq!(
        option_label(&devices[0], &Some("p".to_string())),
        "Speakers (current default)"
    );
    assert_eq!(option_label(&devices[0], &None), "Speakers");
}

#[test]
fn devices_of_one_name_are_listed_by_id() {
    let inventory = enumerate_devices(
        vec![device("b", "Same"), device("a", "same"), device("c", "")],
        vec![],
        None,
        None,
    );
    let ids: Vec<&str> = inventory
        .playback
        .iter()
        .map(|device| device.id.as_str())
        .collect();
    assert_eq!(ids, vec!["c", "a", "b"]);
}
