use monman::model::{
    AppConfig, AudioDeviceConfig, ControllerBinding, Hertz, HotkeyBinding, HotkeyKey,
    MonitorIdentity,
};

fn identity(device_path: &str) -> MonitorIdentity {
    MonitorIdentity {
        device_path: device_path.to_string(),
        adapter_low: 1,
        adapter_high: 0,
        target_id: 1,
    }
}

#[test]
fn identity_label_uses_unique_device_path_components() {
    let monitor =
        identity(r"\\?DISPLAY#DEL1234#5&AAA111&0&UID1#{E6F07B5F-EE97-4A90-B076-33F57BF4EAA7}");

    assert_eq!(monitor.display_label(), "DEL1234 / 5&AAA111&0&UID1");
}

#[test]
fn shared_interface_guid_does_not_collapse_monitor_identity() {
    let first =
        identity(r"\\?DISPLAY#DEL1234#5&AAA111&0&UID1#{E6F07B5F-EE97-4A90-B076-33F57BF4EAA7}");
    let second =
        identity(r"\\?DISPLAY#DEL1234#5&BBB222&0&UID2#{E6F07B5F-EE97-4A90-B076-33F57BF4EAA7}");

    assert_ne!(first.stable_key(), second.stable_key());
    assert!(!first.matches(&second));
}

#[test]
fn hotkey_labels_and_virtual_keys_keep_their_windows_ranges() {
    assert_eq!((HotkeyKey::F1.label(), HotkeyKey::F1.vk()), ("F1", 0x70));
    assert_eq!((HotkeyKey::F12.label(), HotkeyKey::F12.vk()), ("F12", 0x7b));
    assert_eq!((HotkeyKey::Num0.label(), HotkeyKey::Num0.vk()), ("0", 0x30));
    assert_eq!((HotkeyKey::Num9.label(), HotkeyKey::Num9.vk()), ("9", 0x39));
}

#[test]
fn controller_binding_falls_back_to_one_based_button_names() {
    let binding = ControllerBinding {
        vendor_id: 0x054c,
        product_id: 0x0df2,
        device_name: "DualSense Edge".into(),
        buttons: vec![0, 12],
        button_labels: Vec::new(),
    };
    assert_eq!(binding.button_label(), "Button 1 + Button 13");
}

#[test]
fn controller_bindings_prefer_their_stored_labels() {
    let mut binding = ControllerBinding {
        vendor_id: 0x054c,
        product_id: 0x0ce6,
        device_name: "DualSense".into(),
        buttons: vec![0, 18],
        button_labels: vec!["Cross".into(), "Mute".into()],
    };
    assert_eq!(binding.button_label(), "Cross + Mute");
    assert_eq!(binding.label(), "DualSense: Cross + Mute");
    assert!(binding.is_valid() && binding.can_be_shown());
    binding.button_labels.pop();
    assert_eq!(binding.button_label(), "Button 1 + Button 19");
    binding.buttons.push(u32::MAX);
    assert!(!binding.can_be_shown());
    binding.buttons.clear();
    assert!(!binding.is_valid());
}

#[test]
fn identities_match_by_path_without_regard_to_case() {
    let lower = identity(r"\\?\display#del1234#uid1#{guid}");
    let upper = identity(r"\\?\DISPLAY#DEL1234#UID1#{GUID}");
    assert!(lower.matches(&upper) && upper.matches(&lower));
    assert_eq!(lower.stable_key(), upper.stable_key());
}

#[test]
fn identities_without_a_path_match_by_adapter_and_target() {
    let first = identity("");
    let mut second = identity("");
    assert!(first.matches(&second));
    assert_eq!(first.stable_key(), second.stable_key());
    second.target_id = 2;
    assert!(!first.matches(&second));
    assert_ne!(first.stable_key(), second.stable_key());
}

#[test]
fn shortcuts_are_read_out_in_a_fixed_order() {
    let binding = HotkeyBinding::default();
    assert_eq!(binding.label(), "Ctrl+Alt+F1");
    assert!(binding.has_modifier());
    let all = HotkeyBinding {
        ctrl: true,
        alt: true,
        shift: true,
        win: true,
        key: HotkeyKey::Num3,
    };
    assert_eq!(all.label(), "Ctrl+Alt+Shift+Win+3");
    let none = HotkeyBinding {
        ctrl: false,
        alt: false,
        shift: false,
        win: false,
        key: HotkeyKey::F5,
    };
    assert_eq!(none.label(), "F5");
    assert!(!none.has_modifier());
}

#[test]
fn no_two_keys_share_a_label_or_a_code() {
    let keys = HotkeyKey::all();
    assert_eq!(keys.len(), 22);
    for (i, a) in keys.iter().enumerate() {
        for b in &keys[i + 1..] {
            assert_ne!(a.vk(), b.vk());
            assert_ne!(a.label(), b.label());
        }
    }
}

#[test]
fn devices_without_a_name_are_shown_by_id() {
    let mut device = AudioDeviceConfig {
        id: "{0.0.0}.{a}".into(),
        name: "Speakers".into(),
    };
    assert_eq!(device.label(), "Speakers");
    device.name.clear();
    assert_eq!(device.label(), "{0.0.0}.{a}");
}

#[test]
fn rates_are_usable_from_one_hertz_on() {
    let rate = |hz: f32| Hertz { bits: hz.to_bits() };
    assert!(rate(1.0).usable() && rate(59.94).usable() && rate(f32::MAX).usable());
    assert!(!rate(0.99).usable() && !rate(0.0).usable() && !rate(-60.0).usable());
    assert!(!rate(f32::INFINITY).usable() && rate(f32::INFINITY).reaches_one());
    assert!(!rate(f32::NAN).usable() && !rate(f32::NAN).reaches_one());
    assert!(!rate(-f32::NAN).reaches_one() && !rate(f32::NEG_INFINITY).reaches_one());
}

#[test]
fn a_fresh_config_is_empty() {
    let config = AppConfig::default();
    assert!(config.layouts.is_empty() && config.last_known_working.is_none());
}

#[test]
fn matching_by_path_carries_over() {
    let names = ["\\\\?\\Display#A", "\\\\?\\DISPLAY#a", "\\\\?\\display#A"];
    for a in names {
        for b in names {
            assert!(identity(a).matches(&identity(b)));
        }
    }
    let mut moved = identity(names[0]);
    moved.target_id = 9;
    assert!(moved.matches(&identity(names[1])));
}

#[test]
fn labels_without_a_usual_path_fall_back() {
    assert_eq!(identity("").display_label(), "adapter 0:1 / target 1");
    assert_eq!(identity("").stable_key(), "adapter:0:1:target:1");
    assert_eq!(identity("plain#one").display_label(), "plain#one");
    let mut negative = identity("");
    negative.adapter_high = -3;
    assert_eq!(negative.stable_key(), "adapter:-3:1:target:1");
}

#[test]
fn nameless_controllers_are_shown_by_their_ids() {
    let binding = ControllerBinding {
        vendor_id: 0x054c,
        product_id: 0x0df2,
        device_name: String::new(),
        buttons: vec![3],
        button_labels: vec![],
    };
    assert_eq!(binding.label(), "Controller 054C:0DF2: Button 4");
}

#[test]
fn keys_without_a_path_tell_every_part_apart() {
    let part = |adapter_high: i32, adapter_low: u32, target_id: u32| MonitorIdentity {
        device_path: String::new(),
        adapter_low,
        adapter_high,
        target_id,
    };
    let all = [
        part(1, 23, 4),
        part(12, 3, 4),
        part(1, 2, 34),
        part(-1, 23, 4),
        part(1, 23, 40),
    ];
    for (at, first) in all.iter().enumerate() {
        for (index, second) in all.iter().enumerate() {
            assert_eq!(first.matches(second), at == index);
            assert_eq!(first.stable_key() == second.stable_key(), at == index);
        }
    }
}
