use monman::model::{AppConfig, Hertz, MonitorConfig, MonitorIdentity, MonitorLayout};
use monman::storage::{keeps_backup, load, migrate_legacy_clone_groups, StoredConfig};

fn monitor(source_id: u32, clone_group: Option<u32>) -> MonitorConfig {
    MonitorConfig {
        identity: MonitorIdentity {
            device_path: String::new(),
            adapter_low: 0,
            adapter_high: 0,
            target_id: source_id,
        },
        friendly_name: String::new(),
        enabled: true,
        source_adapter_low: 0,
        source_adapter_high: 0,
        source_id,
        clone_group,
        rotation: None,
        scaling: None,
        x: 0,
        y: 0,
        width: 1,
        height: 1,
        refresh_hz: Hertz { bits: 0 },
        refresh_numerator: None,
        refresh_denominator: None,
    }
}

fn config(name: &str, monitors: Vec<MonitorConfig>) -> AppConfig {
    AppConfig {
        layouts: vec![MonitorLayout {
            name: name.into(),
            monitors,
            playback_device: None,
            microphone_device: None,
            hotkey: None,
            controller_hotkey: None,
        }],
        last_known_working: None,
    }
}

fn groups(config: &AppConfig) -> Vec<Option<u32>> {
    config.layouts[0]
        .monitors
        .iter()
        .map(|monitor| monitor.clone_group)
        .collect()
}

#[test]
fn legacy_clones_get_groups_of_their_own() {
    let mut off = monitor(5, None);
    off.enabled = false;
    let mut old = config(
        "old",
        vec![
            monitor(7, Some(3)),
            monitor(5, None),
            monitor(6, None),
            monitor(5, None),
            off,
        ],
    );
    migrate_legacy_clone_groups(&mut old);
    assert_eq!(groups(&old), vec![Some(3), Some(4), None, Some(4), None]);
    migrate_legacy_clone_groups(&mut old);
    assert_eq!(groups(&old), vec![Some(3), Some(4), None, Some(4), None]);
}

#[test]
fn several_legacy_groups_are_numbered_apart() {
    let mut old = config(
        "old",
        vec![
            monitor(1, None),
            monitor(2, None),
            monitor(2, None),
            monitor(1, None),
        ],
    );
    migrate_legacy_clone_groups(&mut old);
    let groups = groups(&old);
    assert_eq!(groups[0], groups[3]);
    assert_eq!(groups[1], groups[2]);
    assert_ne!(groups[0], groups[1]);
    assert!(groups.iter().all(Option::is_some));
}

#[test]
fn nothing_stored_is_an_empty_config() {
    let loaded = load(StoredConfig::Missing, StoredConfig::Missing).unwrap();
    assert!(loaded.layouts.is_empty() && loaded.last_known_working.is_none());
}

#[test]
fn the_backup_steps_in_for_an_unreadable_file() {
    let backup = || StoredConfig::Parsed(config("backup", vec![]));
    let primary = StoredConfig::Parsed(config("primary", vec![]));
    assert_eq!(load(primary, backup()).unwrap().layouts[0].name, "primary");
    let broken = StoredConfig::Failed("broken".into());
    assert_eq!(load(broken, backup()).unwrap().layouts[0].name, "backup");
    let loaded = load(StoredConfig::Missing, backup()).unwrap();
    assert_eq!(loaded.layouts[0].name, "backup");
}

#[test]
fn a_loaded_file_is_migrated() {
    let old = config("old", vec![monitor(5, None), monitor(5, None)]);
    let loaded = load(StoredConfig::Parsed(old), StoredConfig::Missing).unwrap();
    assert_eq!(groups(&loaded), vec![Some(1), Some(1)]);
}

#[test]
fn each_way_to_fail_is_told() {
    let failed = |error: &str| StoredConfig::Failed(error.to_string());
    assert_eq!(
        load(failed("first"), StoredConfig::Missing).unwrap_err(),
        "first"
    );
    assert_eq!(
        load(StoredConfig::Missing, failed("second")).unwrap_err(),
        "primary config is missing and backup recovery failed: second"
    );
    assert_eq!(
        load(failed("first"), failed("second")).unwrap_err(),
        "primary config failed (first) and backup recovery also failed: second"
    );
}

#[test]
fn only_a_readable_file_is_backed_up() {
    assert!(keeps_backup(&StoredConfig::Parsed(config("a", vec![]))));
    assert!(!keeps_backup(&StoredConfig::Missing));
    assert!(!keeps_backup(&StoredConfig::Failed("broken".into())));
}

#[test]
fn the_last_two_saves_can_be_loaded() {
    let mut primary = StoredConfig::Failed("broken".into());
    let mut backup = StoredConfig::Missing;
    for name in ["earlier", "later"] {
        if keeps_backup(&primary) {
            backup = primary;
        }
        primary = StoredConfig::Parsed(config(name, vec![monitor(1, None), monitor(1, None)]));
    }
    let kept = StoredConfig::Parsed(config("earlier", vec![]));
    assert_eq!(load(primary, kept).unwrap().layouts[0].name, "later");
    let restored = load(StoredConfig::Failed("damaged".into()), backup).unwrap();
    assert_eq!(restored.layouts[0].name, "earlier");
    assert_eq!(groups(&restored), vec![Some(1), Some(1)]);
}
