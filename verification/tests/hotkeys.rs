use monman::hotkeys::{
    modifiers, registration, HotkeyEvent, HotkeyManager, HotkeySpec, Registration, FIRST_ID,
};
use monman::model::{HotkeyBinding, HotkeyKey};

fn spec(layout_index: usize, ctrl: bool, key: HotkeyKey) -> HotkeySpec {
    HotkeySpec {
        layout_index,
        binding: HotkeyBinding {
            ctrl,
            alt: false,
            shift: false,
            win: false,
            key,
        },
    }
}

#[test]
fn modifiers_are_numbered_as_windows_does() {
    let all = HotkeyBinding {
        ctrl: true,
        alt: true,
        shift: true,
        win: true,
        key: HotkeyKey::F1,
    };
    assert_eq!(modifiers(all), 0x400f);
    assert_eq!(modifiers(HotkeyBinding::default()), 0x4003);
}

#[test]
fn shortcuts_are_registered_under_their_own_ids() {
    let specs = vec![
        spec(4, true, HotkeyKey::F2),
        spec(5, false, HotkeyKey::F3),
        spec(6, true, HotkeyKey::Num1),
    ];
    assert_eq!(
        registration(&specs, 0),
        Some(Registration {
            id: FIRST_ID,
            modifiers: 0x4002,
            key: 0x71
        })
    );
    assert_eq!(registration(&specs, 1), None);
    assert_eq!(registration(&specs, 2).unwrap().id, FIRST_ID + 2);
}

#[test]
fn a_registered_shortcut_calls_for_its_layout() {
    let mut manager = HotkeyManager::new();
    assert!(manager.take_request().is_none());
    manager.replace(vec![
        spec(4, true, HotkeyKey::F2),
        spec(5, false, HotkeyKey::F3),
        spec(6, true, HotkeyKey::Num1),
    ]);
    let specs = manager.take_request().unwrap();
    assert!(manager.take_request().is_none());
    manager.finish(&specs, &vec![Ok(()), Ok(()), Err("taken".to_string())]);
    assert_eq!(manager.registered(), vec![FIRST_ID]);
    match manager.try_recv() {
        Some(HotkeyEvent::RegistrationFinished(failures)) => {
            assert_eq!(failures.len(), 2);
            assert_eq!(failures[0].layout_index, 5);
            assert_eq!(
                failures[0].reason,
                "choose at least one modifier (Ctrl/Alt/Shift/Win)"
            );
            assert_eq!((failures[1].layout_index, failures[1].reason.as_str()), (6, "taken"));
        }
        other => panic!("unexpected {other:?}"),
    }
    manager.pressed(FIRST_ID);
    assert!(matches!(
        manager.try_recv(),
        Some(HotkeyEvent::Triggered(4))
    ));
    manager.pressed(FIRST_ID + 2);
    assert!(manager.try_recv().is_none());
}

#[test]
fn only_the_newest_shortcuts_are_asked_for() {
    let mut manager = HotkeyManager::new();
    manager.replace(vec![spec(0, true, HotkeyKey::F1)]);
    manager.replace(vec![spec(1, true, HotkeyKey::F2)]);
    let specs = manager.take_request().unwrap();
    assert_eq!(specs.len(), 1);
    assert_eq!(specs[0].layout_index, 1);
}
