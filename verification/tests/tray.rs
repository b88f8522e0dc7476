use monman::tray::{
    copy_wide, icon_action, menu_event, IconAction, TrayEvent, MENU_OPEN, MENU_QUIT,
    WM_LBUTTONDBLCLK, WM_RBUTTONUP,
};

#[test]
fn the_icon_opens_on_double_click_and_shows_a_menu() {
    assert_eq!(icon_action(WM_LBUTTONDBLCLK), IconAction::Open);
    assert_eq!(icon_action(WM_RBUTTONUP), IconAction::ShowMenu);
    assert_eq!(icon_action(0), IconAction::Nothing);
}

#[test]
fn the_menu_opens_or_quits() {
    assert!(matches!(menu_event(MENU_OPEN), Some(TrayEvent::OpenRequested)));
    assert!(matches!(menu_event(MENU_QUIT), Some(TrayEvent::ExitRequested)));
    assert!(menu_event(0).is_none());
}

#[test]
fn tips_are_cut_before_the_final_zero() {
    let mut tip = vec![9_u16; 8];
    copy_wide("MonMan", &mut tip);
    assert_eq!(tip, vec![77, 111, 110, 77, 97, 110, 0, 0]);
    let mut short = vec![9_u16; 3];
    copy_wide("MonMan", &mut short);
    assert_eq!(short, vec![77, 111, 0]);
    let mut none: Vec<u16> = vec![];
    copy_wide("MonMan", &mut none);
    assert!(none.is_empty());
}
