use monman::startup::{
    is_startup_launch, launch_plan, show_existing_window, startup_window_visibility, LaunchPlan,
    WindowLookup, WINDOW_LOOKUP_ATTEMPTS,
};

#[test]
fn startup_visibility_tracks_tray_availability() {
    assert_eq!(startup_window_visibility(true, true), Some(false));
    assert_eq!(startup_window_visibility(true, false), Some(true));
    assert_eq!(startup_window_visibility(false, true), None);
}

#[test]
fn detects_startup_argument() {
    assert!(is_startup_launch(&["--startup"]));
    assert!(is_startup_launch(&["--other", "--startup"]));
}

#[test]
fn normal_launch_is_not_treated_as_startup() {
    assert!(!is_startup_launch(&[]));
    assert!(!is_startup_launch(&["--other"]));
}

#[test]
fn a_second_launch_shows_the_first_unless_it_is_silent() {
    assert_eq!(launch_plan(false, false), LaunchPlan::Run);
    assert_eq!(launch_plan(false, true), LaunchPlan::Run);
    assert_eq!(launch_plan(true, false), LaunchPlan::ShowExisting);
    assert_eq!(launch_plan(true, true), LaunchPlan::Leave);
}

#[test]
fn the_window_of_the_first_launch_is_looked_for_a_while() {
    assert_eq!(show_existing_window(0, true), WindowLookup::Show);
    assert!(matches!(show_existing_window(0, false), WindowLookup::Wait(_)));
    assert_eq!(
        show_existing_window(WINDOW_LOOKUP_ATTEMPTS, false),
        WindowLookup::GiveUp
    );
}
