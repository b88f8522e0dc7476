use monman::arrangement::{
    apply_edits, choose_rotation, display_size, drag_monitors, enabled_count, is_primary,
    is_quarter_turn, make_primary, monitor_card_result, origins, rate_edited, rotation_label,
    saturating_difference, saturating_sum, shown_rotation, world_bounds, Bounds,
};
use monman::model::{Hertz, MonitorConfig, MonitorIdentity, MonitorLayout};
use monman::singles::{to_single, to_whole_pixel};
use monman::snap::{drag_monitor, snap_monitor_position, HorizontalAlignment};

fn monitor(name: &str, x: i32, y: i32, width: u32, height: u32, rotation: i32) -> MonitorConfig {
    MonitorConfig {
        identity: MonitorIdentity {
            device_path: name.to_string(),
            adapter_low: 0,
            adapter_high: 0,
            target_id: 0,
        },
        friendly_name: name.into(),
        enabled: true,
        source_adapter_low: 0,
        source_adapter_high: 0,
        source_id: 0,
        clone_group: None,
        rotation: Some(rotation),
        scaling: None,
        x,
        y,
        width,
        height,
        refresh_hz: Hertz {
            bits: 60.0_f32.to_bits(),
        },
        refresh_numerator: None,
        refresh_denominator: None,
    }
}

fn layout(monitors: Vec<MonitorConfig>) -> MonitorLayout {
    MonitorLayout {
        name: "snap test".into(),
        monitors,
        playback_device: None,
        microphone_device: None,
        hotkey: None,
        controller_hotkey: None,
    }
}

#[test]
fn portrait_monitor_is_drawn_with_vertical_dimensions() {
    let monitor = monitor("portrait", 0, 0, 3840, 2160, 2);

    assert_eq!(display_size(&monitor), (2160, 3840));
}

#[test]
fn snapping_uses_rotated_monitor_top_middle_and_bottom() {
    let target = monitor("portrait", 0, 0, 1920, 1080, 2);
    let moving = monitor("landscape", 4000, 0, 1920, 1080, 1);
    let layout = layout(vec![target, moving]);
    let threshold = 20.0_f32;
    let reach = (threshold * 2.0).floor() as i64;

    let top = snap_monitor_position(&layout, 1, 1090, 10, reach);
    assert_eq!((top.x, top.y), (1080, 0));
    assert!(top.guides.iter().any(|guide| guide.label == "TOP"));

    let middle = snap_monitor_position(&layout, 1, 4000, 430, reach);
    assert_eq!(middle.y, 420);
    assert!(middle.guides.iter().any(|guide| guide.label == "MIDDLE"));

    let bottom = snap_monitor_position(&layout, 1, 4000, 850, reach);
    assert_eq!(bottom.y, 840);
    assert!(bottom.guides.iter().any(|guide| guide.label == "BOTTOM"));
}

#[test]
fn snapping_leaves_alone_what_is_out_of_reach_or_off() {
    let mut arrangement = layout(vec![
        monitor("A", 0, 0, 1920, 1080, 1),
        monitor("B", 4000, 3000, 1920, 1080, 1),
    ]);
    let free = snap_monitor_position(&arrangement, 1, 4000, 3000, 40);
    assert_eq!((free.x, free.y, free.guides.len()), (4000, 3000, 0));
    arrangement.monitors[0].enabled = false;
    let alone = snap_monitor_position(&arrangement, 1, 1925, 5, 40);
    assert_eq!((alone.x, alone.y, alone.guides.len()), (1925, 5, 0));
    arrangement.monitors[0].enabled = true;
    arrangement.monitors[1].enabled = false;
    let off = snap_monitor_position(&arrangement, 1, 1925, 5, 40);
    assert_eq!((off.x, off.y, off.guides.len()), (1925, 5, 0));
}

#[test]
fn snapping_prefers_the_nearest_edge_and_ignores_clones() {
    let mut arrangement = layout(vec![
        monitor("A", 0, 0, 1920, 1080, 1),
        monitor("B", 1910, 0, 1920, 1080, 1),
        monitor("C", 5000, 0, 1000, 1000, 1),
    ]);
    let snapped = snap_monitor_position(&arrangement, 2, 1917, 0, 40);
    assert_eq!(snapped.x, 1920);
    assert_eq!(snapped.guides.len(), 2);
    assert_eq!(snapped.guides[1].label, "EDGE");
    assert_eq!(snapped.guides[1].at, 2 * 1920);
    arrangement.monitors[0].clone_group = Some(1);
    arrangement.monitors[2].clone_group = Some(1);
    let with_clone = snap_monitor_position(&arrangement, 2, 1917, 900, 0);
    assert_eq!((with_clone.x, with_clone.y), (1917, 900));
}

#[test]
fn alignments_are_measured_in_half_pixels() {
    assert_eq!(HorizontalAlignment::Top.offset(1081), 0);
    assert_eq!(HorizontalAlignment::Middle.offset(1081), 1081);
    assert_eq!(HorizontalAlignment::Bottom.offset(1081), 2162);
    assert_eq!(HorizontalAlignment::Middle.label(), "MIDDLE");
}

#[test]
fn single_precision_is_followed_exactly() {
    for pixels in [0_i32, 1, -1, 16_777_217, -16_777_219, i32::MAX, i32::MIN] {
        let single = pixels as f32;
        assert_eq!(to_single(2 * pixels as i64), (single as f64 * 2.0) as i64);
    }
    for half in [1_i64, 3, -1, -3, 5] {
        let rounded = (half as f32 * 0.5).round() as i32;
        assert_eq!(to_whole_pixel(half), rounded);
    }
}

#[test]
fn rotations_have_names_and_turn_by_quarters() {
    assert_eq!(rotation_label(1), "Landscape (0°)");
    assert_eq!(rotation_label(2), "Portrait (90°)");
    assert_eq!(rotation_label(3), "Landscape flipped (180°)");
    assert_eq!(rotation_label(4), "Portrait flipped (270°)");
    assert_eq!(rotation_label(0), "Current / unknown");
    assert!(is_quarter_turn(2) && is_quarter_turn(4));
    assert!(!is_quarter_turn(1) && !is_quarter_turn(3));
    let mut edited = monitor("A", 0, 0, 1920, 1080, 1);
    assert!(!choose_rotation(&mut edited, 1));
    assert!(choose_rotation(&mut edited, 4));
    assert_eq!((shown_rotation(&edited), edited.rotation), (4, Some(4)));
    edited.rotation = None;
    assert!(!choose_rotation(&mut edited, 0));
    assert_eq!(edited.rotation, None);
}

#[test]
fn an_edited_rate_forgets_the_exact_one() {
    let mut edited = monitor("A", 0, 0, 1920, 1080, 1);
    edited.refresh_numerator = Some(60);
    edited.refresh_denominator = Some(1);
    rate_edited(&mut edited);
    assert_eq!((edited.refresh_numerator, edited.refresh_denominator), (None, None));
}

#[test]
fn the_canvas_covers_every_monitor() {
    assert_eq!(world_bounds(&vec![]), None);
    let bounds = world_bounds(&vec![
        monitor("A", 0, 0, 1920, 1080, 1),
        monitor("B", -1080, -200, 1920, 1080, 2),
    ]);
    assert_eq!(
        bounds,
        Some(Bounds {
            min_x: -1080,
            min_y: -200,
            max_x: 1920,
            max_y: 1720
        })
    );
}

#[test]
fn dragging_moves_clones_together() {
    let mut monitors = vec![
        monitor("A", 0, 0, 1920, 1080, 1),
        monitor("B", 0, 0, 1920, 1080, 1),
        monitor("C", 1920, 0, 1920, 1080, 1),
    ];
    monitors[0].clone_group = Some(1);
    monitors[1].clone_group = Some(1);
    let began = origins(&monitors);
    assert!(drag_monitors(&mut monitors, &began, 0, 30, -40));
    assert_eq!((monitors[0].x, monitors[0].y), (30, -40));
    assert_eq!((monitors[1].x, monitors[1].y), (30, -40));
    assert_eq!((monitors[2].x, monitors[2].y), (1920, 0));
    assert!(!drag_monitors(&mut monitors, &began, 0, 30, -40));
    assert!(drag_monitors(&mut monitors, &began, 2, i32::MAX, 0));
    assert_eq!(monitors[2].x, i32::MAX);
}

#[test]
fn a_drag_snaps_and_takes_the_clones_along() {
    let mut layout = layout(vec![
        monitor("A", 0, 0, 1920, 1080, 1),
        monitor("B", 3000, 500, 1920, 1080, 1),
        monitor("C", 3000, 600, 1920, 1080, 1),
    ]);
    layout.monitors[1].clone_group = Some(1);
    layout.monitors[2].clone_group = Some(1);
    let began = origins(&layout.monitors);
    let moved = drag_monitor(&mut layout, &began, 1, -1075, -507, 20);
    assert!(moved.changed);
    assert_eq!(moved.guides.len(), 2);
    assert_eq!((layout.monitors[1].x, layout.monitors[1].y), (1920, 0));
    assert_eq!((layout.monitors[2].x, layout.monitors[2].y), (1920, 100));
    assert_eq!((layout.monitors[0].x, layout.monitors[0].y), (0, 0));
    assert!(!drag_monitor(&mut layout, &began, 1, -1075, -507, 20).changed);
    let loose = drag_monitor(&mut layout, &began, 1, 1000, 1900, 20);
    assert!(loose.changed && loose.guides.is_empty());
    assert_eq!((layout.monitors[1].x, layout.monitors[1].y), (4000, 2400));
    let late = drag_monitor(&mut layout, &vec![(0, 0)], 1, -1075, -507, 20);
    assert!(!late.changed && late.guides.is_empty());
    assert_eq!((layout.monitors[1].x, layout.monitors[1].y), (4000, 2400));
}

#[test]
fn coordinates_saturate() {
    assert_eq!(saturating_sum(i32::MAX, 1), i32::MAX);
    assert_eq!(saturating_sum(-5, 3), -2);
    assert_eq!(saturating_difference(i32::MIN, 1), i32::MIN);
    assert_eq!(saturating_difference(0, i32::MIN), i32::MAX);
}

#[test]
fn making_a_monitor_primary_shifts_the_rest() {
    let mut monitors = vec![
        monitor("A", 0, 0, 1920, 1080, 1),
        monitor("B", 1920, -100, 1920, 1080, 1),
    ];
    assert!(is_primary(&monitors[0]) && !is_primary(&monitors[1]));
    make_primary(&mut monitors, 1);
    assert!(is_primary(&monitors[1]));
    assert_eq!((monitors[0].x, monitors[0].y), (-1920, 100));
    monitors[1].enabled = false;
    assert!(!is_primary(&monitors[1]));
    assert_eq!(enabled_count(&monitors), 1);
}

#[test]
fn typed_geometry_reaches_the_clones() {
    let mut edited = layout(vec![
        monitor("A", 5, 6, 800, 600, 1),
        monitor("B", 0, 0, 1920, 1080, 1),
        monitor("C", 0, 0, 1920, 1080, 1),
    ]);
    edited.monitors[0].clone_group = Some(2);
    edited.monitors[2].clone_group = Some(2);
    let results = vec![
        monitor_card_result(&edited.monitors[0], 0, false, true, false),
        monitor_card_result(&edited.monitors[1], 1, false, false, false),
        monitor_card_result(&edited.monitors[2], 2, false, false, false),
    ];
    assert!(apply_edits(&mut edited, &results));
    let c = &edited.monitors[2];
    assert_eq!((c.x, c.y, c.width, c.height), (5, 6, 800, 600));
    assert_eq!(edited.monitors[1].width, 1920);
}

#[test]
fn a_pass_without_edits_changes_nothing() {
    let mut edited = layout(vec![monitor("A", 5, 6, 800, 600, 1)]);
    let results = vec![monitor_card_result(&edited.monitors[0], 0, false, false, false)];
    assert!(!apply_edits(&mut edited, &results));
    let results = vec![monitor_card_result(&edited.monitors[0], 0, false, false, true)];
    assert!(apply_edits(&mut edited, &results));
    assert_eq!((edited.monitors[0].x, edited.monitors[0].y), (0, 0));
}
