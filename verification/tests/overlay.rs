use overlay_core::config::{
    Command, CustomCrosshair, FpsConfig, Notification, OverlayCrosshairData,
    get_grid_for_crosshair,
};
use overlay_core::state::OverlayState;
use overlay_core::render::{
    CrosshairFeature, FpsFeature, Shape, plan_frame, fps_layout,
};
use overlay_core::notify::{NotificationFeature, notification_script};
use overlay_core::hexcolor::{Rgba, parse_hex_color, color_or};

fn crosshair(size: i64, ox: i64, oy: i64) -> OverlayCrosshairData {
    OverlayCrosshairData {
        enabled: true,
        color: b"#FF0000".to_vec(),
        size,
        offset_x: ox,
        offset_y: oy,
        grid: None,
        crosshair_type: None,
    }
}

#[test]
fn last_crosshair_update_wins() {
    let mut state = OverlayState::default();
    for i in 0..10i64 {
        state.apply_command(Command::UpdateCrosshair(crosshair(100 * (i + 1), i, -i)));
    }
    assert_eq!(state.crosshair.size, 1000);
    assert_eq!(state.crosshair.offset_x, 9);
    assert_eq!(state.crosshair.offset_y, -9);
    assert!(state.enabled);
    assert!(state.notifications.is_empty());
}

#[test]
fn notifications_accumulate_in_order() {
    let mut state = OverlayState::default();
    for name in [&b"a"[..], b"b", b"c"] {
        state.apply_command(Command::ShowNotification(Notification {
            id: name.to_vec(),
            title: name.to_vec(),
            message: b"m".to_vec(),
            duration: 300,
            elapsed: 0,
        }));
    }
    let ids: Vec<Vec<u8>> = state.notifications.iter().map(|n| n.id.clone()).collect();
    assert_eq!(ids, vec![b"a".to_vec(), b"b".to_vec(), b"c".to_vec()]);
}

#[test]
fn named_shape_is_centered_and_proportional() {
    // a cross at size 20 px on a 1920x1080 screen, offset (10, -5) px
    let f = CrosshairFeature::new();
    let mut c = crosshair(2000, 1000, -500);
    c.crosshair_type = Some(b"svg1".to_vec());
    let shapes = f.render(&c, 192000, 108000);
    assert_eq!(shapes.len(), 3);
    let cx = 96000 + 1000;
    let cy = 54000 - 500;
    match shapes[0] {
        Shape::Line { x1, y1, x2, y2, thickness } => {
            assert_eq!((x1, y1, x2, y2), (cx - 1000, cy, cx + 1000, cy));
            assert_eq!(thickness, 300); // 15% of the size
        }
        _ => panic!("expected a line"),
    }
    match shapes[2] {
        Shape::Circle { cx: x, cy: y, radius, filled } => {
            assert_eq!((x, y), (cx, cy));
            assert_eq!(radius, 200); // 10% of the size
            assert!(filled);
        }
        _ => panic!("expected a circle"),
    }
    // doubling the size doubles every measurement
    c.size = 4000;
    let doubled = f.render(&c, 192000, 108000);
    match doubled[0] {
        Shape::Line { x1, x2, thickness, .. } => {
            assert_eq!(x2 - x1, 4000);
            assert_eq!(thickness, 600);
        }
        _ => panic!("expected a line"),
    }
}

#[test]
fn grid_draws_one_cell_per_true_entry() {
    let f = CrosshairFeature::new();
    let mut c = crosshair(2000, 0, 0);
    c.grid = Some(vec![
        vec![true, false, true],
        vec![false, true, false],
        vec![true, false, true],
    ]);
    let shapes = f.render(&c, 192000, 108000);
    assert_eq!(shapes.len(), 5);
    for s in &shapes {
        match s {
            Shape::Rect { filled, .. } => assert!(*filled),
            _ => panic!("grid cells are filled rectangles"),
        }
    }
}

#[test]
fn ragged_grid_draws_nothing() {
    let f = CrosshairFeature::new();
    let mut c = crosshair(2000, 0, 0);
    c.grid = Some(vec![vec![true, true], vec![true], vec![true, true, true]]);
    let shapes = f.render(&c, 192000, 108000);
    assert!(shapes.is_empty());
}

#[test]
fn disabled_crosshair_draws_nothing() {
    let f = CrosshairFeature::new();
    let mut c = crosshair(2000, 0, 0);
    c.enabled = false;
    assert!(f.render(&c, 192000, 108000).is_empty());
}

#[test]
fn no_type_no_grid_draws_filled_dot() {
    let f = CrosshairFeature::new();
    let c = crosshair(2000, 0, 0);
    let shapes = f.render(&c, 192000, 108000);
    assert_eq!(shapes.len(), 1);
    match shapes[0] {
        Shape::Circle { radius, filled, .. } => {
            assert_eq!(radius, 1000);
            assert!(filled);
        }
        _ => panic!("expected a dot"),
    }
}

#[test]
fn disabled_overlay_renders_only_the_placeholder() {
    let mut state = OverlayState::default();
    state.fps.enabled = true;
    state.crosshair = crosshair(2000, 0, 0);
    state.apply_command(Command::ToggleOverlay(false));
    let plan = plan_frame(&state, 192000, 108000, 7000, 1800, true);
    assert!(plan.hidden);
    assert!(plan.crosshair.is_empty());
    assert!(plan.fps.is_none());
    assert!(!plan.notifications);
    state.apply_command(Command::ToggleOverlay(true));
    let plan = plan_frame(&state, 192000, 108000, 7000, 1800, true);
    assert!(!plan.hidden);
    assert!(!plan.crosshair.is_empty());
    assert!(plan.fps.is_some());
    assert!(plan.notifications);
}

#[test]
fn fps_layout_anchors_to_corners() {
    let mut f = FpsConfig::default();
    f.enabled = true;
    f.position = b"BottomRight".to_vec();
    // text 70x18 px at default font size 14, padding 5, margin 10
    let l = fps_layout(&f, 192000, 108000, 7000, 1800);
    assert_eq!(l.pos_x, 192000 - 1000);
    assert_eq!(l.pos_y, 108000 - 1000);
    assert_eq!((l.pivot_x, l.pivot_y), (100, 100));
    assert_eq!(l.win_w, 7000 + 1000); // text at scale one plus twice the padding
    assert_eq!(l.win_h, 1800 + 1000);
    assert_eq!(l.text_color, Rgba { r: 255, g: 255, b: 255, a: 255 });
    assert_eq!(l.bg_color, Rgba { r: 0, g: 0, b: 0, a: 255 });
    assert_eq!(l.bg_opacity, 50);

    f.position = b"nowhere".to_vec();
    let l = fps_layout(&f, 192000, 108000, 7000, 1800);
    assert_eq!((l.pos_x, l.pos_y), (1000, 1000)); // unknown anchors fall back to top-left
    assert_eq!((l.pivot_x, l.pivot_y), (0, 0));
}

#[test]
fn fps_accumulator_samples_once_per_second() {
    let mut f = FpsFeature::new();
    f.tick(40, 6000); // 0.4 s
    assert_eq!(f.value, 0);
    f.tick(40, 6000); // 0.8 s
    assert_eq!(f.value, 0);
    f.tick(40, 6000); // 1.2 s: sample and reset
    assert_eq!(f.value, 6000);
    assert_eq!(f.timer, 0);
}

#[test]
fn notification_refreshes_for_duration_plus_fade() {
    let mut feature = NotificationFeature::new(None);
    assert!(!feature.is_refreshing(0));
    let n = Notification {
        id: b"x".to_vec(),
        title: b"t".to_vec(),
        message: b"m".to_vec(),
        duration: 300, // 3.0 seconds
        elapsed: 0,
    };
    feature.show(10_000, &n);
    assert!(feature.is_refreshing(10_000));
    assert!(feature.is_refreshing(13_999));
    assert!(feature.is_refreshing(14_000)); // at least 4.0 s after the show
    assert!(!feature.is_refreshing(14_001)); // frozen afterwards
}

#[test]
fn notification_script_calls_page_function() {
    let n = Notification {
        id: b"x".to_vec(),
        title: b"Hello".to_vec(),
        message: b"World".to_vec(),
        duration: 250,
        elapsed: 0,
    };
    let script = notification_script(&n);
    assert_eq!(
        String::from_utf8(script).unwrap(),
        "showNotification(\"Hello\",\"World\",2.50)"
    );
}

#[test]
fn hex_colors_parse_in_all_four_forms() {
    assert_eq!(
        parse_hex_color(&b"#00FF00".to_vec()),
        Some(Rgba { r: 0, g: 255, b: 0, a: 255 })
    );
    assert_eq!(
        parse_hex_color(&b"#0f0".to_vec()),
        Some(Rgba { r: 0, g: 255, b: 0, a: 255 })
    );
    assert_eq!(
        parse_hex_color(&b"#0f08".to_vec()),
        Some(Rgba { r: 0, g: 255, b: 0, a: 136 })
    );
    assert_eq!(
        parse_hex_color(&b"#01aBcD7f".to_vec()),
        Some(Rgba { r: 1, g: 171, b: 205, a: 127 })
    );
    assert_eq!(parse_hex_color(&b"00FF00".to_vec()), None);
    assert_eq!(parse_hex_color(&b"#00FG00".to_vec()), None);
    assert_eq!(parse_hex_color(&b"#00FF0".to_vec()), None);
    assert_eq!(parse_hex_color(&b"".to_vec()), None);
}

#[test]
fn hex_parser_agrees_with_reference_parser() {
    let cases: Vec<&str> = vec![
        "#00FF00", "#0f0", "#0F08", "#01aBcD7f", "#ffffff", "#000", "00FF00", "#00FG00",
        "#12345", "", "#", "#abcd12345",
    ];
    for s in cases {
        let mine = parse_hex_color(&s.as_bytes().to_vec());
        match hex_color::HexColor::parse(s) {
            Ok(c) => {
                let m = mine.expect("reference parser accepted");
                assert_eq!((m.r, m.g, m.b, m.a), (c.r, c.g, c.b, c.a), "on {s}");
            }
            Err(_) => assert!(mine.is_none(), "on {s}"),
        }
    }
}

#[test]
fn bad_color_falls_back() {
    let white = Rgba { r: 255, g: 255, b: 255, a: 255 };
    assert_eq!(color_or(&b"oops".to_vec(), white), white);
    assert_eq!(
        color_or(&b"#102030".to_vec(), white),
        Rgba { r: 16, g: 32, b: 48, a: 255 }
    );
}

#[test]
fn custom_crosshair_wins_over_builtin_grid() {
    let custom = vec![CustomCrosshair {
        id: b"svg5".to_vec(),
        name: b"mine".to_vec(),
        grid: vec![vec![true]],
    }];
    assert_eq!(
        get_grid_for_crosshair(&b"svg5".to_vec(), &custom),
        Some(vec![vec![true]])
    );
    let none: Vec<CustomCrosshair> = Vec::new();
    assert_eq!(
        get_grid_for_crosshair(&b"svg5".to_vec(), &none),
        Some(vec![
            vec![false, true, false],
            vec![true, true, true],
            vec![false, true, false]
        ])
    );
    assert_eq!(get_grid_for_crosshair(&b"unknown".to_vec(), &none), None);
}

#[test]
fn builtin_grids_have_five_shapes() {
    let none: Vec<CustomCrosshair> = Vec::new();
    for id in [&b"svg1"[..], b"svg2", b"svg3", b"svg4"] {
        let g = get_grid_for_crosshair(&id.to_vec(), &none).expect("built-in");
        assert_eq!(g.len(), 5);
        assert!(g.iter().all(|row| row.len() == 5));
    }
}

#[test]
fn custom_selection_becomes_a_grid_update() {
    let customs = vec![CustomCrosshair {
        id: b"my-dot".to_vec(),
        name: b"dot".to_vec(),
        grid: vec![vec![true]],
    }];
    let (grid, kind) =
        overlay_core::config::resolve_crosshair_selection(&b"my-dot".to_vec(), &customs);
    assert_eq!(grid, Some(vec![vec![true]]));
    assert_eq!(kind, b"grid".to_vec());
    let (grid, kind) =
        overlay_core::config::resolve_crosshair_selection(&b"svg1".to_vec(), &customs);
    assert_eq!(grid, None);
    assert_eq!(kind, b"svg1".to_vec());
}

#[test]
fn very_wide_grid_still_counts_cells() {
    // more columns than the size has units: cells degenerate to zero-sized
    // squares, but each true entry is still drawn
    let f = CrosshairFeature::new();
    let mut c = crosshair(2000, 0, 0);
    let mut row = vec![false; 1_000_001];
    row[0] = true;
    row[1_000_000] = true;
    c.grid = Some(vec![row]);
    let shapes = f.render(&c, 192000, 108000);
    assert_eq!(shapes.len(), 2);
}

#[test]
fn frame_plan_carries_the_crosshair_color() {
    let mut state = OverlayState::default();
    state.crosshair = crosshair(2000, 0, 0); // #FF0000
    let plan = plan_frame(&state, 192000, 108000, 7000, 1800, false);
    assert_eq!(plan.crosshair_color, Some(Rgba { r: 255, g: 0, b: 0, a: 255 }));
    state.crosshair.enabled = false;
    let plan = plan_frame(&state, 192000, 108000, 7000, 1800, false);
    assert_eq!(plan.crosshair_color, None);
}

#[test]
fn stopping_audio_capture_clears_both_streams() {
    let mut cap = overlay_core::util::AudioCapture::new();
    cap.start(Some(1), Some(2));
    assert_eq!(cap.desktop, Some(1));
    assert_eq!(cap.mic, Some(2));
    cap.stop_audio_capture();
    assert_eq!(cap.desktop, None);
    assert_eq!(cap.mic, None);
    cap.stop_audio_capture(); // stopping again changes nothing
    assert_eq!(cap.desktop, None);
    assert_eq!(cap.mic, None);
}
