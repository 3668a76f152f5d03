use overlay_core::config::{
    Command, FpsConfig, Notification, OverlayCrosshairData,
};
use overlay_core::codec::{encode_command, parse_command};

fn sample_crosshair() -> OverlayCrosshairData {
    OverlayCrosshairData {
        enabled: true,
        color: b"#00FF00".to_vec(),
        size: 2000,
        offset_x: 0,
        offset_y: -150,
        grid: None,
        crosshair_type: None,
    }
}

fn crosshair_eq(a: &OverlayCrosshairData, b: &OverlayCrosshairData) -> bool {
    a.enabled == b.enabled && a.color == b.color && a.size == b.size && a.offset_x == b.offset_x
        && a.offset_y == b.offset_y && a.grid == b.grid && a.crosshair_type == b.crosshair_type
}

#[test]
fn round_trip_update_crosshair() {
    let cmd = Command::UpdateCrosshair(sample_crosshair());
    let line = encode_command(&cmd);
    let back = parse_command(&line).expect("should parse");
    match back {
        Command::UpdateCrosshair(c) => assert!(crosshair_eq(&c, &sample_crosshair())),
        _ => panic!("wrong variant"),
    }
}

#[test]
fn round_trip_update_crosshair_with_grid_and_type() {
    let cmd = Command::UpdateCrosshair(OverlayCrosshairData {
        enabled: false,
        color: b"#A1b2C3".to_vec(),
        size: 1,
        offset_x: -1,
        offset_y: 12345,
        grid: Some(vec![vec![true, false], vec![false, true], vec![]]),
        crosshair_type: Some(b"grid".to_vec()),
    });
    let line = encode_command(&cmd);
    let back = parse_command(&line).expect("should parse");
    match back {
        Command::UpdateCrosshair(c) => {
            assert_eq!(c.grid, Some(vec![vec![true, false], vec![false, true], vec![]]));
            assert_eq!(c.crosshair_type, Some(b"grid".to_vec()));
            assert_eq!(c.size, 1);
            assert_eq!(c.offset_x, -1);
        }
        _ => panic!("wrong variant"),
    }
}

#[test]
fn round_trip_show_notification() {
    let cmd = Command::ShowNotification(Notification {
        id: b"n-1".to_vec(),
        title: b"Clip saved".to_vec(),
        message: b"Your clip is ready.".to_vec(),
        duration: 300,
        elapsed: 0,
    });
    let line = encode_command(&cmd);
    match parse_command(&line).expect("should parse") {
        Command::ShowNotification(n) => {
            assert_eq!(n.id, b"n-1".to_vec());
            assert_eq!(n.title, b"Clip saved".to_vec());
            assert_eq!(n.message, b"Your clip is ready.".to_vec());
            assert_eq!(n.duration, 300);
            assert_eq!(n.elapsed, 0);
        }
        _ => panic!("wrong variant"),
    }
}

#[test]
fn round_trip_update_fps() {
    let cmd = Command::UpdateFps(FpsConfig {
        enabled: true,
        position: b"BottomRight".to_vec(),
        text_color: b"#FFFFFF".to_vec(),
        bg_color: b"#000000".to_vec(),
        bg_opacity: 50,
        size: 1400,
        padding: 500,
        margin: 1000,
    });
    let line = encode_command(&cmd);
    match parse_command(&line).expect("should parse") {
        Command::UpdateFps(f) => {
            assert_eq!(f.position, b"BottomRight".to_vec());
            assert_eq!(f.bg_opacity, 50);
            assert_eq!(f.margin, 1000);
        }
        _ => panic!("wrong variant"),
    }
}

#[test]
fn round_trip_toggle_overlay() {
    for v in [true, false] {
        let line = encode_command(&Command::ToggleOverlay(v));
        match parse_command(&line).expect("should parse") {
            Command::ToggleOverlay(b) => assert_eq!(b, v),
            _ => panic!("wrong variant"),
        }
    }
}

#[test]
fn wire_format_matches_documented_shape() {
    let line = encode_command(&Command::UpdateCrosshair(sample_crosshair()));
    let text = String::from_utf8(line).expect("wire line is UTF-8");
    assert_eq!(
        text,
        "{\"UpdateCrosshair\":{\"enabled\":true,\"color\":\"#00FF00\",\"size\":20.00,\
         \"offset_x\":0.00,\"offset_y\":-1.50,\"grid\":null,\"crosshair_type\":null}}"
    );
}

#[test]
fn wire_lines_are_valid_json() {
    let cmds = vec![
        Command::UpdateCrosshair(sample_crosshair()),
        Command::ToggleOverlay(true),
        Command::UpdateFps(FpsConfig {
            enabled: false,
            position: b"TopLeft".to_vec(),
            text_color: b"#FFFFFF".to_vec(),
            bg_color: b"#000000".to_vec(),
            bg_opacity: 50,
            size: 1400,
            padding: 500,
            margin: 1000,
        }),
        Command::ShowNotification(Notification {
            id: b"a".to_vec(),
            title: b"t".to_vec(),
            message: b"m".to_vec(),
            duration: 300,
            elapsed: 0,
        }),
    ];
    for cmd in &cmds {
        let line = encode_command(cmd);
        let text = String::from_utf8(line).unwrap();
        let v: serde_json::Value = serde_json::from_str(&text).expect("valid JSON");
        assert!(v.is_object());
        assert_eq!(v.as_object().unwrap().len(), 1);
    }
}

#[test]
fn json_field_values_match() {
    let line = encode_command(&Command::UpdateCrosshair(sample_crosshair()));
    let v: serde_json::Value = serde_json::from_str(&String::from_utf8(line).unwrap()).unwrap();
    let c = &v["UpdateCrosshair"];
    assert_eq!(c["enabled"], serde_json::Value::Bool(true));
    assert_eq!(c["color"].as_str().unwrap(), "#00FF00");
    assert_eq!(c["size"].as_f64().unwrap(), 20.0);
    assert_eq!(c["offset_y"].as_f64().unwrap(), -1.5);
    assert!(c["grid"].is_null());
}

#[test]
fn garbage_lines_do_not_parse() {
    assert!(parse_command(&b"".to_vec()).is_none());
    assert!(parse_command(&b"{}".to_vec()).is_none());
    assert!(parse_command(&b"{\"UpdateCrosshair\":{}}".to_vec()).is_none());
    assert!(parse_command(&b"{\"ToggleOverlay\":maybe}".to_vec()).is_none());
    assert!(parse_command(&b"{\"ToggleOverlay\":true} ".to_vec()).is_none());
    assert!(parse_command(&b"not json at all".to_vec()).is_none());
}

#[test]
fn parser_rejects_out_of_range_and_unsafe_values() {
    // a size beyond the fixed-point range
    let line = b"{\"ToggleOverlay\":true}".to_vec();
    assert!(parse_command(&line).is_some());
    let big = b"{\"ShowNotification\":{\"id\":\"a\",\"title\":\"t\",\"message\":\"m\",\
\"duration\":99999999999999.00,\"elapsed\":0.00}}"
        .to_vec();
    assert!(parse_command(&big).is_none());
    // a control byte inside a string field
    let mut evil = b"{\"ShowNotification\":{\"id\":\"a".to_vec();
    evil.push(0x07);
    evil.extend_from_slice(b"\",\"title\":\"t\",\"message\":\"m\",\"duration\":1.00,\"elapsed\":0.00}}");
    assert!(parse_command(&evil).is_none());
}

#[test]
fn sanitize_keeps_only_wire_safe_bytes() {
    let raw = b"a\"b\\c\nd".to_vec();
    assert_eq!(overlay_core::text::sanitize_wire(&raw), b"abcd".to_vec());
    assert_eq!(overlay_core::text::sanitize_wire(&b"plain".to_vec()), b"plain".to_vec());
}

#[test]
fn documented_wire_line_parses() {
    let line = b"{\"UpdateCrosshair\": {\"enabled\":true,\"color\":\"#00FF00\",\"size\":20.0,\
\"offset_x\":0.0,\"offset_y\":0.0,\"grid\":null,\"crosshair_type\":null}}"
        .to_vec();
    match parse_command(&line).expect("the documented line parses") {
        Command::UpdateCrosshair(c) => {
            assert!(c.enabled);
            assert_eq!(c.color, b"#00FF00".to_vec());
            assert_eq!(c.size, 2000);
            assert_eq!(c.offset_x, 0);
            assert_eq!(c.offset_y, 0);
            assert_eq!(c.grid, None);
            assert_eq!(c.crosshair_type, None);
        }
        _ => panic!("wrong variant"),
    }
}

#[test]
fn numbers_parse_with_flexible_fractions() {
    let parse_duration = |text: &str| -> i64 {
        let line = format!(
            "{{\"ShowNotification\":{{\"id\":\"a\",\"title\":\"t\",\"message\":\"m\",\
             \"duration\":{text},\"elapsed\":0.00}}}}"
        );
        match parse_command(&line.into_bytes()).expect("line parses") {
            Command::ShowNotification(n) => n.duration,
            _ => panic!("wrong variant"),
        }
    };
    assert_eq!(parse_duration("3.5"), 350); // one fraction digit
    assert_eq!(parse_duration("3"), 300); // bare integer
    assert_eq!(parse_duration("2.125"), 212); // extra digits read past
    assert_eq!(parse_duration("-0.5"), -50);
    assert_eq!(parse_duration("20.00"), 2000); // the canonical form
}
