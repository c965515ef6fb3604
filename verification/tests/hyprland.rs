use spawnhere::backend::{detect, Hyprland, WmBackend};
use spawnhere::hyprland::{
    effective_edge_size, ensure_running, focused_monitor_clients, focused_monitor_safe_area,
    safe_area, spawn_floating, Layer, Monitor, SafeAreaError,
};
use spawnhere::stroke::Bbox;

#[test]
fn a_box_becomes_window_rules() {
    let args = spawn_floating("kitty -1", Bbox { x: 10, y: -5, w: 300, h: 200 });
    assert_eq!(args, ["dispatch", "exec", "[float;move 10 0;size 300 200] kitty -1"]);
}

#[test]
fn a_click_leaves_the_size_open() {
    let args = spawn_floating("mpv", Bbox { x: 7, y: 8, w: 0, h: 100 });
    assert_eq!(args[2], "[float;move 7 8] mpv");
}

#[test]
fn the_backend_always_gives_the_size() {
    let wm: Hyprland = detect(true).unwrap();
    let args = wm.spawn_floating("mpv", Bbox { x: -1, y: 2, w: 0, h: 4_294_967_295 });
    assert_eq!(args, ["dispatch", "exec", "[float;move 0 2;size 0 4294967295] mpv"]);
    assert!(detect(false).unwrap_err().starts_with("no supported backend"));
}

#[test]
fn a_session_needs_a_signature() {
    assert!(ensure_running(true).is_ok());
    let message = ensure_running(false).unwrap_err();
    assert!(message.starts_with("Hyprland not detected.\n\nspawnhere needs a running"));
    assert!(message.ends_with("compositors are not supported."));
}

#[test]
fn the_largest_reserved_width_that_fits_is_taken() {
    assert_eq!(effective_edge_size(&vec![0, 40, 30, 0], 50), 40);
    assert_eq!(effective_edge_size(&vec![0, 40, 30, 0], 35), 30);
    assert_eq!(effective_edge_size(&vec![0, 40], 20), 20);
    assert_eq!(effective_edge_size(&vec![], 20), 20);
}

fn monitor(reserved: Vec<u32>) -> Monitor {
    Monitor { name: "DP-1".to_string(), x: 1920, y: 0, w: 1920, h: 1080, reserved }
}

#[test]
fn bars_and_docks_are_taken_off() {
    let layers = vec![
        Layer { x: 1920, y: 0, w: 1920, h: 40 },
        Layer { x: 1920, y: 1050, w: 1920, h: 30 },
        Layer { x: 1920, y: 0, w: 60, h: 1080 },
        Layer { x: 3740, y: 0, w: 100, h: 1000 },
        Layer { x: 1920, y: 0, w: 1920, h: 1080 },
        Layer { x: 2000, y: 500, w: 300, h: 20 },
        Layer { x: 1920, y: 0, w: 0, h: 900 },
    ];
    let free = safe_area(&monitor(vec![]), &layers);
    assert_eq!(free, Bbox { x: 60, y: 40, w: 1760, h: 1010 });
    let reserved = safe_area(&monitor(vec![0, 32, 0, 0]), &layers);
    assert_eq!(reserved, Bbox { x: 32, y: 32, w: 1856, h: 1018 });
}

#[test]
fn the_order_of_layers_does_not_matter() {
    let mut layers = vec![
        Layer { x: 1920, y: 0, w: 1920, h: 20 },
        Layer { x: 1920, y: 0, w: 1800, h: 50 },
        Layer { x: 1920, y: 0, w: 1920, h: 35 },
    ];
    let a = safe_area(&monitor(vec![]), &layers);
    layers.reverse();
    assert_eq!(a, safe_area(&monitor(vec![]), &layers));
    assert_eq!(a, Bbox { x: 0, y: 50, w: 1920, h: 1030 });
}

const MONITORS: &str = r#"[
  {"name": "HDMI-A-1", "width": 800, "height": 600, "x": 0, "y": 0, "focused": false},
  {"name": "DP-1", "width": 1920, "height": 1080, "x": 1920, "y": 0, "focused": true,
   "reserved": [0, 32, "x", 0]}
]"#;

const LAYERS: &str = r#"{
  "HDMI-A-1": {"levels": {"0": [{"x": 0, "y": 0, "w": 800, "h": 100}]}},
  "DP-1": {"levels": {
    "0": [{"x": 1920, "y": 0, "w": 1920, "h": 1080}],
    "2": [{"x": 1920, "y": 0, "w": 1920, "h": 48}, {"address": "0x1"}],
    "3": null
  }}
}"#;

fn area(monitors: &str, layers: &str) -> Result<Bbox, SafeAreaError> {
    focused_monitor_safe_area(monitors.as_bytes(), Some(layers.as_bytes()))
}

#[test]
fn the_focused_monitor_has_a_free_area() {
    assert_eq!(area(MONITORS, LAYERS), Ok(Bbox { x: 0, y: 32, w: 1920, h: 1048 }));
}

#[test]
fn without_layers_all_is_free() {
    let full = Ok(Bbox { x: 0, y: 0, w: 1920, h: 1080 });
    assert_eq!(area(MONITORS, "{}"), full);
    assert_eq!(area(MONITORS, "[]"), full);
    assert_eq!(area(MONITORS, r#"{"DP-1": {"levels": 3}}"#), full);
}

#[test]
fn what_is_missing_is_said() {
    let one = |fields: &str| format!(r#"[{{"focused": true, {fields}}}]"#);
    assert_eq!(area("nope", LAYERS), Err(SafeAreaError::BadMonitors));
    assert_eq!(area("[]", LAYERS), Err(SafeAreaError::NoFocusedMonitor));
    assert_eq!(area("{}", LAYERS), Err(SafeAreaError::NoFocusedMonitor));
    assert_eq!(area(&one(r#""width": 1"#), "{}"), Err(SafeAreaError::NoName));
    assert_eq!(area(&one(r#""name": "a""#), "{}"), Err(SafeAreaError::NoWidth));
    assert_eq!(area(&one(r#""name": "a", "width": -1"#), "{}"), Err(SafeAreaError::NoWidth));
    assert_eq!(area(&one(r#""name": "a", "width": 1"#), "{}"), Err(SafeAreaError::NoHeight));
    let sized = r#""name": "a", "width": 1, "height": 1"#;
    assert_eq!(area(&one(sized), "{}"), Err(SafeAreaError::NoX));
    assert_eq!(area(&one(&format!("{sized}, \"x\": 0.5")), "{}"), Err(SafeAreaError::NoX));
    assert_eq!(area(&one(&format!("{sized}, \"x\": 0")), "{}"), Err(SafeAreaError::NoY));
    assert_eq!(
        area(&one(&format!("{sized}, \"x\": 0, \"y\": -7")), "{}"),
        Ok(Bbox { x: 0, y: 0, w: 1, h: 1 })
    );
    assert_eq!(SafeAreaError::NoFocusedMonitor.message(), "no focused monitor reported by hyprctl");
    assert_eq!(SafeAreaError::NoWidth.message(), "monitor width missing");
}

#[test]
fn numbers_are_cut_to_their_lowest_bits() {
    let big = r#"[{"focused": true, "name": "a", "width": 4294967396, "height": 50,
        "x": -4294967295, "y": 4294967296}]"#;
    let layers = r#"{"a": {"levels": {"0": [{"x": 1, "y": 0, "w": 95, "h": 4294967301}]}}}"#;
    assert_eq!(area(big, layers), Ok(Bbox { x: 0, y: 5, w: 100, h: 45 }));
}

#[test]
fn layers_that_cannot_be_read_take_nothing() {
    let full = Ok(Bbox { x: 0, y: 0, w: 1920, h: 1080 });
    assert_eq!(area(MONITORS, "{"), full);
    assert_eq!(area(MONITORS, ""), full);
    assert_eq!(focused_monitor_safe_area(MONITORS.as_bytes(), None), full);
    assert_eq!(focused_monitor_safe_area(b"[]", None), Err(SafeAreaError::NoFocusedMonitor));
}

#[test]
fn edges_far_out_are_told_apart() {
    let far = r#"[{"focused": true, "name": "a", "width": 100, "height": 50, "x": 0, "y": 2147483647}]"#;
    let layers = r#"{"a": {"levels": {"0": [{"x": 0, "y": 0, "w": 100, "h": 5}]}}}"#;
    assert_eq!(area(far, layers), Ok(Bbox { x: 0, y: 0, w: 100, h: 50 }));
}

#[test]
fn a_corner_out_of_range_is_refused() {
    let wide = r#"[{"focused": true, "name": "a", "width": 4000000000, "height": 50, "x": 0, "y": 0}]"#;
    let layers = r#"{"a": {"levels": {"0": [{"x": 0, "y": 0, "w": 3000000000, "h": 50}]}}}"#;
    assert_eq!(area(wide, layers), Err(SafeAreaError::OutOfRange));
    assert_eq!(SafeAreaError::OutOfRange.message(), "layer out of range");
}

#[test]
fn idle_layers_take_nothing() {
    let mut layers = vec![Layer { x: 1920, y: 0, w: 1920, h: 40 }];
    let free = safe_area(&monitor(vec![]), &layers);
    layers.push(Layer { x: 1920, y: 0, w: 1920, h: 0 });
    layers.push(Layer { x: 1920, y: 0, w: 1920, h: 864 });
    layers.push(Layer { x: 1920, y: 0, w: 1727, h: 971 });
    assert_eq!(safe_area(&monitor(vec![]), &layers), free);
}

#[test]
fn docks_can_leave_no_room() {
    let m = Monitor { name: "a".to_string(), x: 0, y: 0, w: 100, h: 100, reserved: vec![] };
    let docks = vec![Layer { x: 0, y: 0, w: 60, h: 100 }, Layer { x: 40, y: 0, w: 60, h: 100 }];
    assert_eq!(safe_area(&m, &docks), Bbox { x: 60, y: 0, w: 0, h: 100 });
}

#[test]
fn windows_on_the_focused_monitor_are_listed() {
    let monitors = r#"[{"id": 0, "focused": false, "x": 0, "y": 0, "activeWorkspace": {"id": 1}},
        {"id": 1, "focused": true, "x": 1920, "y": -10, "activeWorkspace": {"id": 7}}]"#;
    let client = |monitor: i32, workspace: i32, more: &str| {
        format!(
            r#"{{"monitor": {monitor}, "workspace": {{"id": {workspace}}}, "at": [2000, 40],
                "size": [300, 200]{more}}}"#
        )
    };
    let list = |clients: &[String]| {
        let json = format!("[{}]", clients.join(","));
        focused_monitor_clients(monitors.as_bytes(), json.as_bytes())
    };
    let shown = Bbox { x: 80, y: 50, w: 300, h: 200 };
    assert_eq!(list(&[client(1, 7, "")]), [shown]);
    assert_eq!(list(&[client(1, 7, r#", "mapped": true, "hidden": false"#)]), [shown]);
    assert_eq!(
        list(&[
            client(0, 7, ""),
            client(1, 1, ""),
            client(1, 7, r#", "mapped": false"#),
            client(1, 7, r#", "hidden": true"#),
            client(1, 7, ""),
            r#"{"monitor": 1, "workspace": {"id": 7}, "at": [1], "size": [3, 4]}"#.to_string(),
            r#"{"monitor": 1, "workspace": {"id": 7}, "at": [1920, -10], "size": [3, 4]}"#.to_string(),
        ]),
        [shown, Bbox { x: 0, y: 0, w: 3, h: 4 }]
    );
    assert_eq!(focused_monitor_clients(monitors.as_bytes(), b"{}"), []);
    assert_eq!(focused_monitor_clients(monitors.as_bytes(), b"nope"), []);
    assert_eq!(focused_monitor_clients(b"[]", b"[]"), []);
}
