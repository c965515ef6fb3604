use spawnhere::config::{
    apply_rule, resolve_terminal, Config, EffectiveMode, GestureConfig, GestureMode, Modifier, Rule,
};
use spawnhere::hyprland::spawn_floating;
use spawnhere::launch::{can_place, place, preset_exec};
use spawnhere::pinned::Pinned;
use spawnhere::stroke::Bbox;

fn example() -> Config {
    let mut cfg = Config::default();
    cfg.default_term = Some("foot".to_string());
    cfg.set_rule(
        "kitty".to_string(),
        Rule { min_width: Some(800), min_height: None, cell_px: Some([10, 22]) },
    );
    cfg.set_rule(
        "firefox".to_string(),
        Rule { min_width: Some(1200), min_height: Some(800), cell_px: None },
    );
    cfg
}

#[test]
fn parse_example_config() {
    let cfg = example();
    assert_eq!(cfg.default_term.as_deref(), Some("foot"));
    assert_eq!(cfg.rule_for("kitty").and_then(|r| r.min_width), Some(800));
    assert_eq!(cfg.rule_for("kitty -1 fish").and_then(|r| r.cell_px), Some([10, 22]));
    assert_eq!(cfg.rule_for("/usr/bin/kitty").and_then(|r| r.min_width), Some(800));
    assert_eq!(cfg.rule_for("firefox").and_then(|r| r.min_height), Some(800));
    assert!(cfg.rule_for("unknown").is_none());
}

#[test]
fn cell_snap_rounds_down() {
    let rule = Rule { min_width: None, min_height: None, cell_px: Some([10, 22]) };
    let out = apply_rule(Bbox { x: 0, y: 0, w: 437, h: 231 }, Some(&rule));
    assert_eq!(out.w, 430);
    assert_eq!(out.h, 220);
}

#[test]
fn absent_rule_is_identity() {
    let bbox = Bbox { x: 1, y: 2, w: 300, h: 400 };
    let out = apply_rule(bbox, None);
    assert_eq!(out.x, 1);
    assert_eq!(out.w, 300);
}

#[test]
fn gesture_defaults_match_photoshop_convention() {
    let g = GestureConfig::default();
    assert_eq!(g.default, GestureMode::Rectangle);
    assert_eq!(g.square_modifier, Some(Modifier::Shift));
    assert_eq!(g.freehand_modifier, Some(Modifier::Alt));
    assert_eq!(g.drag_threshold_px as f32 / 256.0, 5.0);
    assert!(g.show_dimensions);
    assert_eq!(g.min_width, 320);
    assert_eq!(g.min_height, 200);
    assert_eq!(g.click_spawn_width, Some(720));
    assert_eq!(g.click_spawn_height, Some(480));
}

#[test]
fn gesture_resolution_priority() {
    let g = GestureConfig::default();
    assert_eq!(g.resolve(false, false, false), EffectiveMode::Rectangle);
    assert_eq!(g.resolve(true, false, false), EffectiveMode::Square);
    assert_eq!(g.resolve(false, false, true), EffectiveMode::Freehand);
    assert_eq!(g.resolve(false, true, false), EffectiveMode::Rectangle);
    assert_eq!(g.resolve(true, false, true), EffectiveMode::Freehand);
}

#[test]
fn gesture_default_flipped_to_freehand() {
    let g = GestureConfig { default: GestureMode::Freehand, ..GestureConfig::default() };
    assert_eq!(g.resolve(false, false, false), EffectiveMode::Freehand);
    assert_eq!(g.resolve(true, false, false), EffectiveMode::Rectangle);
    assert_eq!(g.resolve(false, false, true), EffectiveMode::Freehand);
}

#[test]
fn a_modifier_that_is_not_set_is_never_held() {
    let g = GestureConfig { square_modifier: None, freehand_modifier: None, ..GestureConfig::default() };
    assert_eq!(g.resolve(true, true, true), EffectiveMode::Rectangle);
    let c = GestureConfig { square_modifier: Some(Modifier::Ctrl), ..GestureConfig::default() };
    assert_eq!(c.resolve(false, true, false), EffectiveMode::Square);
}

#[test]
fn rules_are_found_as_paths_name_programs() {
    let mut cfg = Config::default();
    let named = |n: u32| Rule { min_width: Some(n), ..Rule::default() };
    let tokens = [
        "/usr/bin/kitty", "kitty", "kitty/", "./kitty", "a/./", "/", "..", "a/..", ".", "a//b//", "./.",
    ];
    for (i, t) in tokens.iter().enumerate() {
        let class = std::path::Path::new(t).file_name().and_then(|s| s.to_str()).unwrap_or(t);
        cfg = Config::default();
        cfg.set_rule(class.to_string(), named(i as u32));
        assert_eq!(cfg.rule_for(t).and_then(|r| r.min_width), Some(i as u32), "{t}");
        assert_eq!(cfg.rule_for(&format!("  {t} --x y")).and_then(|r| r.min_width), Some(i as u32));
    }
    assert!(cfg.rule_for(" ").is_none());
}

#[test]
fn rules_grow_and_then_cut() {
    let rule = Rule { min_width: Some(105), min_height: Some(50), cell_px: Some([10, 0]) };
    let out = apply_rule(Bbox { x: 50, y: 50, w: 5, h: 60 }, Some(&rule));
    assert_eq!(out, Bbox { x: 0, y: 50, w: 100, h: 60 });
}

#[test]
fn the_terminal_comes_from_the_settings_first() {
    assert_eq!(resolve_terminal(&example(), Some("alacritty")), "foot");
    assert_eq!(resolve_terminal(&Config::default(), Some("alacritty")), "alacritty");
    assert_eq!(resolve_terminal(&Config::default(), None), "kitty");
}

#[test]
fn the_command_line_presets_a_command() {
    let cfg = example();
    let pinned = Pinned::load(Some("mpv"));
    let spawn = Some("foo".to_string());
    assert_eq!(preset_exec(true, true, spawn.clone(), &cfg, None, &pinned).as_deref(), Some("foot"));
    assert_eq!(preset_exec(false, true, spawn.clone(), &cfg, None, &pinned).as_deref(), Some("mpv"));
    assert_eq!(preset_exec(false, false, spawn, &cfg, None, &pinned).as_deref(), Some("foo"));
    assert_eq!(preset_exec(false, true, None, &cfg, None, &Pinned::default()), None);
}

#[test]
fn a_drag_has_the_least_size_and_follows_its_rule() {
    let cfg = example();
    let safe = Bbox { x: 0, y: 30, w: 1920, h: 1050 };
    let drawn = Bbox { x: 500, y: 500, w: 100, h: 100 };
    assert_eq!(place(drawn, "mpv", safe, &cfg), Bbox { x: 390, y: 450, w: 320, h: 200 });
    assert_eq!(place(drawn, "kitty", safe, &cfg), Bbox { x: 150, y: 450, w: 800, h: 198 });
    let edge = Bbox { x: 1900, y: 0, w: 10, h: 400 };
    assert_eq!(place(edge, "mpv", safe, &cfg), Bbox { x: 1600, y: 30, w: 320, h: 400 });
}

#[test]
fn a_line_is_a_drag() {
    let cfg = Config::default();
    let safe = Bbox { x: 0, y: 0, w: 1920, h: 1080 };
    let drawn = Bbox { x: 100, y: 500, w: 600, h: 0 };
    assert_eq!(place(drawn, "mpv", safe, &cfg), Bbox { x: 100, y: 400, w: 600, h: 200 });
}

#[test]
fn a_click_has_the_size_of_the_settings_and_no_rule() {
    let mut cfg = example();
    let safe = Bbox { x: 0, y: 0, w: 1920, h: 1080 };
    let click = Bbox { x: 960, y: 540, w: 0, h: 0 };
    assert_eq!(place(click, "kitty", safe, &cfg), Bbox { x: 600, y: 300, w: 720, h: 480 });
    let corner = Bbox { x: 5, y: 5, w: 0, h: 0 };
    assert_eq!(place(corner, "kitty", safe, &cfg), Bbox { x: 0, y: 0, w: 720, h: 480 });
    cfg.gesture.click_spawn_height = None;
    assert_eq!(place(click, "kitty", safe, &cfg), click);
}

#[test]
fn a_box_that_fits_is_taken_as_it_is() {
    let cfg = Config::default();
    let safe = Bbox { x: 0, y: 40, w: 1920, h: 1040 };
    let drawn = Bbox { x: 100, y: 100, w: 640, h: 360 };
    assert!(can_place(drawn, "mpv", &cfg));
    assert_eq!(place(drawn, "mpv", safe, &cfg), drawn);
    assert_eq!(
        spawn_floating("mpv", drawn),
        ["dispatch", "exec", "[float;move 100 100;size 640 360] mpv"]
    );
}

#[test]
fn a_box_that_is_out_of_range_has_no_place() {
    let cfg = Config::default();
    let far = Bbox { x: i32::MIN, y: 0, w: 10, h: 10 };
    assert!(!can_place(far, "mpv", &cfg));
    let click = Bbox { x: 0, y: i32::MIN, w: 0, h: 0 };
    assert!(!can_place(click, "mpv", &cfg));
}

#[test]
fn a_box_far_out_comes_back() {
    let cfg = Config::default();
    let safe = Bbox { x: 0, y: 0, w: 1920, h: 1080 };
    let far = Bbox { x: i32::MAX, y: 0, w: 400, h: 3_000_000_000 };
    assert!(can_place(far, "mpv", &cfg));
    assert_eq!(place(far, "mpv", safe, &cfg), Bbox { x: 1520, y: 0, w: 400, h: 1080 });
}

#[test]
fn a_large_click_stays_in_the_middle() {
    let mut cfg = Config::default();
    cfg.gesture.click_spawn_width = Some(3_000_000_000);
    let wide = Bbox { x: -2_000_000_000, y: 0, w: 4_000_000_000, h: 1080 };
    let click = Bbox { x: 0, y: 540, w: 0, h: 0 };
    assert_eq!(
        place(click, "mpv", wide, &cfg),
        Bbox { x: -1_500_000_000, y: 300, w: 3_000_000_000, h: 480 }
    );
}

#[test]
fn snapping_is_on_by_default() {
    let g = Config::default().gesture;
    assert!(g.snap);
    assert_eq!(g.snap_radius_px, 12 * 256);
    let safe = Bbox { x: 0, y: 0, w: 1920, h: 1080 };
    let window = Bbox { x: 100, y: 100, w: 400, h: 300 };
    let s = g.snapper(&vec![window], safe).unwrap();
    assert_eq!(s.snap((105 * 256, 103 * 256)).point, (100 * 256, 100 * 256));
    let off = GestureConfig { snap: false, ..g };
    assert!(off.snapper(&vec![window], safe).is_none());
}
