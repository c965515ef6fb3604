use spawnhere::apps::App;
use spawnhere::config::{EffectiveMode, GestureConfig, GestureMode};
use spawnhere::frame::{banner_line, dimensions, place_banner, place_readout, plan_frame, FramePlan};
use spawnhere::gesture::{corner_rounding, crossed, drag_corners, to_whole_px, Corners};
use spawnhere::history::History;
use spawnhere::overlay::{caret_visible_at, Button, Effects, Key, Outcome, Overlay, Phase, RunConfig};
use spawnhere::picker::PinChange;
use spawnhere::pinned::Pinned;
use spawnhere::stroke::Bbox;

fn px(x: f32, y: f32) -> (i32, i32) {
    ((x * 256.0) as i32, (y * 256.0) as i32)
}

fn start(preset: Option<&str>, history: &str) -> Overlay {
    let cfg = RunConfig {
        preset_exec: preset.map(str::to_string),
        padding: 0,
        history: History::load(Some(history)),
        gesture: GestureConfig::default(),
    };
    let mut o = Overlay::new(cfg, Pinned::default());
    o.configure(1920, 1080);
    o
}

fn apps(names: &[&str]) -> Vec<App> {
    names
        .iter()
        .map(|n| App { name: n.to_string(), command: n.to_string(), icon: None })
        .collect()
}

fn drag(o: &mut Overlay, from: (i32, i32), to: (i32, i32)) -> Effects {
    o.pointer_press(from, Button::Left);
    o.pointer_motion(to);
    o.pointer_release(Button::Left)
}

fn frame(o: &mut Overlay) -> FramePlan {
    plan_frame(o, 0).unwrap()
}

fn spawned(o: Overlay) -> (Bbox, String, Bbox) {
    match o.outcome() {
        Outcome::Spawn { bbox, command, screen } => (bbox, command, screen),
        Outcome::Cancelled => panic!("cancelled"),
    }
}

fn places(o: &Overlay) -> Vec<(i32, i32)> {
    o.pen().stroke().points().iter().map(|p| (p.x, p.y)).collect()
}

#[test]
fn a_drag_starts_the_preset_command_in_its_box() {
    let mut o = start(Some("kitty"), "");
    assert!(!o.is_discovering());
    let effects = drag(&mut o, px(300.0, 400.0), px(100.0, 150.0));
    assert!(!effects.caret && !effects.cursor && !effects.discover);
    assert!(o.is_decided());
    let screen = Bbox { x: 0, y: 0, w: 1920, h: 1080 };
    assert_eq!(spawned(o), (Bbox { x: 100, y: 150, w: 200, h: 250 }, "kitty".to_string(), screen));
}

#[test]
fn jitter_is_a_click() {
    let mut o = start(Some("kitty"), "");
    o.pointer_press(px(100.0, 100.0), Button::Left);
    o.pointer_motion(px(103.0, 103.9));
    assert!(places(&o).is_empty());
    o.pointer_release(Button::Left);
    assert_eq!(spawned(o).0, Bbox { x: 100, y: 100, w: 0, h: 0 });
}

#[test]
fn the_threshold_is_a_distance() {
    assert!(crossed(px(0.0, 0.0), px(3.0, 4.0), 5 * 256));
    assert!(!crossed(px(0.0, 0.0), px(3.0, 3.9), 5 * 256));
    assert!(crossed(px(0.0, 0.0), px(0.0, 0.0), 0));
    assert!(crossed((i32::MIN, i32::MIN), (i32::MAX, i32::MAX), i32::MAX));
}

#[test]
fn rectangles_and_squares_follow_the_pointer() {
    let c = drag_corners(px(10.0, 10.0), px(-20.0, 110.0), false);
    assert_eq!(c, Corners { x0: -20 * 256, y0: 10 * 256, x1: 10 * 256, y1: 110 * 256 });
    let s = drag_corners(px(10.0, 10.0), px(-20.0, 110.0), true);
    assert_eq!(s, Corners { x0: -20 * 256, y0: 10 * 256, x1: 10 * 256, y1: 40 * 256 });
    assert_eq!(corner_rounding(c), 16 * 256);
    assert_eq!(corner_rounding(Corners { x0: 0, y0: 0, x1: 1000, y1: 9000 }), 1000);
    assert_eq!(corner_rounding(Corners { x0: 0, y0: 0, x1: 511, y1: 9000 }), 0);
    assert_eq!((to_whole_px(-257), to_whole_px(-255), to_whole_px(511)), (-1, 0, 1));
    assert_eq!(to_whole_px(i32::MIN), i32::MIN / 256);
}

#[test]
fn modifiers_reshape_a_drag() {
    let mut o = start(None, "");
    o.pointer_press(px(100.0, 100.0), Button::Left);
    o.pointer_motion(px(300.0, 200.0));
    assert_eq!(places(&o).len(), 5);
    o.update_modifiers(true, false, false);
    assert_eq!(o.pen().effective_mode(), EffectiveMode::Square);
    assert_eq!(places(&o)[2], px(200.0, 200.0));
    o.update_modifiers(false, false, true);
    assert_eq!(places(&o), [px(300.0, 200.0)]);
    o.pointer_motion(px(310.0, 210.0));
    assert_eq!(places(&o), [px(300.0, 200.0), px(310.0, 210.0)]);
    o.update_modifiers(false, false, false);
    assert_eq!(places(&o)[0], px(100.0, 100.0));
    assert_eq!(places(&o)[2], px(310.0, 210.0));
    assert_eq!(o.pen().rounded(), 16 * 256);
}

#[test]
fn drawing_freely_keeps_every_place() {
    let mut o = start(None, "");
    o.update_modifiers(false, false, true);
    o.pointer_press(px(0.0, 0.0), Button::Left);
    o.pointer_motion(px(2.0, 0.0));
    o.pointer_motion(px(9.0, 0.0));
    o.pointer_motion(px(9.0, 9.0));
    assert_eq!(places(&o), [px(0.0, 0.0), px(9.0, 0.0), px(9.0, 9.0)]);
    assert_eq!(o.pen().rounded(), 0);
}

#[test]
fn without_a_preset_the_user_picks() {
    let mut o = start(None, "");
    assert!(o.is_discovering());
    let effects = drag(&mut o, px(0.0, 0.0), px(500.0, 500.0));
    assert!(effects.caret && effects.cursor && !effects.discover);
    assert_eq!(o.phase(), Phase::Picking);
    assert!(!o.is_decided());
    o.handle_key_event(Key::Enter, None);
    assert!(!o.is_decided());
    o.set_apps(apps(&["mpv", "kitty"]));
    o.handle_key_event(Key::Other, Some("m\u{1b}p"));
    assert_eq!(o.picker().query(), "mp");
    o.handle_key_event(Key::Enter, None);
    assert_eq!(spawned(o).1, "mpv");
}

#[test]
fn control_passes_over_the_preset() {
    let mut o = start(Some("kitty"), "");
    o.mark_drawn();
    o.update_modifiers(false, true, false);
    assert!(o.is_due());
    let effects = drag(&mut o, px(0.0, 0.0), px(500.0, 500.0));
    assert!(effects.discover && effects.caret);
    assert_eq!(o.phase(), Phase::Picking);
    assert_eq!(o.preset(), None);
    assert!(o.is_discovering() && !o.is_decided());
}

#[test]
fn the_shimmer_starts_with_the_press() {
    let mut o = start(None, "");
    assert!(o.pointer_press(px(1.0, 1.0), Button::Left).shimmer);
    assert!(!o.pointer_press(px(1.0, 1.0), Button::Other).shimmer);
    o.mark_drawn();
    o.shimmer_tick();
    assert!(!o.is_due());
    o.pointer_motion(px(50.0, 50.0));
    o.mark_drawn();
    o.shimmer_tick();
    assert!(o.is_due());
}

#[test]
fn ways_to_cancel() {
    let mut a = start(None, "");
    a.handle_key_event(Key::Escape, None);
    assert!(matches!(a.outcome(), Outcome::Cancelled));
    let mut b = start(None, "");
    b.pointer_press(px(1.0, 1.0), Button::Right);
    assert!(b.is_decided());
    let mut c = start(None, "");
    c.closed();
    assert!(c.is_decided());
    let mut d = start(None, "");
    drag(&mut d, px(900.0, 500.0), px(1000.0, 600.0));
    d.set_apps(apps(&["mpv"]));
    frame(&mut d);
    d.pointer_press(px(5.0, 5.0), Button::Left);
    assert!(matches!(d.outcome(), Outcome::Cancelled));
    assert!(matches!(start(None, "").outcome(), Outcome::Cancelled));
}

#[test]
fn keys_wait_for_the_picker() {
    let mut o = start(None, "");
    o.set_apps(apps(&["mpv"]));
    o.handle_key_event(Key::Enter, None);
    o.handle_key_event(Key::Other, Some("x"));
    assert!(!o.is_decided());
    assert_eq!(o.picker().query(), "");
}

fn picking(history: &str, names: &[&str]) -> Overlay {
    let mut o = start(None, history);
    o.set_apps(apps(names));
    drag(&mut o, px(900.0, 500.0), px(1020.0, 580.0));
    o
}

#[test]
fn a_press_on_a_row_starts_it() {
    let mut o = picking("", &["aa", "bb", "cc"]);
    let plan = frame(&mut o).picker.unwrap();
    let card = plan.layout.card;
    let y = plan.layout.rows_y + 50;
    o.pointer_press((card.x * 256 + 2000, y * 256 + 255), Button::Left);
    assert_eq!(spawned(o).1, "bb");
}

#[test]
fn a_press_on_the_button_forgets_the_row() {
    let mut o = picking("bb\n", &["aa", "bb", "cc"]);
    let layout = frame(&mut o).picker.unwrap().layout;
    assert_eq!(layout.card.recent_count, 1);
    let at = ((layout.card.forget_btn_right - 5) * 256, (layout.rows_y + 20) * 256);
    let effects = o.pointer_press(at, Button::Left);
    assert_eq!(effects.forgotten.as_deref(), Some("bb"));
    assert!(!o.is_decided());
    assert_eq!(o.picker().visible_recent_count(), 0);
    let layout = frame(&mut o).picker.unwrap().layout;
    let at = ((layout.card.forget_btn_right - 5) * 256, (layout.rows_y + 20) * 256);
    assert!(o.pointer_press(at, Button::Left).forgotten.is_none());
    assert_eq!(spawned(o).1, "aa");
}

#[test]
fn a_press_on_a_heading_does_nothing() {
    let mut o = picking("bb\n", &["aa", "bb"]);
    let card = frame(&mut o).picker.unwrap().layout.card;
    let y = card.recent_header_y.unwrap() + 5;
    o.pointer_press(((card.x + 100) * 256, y * 256), Button::Left);
    assert!(!o.is_decided());
}

#[test]
fn keys_move_and_forget() {
    let mut o = picking("bb\n", &["aa", "bb", "cc"]);
    o.handle_key_event(Key::Down, None);
    assert_eq!(o.picker().selected_index(), 1);
    assert!(o.handle_key_event(Key::Delete, None).forgotten.is_none());
    o.handle_key_event(Key::Up, None);
    let gone = o.handle_key_event(Key::Delete, None).forgotten;
    assert_eq!(gone.as_deref(), Some("bb"));
    o.handle_key_event(Key::PageDown, None);
    assert_eq!(o.picker().selected_index(), 2);
    o.handle_key_event(Key::PageUp, None);
    assert_eq!(o.picker().selected_index(), 0);
    assert!(o.handle_key_event(Key::Other, Some("c")).caret);
    assert!(o.handle_key_event(Key::BackSpace, None).caret);
    assert_eq!(o.picker().match_count(), 3);
}

#[test]
fn control_and_p_toggle_the_pin() {
    let mut o = picking("", &["aa"]);
    o.handle_key_event(Key::P, Some("p"));
    assert_eq!(o.picker().query(), "p");
    o.handle_key_event(Key::BackSpace, None);
    o.update_modifiers(false, true, false);
    match o.handle_key_event(Key::P, Some("\u{10}")).pin {
        PinChange::Write(text) => assert_eq!(text, "aa\n"),
        other => panic!("{other:?}"),
    }
    assert!(frame(&mut o).picker.unwrap().layout.pinned_selected);
    assert!(matches!(o.handle_key_event(Key::P, None).pin, PinChange::Remove));
}

#[test]
fn the_wheel_scrolls_the_view() {
    let names: Vec<String> = (0..20).map(|i| format!("app{i:02}")).collect();
    let refs: Vec<&str> = names.iter().map(String::as_str).collect();
    let mut o = picking("", &refs);
    o.pointer_axis(3, -100);
    assert_eq!(o.picker().scroll_offset(), 3);
    o.pointer_axis(0, -100);
    assert_eq!(o.picker().scroll_offset(), 2);
    o.pointer_axis(0, 1);
    assert_eq!(o.picker().scroll_offset(), 3);
    o.mark_drawn();
    o.pointer_axis(0, 0);
    assert!(!o.is_due());
}

#[test]
fn the_caret_blinks() {
    assert!(caret_visible_at(0) && caret_visible_at(529));
    assert!(!caret_visible_at(530) && !caret_visible_at(1059));
    assert!(caret_visible_at(1060));
    let mut o = picking("", &["aa"]);
    frame(&mut o);
    o.mark_drawn();
    o.blink_tick(100);
    assert!(!o.is_due());
    o.blink_tick(600);
    assert!(o.is_due());
    plan_frame(&mut o, 600);
    o.mark_drawn();
    o.blink_tick(700);
    assert!(!o.is_due());
}

#[test]
fn the_screen_has_a_size_and_a_scale() {
    let cfg = RunConfig {
        preset_exec: None,
        padding: 7,
        history: History::default(),
        gesture: GestureConfig::default(),
    };
    let mut o = Overlay::new(cfg, Pinned::default());
    assert!(!o.is_due() && plan_frame(&mut o, 0).is_none());
    o.configure(0, 600);
    assert_eq!(o.size(), (1, 600));
    assert!(o.is_due());
    assert!(!o.scale_factor_changed(0));
    assert!(o.scale_factor_changed(2));
    assert_eq!(o.scale(), 2);
    o.configure(800, 600);
    let plan = frame(&mut o);
    assert_eq!((plan.width, plan.height, plan.stride), (1600, 1200, 6400));
    o.pointer_press(px(400.0, 300.0), Button::Left);
    o.pointer_motion(px(410.0, 310.0));
    o.pointer_release(Button::Left);
    o.set_apps(apps(&["aa"]));
    o.handle_key_event(Key::Enter, None);
    assert_eq!(spawned(o).0, Bbox { x: 393, y: 293, w: 24, h: 24 });
}

#[test]
fn a_frame_shows_where_the_pointer_aims() {
    let mut o = start(Some("kitty --x"), "");
    assert!(frame(&mut o).crosshair.is_none());
    o.pointer_enter(px(10.0, 20.0));
    let plan = frame(&mut o);
    assert_eq!(plan.crosshair, Some(px(10.0, 20.0)));
    assert_eq!((plan.stroke_alpha, plan.shimmer), (255, true));
    let banner = plan.banner.unwrap();
    assert_eq!(banner.text, "★ kitty   ·   Hold CTRL to pick another");
    assert!(!banner.lit && plan.readout.is_none() && plan.picker.is_none());
    o.pointer_press(px(10.0, 20.0), Button::Left);
    o.pointer_motion(px(110.0, 70.0));
    let readout = frame(&mut o).readout.unwrap();
    assert_eq!((readout.at, readout.text.as_str()), (px(110.0, 70.0), "100×50"));
    o.update_modifiers(true, false, false);
    assert_eq!(frame(&mut o).readout.unwrap().text, "50×50  ·  1:1");
    o.update_modifiers(false, false, true);
    let free = frame(&mut o);
    assert!(free.readout.is_none() && free.crosshair.is_none());
    o.pointer_leave();
    o.update_modifiers(false, true, false);
    let gone = frame(&mut o);
    assert!(gone.crosshair.is_none() && gone.banner.unwrap().lit);
}

#[test]
fn a_frame_of_the_picker_is_dimmed() {
    let mut o = picking("aa\n", &["aa", "bb"]);
    o.pointer_leave();
    let plan = frame(&mut o);
    assert_eq!((plan.stroke_alpha, plan.shimmer), (102, false));
    let layout = plan.picker.unwrap().layout;
    assert_eq!(layout.card.x, 960 - 300);
    o.pointer_motion(((layout.card.forget_btn_right - 5) * 256, (layout.rows_y + 20) * 256));
    let rows = match frame(&mut o).picker.unwrap().list {
        spawnhere::card::ListPlan::Rows(rows) => rows,
        _ => panic!("no rows"),
    };
    assert_eq!(rows[0].forget.unwrap().tone, spawnhere::card::ButtonTone::Hovered);
    assert_eq!(o.last_card().unwrap().x, 660);
}

#[test]
fn texts_on_the_overlay() {
    assert_eq!(dimensions(Bbox { x: 0, y: 0, w: 0, h: 4_294_967_295 }, false), "0×4294967295");
    assert_eq!(banner_line("  "), "★      ·   Hold CTRL to pick another");
}

#[test]
fn the_size_is_shown_beside_the_pointer() {
    let p = place_readout(px(100.0, 200.0), 50, (1920, 1080));
    assert_eq!((p.x, p.y, p.w, p.h, p.text_x, p.text_y), (114, 214, 66, 22, 122, 218));
    let q = place_readout(px(1900.0, 1070.5), 50, (1920, 1080));
    assert_eq!((q.x, q.y), (1900 - 14 - 66, 1070 - 14 - 22));
    let r = place_readout(px(-50.0, 3.0), 50, (1920, 1080));
    assert_eq!((r.x, r.y), (4, 17));
    let b = place_banner(301, 1920);
    assert_eq!((b.x, b.y, b.w, b.h, b.text_x, b.text_y), (793, 80, 333, 32, 809, 91));
}

#[test]
fn a_freehand_default_draws_freely() {
    let cfg = RunConfig {
        preset_exec: Some("x".to_string()),
        padding: 0,
        history: History::default(),
        gesture: GestureConfig { default: GestureMode::Freehand, ..GestureConfig::default() },
    };
    let mut o = Overlay::new(cfg, Pinned::default());
    o.configure(100, 100);
    drag(&mut o, px(10.0, 10.0), px(60.0, 160.0));
    assert_eq!(spawned(o).0, Bbox { x: 10, y: 0, w: 50, h: 100 });
}

#[test]
fn padding_widens_the_box() {
    let run = |padding: u32| {
        let cfg = RunConfig {
            preset_exec: Some("kitty".to_string()),
            padding,
            history: History::load(None),
            gesture: GestureConfig::default(),
        };
        let mut o = Overlay::new(cfg, Pinned::default());
        o.configure(1000, 1000);
        drag(&mut o, px(100.0, 100.0), px(200.0, 200.0));
        o
    };
    assert_eq!(spawned(run(10)).0, Bbox { x: 90, y: 90, w: 120, h: 120 });
    let screen = Bbox { x: 0, y: 0, w: 1000, h: 1000 };
    assert_eq!(spawned(run(1 << 30)).0, screen);
    assert_eq!(spawned(run(u32::MAX)).0, screen);
}

#[test]
fn only_typed_text_has_to_be_searched_for() {
    let long = "x".repeat(2521);
    let mut o = picking("", &["a".repeat(3000).as_str()]);
    assert!(!o.can_handle(Key::Other, Some(&long)));
    assert!(!o.can_handle(Key::P, Some(&long)));
    assert!(o.can_handle(Key::Other, Some(&long[1..])));
    assert!(o.can_handle(Key::Other, None));
    assert!(o.can_handle(Key::Escape, Some(&long)));
    assert!(o.can_handle(Key::Enter, Some(&long)));
    o.update_modifiers(false, true, false);
    assert!(o.can_handle(Key::P, Some(&long)));
    o.handle_key_event(Key::Escape, Some(&long));
    assert!(o.is_decided());
    let drawing = start(None, "");
    assert!(drawing.can_handle(Key::Other, Some(&long)));
}

fn near_windows(o: &mut Overlay) {
    let window = Bbox { x: 100, y: 100, w: 400, h: 300 };
    o.set_targets(&vec![window], Bbox { x: 0, y: 0, w: 1920, h: 1080 });
}

#[test]
fn the_pointer_is_pulled_onto_windows() {
    let mut o = start(Some("kitty"), "");
    near_windows(&mut o);
    o.pointer_enter(px(105.0, 103.0));
    assert_eq!(o.pointer(), Some(px(105.0, 103.0)));
    assert_eq!(o.pen().cursor(), Some(px(100.0, 100.0)));
    let plan = frame(&mut o);
    assert_eq!(plan.crosshair, Some(px(100.0, 100.0)));
    assert_eq!((plan.x_guide, plan.y_guide), (Some(100 * 256), Some(100 * 256)));
    assert_eq!(plan.ring, Some(px(100.0, 100.0)));
    o.pointer_press(px(105.0, 103.0), Button::Left);
    o.pointer_motion(px(508.0, 900.0));
    assert_eq!(o.pen().cursor(), Some(px(500.0, 900.0)));
    let plan = frame(&mut o);
    assert_eq!((plan.x_guide, plan.y_guide), (Some(500 * 256), None));
    o.pointer_release(Button::Left);
    assert_eq!(spawned(o).0, Bbox { x: 100, y: 100, w: 400, h: 800 });
}

#[test]
fn nothing_is_pulled_out_of_reach() {
    let mut o = start(Some("kitty"), "");
    near_windows(&mut o);
    o.pointer_motion(px(700.0, 700.0));
    assert_eq!(o.pen().cursor(), Some(px(700.0, 700.0)));
    let plan = frame(&mut o);
    assert!(plan.x_guide.is_none() && plan.y_guide.is_none() && plan.ring.is_none());
    o.pointer_leave();
    assert!(o.pen().cursor().is_none());
}

#[test]
fn freehand_is_not_pulled() {
    let mut o = start(Some("kitty"), "");
    near_windows(&mut o);
    o.pointer_motion(px(105.0, 103.0));
    o.mark_drawn();
    o.update_modifiers(false, false, true);
    assert!(o.is_due());
    assert_eq!(o.pen().cursor(), Some(px(105.0, 103.0)));
    let plan = frame(&mut o);
    assert!(plan.x_guide.is_none() && plan.y_guide.is_none() && plan.ring.is_none());
    drag(&mut o, px(105.0, 103.0), px(495.0, 395.0));
    assert_eq!(places(&o), [px(105.0, 103.0), px(495.0, 395.0)]);
}

#[test]
fn the_lock_outlasts_modifiers() {
    let mut o = start(Some("kitty"), "");
    near_windows(&mut o);
    o.pointer_press(px(105.0, 103.0), Button::Left);
    o.pointer_motion(px(495.0, 395.0));
    assert_eq!(o.pen().cursor(), Some(px(500.0, 400.0)));
    o.update_modifiers(true, false, false);
    assert_eq!(o.pen().cursor(), Some(px(500.0, 400.0)));
    assert_eq!(places(&o)[0], px(100.0, 100.0));
    assert_eq!(places(&o)[2], px(400.0, 400.0));
    o.update_modifiers(false, false, true);
    assert_eq!(places(&o), [px(495.0, 395.0)]);
    o.update_modifiers(false, false, false);
    assert_eq!(places(&o)[0], px(100.0, 100.0));
    assert_eq!(places(&o)[2], px(500.0, 400.0));
}

#[test]
fn the_picker_is_not_pulled() {
    let mut o = start(None, "");
    near_windows(&mut o);
    drag(&mut o, px(105.0, 103.0), px(495.0, 395.0));
    assert_eq!(o.phase(), Phase::Picking);
    assert_eq!(o.pen().cursor(), Some(px(495.0, 395.0)));
    o.pointer_motion(px(105.0, 103.0));
    assert_eq!(o.pen().cursor(), Some(px(105.0, 103.0)));
    let plan = frame(&mut o);
    assert!(plan.x_guide.is_none() && plan.y_guide.is_none() && plan.ring.is_none());
}

#[test]
fn snapping_can_be_switched_off() {
    let cfg = RunConfig {
        preset_exec: None,
        padding: 0,
        history: History::load(None),
        gesture: GestureConfig { snap: false, ..GestureConfig::default() },
    };
    let mut o = Overlay::new(cfg, Pinned::default());
    near_windows(&mut o);
    o.pointer_motion(px(105.0, 103.0));
    assert_eq!(o.pen().cursor(), Some(px(105.0, 103.0)));
}
