use spawnhere::stroke::{Bbox, Stroke, SUBPX};

fn px(v: f32) -> i32 {
    (v * SUBPX as f32) as i32
}

#[test]
fn bbox_of_empty_stroke_is_zero() {
    let s = Stroke::new();
    let b = s.bbox(0);
    assert_eq!(b.w, 0);
    assert_eq!(b.h, 0);
}

#[test]
fn bbox_encloses_all_points() {
    let mut s = Stroke::new();
    s.push(px(100.0), px(200.0));
    s.push(px(300.0), px(150.0));
    s.push(px(250.0), px(400.0));
    let b = s.bbox(0);
    assert_eq!(b.x, 100);
    assert_eq!(b.y, 150);
    assert_eq!(b.w, 200);
    assert_eq!(b.h, 250);
}

#[test]
fn bbox_applies_padding_both_sides() {
    let mut s = Stroke::new();
    s.push(px(100.0), px(100.0));
    s.push(px(200.0), px(200.0));
    let b = s.bbox(10);
    assert_eq!(b.x, 90);
    assert_eq!(b.y, 90);
    assert_eq!(b.w, 120);
    assert_eq!(b.h, 120);
}

#[test]
fn bbox_rounds_half_pixels_away_from_zero() {
    let mut s = Stroke::new();
    s.push(px(-2.5), px(2.5));
    s.push(px(2.5), px(2.25));
    let b = s.bbox(0);
    assert_eq!(b, Bbox { x: -3, y: 2, w: 5, h: 0 });
}

#[test]
fn bbox_agrees_with_rounded_coordinates() {
    let mut s = Stroke::new();
    let places = [(10.25f32, 3.75f32), (-7.5, 0.5), (512.125, -99.996_094)];
    for (x, y) in places {
        s.push(px(x), px(y));
    }
    let b = s.bbox(3);
    assert_eq!(b.x, (-7.5f32 - 3.0).round() as i32);
    assert_eq!(b.y, (-99.996_094f32 - 3.0).round() as i32);
    assert_eq!(b.w, (512.125f32 + 7.5 + 6.0).round() as u32);
    assert_eq!(b.h, (3.75f32 + 99.996_094 + 6.0).round() as u32);
}

#[test]
fn clear_removes_points_and_restarts_the_clock() {
    let mut s = Stroke::new();
    s.push(1, 2);
    s.push(3, 4);
    assert_eq!(s.points().len(), 2);
    assert_eq!(s.points()[0].t, 0);
    s.clear();
    assert!(s.points().is_empty());
    s.push(5, 6);
    assert_eq!(s.points()[0].t, 0);
    assert_eq!((s.points()[0].x, s.points()[0].y), (5, 6));
    assert!(Stroke::default().points().is_empty());
}

#[test]
fn the_clock_runs_on() {
    let mut s = Stroke::new();
    s.push(0, 0);
    let start = std::time::Instant::now();
    while start.elapsed().as_millis() < 2 {}
    s.push(1, 1);
    assert!(s.points()[1].t >= 1000);
}

#[test]
fn enforce_min_grows_and_recenters() {
    let b = Bbox { x: 100, y: 100, w: 50, h: 50 };
    let m = b.enforce_min(200, 200);
    assert_eq!(m.w, 200);
    assert_eq!(m.h, 200);
    assert_eq!(m.x, 25);
    assert_eq!(m.y, 25);
}

#[test]
fn enforce_min_keeps_larger() {
    let b = Bbox { x: 0, y: 0, w: 500, h: 500 };
    let m = b.enforce_min(200, 200);
    assert_eq!(m.w, 500);
    assert_eq!(m.h, 500);
    assert_eq!(m.x, 0);
    assert_eq!(m.y, 0);
}

#[test]
fn enforcing_twice_changes_nothing_more() {
    let b = Bbox { x: -3, y: 8, w: 5, h: 300 };
    let once = b.enforce_min(100, 100);
    assert_eq!(once, Bbox { x: -50, y: 8, w: 100, h: 300 });
    assert_eq!(once.enforce_min(100, 100), once);
}

#[test]
fn clamp_slides_right_edge_overflow_back_in() {
    let screen = Bbox { x: 0, y: 0, w: 1920, h: 1080 };
    let b = Bbox { x: 1550, y: 500, w: 400, h: 300 };
    let c = b.clamp_to_rect(screen);
    assert_eq!(c.x + c.w as i32, 1920);
    assert_eq!(c.w, 400);
}

#[test]
fn clamp_handles_negative_origin() {
    let screen = Bbox { x: 0, y: 0, w: 1920, h: 1080 };
    let b = Bbox { x: -50, y: -30, w: 400, h: 300 };
    let c = b.clamp_to_rect(screen);
    assert_eq!(c.x, 0);
    assert_eq!(c.y, 0);
}

#[test]
fn clamp_shrinks_oversized_bbox() {
    let screen = Bbox { x: 0, y: 0, w: 1920, h: 1080 };
    let b = Bbox { x: 0, y: 0, w: 3000, h: 2000 };
    let c = b.clamp_to_rect(screen);
    assert_eq!(c.w, 1920);
    assert_eq!(c.h, 1080);
    assert_eq!(c.x, 0);
    assert_eq!(c.y, 0);
}

#[test]
fn clamp_to_rect_respects_non_zero_origin() {
    let monitor = Bbox { x: 1920, y: 0, w: 1920, h: 1080 };
    let b = Bbox { x: 3700, y: 500, w: 400, h: 300 };
    let c = b.clamp_to_rect(monitor);
    assert_eq!(c.x + c.w as i32, monitor.x + monitor.w as i32);
    assert_eq!(c.w, 400);
}

#[test]
fn clamp_to_rect_handles_left_overshoot_on_second_monitor() {
    let monitor = Bbox { x: 1920, y: 0, w: 1920, h: 1080 };
    let b = Bbox { x: 1800, y: 500, w: 400, h: 300 };
    let c = b.clamp_to_rect(monitor);
    assert_eq!(c.x, 1920);
    assert_eq!(c.w, 400);
}

#[test]
fn clamping_twice_changes_nothing_more() {
    let monitor = Bbox { x: 10, y: 20, w: 100, h: 100 };
    let c = Bbox { x: 90, y: 0, w: 50, h: 400 }.clamp_to_rect(monitor);
    assert_eq!(c, Bbox { x: 60, y: 20, w: 50, h: 100 });
    assert_eq!(c.clamp_to_rect(monitor), c);
}

#[test]
fn halves_drop_the_fraction() {
    for n in [0, 1, 2, 7, -1, -2, -7, i64::MAX, i64::MIN + 1] {
        assert_eq!(spawnhere::stroke::halve(n), n / 2);
    }
}

#[test]
fn clamp_shrinks_a_box_however_large() {
    let screen = Bbox { x: 0, y: 0, w: 1920, h: 1080 };
    let wide = Bbox { x: 0, y: 0, w: 3_000_000_000, h: 100 };
    assert_eq!(wide.clamp_to_rect(screen), Bbox { x: 0, y: 0, w: 1920, h: 100 });
    let far = Bbox { x: i32::MAX, y: i32::MIN, w: 400, h: u32::MAX };
    assert_eq!(far.clamp_to_rect(screen), Bbox { x: 1520, y: 0, w: 400, h: 1080 });
}

#[test]
fn a_box_grows_by_half_on_each_side_however_far() {
    let b = Bbox { x: 0, y: 10, w: 0, h: 10 }.enforce_min(4_000_000_000, 10);
    assert_eq!(b, Bbox { x: -2_000_000_000, y: 10, w: 4_000_000_000, h: 10 });
}

#[test]
fn points_carry_their_time() {
    let mut s = Stroke::new();
    s.push_timed(3, 4, 5);
    s.push(6, 7);
    let p: Vec<_> = s.points().iter().map(|p| (p.x, p.y, p.t)).collect();
    assert_eq!(p, [(3, 4, 5), (6, 7, 0)]);
}
