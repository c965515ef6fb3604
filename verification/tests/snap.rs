use spawnhere::snap::{SnapResult, Snapper};
use spawnhere::stroke::Bbox;

fn rect(x: i32, y: i32, w: u32, h: u32) -> Bbox {
    Bbox { x, y, w, h }
}

fn safe() -> Bbox {
    rect(0, 0, 1920, 1080)
}

fn at(x: f32, y: f32) -> (i64, i64) {
    ((x * 256.0) as i64, (y * 256.0) as i64)
}

fn line(v: f32) -> i64 {
    (v * 256.0) as i64
}

fn radius(v: f32) -> i32 {
    (v * 256.0) as i32
}

#[test]
fn empty_targets_passes_through() {
    let s = Snapper::new(&vec![], rect(0, 0, 0, 0), radius(12.0));
    let r = s.snap(at(500.0, 500.0));
    assert_eq!(r.point, at(500.0, 500.0));
    assert!(!r.snapped());
}

#[test]
fn locks_to_corner_within_radius() {
    let w = rect(100, 100, 400, 300);
    let s = Snapper::new(&vec![w], safe(), radius(12.0));
    let r = s.snap(at(105.0, 103.0));
    assert_eq!(r.point, at(100.0, 100.0));
    assert_eq!(r.x_guide, Some(line(100.0)));
    assert_eq!(r.y_guide, Some(line(100.0)));
}

#[test]
fn out_of_radius_passes_through() {
    let w = rect(100, 100, 400, 300);
    let s = Snapper::new(&vec![w], safe(), radius(12.0));
    let r = s.snap(at(250.0, 250.0));
    assert_eq!(r.point, at(250.0, 250.0));
    assert_eq!(r.x_guide, None);
    assert_eq!(r.y_guide, None);
}

#[test]
fn axis_only_snap_when_only_edge_in_range() {
    let w = rect(100, 100, 400, 300);
    let s = Snapper::new(&vec![w], safe(), radius(12.0));
    let r = s.snap(at(103.0, 600.0));
    assert_eq!(r.point.0, line(100.0));
    assert_eq!(r.point.1, line(600.0));
    assert_eq!(r.x_guide, Some(line(100.0)));
    assert_eq!(r.y_guide, None);
}

#[test]
fn picks_nearest_corner_when_multiple_in_range() {
    let a = rect(100, 100, 50, 50);
    let b = rect(160, 100, 50, 50);
    let s = Snapper::new(&vec![a, b], safe(), radius(12.0));
    let r = s.snap(at(155.0, 100.0));
    assert_eq!(r.point, at(150.0, 100.0));
}

#[test]
fn includes_edge_midpoints() {
    let w = rect(0, 0, 200, 100);
    let s = Snapper::new(&vec![w], rect(0, 0, 8000, 8000), radius(12.0));
    let r = s.snap(at(101.0, 4.0));
    assert_eq!(r.point, at(100.0, 0.0));
}

#[test]
fn includes_safe_area_corners() {
    let s = Snapper::new(&vec![], rect(0, 30, 1920, 1050), radius(12.0));
    let r = s.snap(at(1915.0, 33.0));
    assert_eq!(r.point, at(1920.0, 30.0));
}

#[test]
fn radius_zero_disables_snap() {
    let w = rect(100, 100, 400, 300);
    let s = Snapper::new(&vec![w], safe(), radius(0.0));
    let r = s.snap(at(100.5, 100.5));
    assert_eq!(r.point, at(100.5, 100.5));
    assert!(!r.snapped());
}

#[test]
fn dedupes_shared_edges() {
    let a = rect(100, 100, 400, 300);
    let b = rect(500, 100, 400, 300);
    let s = Snapper::new(&vec![a, b], safe(), radius(12.0));
    let close = |v: i64| (v as f32 / 256.0 - 500.0).abs() < 0.1;
    assert_eq!(s.x_lines().iter().filter(|v| close(**v)).count(), 1);
    assert_eq!(*s.x_lines(), vec![0, 25600, 128000, 230400, 491520]);
    assert_eq!(*s.y_lines(), vec![0, 25600, 102400, 276480]);
}

#[test]
fn both_axes_snap_to_lines_of_their_own() {
    let s = Snapper::new(&vec![rect(300, 300, 100, 100)], safe(), radius(12.0));
    let r = s.snap(at(305.0, 1075.0));
    assert_eq!(r.point, at(300.0, 1080.0));
    assert_eq!(r.x_guide, Some(line(300.0)));
    assert_eq!(r.y_guide, Some(line(1080.0)));
}

#[test]
fn the_first_of_equally_near_points_wins() {
    let s = Snapper::new(&vec![rect(0, 0, 10, 10), rect(20, 0, 10, 10)], rect(0, 0, 0, 0), radius(6.0));
    assert_eq!(s.snap(at(15.0, 0.0)).point, at(10.0, 0.0));
}

#[test]
fn an_exact_hit_locks_with_no_radius() {
    let s = Snapper::new(&vec![], safe(), 0);
    let r = s.snap(at(1920.0, 1080.0));
    assert!(r.snapped());
    assert_eq!(r.point, at(1920.0, 1080.0));
    assert_eq!(SnapResult::passthrough((1, 2)), SnapResult { point: (1, 2), x_guide: None, y_guide: None });
}
