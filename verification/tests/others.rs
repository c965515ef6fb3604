use spawnhere::icons::{icon_kind, kind_of_lower, IconCache, IconKind};
use spawnhere::overlay::{Button, Key};
use spawnhere::pixels::{blend, composite_glyph, lay_over, to_bgra, Glyph, Rgba, Weight};
use spawnhere::shimmer::{laps, lit_runs};
use spawnhere::sketch::{Outcome, Sketch};
use spawnhere::text::{
    comes_before, is_control, is_whitespace, join, push_decimal, split_lines, split_words, trim,
};
use tiny_skia::PremultipliedColorU8;

#[test]
fn characters_are_classed_as_std_does() {
    for c in '\0'..=char::MAX {
        assert_eq!(is_whitespace(c), c.is_whitespace(), "{c:?}");
        assert_eq!(is_control(c), c.is_control(), "{c:?}");
    }
}

#[test]
fn texts_are_cut_as_std_does() {
    for s in ["", " ", "a", " a b ", "a\n", "a\r\nb\n\nc", "\n", "\r", "a\r", "x\u{3000}y\t z\u{85}"] {
        assert_eq!(trim(s), s.trim());
        assert_eq!(split_lines(s), s.lines().collect::<Vec<_>>());
        assert_eq!(split_words(s), s.split_whitespace().collect::<Vec<_>>());
    }
    assert_eq!(join(&vec!["a".to_string(), String::new(), "b".to_string()], ", "), "a, , b");
}

#[test]
fn texts_are_ordered_as_std_does() {
    let list = ["", "a", "A", "ab", "b", "ä", "z", "\u{10ffff}", "\u{e000}"];
    for a in list {
        for b in list {
            assert_eq!(comes_before(a, b), a < b, "{a} {b}");
        }
    }
}

#[test]
fn numbers_are_written_in_decimal() {
    for n in [0u32, 7, 10, 99, 100, 4_294_967_295] {
        let mut out = String::from("n=");
        push_decimal(&mut out, n);
        assert_eq!(out, format!("n={n}"));
    }
}

#[test]
fn icon_files_are_told_by_their_extension() {
    assert_eq!(icon_kind(Some("SVG")), IconKind::Vector);
    assert_eq!(icon_kind(Some("svgz")), IconKind::Vector);
    assert_eq!(icon_kind(Some("Png")), IconKind::Raster);
    assert_eq!(icon_kind(Some("xpm")), IconKind::Raster);
    assert_eq!(icon_kind(Some("jpg")), IconKind::Unknown);
    assert_eq!(icon_kind(None), IconKind::Unknown);
    assert_eq!(kind_of_lower("PNG"), IconKind::Unknown);
}

#[test]
fn icons_are_looked_up_once() {
    let mut c: IconCache<u32> = IconCache::new(48);
    assert_eq!(c.size(), 48);
    assert!(!c.is_known("a") && c.get("a").is_none());
    c.insert("a", Some(7));
    c.insert("b", None);
    assert_eq!(c.get("a"), Some(&7));
    assert!(c.is_known("b") && c.get("b").is_none());
}

fn rgba(r: u8, g: u8, b: u8, a: u8) -> Rgba {
    Rgba { r, g, b, a }
}

#[test]
fn weights_have_a_second_pass() {
    for a in 0..=255u8 {
        assert_eq!(Weight::Normal.bold_alpha(a), 0);
        let rounded = (a as f32 * 0.55).round().clamp(0.0, 255.0) as u32;
        assert_eq!(Weight::Medium.bold_alpha(a), rounded);
        assert_eq!(Weight::SemiBold.bold_alpha(a), a as u32);
    }
}

#[test]
fn pixels_are_blended() {
    let color = rgba(200, 100, 0, 255);
    assert_eq!(blend(rgba(1, 2, 3, 4), color, 0, 255), rgba(1, 2, 3, 4));
    assert_eq!(blend(rgba(1, 2, 3, 4), color, 255, 255), rgba(200, 100, 0, 255));
    assert_eq!(blend(rgba(10, 20, 30, 255), color, 128, 255), rgba(105, 60, 14, 255));
    assert_eq!(lay_over(rgba(9, 9, 9, 9), rgba(255, 0, 0, 10), color, 20), rgba(9, 9, 9, 9));
}

#[test]
fn translucent_pixels_are_demultiplied() {
    let d = PremultipliedColorU8::from_rgba(50, 20, 0, 100).unwrap().demultiply();
    let below = rgba(d.red(), d.green(), d.blue(), d.alpha());
    assert_ne!(below, rgba(50, 20, 0, 100));
    let color = rgba(60, 70, 80, 255);
    let dst = rgba(50, 20, 0, 100);
    assert_eq!(blend(dst, color, 200, 255), lay_over(dst, below, color, 200));
    assert_ne!(blend(dst, color, 200, 255), lay_over(dst, dst, color, 200));
}

#[test]
fn a_glyph_is_drawn_inside_the_image() {
    let mut image = vec![0u8; 3 * 2 * 4];
    for k in 0..6 {
        image[4 * k + 3] = 255;
    }
    let glyph = Glyph { x: 1, y: -1, w: 3, h: 2, coverage: vec![255, 255, 255, 255, 0, 255] };
    composite_glyph(&mut image, 3, 2, &glyph, rgba(9, 8, 7, 255), 255);
    let pixel = |k: usize| [image[4 * k], image[4 * k + 1], image[4 * k + 2], image[4 * k + 3]];
    assert_eq!(pixel(1), [9, 8, 7, 255]);
    for k in [0, 2, 3, 4, 5] {
        assert_eq!(pixel(k), [0, 0, 0, 255]);
    }
}

#[test]
fn red_and_blue_are_exchanged() {
    assert_eq!(to_bgra(&[1, 2, 3, 4, 5, 6, 7, 8]), [3, 2, 1, 4, 7, 6, 5, 8]);
}

#[test]
fn a_sketch_is_one_stroke() {
    let mut s = Sketch::new();
    s.configure(0, 9);
    assert_eq!(s.size(), (1, 9));
    s.pointer_motion((5, 5));
    assert_eq!(s.crosshair(), Some((5, 5)));
    assert!(s.is_due());
    s.mark_drawn();
    assert!(!s.is_due());
    s.pointer_press((6, 6), Button::Left);
    s.pointer_motion((7, 8));
    assert!(s.crosshair().is_none());
    s.press_key(Key::Enter);
    s.pointer_release(Button::Right);
    assert!(!s.is_decided());
    s.pointer_release(Button::Left);
    assert!(s.is_decided());
    assert_eq!(s.stroke().points().len(), 2);
    match s.outcome() {
        Outcome::Spawn(stroke) => {
            let places: Vec<_> = stroke.points().iter().map(|p| (p.x, p.y)).collect();
            assert_eq!(places, [(6, 6), (7, 8)]);
        }
        Outcome::Cancelled => panic!("cancelled"),
    }
}

#[test]
fn a_sketch_is_cancelled() {
    let mut a = Sketch::new();
    a.press_key(Key::Escape);
    assert!(matches!(a.outcome(), Outcome::Cancelled));
    let mut b = Sketch::new();
    b.pointer_press((0, 0), Button::Left);
    b.pointer_press((0, 0), Button::Right);
    b.pointer_leave();
    b.frame();
    assert!(matches!(b.outcome(), Outcome::Cancelled));
    let mut c = Sketch::new();
    c.closed();
    assert!(c.is_decided());
}

#[test]
fn a_closed_stroke_is_laid_out_three_times() {
    assert_eq!(laps(3, false), [(0, 0), (1, 0), (2, 0)]);
    assert_eq!(laps(3, true), [(0, 0), (1, 0), (2, 0), (1, 1), (2, 1), (1, 2), (2, 2)]);
    assert_eq!(laps(1, true), [(0, 0)]);
}

#[test]
fn lit_pieces_are_painted_in_runs() {
    let runs = |s: &str| lit_runs(&s.chars().map(|c| c == 'x').collect());
    assert_eq!(runs(""), []);
    assert_eq!(runs("..."), []);
    assert_eq!(runs("xxx"), [(0, 3)]);
    assert_eq!(runs("x.xx..x"), [(0, 1), (2, 4), (6, 7)]);
    assert_eq!(runs(".xx."), [(1, 3)]);
}
