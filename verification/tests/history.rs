use spawnhere::history::{forget_in, History, COUNT_BONUS, RECENCY_BONUS};

fn picked(text: &str) -> History {
    History::load(Some(text))
}

#[test]
fn empty_history_gives_zero_bonus() {
    let h = History::default();
    assert_eq!(h.score_bonus("kitty"), 0);
}

#[test]
fn last_pick_gets_recency_bump() {
    let h = picked("kitty\nkitty\nkitty\n");
    assert_eq!(h.score_bonus("kitty"), 3 * COUNT_BONUS + RECENCY_BONUS);
}

#[test]
fn non_last_pick_gets_count_only() {
    let h = picked("kitty\nkitty\nkitty\nkitty\nkitty\nfirefox\n");
    assert_eq!(h.score_bonus("kitty"), 5 * COUNT_BONUS);
}

#[test]
fn fresh_pick_outranks_stale_hot_app() {
    let mut text = "firefox\n".repeat(10);
    text.push_str("kitty\n");
    let h = picked(&text);
    assert!(h.score_bonus("kitty") > h.score_bonus("firefox"));
}

#[test]
fn forget_clears_memory_state() {
    let mut h = picked("firefox\nkitty\nkitty\nkitty\n");
    h.forget("kitty", None);
    assert!(!h.has_picked("kitty"));
    assert!(h.has_picked("firefox"));
    assert_eq!(h.last(), None);
    assert_eq!(h.score_bonus("kitty"), 0);
}

#[test]
fn a_recorded_pick_is_loaded() {
    let mut file = String::from("firefox\n");
    file.push_str(&History::record("kitty -1"));
    assert_eq!(file, "firefox\nkitty -1\n");
    let h = picked(&file);
    assert_eq!(h.last(), Some("kitty -1"));
    assert_eq!(h.score_bonus("kitty -1"), COUNT_BONUS + RECENCY_BONUS);
    assert_eq!(h.score_bonus("firefox"), COUNT_BONUS);
}

#[test]
fn blank_lines_and_margins_do_not_count() {
    let h = picked("  kitty \r\n\n\t\nkitty");
    assert_eq!(h.score_bonus("kitty"), 2 * COUNT_BONUS + RECENCY_BONUS);
    assert!(!h.has_picked(""));
    let none = History::load(None);
    assert!(!none.has_picked("kitty"));
    assert_eq!(none.last(), None);
}

#[test]
fn forgetting_rewrites_the_file() {
    let file = "kitty\nfirefox\n kitty \nmpv";
    let mut h = picked(file);
    let left = h.forget("kitty", Some(file));
    assert_eq!(left.as_deref(), Some("firefox\nmpv\n"));
    assert_eq!(forget_in("kitty\n", "kitty"), "");
    let again = picked(left.as_deref().unwrap());
    assert!(!again.has_picked("kitty"));
    assert!(again.has_picked("mpv"));
}

#[test]
fn the_last_pick_survives_forgetting_another() {
    let mut h = picked("kitty\nmpv\n");
    assert_eq!(h.forget("kitty", None), None);
    assert_eq!(h.last(), Some("mpv"));
}
