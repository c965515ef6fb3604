use spawnhere::apps::App;
use spawnhere::history::History;
use spawnhere::picker::{rank_matches, rank_recent, PickerState, PinChange, VISIBLE_ITEMS};
use spawnhere::pinned::Pinned;

fn mock_apps(names: &[&str]) -> Vec<App> {
    names
        .iter()
        .map(|n| App { name: (*n).to_string(), command: (*n).to_string(), icon: None })
        .collect()
}

fn names(p: &PickerState) -> Vec<String> {
    p.visible().iter().map(|(_, app, _)| app.name.clone()).collect()
}

fn numbered(n: usize) -> Vec<App> {
    (0..n)
        .map(|i| App { name: format!("app{i:02}"), command: format!("app{i:02}"), icon: None })
        .collect()
}

#[test]
fn empty_query_lists_all_apps() {
    let mut p = PickerState::new(History::default());
    p.set_apps(mock_apps(&["firefox", "kitty", "discord"]));
    assert_eq!(p.match_count(), 3);
}

#[test]
fn query_filters_and_orders_by_score() {
    let mut p = PickerState::new(History::default());
    p.set_apps(mock_apps(&["firefox", "kitty", "discord", "kicad"]));
    for c in "ki".chars() {
        p.push_char(c);
    }
    let names = names(&p);
    assert!(names.contains(&"kitty".to_string()));
    assert!(names.contains(&"kicad".to_string()));
    assert!(!names.contains(&"firefox".to_string()));
}

#[test]
fn move_selection_clamps_to_bounds() {
    let mut p = PickerState::new(History::default());
    p.set_apps(mock_apps(&["a", "b", "c"]));
    p.move_selection(-5);
    assert_eq!(p.selected_index(), 0);
    p.move_selection(100);
    assert_eq!(p.selected_index(), 2);
}

#[test]
fn move_selection_scrolls_viewport() {
    let mut p = PickerState::new(History::default());
    let names: Vec<String> = (0..20).map(|i| format!("app{i}")).collect();
    p.set_apps(
        names.iter().map(|n| App { name: n.clone(), command: n.clone(), icon: None }).collect(),
    );
    p.move_selection(10);
    assert_eq!(p.selected_index(), 10);
    assert!(p.scroll_offset() > 0);
    assert!(p.selected_index() >= p.scroll_offset());
    assert!(p.selected_index() < p.scroll_offset() + VISIBLE_ITEMS);
}

#[test]
fn recents_come_first_and_then_names() {
    let mut p = PickerState::new(History::load(Some("mpv\nmpv\nzed\n")));
    p.set_apps(mock_apps(&["kitty", "zed", "atom", "mpv", "Krita"]));
    assert_eq!(names(&p), ["zed", "mpv", "Krita", "atom", "kitty"]);
    assert_eq!(p.visible_recent_count(), 2);
    assert!(p.is_history_row(1));
    assert!(!p.is_history_row(2));
    assert!(!p.is_history_row(9));
}

#[test]
fn equal_ranks_stay_in_order() {
    let same = vec![
        App { name: "x".to_string(), command: "one".to_string(), icon: None },
        App { name: "x".to_string(), command: "two".to_string(), icon: None },
    ];
    assert_eq!(rank_recent(&same, &History::default()), [0, 1]);
    assert_eq!(rank_matches(&vec![Some(5), None, Some(7), Some(1)], &vec![2, 99, 0, 6]), [0, 2, 3]);
    assert_eq!(rank_matches(&vec![Some(1), Some(u32::MAX)], &vec![u32::MAX, 1]), [0, 1]);
    assert!(rank_matches(&vec![None], &vec![4]).is_empty());
}

#[test]
fn past_picks_raise_the_score() {
    let mut p = PickerState::new(History::load(Some("kicad\n")));
    p.set_apps(mock_apps(&["kitty", "kicad"]));
    p.push_char('k');
    p.push_char('i');
    assert_eq!(names(&p), ["kicad", "kitty"]);
    assert_eq!(p.visible_recent_count(), 0);
}

#[test]
fn matching_ignores_case_unless_it_is_typed() {
    let mut p = PickerState::new(History::default());
    p.set_apps(mock_apps(&["Firefox", "fish"]));
    p.push_char('f');
    assert_eq!(p.match_count(), 2);
    p.pop_char();
    p.push_char('F');
    assert_eq!(names(&p), ["Firefox"]);
}

#[test]
fn typing_is_undone() {
    let mut p = PickerState::new(History::default());
    p.set_apps(mock_apps(&["a", "b", "c"]));
    p.move_selection(2);
    p.push_char('b');
    assert_eq!(p.query(), "b");
    assert_eq!((p.match_count(), p.selected_index()), (1, 0));
    p.push_char('\u{8}');
    assert_eq!(p.query(), "b");
    p.pop_char();
    assert_eq!((p.query(), p.match_count()), ("", 3));
    p.pop_char();
    assert_eq!(p.match_count(), 3);
}

#[test]
fn nothing_is_selected_in_an_empty_list() {
    let mut p = PickerState::new(History::default());
    assert!(p.loading());
    assert!(p.selected_app().is_none());
    p.set_apps(mock_apps(&["kitty"]));
    assert!(!p.loading());
    assert_eq!(p.selected_app().unwrap().command, "kitty");
    p.push_char('z');
    assert!(p.selected_app().is_none());
    p.move_selection(1);
    p.select(3);
    assert_eq!(p.selected_index(), 0);
    assert!(p.forget_at(0).is_none());
    assert!(matches!(p.toggle_pin_selected(), PinChange::Nothing));
}

#[test]
fn the_view_scrolls_without_the_selection() {
    let mut p = PickerState::new(History::default());
    p.set_apps(numbered(20));
    p.scroll_by(5);
    assert_eq!((p.scroll_offset(), p.selected_index()), (5, 0));
    p.scroll_by(100);
    assert_eq!(p.scroll_offset(), 12);
    p.scroll_by(isize::MIN);
    assert_eq!(p.scroll_offset(), 0);
    p.scroll_by(isize::MAX);
    let rows = p.visible();
    assert_eq!(rows.len(), 8);
    assert_eq!((rows[0].0, rows[0].2), (12, false));
    p.select(100);
    assert_eq!(p.selected_index(), 19);
    assert!(p.visible()[7].2);
    p.move_selection(-19);
    assert_eq!((p.scroll_offset(), p.selected_index()), (0, 0));
    let mut few = PickerState::new(History::default());
    few.set_apps(numbered(8));
    few.scroll_by(1);
    assert_eq!(few.scroll_offset(), 0);
}

#[test]
fn only_rows_in_view_are_counted() {
    let mut p = PickerState::new(History::load(Some("app00\napp01\n")));
    p.set_apps(numbered(12));
    assert_eq!(p.visible_recent_count(), 2);
    p.scroll_by(1);
    assert_eq!(p.visible_recent_count(), 1);
    p.scroll_by(1);
    assert_eq!(p.visible_recent_count(), 0);
}

#[test]
fn a_forgotten_row_is_no_longer_recent() {
    let mut p = PickerState::new(History::load(Some("zed\n")));
    p.set_apps(mock_apps(&["atom", "zed"]));
    assert_eq!(names(&p), ["zed", "atom"]);
    assert_eq!(p.forget_at(0).as_deref(), Some("zed"));
    assert_eq!(names(&p), ["atom", "zed"]);
    assert_eq!(p.visible_recent_count(), 0);
}

#[test]
fn the_pin_is_toggled() {
    let mut p = PickerState::new(History::default());
    p.set_pinned(Pinned::load(Some("zed")));
    p.set_apps(mock_apps(&["atom", "zed"]));
    assert!(p.is_pinned_row(1) && !p.is_pinned_row(0) && !p.is_pinned_row(7));
    assert!(!p.welcome_toast());
    match p.toggle_pin_selected() {
        PinChange::Write(text) => assert_eq!(text, "atom\n"),
        other => panic!("{other:?}"),
    }
    assert!(p.welcome_toast() && p.is_pinned_row(0) && !p.is_pinned_row(1));
    assert!(matches!(p.toggle_pin_selected(), PinChange::Remove));
    assert!(!p.is_pinned_row(0));
}

#[test]
fn what_can_be_scored() {
    let mut p = PickerState::new(History::default());
    let long = App { name: "x".repeat(3000), command: "x".to_string(), icon: None };
    assert!(p.can_list(&vec![long.clone()]));
    p.set_apps(vec![long]);
    assert!(p.can_search(&"x".repeat(2520)));
    assert!(!p.can_search(&"x".repeat(2521)));
    assert!(p.can_search(&("x".repeat(2520) + "\n")));
}

#[test]
fn parts_of_the_query_are_measured() {
    let mut p = PickerState::new(History::default());
    p.set_apps(vec![App { name: "x".repeat(6000), command: "x".to_string(), icon: None }]);
    assert!(p.can_search(&"ab ".repeat(4000)));
    assert!(p.can_search(&("x".repeat(2520) + " " + &"x".repeat(2520))));
    assert!(!p.can_search(&("x".repeat(2520) + "\\ x")));
    assert!(p.can_search(&"a\\ ".repeat(840)));
    assert!(!p.can_search(&"a\\ ".repeat(841)));
    assert!(p.can_search(&"\\".repeat(2520)));
    assert!(p.can_search(&("\\".repeat(1259) + "é")));
    assert!(!p.can_search(&("\\".repeat(1260) + "é")));
    assert!(!p.can_search(&("\\".repeat(2519) + "é")));
    let mut short = PickerState::new(History::default());
    short.set_apps(vec![App { name: "x".repeat(2520), command: "x".to_string(), icon: None }]);
    assert!(short.can_search(&("\\".repeat(9000) + "é")));
}

fn finds(name: String, query: &str) -> bool {
    let mut p = PickerState::new(History::default());
    p.set_apps(vec![App { name, command: "x".to_string(), icon: None }]);
    assert!(p.can_search(query));
    for c in query.chars() {
        p.push_char(c);
    }
    p.match_count() == 1
}

#[test]
fn the_longest_query_is_scored() {
    assert!(finds("a".repeat(2520) + "b", &"a".repeat(2520)));
    assert!(finds("aB-".repeat(840), &"aB-".repeat(840)));
}

#[test]
fn the_longest_query_with_backslashes_is_scored() {
    let query = "\\".repeat(1259) + "é";
    assert!(finds("\\".repeat(2518) + "éz", &query));
    assert!(!finds("z".repeat(5000), &query));
}

#[test]
fn letters_that_fold_are_told_apart() {
    let named = |name: &str| {
        let mut p = PickerState::new(History::default());
        p.set_apps(vec![App { name: name.to_string(), command: "x".to_string(), icon: None }]);
        p
    };
    assert!(finds("ρυθμίσεις".to_string(), "σεις"));
    assert!(!named("ςσxé").can_search("σé"));
    assert!(named("ςσxé").can_search("é"));
    assert!(named("ςσxé").can_search("σ"));
    assert!(!named("ſsé").can_search("sé"));
    assert!(named("µTorrent").can_search("é"));
    assert!(!named("µTorrent").can_search("μé"));
    assert!(!named("\u{ab70}").can_search("\u{13a0}ä"));
    assert!(!named("\u{13f8}").can_search("\u{13f0}ä"));
}
