use spawnhere::apps::App;
use spawnhere::card::{
    card_height, fallback_hue, fallback_letter, first_marked, footer_hints, layout, plan_list,
    plan_search, ButtonTone, CardRect, ListPlan, RowFill, RowPlan,
};
use spawnhere::history::History;
use spawnhere::picker::PickerState;
use spawnhere::pinned::Pinned;

fn picker(history: &str, n: usize) -> PickerState {
    let mut p = PickerState::new(History::load(Some(history)));
    let apps = (0..n)
        .map(|i| App { name: format!("app{i:02}"), command: format!("app{i:02}"), icon: None })
        .collect();
    p.set_apps(apps);
    p
}

fn rows(plan: ListPlan) -> Vec<RowPlan> {
    match plan {
        ListPlan::Rows(rows) => rows,
        _ => panic!("no rows"),
    }
}

#[test]
fn the_card_is_as_high_as_its_parts() {
    assert_eq!(card_height(&picker("", 3)), 40 + 44 + 12 + 3 * 40 + 28);
    assert_eq!(card_height(&picker("", 30)), 40 + 44 + 12 + 8 * 40 + 28);
    assert_eq!(card_height(&picker("app01\n", 3)), 40 + 44 + 12 + 2 * 22 + 3 * 40 + 28);
    assert_eq!(card_height(&picker("app00\n", 1)), 40 + 44 + 12 + 22 + 40 + 28);
    assert_eq!(card_height(&picker("", 0)), 40 + 44 + 12 + 40 + 28);
    let mut pinned = picker("", 3);
    pinned.toggle_pin_selected();
    assert_eq!(card_height(&pinned), 40 + 44 + 12 + 3 * 40 + 44 + 28);
}

#[test]
fn the_card_stays_on_the_screen() {
    let p = picker("", 3);
    let mid = layout(&p, (960, 540), (1920, 1080));
    assert_eq!((mid.card.x, mid.card.y, mid.card.w, mid.card.h), (660, 418, 600, 244));
    let corner = layout(&p, (0, 2000), (1920, 1080));
    assert_eq!((corner.card.x, corner.card.y), (20, 1080 - 244 - 20));
    let narrow = layout(&p, (100, 100), (300, 200));
    assert_eq!((narrow.card.x, narrow.card.y), (20, 20));
}

#[test]
fn painted_rows_are_the_ones_that_are_hit() {
    let p = picker("app01\napp02\n", 12);
    let at = layout(&p, (960, 540), (1920, 1080));
    let card = at.card;
    assert_eq!(card.recent_count, 2);
    assert_eq!(card.recent_header_y, Some(card.y + 76));
    assert_eq!(card.others_header_y, Some(card.y + 76 + 22 + 80));
    assert!(at.needs_rail);
    let plan = rows(plan_list(&p, &at, Some(3), None));
    assert_eq!(plan.len(), 8);
    for (i, row) in plan.iter().enumerate() {
        for y in row.y..row.y + 40 {
            assert_eq!(card.item_at(y, 8), Some(i));
            let on_button = y >= row.y + 9 && y < row.y + 31;
            assert_eq!(card.forget_button_hit(card.forget_btn_right - 1, y), on_button);
        }
    }
    for y in card.y..card.y + 98 {
        assert_eq!(card.item_at(y, 8), None);
    }
    for y in card.y + 178..card.y + 200 {
        assert_eq!(card.item_at(y, 8), None);
        assert!(!card.forget_button_hit(card.forget_btn_right - 1, y));
    }
    assert_eq!(plan[7].y + 40, at.footer_y - 20);
    assert_eq!(card.item_at(plan[7].y + 40, 8), None);
}

#[test]
fn the_button_lies_at_the_right_end() {
    let p = picker("app00\n", 3);
    let at = layout(&p, (960, 540), (1920, 1080));
    let right = at.card.x + 20 + 560 - 6;
    assert_eq!(at.card.forget_btn_right, right);
    let y = rows(plan_list(&p, &at, None, None))[0].y + 20;
    assert!(at.card.forget_button_hit(right - 22, y));
    assert!(!at.card.forget_button_hit(right - 23, y));
    assert!(!at.card.forget_button_hit(right, y));
    let railed = layout(&picker("app00\n", 9), (960, 540), (1920, 1080));
    assert_eq!(railed.card.forget_btn_right, railed.card.x + 20 + 553 - 6);
}

#[test]
fn the_card_contains_its_places() {
    let card = layout(&picker("", 3), (960, 540), (1920, 1080)).card;
    assert!(card.contains(660, 418) && card.contains(1259, 661));
    assert!(!card.contains(659, 418) && !card.contains(1260, 418) && !card.contains(660, 662));
}

#[test]
fn rows_are_drawn_by_what_they_are() {
    let mut p = picker("app00\n", 3);
    p.set_pinned(Pinned::load(Some("app02")));
    p.move_selection(1);
    let at = layout(&p, (960, 540), (1920, 1080));
    let plan = rows(plan_list(&p, &at, Some(0), Some(0)));
    assert_eq!(plan[0].fill, RowFill::Hovered);
    assert_eq!(plan[1].fill, RowFill::Selected);
    assert_eq!(plan[2].fill, RowFill::Plain);
    let button = plan[0].forget.unwrap();
    assert_eq!(button.tone, ButtonTone::Hovered);
    assert_eq!((button.x, button.y), (at.card.forget_btn_right - 22, plan[0].y + 9));
    assert!(plan[1].forget.is_none() && plan[2].forget.is_none());
    assert!(plan[2].starred && !plan[1].starred);
    assert_eq!((plan[0].icon_x, plan[0].icon_y), (at.list_x + 8, plan[0].y + 8));
    assert_eq!((plan[0].name_x, plan[0].name_y), (at.list_x + 44, plan[0].y + 10));
    assert_eq!((plan[0].name_w, plan[1].name_w), (560 - 44 - 32, 560 - 44 - 8));
    p.move_selection(-1);
    let tone = |h| rows(plan_list(&p, &at, h, None))[0].forget.unwrap().tone;
    assert_eq!(tone(None), ButtonTone::Prominent);
}

#[test]
fn an_unselected_row_has_a_quiet_button() {
    let mut p = picker("app00\n", 3);
    p.move_selection(2);
    let at = layout(&p, (960, 540), (1920, 1080));
    let plan = rows(plan_list(&p, &at, Some(0), None));
    assert_eq!(plan[0].forget.unwrap().tone, ButtonTone::Quiet);
}

#[test]
fn a_list_without_rows() {
    let empty = picker("", 0);
    let at = layout(&empty, (960, 540), (1920, 1080));
    assert!(matches!(plan_list(&empty, &at, None, None), ListPlan::Loading));
    let mut none = picker("", 3);
    none.push_char('#');
    let at = layout(&none, (960, 540), (1920, 1080));
    match plan_list(&none, &at, None, None) {
        ListPlan::NoResults(x, y, w) => {
            assert_eq!((x, y, w), (at.list_x + 8, at.rows_y + 10, 544));
        }
        _ => panic!("rows"),
    }
}

#[test]
fn the_search_field_shows_the_query() {
    let mut p = picker("", 3);
    let at = layout(&p, (960, 540), (1920, 1080));
    let plan = plan_search(&p, &at);
    assert_eq!((plan.text.as_str(), plan.placeholder), ("Type to search", true));
    assert_eq!((plan.text_x, plan.text_y, plan.text_w), (at.list_x + 44, at.search_y + 13, 508));
    p.push_char('a');
    let plan = plan_search(&p, &at);
    assert_eq!((plan.text.as_str(), plan.placeholder), ("a", false));
    assert_eq!(plan_search(&picker("", 0), &at).text, "Loading apps…");
}

#[test]
fn the_hints_tell_how_to_unpin() {
    let labels = |pinned| -> Vec<String> { footer_hints(pinned).iter().map(|h| h.label.clone()).collect() };
    assert_eq!(labels(false), ["Open", "Navigate", "Pin", "Forget", "Close"]);
    assert_eq!(labels(true), ["Open", "Navigate", "★ Unpin", "Forget", "Close"]);
    assert!(footer_hints(true)[2].gold && !footer_hints(false)[2].gold);
    assert_eq!(footer_hints(false)[2].key, "^P");
}

#[test]
fn icons_have_a_letter_and_a_colour() {
    assert_eq!(fallback_letter("  (firefox)"), "F");
    assert_eq!(fallback_letter("ßtraße"), "SS");
    assert_eq!(fallback_letter("7-zip"), "7");
    assert_eq!(fallback_letter("--"), "?");
    assert_eq!(first_marked(&vec!['a', 'b', 'c'], &vec![false, true, true]), Some('b'));
    assert_eq!(first_marked(&vec!['a'], &vec![false]), None);
    assert_eq!(fallback_hue(0), (120, 108, 180));
    assert_eq!(fallback_hue(11), (170, 140, 110));
}

#[test]
fn a_card_can_lie_outside_the_screen() {
    let card = CardRect {
        x: -700,
        y: -500,
        w: 600,
        h: 400,
        recent_header_y: None,
        others_header_y: None,
        recent_count: 0,
        forget_btn_right: -112,
    };
    assert!(card.contains(-700, -500) && !card.contains(-100, -500));
    assert_eq!(card.item_at(-424, 8), Some(0));
    assert_eq!(card.item_at(-425, 8), None);
    assert_eq!(card.item_at(-300, 8), Some(3));
    assert_eq!(card.item_at(-300, 3), None);
    assert!(card.forget_button_hit(-113, -404));
}

#[test]
fn below_the_list_there_is_no_row() {
    let card = CardRect {
        x: 0,
        y: 0,
        w: 600,
        h: 164,
        recent_header_y: None,
        others_header_y: None,
        recent_count: 0,
        forget_btn_right: 574,
    };
    assert_eq!(card.row_top_for_y(75), None);
    assert_eq!(card.row_top_for_y(76), Some(76));
    assert_eq!(card.row_top_for_y(115), Some(76));
    assert_eq!(card.row_top_for_y(116), None);
    assert_eq!(card.row_top_for_y(1000), None);
    assert!(card.forget_button_hit(560, 86));
    assert!(!card.forget_button_hit(560, 126));
    assert!(!card.forget_button_hit(560, 1010));
    let two = CardRect { h: 226, recent_header_y: Some(76), others_header_y: Some(138), ..card };
    let two = CardRect { recent_count: 1, h: 248, ..two };
    assert_eq!(two.row_top_for_y(80), None);
    assert_eq!(two.row_top_for_y(137), Some(98));
    assert_eq!(two.row_top_for_y(138), None);
    assert_eq!(two.row_top_for_y(160), Some(160));
    assert_eq!(two.row_top_for_y(200), None);
}

#[test]
fn the_note_is_no_row() {
    let mut p = picker("app00\n", 1);
    p.toggle_pin_selected();
    assert!(p.welcome_toast());
    let at = layout(&p, (960, 540), (1920, 1080));
    let top = at.rows_y;
    assert_eq!(at.card.row_top_for_y(top + 39), Some(top));
    assert_eq!(at.card.row_top_for_y(top + 40), None);
    assert!(at.toast_y.unwrap() >= top + 40);
    assert!(at.card.forget_button_hit(at.card.forget_btn_right - 1, top + 20));
    assert!(!at.card.forget_button_hit(at.card.forget_btn_right - 1, top + 60));
    let plain = CardRect {
        x: 0,
        y: 0,
        w: 600,
        h: 208,
        recent_header_y: None,
        others_header_y: None,
        recent_count: 0,
        forget_btn_right: 574,
    };
    assert_eq!(plain.row_top_for_y(115), Some(76));
    assert_eq!(plain.row_top_for_y(130), None);
    let two_rows = CardRect { h: 204, ..plain };
    assert_eq!(two_rows.row_top_for_y(130), Some(116));
}
