//! The card that the picker is shown on: where its parts lie, and what a place on it belongs to.
//! All lengths are logical pixels.

use crate::picker::{
    is_picked_row, is_pin_row, lemma_picked_rows, picker_wf, recent_in_view,
    recent_rows_lead_the_view, view_end, PickerModel, PickerState, VISIBLE_ITEMS,
};
use crate::text::chars_of;
use vstd::prelude::*;

verus! {

/// The width of the card.
pub const CARD_WIDTH: u32 = 600;

/// The side of an icon.
pub const ICON_SIZE: u32 = 24;

/// The height of a row.
pub const ITEM_HEIGHT: i32 = 40;

/// The distance of the card's contents from its edges.
pub const CARD_PADDING: i32 = 20;

/// The height of the search field.
pub const SEARCH_HEIGHT: i32 = 44;

/// The distance between the search field and the list.
pub const SEPARATOR_GAP: i32 = 12;

/// The height of a heading in the list.
pub const SECTION_HEADER_H: i32 = 22;

/// The height of the line of hints at the bottom.
pub const FOOTER_HEIGHT: i32 = 28;

/// The height of the note that is shown once something was pinned.
pub const TOAST_HEIGHT: i32 = 44;

/// The side of the button that forgets a row.
pub const FORGET_BTN_SIZE: i32 = 22;

/// The distance of that button from the right end of its row.
pub const FORGET_BTN_INSET: i32 = 6;

/// The width of the scroll rail.
pub const SCROLL_RAIL_W: i32 = 3;

/// The distance between the rows and the scroll rail.
pub const SCROLL_RAIL_GAP: i32 = 4;

/// The least distance of the card from the edges of the screen.
pub const MARGIN: i32 = 20;

/// The distances between the parts of a row.
pub const SPACE_XS: i32 = 4;

pub const SPACE_SM: i32 = 8;

pub const SPACE_MD: i32 = 12;

/// Where the card lies, and what is needed to tell what a place on it belongs to.
#[derive(Clone, Copy, Debug)]
pub struct CardRect {
    pub x: i32,
    pub y: i32,
    pub w: u32,
    pub h: u32,
    /// The top of the heading of the recent rows, if there is one.
    pub recent_header_y: Option<i32>,
    /// The top of the heading of the other rows, if there is one.
    pub others_header_y: Option<i32>,
    /// The number of recent rows.
    pub recent_count: u32,
    /// The right end of the buttons that forget a row.
    pub forget_btn_right: i32,
}

/// The height of a heading that may not be there.
pub open spec fn heading(shown: bool) -> int {
    if shown {
        SECTION_HEADER_H as int
    } else {
        0
    }
}

impl CardRect {
    /// The top of the first row.
    pub open spec fn rows_top(self) -> int {
        self.y + CARD_PADDING + SEARCH_HEIGHT + SEPARATOR_GAP + heading(
            self.recent_header_y is Some,
        )
    }

    /// The top of a row. The heading of the other rows stands behind the recent ones.
    pub open spec fn row_top(self, i: int) -> int {
        self.rows_top() + ITEM_HEIGHT * i + heading(
            self.others_header_y is Some && i >= self.recent_count,
        )
    }

    /// Does the height `py` lie in row `i`?
    pub open spec fn in_row(self, i: int, py: int) -> bool {
        0 <= i && self.row_top(i) <= py < self.row_top(i) + ITEM_HEIGHT
    }

    /// The height that the card has for its rows and for the note on pinning.
    pub open spec fn list_room(self) -> int {
        self.h - 2 * CARD_PADDING - SEARCH_HEIGHT - SEPARATOR_GAP - FOOTER_HEIGHT - heading(
            self.recent_header_y is Some,
        ) - heading(self.others_header_y is Some)
    }

    /// The height of the note on pinning. The note is there where a whole number of rows leaves just
    /// the room for it: no number of rows is as high as it.
    pub open spec fn note_height(self) -> int {
        if self.list_room() >= TOAST_HEIGHT && (self.list_room() - TOAST_HEIGHT) % ITEM_HEIGHT as int
            == 0 {
            TOAST_HEIGHT as int
        } else {
            0
        }
    }

    /// The bottom of the list, above the note on pinning, the card's padding and its hints.
    pub open spec fn list_bottom(self) -> int {
        self.y + self.h - FOOTER_HEIGHT - CARD_PADDING - self.note_height()
    }

    /// Does the height `py` lie in the button of row `i`? A row below the list has none.
    pub open spec fn in_button(self, i: int, py: int) -> bool {
        let top = self.row_top(i) + (ITEM_HEIGHT - FORGET_BTN_SIZE) / 2;
        0 <= i && top <= py < top + FORGET_BTN_SIZE && py < self.list_bottom()
    }

    /// The one of the first `n` rows that the height `py` lies in.
    pub open spec fn row_hit(self, py: int, n: int) -> Option<int> {
        if exists|i: int| i < n && #[trigger] self.in_row(i, py) {
            Some(choose|i: int| i < n && #[trigger] self.in_row(i, py))
        } else {
            None
        }
    }

    /// Is this a place on the button of a row?
    pub open spec fn button_hit(self, px: int, py: int) -> bool {
        &&& self.forget_btn_right - FORGET_BTN_SIZE <= px < self.forget_btn_right
        &&& exists|i: int| #[trigger] self.in_button(i, py)
    }

    /// Is this a place on the card?
    pub open spec fn covers(self, px: int, py: int) -> bool {
        &&& self.x <= px < self.x + self.w
        &&& self.y <= py < self.y + self.h
    }

    /// Is this a place on the card?
    pub fn contains(&self, px: i32, py: i32) -> (r: bool)
        ensures
            r == self.covers(px as int, py as int),
    {
        px >= self.x && (px as i64) < self.x as i64 + self.w as i64 && py >= self.y && (py as i64)
            < self.y as i64 + self.h as i64
    }

    /// The row at the height `py`, however far down, and the top of that row.
    fn row_at(&self, py: i32) -> (r: Option<(i64, i64)>)
        ensures
            r matches Some(row) ==> self.in_row(row.0 as int, py as int) && row.1 == self.row_top(
                row.0 as int,
            ) && row.0 <= 0x1000_0000,
            r is None ==> forall|i: int| !#[trigger] self.in_row(i, py as int),
    {
        let item: i64 = ITEM_HEIGHT as i64;
        let header: i64 = SECTION_HEADER_H as i64;
        let y: i64 = py as i64;
        let first: i64 = self.y as i64 + (CARD_PADDING + SEARCH_HEIGHT + SEPARATOR_GAP) as i64 + (
        if self.recent_header_y.is_some() {
            header
        } else {
            0
        });
        if y < first {
            return None;
        }
        let post_recent: i64 = first + self.recent_count as i64 * item;
        let others = self.others_header_y.is_some();
        if others && y >= post_recent && y < post_recent + header {
            return None;
        }
        let offset: i64 = if others && y >= post_recent + header {
            header
        } else {
            0
        };
        let i: i64 = (y - first - offset) / item;
        assert(self.in_row(i as int, py as int));
        Some((i, first + offset + i * item))
    }

    /// The row in view at the height `py`. A heading belongs to no row.
    pub fn item_at(&self, py: i32, visible_count: usize) -> (r: Option<usize>)
        ensures
            r matches Some(i) ==> i < visible_count && self.in_row(i as int, py as int),
            r is None ==> forall|i: int|
                i < visible_count ==> !#[trigger] self.in_row(i, py as int),
            match self.row_hit(py as int, visible_count as int) {
                Some(i) => r matches Some(k) && k == i,
                None => r is None,
            },
    {
        match self.row_at(py) {
            Some((i, _)) => {
                let idx: usize = i as usize;
                if idx < visible_count {
                    proof {
                        let n = visible_count as int;
                        assert(idx < n && self.in_row(idx as int, py as int));
                        let k = choose|k: int| k < n && #[trigger] self.in_row(k, py as int);
                        self.rows_do_not_overlap(idx as int, k, py as int);
                    }
                    Some(idx)
                } else {
                    proof {
                        assert forall|k: int| k < visible_count implies !#[trigger] self.in_row(
                            k,
                            py as int,
                        ) by {
                            if self.in_row(k, py as int) {
                                self.rows_do_not_overlap(i as int, k, py as int);
                            }
                        }
                    }
                    None
                }
            },
            None => None,
        }
    }

    fn list_end(&self) -> (r: i64)
        ensures
            r == self.list_bottom(),
    {
        let header: i64 = SECTION_HEADER_H as i64;
        let note: i64 = TOAST_HEIGHT as i64;
        let mut room: i64 = self.h as i64 - (2 * CARD_PADDING + SEARCH_HEIGHT + SEPARATOR_GAP
            + FOOTER_HEIGHT) as i64;
        if self.recent_header_y.is_some() {
            room -= header;
        }
        if self.others_header_y.is_some() {
            room -= header;
        }
        let end: i64 = self.y as i64 + self.h as i64 - (FOOTER_HEIGHT + CARD_PADDING) as i64;
        if room >= note && (room - note) % ITEM_HEIGHT as i64 == 0 {
            end - note
        } else {
            end
        }
    }

    /// The top of the row at the height `py`; none where there is no row: on a heading, above the
    /// list and below it.
    pub fn row_top_for_y(&self, py: i32) -> (r: Option<i32>)
        ensures
            r is Some <==> py < self.list_bottom() && exists|i: int| #[trigger]
                self.in_row(i, py as int),
            r matches Some(top) ==> forall|i: int| #[trigger]
                self.in_row(i, py as int) ==> top == self.row_top(i),
    {
        if py as i64 >= self.list_end() {
            return None;
        }
        match self.row_at(py) {
            Some((i, top)) => {
                proof {
                    assert(self.in_row(i as int, py as int));
                    assert forall|k: int| #[trigger] self.in_row(k, py as int) implies k == i by {
                        self.rows_do_not_overlap(i as int, k, py as int);
                    }
                }
                Some(top as i32)
            },
            None => None,
        }
    }

    /// Is this a place on the button of a row? Whether that row has one is not asked.
    pub fn forget_button_hit(&self, px: i32, py: i32) -> (r: bool)
        ensures
            r == self.button_hit(px as int, py as int),
    {
        let right: i64 = self.forget_btn_right as i64;
        let left: i64 = right - FORGET_BTN_SIZE as i64;
        if (px as i64) < left || px as i64 >= right {
            return false;
        }
        match self.row_top_for_y(py) {
            Some(top) => {
                let gutter: i64 = ((ITEM_HEIGHT - FORGET_BTN_SIZE) / 2) as i64;
                let into: i64 = py as i64 - top as i64;
                let hit = into >= gutter && into < gutter + FORGET_BTN_SIZE as i64;
                proof {
                    let i = choose|i: int| #[trigger] self.in_row(i, py as int);
                    assert(hit == self.in_button(i, py as int));
                    assert forall|k: int| #[trigger] self.in_button(k, py as int) implies k
                        == i by {
                        assert(self.in_row(k, py as int));
                        self.rows_do_not_overlap(i, k, py as int);
                    }
                }
                hit
            },
            None => {
                assert forall|k: int| !#[trigger] self.in_button(k, py as int) by {
                    if self.in_button(k, py as int) {
                        assert(self.in_row(k, py as int));
                    }
                }
                false
            },
        }
    }

    /// A height lies in at most one row.
    pub proof fn rows_do_not_overlap(self, i: int, j: int, py: int)
        requires
            self.in_row(i, py),
            self.in_row(j, py),
        ensures
            i == j,
    {
    }

    /// A button lies in its row: a place on the button of a row is a place in that row.
    pub proof fn buttons_lie_in_their_rows(self, i: int, py: int)
        requires
            self.in_button(i, py),
        ensures
            self.in_row(i, py),
    {
    }

    /// A heading belongs to no row.
    pub proof fn headings_hit_nothing(self, i: int, py: int)
        requires
            self.recent_header_y matches Some(y) ==> y == self.y + CARD_PADDING + SEARCH_HEIGHT
                + SEPARATOR_GAP,
            self.others_header_y matches Some(y) ==> y == self.rows_top() + ITEM_HEIGHT
                * self.recent_count,
            (self.recent_header_y matches Some(y) && y <= py < y + SECTION_HEADER_H) || (
            self.others_header_y matches Some(y) && y <= py < y + SECTION_HEADER_H),
        ensures
            !self.in_row(i, py),
    {
    }
}

/// The number of rows that the list has room for: at least one, for what is said where there are
/// none.
pub open spec fn rows_shown(m: PickerModel) -> int {
    if m.apps.len() == 0 || m.matches.len() == 0 {
        1
    } else {
        view_end(m) - m.scroll
    }
}

/// Are the recent rows headed as such? They are while there are any in view.
pub open spec fn heads_recent(m: PickerModel) -> bool {
    recent_in_view(m) > 0
}

/// Are the other rows headed as such? They are while both kinds are in view.
pub open spec fn heads_others(m: PickerModel) -> bool {
    heads_recent(m) && view_end(m) - m.scroll > recent_in_view(m)
}

/// The height of the card.
pub open spec fn card_h(m: PickerModel) -> int {
    CARD_PADDING * 2 + SEARCH_HEIGHT + SEPARATOR_GAP + heading(heads_recent(m)) + heading(
        heads_others(m),
    ) + rows_shown(m) * ITEM_HEIGHT + (if m.toast {
        TOAST_HEIGHT as int
    } else {
        0
    }) + FOOTER_HEIGHT
}

fn list_rows(state: &PickerState) -> (r: i32)
    requires
        state.wf(),
    ensures
        r == rows_shown(state@),
        1 <= r <= 8,
{
    if state.loading() || state.match_count() == 0 {
        1
    } else {
        state.visible_count() as i32
    }
}

/// Are there headings above the recent rows and above the other ones?
fn section_headers(state: &PickerState) -> (r: (bool, bool))
    requires
        state.wf(),
    ensures
        r == (heads_recent(state@), heads_others(state@)),
{
    let recent: usize = state.visible_recent_count();
    if recent == 0 {
        return (false, false);
    }
    (true, state.visible_count() > recent)
}

/// The height of the card.
pub fn card_height(state: &PickerState) -> (r: i32)
    requires
        state.wf(),
    ensures
        r == card_h(state@),
        164 <= r <= 532,
{
    let (recent, others) = section_headers(state);
    let mut h: i32 = CARD_PADDING * 2 + SEARCH_HEIGHT + SEPARATOR_GAP + FOOTER_HEIGHT;
    if recent {
        h += SECTION_HEADER_H;
    }
    if others {
        h += SECTION_HEADER_H;
    }
    if state.welcome_toast() {
        h += TOAST_HEIGHT;
    }
    h + list_rows(state) * ITEM_HEIGHT
}

/// Where a card of this size goes along one axis: around the centre, but within the margins.
pub open spec fn card_pos(center: int, size: int, surface: int) -> int {
    let most = if surface - size - MARGIN < MARGIN {
        MARGIN as int
    } else {
        surface - size - MARGIN
    };
    let raw = center - size / 2;
    if raw < MARGIN {
        MARGIN as int
    } else if raw > most {
        most
    } else {
        raw
    }
}

fn place_card(center: i32, size: i32, surface: u32) -> (r: i32)
    requires
        0 <= size,
    ensures
        r == card_pos(center as int, size as int, surface as int),
{
    let raw: i64 = center as i64 - (size / 2) as i64;
    let room: i64 = surface as i64 - size as i64 - MARGIN as i64;
    let most: i64 = if room < MARGIN as i64 {
        MARGIN as i64
    } else {
        room
    };
    if raw < MARGIN as i64 {
        MARGIN
    } else if raw > most {
        most as i32
    } else {
        raw as i32
    }
}

/// Where the parts of the card lie.
#[derive(Clone, Copy, Debug)]
pub struct CardLayout {
    pub card: CardRect,
    /// The left end of the search field, the separators and the list.
    pub list_x: i32,
    /// The width of those.
    pub list_w: i32,
    /// The top of the search field.
    pub search_y: i32,
    /// The top of the line under the search field.
    pub separator_y: i32,
    /// The top of the first row.
    pub rows_y: i32,
    /// The width of a row.
    pub row_w: i32,
    /// Is there a scroll rail?
    pub needs_rail: bool,
    /// The top of the note on pinning, if it is shown.
    pub toast_y: Option<i32>,
    /// The top of the hints.
    pub footer_y: i32,
    /// Is the selected row the pinned one?
    pub pinned_selected: bool,
}

/// The card of a picker, around a place on the screen.
pub open spec fn card_of(m: PickerModel, center: (int, int), surface: (int, int)) -> CardRect {
    let x = card_pos(center.0, CARD_WIDTH as int, surface.0);
    let y = card_pos(center.1, card_h(m), surface.1);
    let list_y = y + CARD_PADDING + SEARCH_HEIGHT + SEPARATOR_GAP;
    CardRect {
        x: x as i32,
        y: y as i32,
        w: CARD_WIDTH,
        h: card_h(m) as u32,
        recent_header_y: if heads_recent(m) {
            Some(list_y as i32)
        } else {
            None
        },
        others_header_y: if heads_others(m) {
            Some((list_y + SECTION_HEADER_H + recent_in_view(m) * ITEM_HEIGHT) as i32)
        } else {
            None
        },
        recent_count: recent_in_view(m) as u32,
        forget_btn_right: (x + CARD_PADDING + row_width(m) - FORGET_BTN_INSET) as i32,
    }
}

/// The width of a row. A scroll rail makes it less.
pub open spec fn row_width(m: PickerModel) -> int {
    CARD_WIDTH - 2 * CARD_PADDING - (if m.matches.len() > VISIBLE_ITEMS {
        SCROLL_RAIL_W + SCROLL_RAIL_GAP
    } else {
        0
    })
}

/// The parts of a picker's card.
pub open spec fn layout_of(m: PickerModel, center: (int, int), surface: (int, int)) -> CardLayout {
    let card = card_of(m, center, surface);
    let footer_y = card.y + card_h(m) - FOOTER_HEIGHT;
    CardLayout {
        card,
        list_x: (card.x + CARD_PADDING) as i32,
        list_w: (CARD_WIDTH - 2 * CARD_PADDING) as i32,
        search_y: (card.y + CARD_PADDING) as i32,
        separator_y: (card.y + CARD_PADDING + SEARCH_HEIGHT + SEPARATOR_GAP / 2) as i32,
        rows_y: card.rows_top() as i32,
        row_w: row_width(m) as i32,
        needs_rail: m.matches.len() > VISIBLE_ITEMS,
        toast_y: if m.toast {
            Some((footer_y - TOAST_HEIGHT) as i32)
        } else {
            None
        },
        footer_y: footer_y as i32,
        pinned_selected: is_pin_row(m, m.selected),
    }
}

/// The far edges of a card around this place are 32-bit numbers.
pub open spec fn layout_fits(m: PickerModel, center: (i32, i32), surface: (u32, u32)) -> bool {
    &&& card_pos(center.0 as int, CARD_WIDTH as int, surface.0 as int) + CARD_WIDTH <= i32::MAX
    &&& card_pos(center.1 as int, card_h(m), surface.1 as int) + card_h(m) <= i32::MAX
}

/// Lays out the card of a picker around a place on a screen of this size.
pub fn layout(state: &PickerState, center: (i32, i32), surface: (u32, u32)) -> (r: CardLayout)
    requires
        state.wf(),
        layout_fits(state@, center, surface),
    ensures
        r == layout_of(
            state@,
            (center.0 as int, center.1 as int),
            (surface.0 as int, surface.1 as int),
        ),
        r.rows_y == r.card.rows_top(),
        r.card.x == card_pos(center.0 as int, 600, surface.0 as int),
        r.card.y == card_pos(center.1 as int, card_h(state@), surface.1 as int),
{
    let cw: i32 = CARD_WIDTH as i32;
    let ch: i32 = card_height(state);
    let x: i32 = place_card(center.0, cw, surface.0);
    let y: i32 = place_card(center.1, ch, surface.1);
    let (show_recent, show_others) = section_headers(state);
    let recent: usize = state.visible_recent_count();
    let list_x: i32 = x + CARD_PADDING;
    let list_w: i32 = cw - 2 * CARD_PADDING;
    let mut rows_y: i32 = y + CARD_PADDING + SEARCH_HEIGHT + SEPARATOR_GAP;
    let recent_header_y: Option<i32> = if show_recent {
        Some(rows_y)
    } else {
        None
    };
    if show_recent {
        rows_y += SECTION_HEADER_H;
    }
    let others_header_y: Option<i32> = if show_others {
        Some(rows_y + recent as i32 * ITEM_HEIGHT)
    } else {
        None
    };
    let needs_rail = state.match_count() > VISIBLE_ITEMS;
    let row_w: i32 = if needs_rail {
        list_w - SCROLL_RAIL_W - SCROLL_RAIL_GAP
    } else {
        list_w
    };
    let card = CardRect {
        x,
        y,
        w: CARD_WIDTH,
        h: ch as u32,
        recent_header_y,
        others_header_y,
        recent_count: recent as u32,
        forget_btn_right: list_x + row_w - FORGET_BTN_INSET,
    };
    let footer_y: i32 = y + ch - FOOTER_HEIGHT;
    let toast_y: Option<i32> = if state.welcome_toast() {
        Some(footer_y - TOAST_HEIGHT)
    } else {
        None
    };
    CardLayout {
        card,
        list_x,
        list_w,
        search_y: y + CARD_PADDING,
        separator_y: y + CARD_PADDING + SEARCH_HEIGHT + SEPARATOR_GAP / 2,
        rows_y,
        row_w,
        needs_rail,
        toast_y,
        footer_y,
        pinned_selected: state.is_pinned_row(state.selected_index()),
    }
}

/// How a row is filled.
#[derive(Clone, Copy, Debug, PartialEq, Eq, Structural)]
pub enum RowFill {
    Selected,
    Hovered,
    Plain,
}

/// How the button that forgets a row is shown.
#[derive(Clone, Copy, Debug, PartialEq, Eq, Structural)]
pub enum ButtonTone {
    /// The pointer is on it.
    Hovered,
    /// Its row is selected.
    Prominent,
    Quiet,
}

/// The button that forgets a row: its top-left corner, and how it is shown.
#[derive(Clone, Copy, Debug, PartialEq, Eq, Structural)]
pub struct ForgetButton {
    pub x: i32,
    pub y: i32,
    pub tone: ButtonTone,
}

/// How one row is drawn.
#[derive(Clone, Copy, Debug)]
pub struct RowPlan {
    /// The row's place in the list.
    pub abs: usize,
    /// The top of the row.
    pub y: i32,
    pub fill: RowFill,
    /// The top-left corner of the icon.
    pub icon_x: i32,
    pub icon_y: i32,
    /// The top-left corner of the name.
    pub name_x: i32,
    pub name_y: i32,
    /// The room for the name.
    pub name_w: i32,
    /// Is there a star behind the name?
    pub starred: bool,
    pub forget: Option<ForgetButton>,
}

/// How the list is drawn.
pub enum ListPlan {
    /// Nothing is drawn while the applications are being looked for.
    Loading,
    /// A line says that there are no results: its top-left corner and its width.
    NoResults(i32, i32, i32),
    /// The rows, from top to bottom.
    Rows(Vec<RowPlan>),
}

/// How row `i` of those in view is drawn. The button is there on rows that were picked before,
/// while they are selected or the pointer is on them; the room for it is kept in any case.
pub open spec fn row_plan(
    m: PickerModel,
    at: CardLayout,
    i: int,
    hovered: Option<usize>,
    forget_hovered: Option<usize>,
) -> RowPlan {
    let abs = m.scroll + i;
    let y = at.card.row_top(i);
    let selected = abs == m.selected;
    let under = hovered matches Some(h) && h == i;
    let picked = is_picked_row(m, abs);
    let name_x = at.list_x + SPACE_SM + ICON_SIZE + SPACE_MD;
    RowPlan {
        abs: abs as usize,
        y: y as i32,
        fill: if selected {
            RowFill::Selected
        } else if under {
            RowFill::Hovered
        } else {
            RowFill::Plain
        },
        icon_x: (at.list_x + SPACE_SM) as i32,
        icon_y: (y + (ITEM_HEIGHT - ICON_SIZE) / 2) as i32,
        name_x: name_x as i32,
        name_y: (y + 10) as i32,
        name_w: (at.row_w - (name_x - at.list_x) - (if picked {
            FORGET_BTN_SIZE + FORGET_BTN_INSET + SPACE_XS
        } else {
            SPACE_SM as int
        })) as i32,
        starred: is_pin_row(m, abs),
        forget: if picked && (selected || under) {
            Some(
                ForgetButton {
                    x: (at.card.forget_btn_right - FORGET_BTN_SIZE) as i32,
                    y: (y + (ITEM_HEIGHT - FORGET_BTN_SIZE) / 2) as i32,
                    tone: if forget_hovered matches Some(h) && h == i {
                        ButtonTone::Hovered
                    } else if selected {
                        ButtonTone::Prominent
                    } else {
                        ButtonTone::Quiet
                    },
                },
            )
        } else {
            None
        },
    }
}

/// Is this how the list is drawn? There is nothing while the applications are being looked for, a
/// line that says so where none match, and else the rows in view.
pub open spec fn is_list_plan(
    m: PickerModel,
    at: CardLayout,
    hovered: Option<usize>,
    forget_hovered: Option<usize>,
    plan: ListPlan,
) -> bool {
    match plan {
        ListPlan::Loading => m.apps.len() == 0,
        ListPlan::NoResults(x, y, w) => {
            &&& m.apps.len() > 0
            &&& m.matches.len() == 0
            &&& x == at.list_x + SPACE_SM
            &&& y == at.rows_y + 10
            &&& w == at.list_w - 2 * SPACE_SM
        },
        ListPlan::Rows(rows) => {
            &&& m.apps.len() > 0
            &&& m.matches.len() > 0
            &&& rows@.len() == view_end(m) - m.scroll
            &&& forall|i: int|
                0 <= i < rows@.len() ==> #[trigger] rows@[i] == row_plan(
                    m,
                    at,
                    i,
                    hovered,
                    forget_hovered,
                )
        },
    }
}

fn is_row(rel: Option<usize>, i: usize) -> (r: bool)
    ensures
        r == (rel matches Some(h) && h == i),
{
    match rel {
        Some(h) => h == i,
        None => false,
    }
}

/// Plans the list of a card that was laid out for this picker. The pointer may be on one of the
/// rows in view, and on the button of one.
pub fn plan_list(
    state: &PickerState,
    at: &CardLayout,
    hovered: Option<usize>,
    forget_hovered: Option<usize>,
) -> (r: ListPlan)
    requires
        state.wf(),
        at.card.forget_btn_right >= i32::MIN + FORGET_BTN_SIZE,
        at.rows_y == at.card.rows_top(),
        at.card.y <= i32::MAX - 440,
        0 <= at.list_x <= i32::MAX - 44,
        0 <= at.list_w <= 600,
        0 <= at.row_w <= 600,
    ensures
        is_list_plan(state@, *at, hovered, forget_hovered, r),
{
    if state.loading() {
        return ListPlan::Loading;
    }
    if state.match_count() == 0 {
        return ListPlan::NoResults(
            at.list_x + SPACE_SM,
            at.rows_y + 10,
            at.list_w - 2 * SPACE_SM,
        );
    }
    let count: usize = state.visible_count();
    let icon: i32 = ICON_SIZE as i32;
    let name_x: i32 = at.list_x + SPACE_SM + icon + SPACE_MD;
    let mut rows: Vec<RowPlan> = Vec::new();
    let mut i: usize = 0;
    while i < count
        invariant
            state.wf(),
            at.card.forget_btn_right >= i32::MIN + FORGET_BTN_SIZE,
            at.rows_y == at.card.rows_top(),
            at.card.y <= i32::MAX - 440,
            0 <= at.list_x <= i32::MAX - 44,
            0 <= at.row_w <= 600,
            i <= count <= 8,
            icon == ICON_SIZE,
            count == view_end(state@) - state@.scroll,
            name_x == at.list_x + SPACE_SM + ICON_SIZE + SPACE_MD,
            rows@.len() == i,
            forall|k: int|
                0 <= k < i ==> #[trigger] rows@[k] == row_plan(
                    state@,
                    *at,
                    k,
                    hovered,
                    forget_hovered,
                ),
        decreases count - i,
    {
        let abs: usize = state.scroll_offset() + i;
        let mut y: i32 = at.rows_y + i as i32 * ITEM_HEIGHT;
        if at.card.others_header_y.is_some() && i >= at.card.recent_count as usize {
            y += SECTION_HEADER_H;
        }
        let selected = abs == state.selected_index();
        let under = is_row(hovered, i);
        let picked = state.is_history_row(abs);
        let fill = if selected {
            RowFill::Selected
        } else if under {
            RowFill::Hovered
        } else {
            RowFill::Plain
        };
        let reserve: i32 = if picked {
            FORGET_BTN_SIZE + FORGET_BTN_INSET + SPACE_XS
        } else {
            SPACE_SM
        };
        let forget: Option<ForgetButton> = if picked && (selected || under) {
            let tone = if is_row(forget_hovered, i) {
                ButtonTone::Hovered
            } else if selected {
                ButtonTone::Prominent
            } else {
                ButtonTone::Quiet
            };
            Some(
                ForgetButton {
                    x: at.card.forget_btn_right - FORGET_BTN_SIZE,
                    y: y + (ITEM_HEIGHT - FORGET_BTN_SIZE) / 2,
                    tone,
                },
            )
        } else {
            None
        };
        let row = RowPlan {
            abs,
            y,
            fill,
            icon_x: at.list_x + SPACE_SM,
            icon_y: y + (ITEM_HEIGHT - icon) / 2,
            name_x,
            name_y: y + 10,
            name_w: at.row_w - (name_x - at.list_x) - reserve,
            starred: state.is_pinned_row(abs),
            forget,
        };
        assert(row == row_plan(state@, *at, i as int, hovered, forget_hovered));
        rows.push(row);
        i += 1;
    }
    ListPlan::Rows(rows)
}

/// What the search field shows.
#[derive(Debug)]
pub struct SearchPlan {
    /// The top-left corner of the glass.
    pub prompt_x: i32,
    pub prompt_y: i32,
    /// The top-left corner of the text.
    pub text_x: i32,
    pub text_y: i32,
    /// The room for the text.
    pub text_w: i32,
    pub text: String,
    /// Does the text stand in for a query that is empty?
    pub placeholder: bool,
}

/// The text in the search field.
pub open spec fn search_text(m: PickerModel) -> Seq<char> {
    if m.query.len() > 0 {
        m.query
    } else if m.apps.len() == 0 {
        "Loading apps…"@
    } else {
        "Type to search"@
    }
}

/// Is this what the search field shows?
pub open spec fn is_search_plan(m: PickerModel, at: CardLayout, plan: SearchPlan) -> bool {
    &&& plan.prompt_x == at.list_x + 10
    &&& plan.prompt_y == at.search_y + 13
    &&& plan.text_x == at.list_x + SPACE_SM + ICON_SIZE + SPACE_MD
    &&& plan.text_y == at.search_y + 13
    &&& plan.text_w == at.list_w - (SPACE_SM + ICON_SIZE + SPACE_MD) - SPACE_SM
    &&& plan.text@ == search_text(m)
    &&& plan.placeholder == (m.query.len() == 0)
}

/// Plans the search field of a card.
pub fn plan_search(state: &PickerState, at: &CardLayout) -> (r: SearchPlan)
    requires
        0 <= at.list_x <= i32::MAX - 44,
        0 <= at.search_y <= i32::MAX - 14,
        0 <= at.list_w <= 600,
    ensures
        is_search_plan(state@, *at, r),
{
    let text_x: i32 = at.list_x + SPACE_SM + ICON_SIZE as i32 + SPACE_MD;
    let query = state.query();
    let placeholder = query.is_empty();
    let text = if !placeholder {
        query.to_owned()
    } else if state.loading() {
        "Loading apps…".to_owned()
    } else {
        "Type to search".to_owned()
    };
    SearchPlan {
        prompt_x: at.list_x + SPACE_SM + 2,
        prompt_y: at.search_y + (SEARCH_HEIGHT - 18) / 2,
        text_x,
        text_y: at.search_y + (SEARCH_HEIGHT - 15) / 2 - 1,
        text_w: at.list_w - (text_x - at.list_x) - SPACE_SM,
        text,
        placeholder,
    }
}

/// One of the hints at the bottom of the card.
#[derive(Debug)]
pub struct Hint {
    pub key: String,
    pub label: String,
    /// Is the label shown in the colour of the star?
    pub gold: bool,
}

/// Is this the hint for a key with this label?
pub open spec fn is_hint(h: Hint, key: Seq<char>, label: Seq<char>, gold: bool) -> bool {
    h.key@ == key && h.label@ == label && h.gold == gold
}

fn hint(key: &str, label: &str, gold: bool) -> (r: Hint)
    ensures
        is_hint(r, key@, label@, gold),
{
    Hint { key: key.to_owned(), label: label.to_owned(), gold }
}

/// The hints at the bottom of the card. The one on pinning says how to undo it where the selected
/// row is the pinned one.
pub fn footer_hints(pinned_selected: bool) -> (r: Vec<Hint>)
    ensures
        r@.len() == 5,
        is_hint(r@[0], "↵"@, "Open"@, false),
        is_hint(r@[1], "↑↓"@, "Navigate"@, false),
        pinned_selected ==> is_hint(r@[2], "^P"@, "★ Unpin"@, true),
        !pinned_selected ==> is_hint(r@[2], "^P"@, "Pin"@, false),
        is_hint(r@[3], "Del"@, "Forget"@, false),
        is_hint(r@[4], "Esc"@, "Close"@, false),
{
    let mut out: Vec<Hint> = Vec::new();
    out.push(hint("↵", "Open", false));
    out.push(hint("↑↓", "Navigate", false));
    if pinned_selected {
        out.push(hint("^P", "★ Unpin", true));
    } else {
        out.push(hint("^P", "Pin", false));
    }
    out.push(hint("Del", "Forget", false));
    out.push(hint("Esc", "Close", false));
    out
}

/// Is the character a letter or a number, as `char::is_alphanumeric` has it?
pub uninterp spec fn alphanumeric(c: char) -> bool;

/// The character in upper case, as `char::to_uppercase` writes it.
pub uninterp spec fn uppercase(c: char) -> Seq<char>;

/// Calls `char::is_alphanumeric`. The claim: the result depends on the character alone.
#[verifier::external_body]
fn is_alphanumeric(c: char) -> (r: bool)
    ensures
        r == alphanumeric(c),
{
    c.is_alphanumeric()
}

/// Calls `char::to_uppercase` and puts its characters in a string. The claim: the result depends on
/// the character alone.
#[verifier::external_body]
fn to_uppercase(c: char) -> (r: String)
    ensures
        r@ == uppercase(c),
{
    c.to_uppercase().to_string()
}

/// The first character that has a mark.
pub open spec fn first_marked_in(chars: Seq<char>, marks: Seq<bool>) -> Option<char>
    decreases chars.len(),
{
    if chars.len() == 0 {
        None
    } else {
        match first_marked_in(chars.drop_last(), marks) {
            Some(c) => Some(c),
            None => if marks[chars.len() - 1] {
                Some(chars.last())
            } else {
                None
            },
        }
    }
}

/// The first character that has a mark.
pub fn first_marked(chars: &Vec<char>, marks: &Vec<bool>) -> (r: Option<char>)
    requires
        chars@.len() == marks@.len(),
    ensures
        r == first_marked_in(chars@, marks@),
{
    let mut best: Option<char> = None;
    let mut i: usize = 0;
    assert(chars@.take(0) =~= Seq::<char>::empty());
    while i < chars.len()
        invariant
            i <= chars@.len(),
            chars@.len() == marks@.len(),
            best == first_marked_in(chars@.take(i as int), marks@),
        decreases chars@.len() - i,
    {
        assert(chars@.take(i + 1).drop_last() =~= chars@.take(i as int));
        if best.is_none() && marks[i] {
            best = Some(chars[i]);
        }
        i += 1;
    }
    assert(chars@.take(i as int) =~= chars@);
    best
}

/// The letter on the icon of an application that has none of its own: the first letter or number
/// of its name, in upper case, or else a question mark.
pub fn fallback_letter(name: &str) -> (r: String)
    ensures
        r@ == (match first_marked_in(
            name@,
            Seq::new(name@.len(), |i: int| alphanumeric(name@[i])),
        ) {
            Some(c) => uppercase(c),
            None => "?"@,
        }),
{
    let chars = chars_of(name);
    let mut marks: Vec<bool> = Vec::new();
    let mut i: usize = 0;
    while i < chars.len()
        invariant
            i <= chars@.len(),
            chars@ == name@,
            marks@.len() == i,
            forall|k: int| 0 <= k < i ==> #[trigger] marks@[k] == alphanumeric(name@[k]),
        decreases chars@.len() - i,
    {
        marks.push(is_alphanumeric(chars[i]));
        i += 1;
    }
    assert(marks@ =~= Seq::new(name@.len(), |i: int| alphanumeric(name@[i])));
    match first_marked(&chars, &marks) {
        Some(c) => to_uppercase(c),
        None => "?".to_owned(),
    }
}

/// The colour of the icon of an application that has none of its own. The colours take turns.
pub fn fallback_hue(seed: usize) -> (r: (u8, u8, u8))
    ensures
        r == hue(seed as int),
{
    let k: usize = seed % 6;
    if k == 0 {
        (120, 108, 180)
    } else if k == 1 {
        (146, 118, 180)
    } else if k == 2 {
        (108, 140, 180)
    } else if k == 3 {
        (180, 128, 160)
    } else if k == 4 {
        (140, 160, 180)
    } else {
        (170, 140, 110)
    }
}

/// The colours that icons take turns in.
pub open spec fn hue(seed: int) -> (u8, u8, u8) {
    let k = seed % 6;
    if k == 0 {
        (120, 108, 180)
    } else if k == 1 {
        (146, 118, 180)
    } else if k == 2 {
        (108, 140, 180)
    } else if k == 3 {
        (180, 128, 160)
    } else if k == 4 {
        (140, 160, 180)
    } else {
        (170, 140, 110)
    }
}

/// The card keeps its margins where the screen has room for them.
pub proof fn card_keeps_its_margins(center: int, size: int, surface: int)
    requires
        size + 2 * MARGIN <= surface,
    ensures
        MARGIN <= card_pos(center, size, surface),
        card_pos(center, size, surface) + size <= surface - MARGIN,
{
}

/// The card lies around the place it was asked for where there is room.
pub proof fn card_is_centred(center: int, size: int, surface: int)
    requires
        MARGIN <= center - size / 2,
        center - size / 2 + size <= surface - MARGIN,
    ensures
        card_pos(center, size, surface) == center - size / 2,
{
}

/// Every row in view lies above the note and the hints, and the rows stand one below the other.
pub proof fn rows_lie_on_the_card(m: PickerModel, center: (int, int), surface: (int, int), i: int)
    requires
        picker_wf(m),
        m.matches.len() > 0,
        0 <= i < view_end(m) - m.scroll,
        0 <= card_pos(center.0, 600, surface.0) <= i32::MAX - 1000,
        0 <= card_pos(center.1, card_h(m), surface.1) <= i32::MAX - 1000,
    ensures
        ({
            let at = layout_of(m, center, surface);
            &&& at.card.rows_top() <= at.card.row_top(i)
            &&& at.card.row_top(i) + ITEM_HEIGHT <= at.card.list_bottom() < at.footer_y
            &&& at.toast_y matches Some(y) ==> at.card.list_bottom() <= y
            &&& i > 0 ==> at.card.row_top(i - 1) + ITEM_HEIGHT <= at.card.row_top(i)
        }),
{
    lemma_recent_bound(m);
    list_ends_with_its_rows(m, center, surface);
}

/// The list ends with the last of the rows that it has room for, with or without the note on pinning.
pub proof fn list_ends_with_its_rows(m: PickerModel, center: (int, int), surface: (int, int))
    requires
        picker_wf(m),
        0 <= card_pos(center.1, card_h(m), surface.1) <= i32::MAX - 1000,
    ensures
        ({
            let card = card_of(m, center, surface);
            &&& card.note_height() == (if m.toast {
                TOAST_HEIGHT as int
            } else {
                0
            })
            &&& card.list_bottom() == card.rows_top() + rows_shown(m) * ITEM_HEIGHT + heading(
                heads_others(m),
            )
        }),
{
    lemma_recent_bound(m);
}

proof fn lemma_recent_bound(m: PickerModel)
    requires
        picker_wf(m),
    ensures
        recent_in_view(m) <= view_end(m) - m.scroll,
{
    lemma_picked_rows(m, view_end(m));
}

/// What is painted is what is hit: a place in a painted row finds that row, and a place on a
/// painted button finds that button.
pub proof fn painted_rows_are_hit(
    m: PickerModel,
    at: CardLayout,
    i: int,
    hovered: Option<usize>,
    forget_hovered: Option<usize>,
    px: int,
    py: int,
)
    requires
        at.card.forget_btn_right >= i32::MIN + FORGET_BTN_SIZE,
        at.card.y <= i32::MAX - 440,
        at.card.row_top(i) + ITEM_HEIGHT <= at.card.list_bottom(),
        0 <= i < 8,
        0 <= m.scroll,
    ensures
        ({
            let row = row_plan(m, at, i, hovered, forget_hovered);
            &&& row.y <= py < row.y + ITEM_HEIGHT ==> at.card.in_row(i, py)
            &&& row.forget matches Some(b) ==> (b.y <= py < b.y + FORGET_BTN_SIZE && b.x <= px
                < b.x + FORGET_BTN_SIZE ==> {
                &&& at.card.in_button(i, py)
                &&& at.card.forget_btn_right - FORGET_BTN_SIZE <= px < at.card.forget_btn_right
            })
        }),
{
}

/// The rows under the heading of the recent ones are those that were picked before.
pub proof fn headed_rows_are_recent(m: PickerModel, center: (int, int), surface: (int, int), i: int)
    requires
        picker_wf(m),
        m.query.len() == 0,
        0 <= i < view_end(m) - m.scroll,
    ensures
        is_picked_row(m, m.scroll + i) <==> i < card_of(m, center, surface).recent_count,
{
    recent_rows_lead_the_view(m, m.scroll + i);
    lemma_recent_bound(m);
}

/// Rows are 40 pixels high and follow each other without a gap, except for the heading of 22 pixels
/// between the recent rows and the others. The first one stands 76 pixels below the card's top, or
/// below the heading of the recent rows where there is one.
pub proof fn rows_follow_each_other(card: CardRect, i: int, py: int)
    requires
        i >= 0,
    ensures
        card.others_header_y is None || card.recent_count > 0 ==> card.row_top(0) == card.y + 76 + (
        if card.recent_header_y is Some {
            22int
        } else {
            0
        }),
        card.row_top(i + 1) - card.row_top(i) == (if card.others_header_y is Some && i + 1
            == card.recent_count {
            62int
        } else {
            40
        }),
        card.in_row(i, py) <==> card.row_top(i) <= py < card.row_top(i) + 40,
        !card.in_row(-1 - i, py),
{
}

/// The button of a row is 22 pixels high and wide and stands in the middle of the row's height.
pub proof fn buttons_stand_in_the_middle(card: CardRect, i: int, px: int, py: int)
    requires
        i >= 0,
        card.row_top(i) + 40 <= card.list_bottom(),
    ensures
        card.in_button(i, py) <==> card.row_top(i) + 9 <= py < card.row_top(i) + 40 - 9,
        card.in_row(i, py) ==> (card.button_hit(px, py) <==> card.row_top(i) + 9 <= py
            < card.row_top(i) + 40 - 9 && card.forget_btn_right - 22 <= px < card.forget_btn_right),
{
    if card.in_row(i, py) && card.button_hit(px, py) {
        let j = choose|j: int| #[trigger] card.in_button(j, py);
        card.buttons_lie_in_their_rows(j, py);
        card.rows_do_not_overlap(i, j, py);
    }
    if card.row_top(i) + 9 <= py < card.row_top(i) + 40 - 9 {
        assert(card.in_button(i, py));
    }
}

/// A place is on the card if it lies between its sides; the far sides no longer belong to it.
pub proof fn card_ends_at_its_sides(card: CardRect, px: int, py: int)
    ensures
        card.covers(px, py) <==> 0 <= px - card.x < card.w && 0 <= py - card.y < card.h,
{
}

/// The row at a height is the one among the first rows that the height lies in, if there is one.
pub proof fn row_at_a_height(card: CardRect, py: int, n: int, i: int)
    requires
        i >= 0,
    ensures
        card.row_hit(py, n) == Some(i) <==> i < n && card.row_top(i) <= py < card.row_top(i) + 40,
        card.row_hit(py, n) is None ==> !(i < n && card.row_top(i) <= py < card.row_top(i) + 40),
        card.row_hit(py, n) matches Some(j) ==> 0 <= j < n,
{
    if i < n && card.row_top(i) <= py < card.row_top(i) + 40 {
        assert(card.in_row(i, py));
        let j = choose|j: int| j < n && #[trigger] card.in_row(j, py);
        card.rows_do_not_overlap(i, j, py);
    }
}

/// The card is as high as its parts: the search field and the gaps around it, one line for each row
/// or for what stands in their place, the headings, the note on pinning, and the hints.
pub proof fn card_is_as_high_as_its_parts(m: PickerModel)
    requires
        picker_wf(m),
    ensures
        ({
            let shown = if m.matches.len() == 0 || m.apps.len() == 0 {
                1
            } else if m.matches.len() - m.scroll < 8 {
                m.matches.len() - m.scroll
            } else {
                8
            };
            let recent = recent_in_view(m);
            let headings = (if recent > 0 {
                1int
            } else {
                0
            }) + (if recent > 0 && m.scroll + recent < view_end(m) {
                1int
            } else {
                0
            });
            card_h(m) == 124 + 40 * shown + 22 * headings + (if m.toast {
                44int
            } else {
                0
            })
        }),
{
}

/// The card keeps 20 pixels to every side of the screen. It is centred where there is room, is
/// pushed in just as far as it reaches over, and starts at the margin if it is too large.
pub proof fn card_goes_where_there_is_room(center: int, size: int, surface: int)
    requires
        size >= 0,
    ensures
        ({
            let p = card_pos(center, size, surface);
            &&& p >= 20
            &&& size + 40 <= surface ==> p + size + 20 <= surface
            &&& size + 40 > surface ==> p == 20
            &&& center - size / 2 < 20 ==> p == 20
            &&& size + 40 <= surface && center - size / 2 + size + 20 > surface ==> p + size + 20
                == surface
            &&& 20 <= center - size / 2 && center - size / 2 + size + 20 <= surface ==> 0 <= 2 * p
                + size - 2 * center <= 1
        }),
{
}

/// The parts of the card stand where they belong: the search field inside the padding, the headings
/// above the rows they head, the list between the paddings and beside the rail, the note on pinning
/// above the hints, and the hints at the bottom.
pub proof fn parts_stand_where_they_belong(m: PickerModel, center: (i32, i32), surface: (u32, u32))
    requires
        picker_wf(m),
        layout_fits(m, center, surface),
    ensures
        ({
            let at = layout_of(
                m,
                (center.0 as int, center.1 as int),
                (surface.0 as int, surface.1 as int),
            );
            let card = at.card;
            let recent = recent_in_view(m);
            &&& card.w == 600 && card.h == card_h(m)
            &&& card.x == card_pos(center.0 as int, 600, surface.0 as int)
            &&& card.y == card_pos(center.1 as int, card_h(m), surface.1 as int)
            &&& at.list_x == card.x + 20 && at.list_w == 560
            &&& at.search_y == card.y + 20
            &&& at.separator_y == card.y + 70
            &&& card.recent_count == recent
            &&& card.recent_header_y == (if recent > 0 {
                Some((card.y + 76) as i32)
            } else {
                None
            })
            &&& card.others_header_y == (if recent > 0 && m.scroll + recent < view_end(m) {
                Some((card.y + 98 + 40 * recent) as i32)
            } else {
                None
            })
            &&& at.rows_y == card.y + 76 + (if recent > 0 {
                22int
            } else {
                0
            })
            &&& at.needs_rail <==> m.matches.len() > 8
            &&& at.row_w == (if at.needs_rail {
                553int
            } else {
                560
            })
            &&& card.forget_btn_right == at.list_x + at.row_w - 6
            &&& at.footer_y == card.y + card.h - 28
            &&& at.toast_y is Some <==> m.toast
            &&& at.toast_y matches Some(y) ==> y == at.footer_y - 44
            &&& at.pinned_selected <==> (0 <= m.selected < m.matches.len() && m.pinned == Some(
                m.apps[m.matches[m.selected] as int].command,
            ))
        }),
{
    card_goes_where_there_is_room(center.0 as int, 600, surface.0 as int);
    card_goes_where_there_is_room(center.1 as int, card_h(m), surface.1 as int);
    card_is_as_high_as_its_parts(m);
    lemma_picked_rows(m, view_end(m));
}

/// A row shows its application: the icon and the name in the middle of its height, the name between
/// the icon and the button or the row's end, a star where it is pinned, and the button where it was
/// picked before and is selected or under the pointer.
pub proof fn row_shows_its_application(
    m: PickerModel,
    at: CardLayout,
    i: int,
    hovered: Option<usize>,
    forget_hovered: Option<usize>,
)
    requires
        picker_wf(m),
        0 <= i < view_end(m) - m.scroll,
        -1000 <= at.card.y <= i32::MAX - 1000,
        0 <= at.list_x <= i32::MAX - 1000,
        0 <= at.row_w <= 1000,
        0 <= at.card.forget_btn_right,
    ensures
        ({
            let row = row_plan(m, at, i, hovered, forget_hovered);
            let app = m.apps[m.matches[m.scroll + i] as int];
            let picked = m.history.counts.contains_key(app.command);
            let under = hovered matches Some(h) && h == i;
            let selected = m.scroll + i == m.selected;
            &&& row.abs == m.scroll + i
            &&& row.y == at.card.row_top(i)
            &&& selected ==> row.fill == RowFill::Selected
            &&& !selected && under ==> row.fill == RowFill::Hovered
            &&& !selected && !under ==> row.fill == RowFill::Plain
            &&& row.icon_x == at.list_x + 8
            &&& row.icon_y - row.y == 8 && row.y + 40 - (row.icon_y + 24) == 8
            &&& row.name_x == row.icon_x + 24 + 12
            &&& row.name_y == row.y + 10
            &&& row.name_x + row.name_w == at.list_x + at.row_w - (if picked {
                32int
            } else {
                8
            })
            &&& row.starred <==> m.pinned == Some(app.command)
            &&& row.forget is Some <==> picked && (selected || under)
            &&& row.forget matches Some(b) ==> {
                &&& b.x + 22 == at.card.forget_btn_right
                &&& b.y - row.y == 9
                &&& b.tone == (if forget_hovered matches Some(h) && h == i {
                    ButtonTone::Hovered
                } else if selected {
                    ButtonTone::Prominent
                } else {
                    ButtonTone::Quiet
                })
            }
        }),
{
}

/// The list shows the rows in view, one after the other; a line that says so where nothing matches;
/// and nothing while the applications are being looked for.
pub proof fn list_shows_the_rows_in_view(
    m: PickerModel,
    at: CardLayout,
    hovered: Option<usize>,
    forget_hovered: Option<usize>,
    plan: ListPlan,
)
    requires
        picker_wf(m),
        is_list_plan(m, at, hovered, forget_hovered, plan),
    ensures
        plan is Loading <==> m.apps.len() == 0,
        plan is NoResults <==> m.apps.len() > 0 && m.matches.len() == 0,
        plan is Rows <==> m.matches.len() > 0,
        plan matches ListPlan::NoResults(x, y, w) ==> x == at.list_x + 8 && y == at.rows_y + 10 && x
            + w == at.list_x + at.list_w - 8,
        plan matches ListPlan::Rows(rows) ==> {
            &&& rows@.len() == (if m.matches.len() - m.scroll < 8 {
                m.matches.len() - m.scroll
            } else {
                8
            })
            &&& forall|i: int| 0 <= i < rows@.len() ==> (#[trigger] rows@[i]).abs == m.scroll + i
        },
{
}

/// The search field shows the query, or else what can be done or waited for; its text stands beside
/// the glass and ends before the field's end.
pub proof fn search_field_shows_the_query(m: PickerModel, at: CardLayout, plan: SearchPlan)
    requires
        is_search_plan(m, at, plan),
    ensures
        m.query.len() > 0 ==> plan.text@ == m.query && !plan.placeholder,
        m.query.len() == 0 && m.apps.len() > 0 ==> plan.text@ == "Type to search"@
            && plan.placeholder,
        m.query.len() == 0 && m.apps.len() == 0 ==> plan.text@ == "Loading apps…"@
            && plan.placeholder,
        plan.prompt_x == at.list_x + 10,
        plan.prompt_y == at.search_y + 13,
        plan.text_x == at.list_x + 44,
        plan.text_y == at.search_y + 13,
        plan.text_x + plan.text_w == at.list_x + at.list_w - 8,
{
}

/// The first marked character is marked, and none before it is; without a mark there is none.
pub proof fn first_marked_comes_before_all_others(chars: Seq<char>, marks: Seq<bool>)
    requires
        chars.len() == marks.len(),
    ensures
        match first_marked_in(chars, marks) {
            Some(c) => exists|i: int|
                0 <= i < chars.len() && #[trigger] marks[i] && chars[i] == c && forall|j: int|
                    0 <= j < i ==> !#[trigger] marks[j],
            None => forall|j: int| 0 <= j < chars.len() ==> !#[trigger] marks[j],
        },
{
    lemma_first_marked(chars, marks, chars.len() as int);
    assert(chars.take(chars.len() as int) =~= chars);
}

proof fn lemma_first_marked(chars: Seq<char>, marks: Seq<bool>, n: int)
    requires
        0 <= n <= chars.len(),
        chars.len() == marks.len(),
    ensures
        match first_marked_in(chars.take(n), marks) {
            Some(c) => exists|i: int|
                0 <= i < n && #[trigger] marks[i] && chars[i] == c && forall|j: int|
                    0 <= j < i ==> !#[trigger] marks[j],
            None => forall|j: int| 0 <= j < n ==> !#[trigger] marks[j],
        },
    decreases n,
{
    if n > 0 {
        lemma_first_marked(chars, marks, n - 1);
        assert(chars.take(n).drop_last() =~= chars.take(n - 1));
        assert(chars.take(n).last() == chars[n - 1]);
    }
}

/// The six colours take turns, and no two of them are the same.
pub proof fn colours_take_turns(seed: int, other: int)
    ensures
        hue(seed + 6) == hue(seed),
        hue(seed) == hue(other) <==> (seed - other) % 6 == 0,
        hue(0) == (120u8, 108u8, 180u8),
        hue(1) == (146u8, 118u8, 180u8),
        hue(2) == (108u8, 140u8, 180u8),
        hue(3) == (180u8, 128u8, 160u8),
        hue(4) == (140u8, 160u8, 180u8),
        hue(5) == (170u8, 140u8, 110u8),
{
}

/// The card can be laid out on every screen whose sides are 31-bit numbers with some room to spare,
/// wherever its middle is asked to be.
pub proof fn cards_can_be_laid_out(m: PickerModel, center: (i32, i32), surface: (u32, u32))
    requires
        picker_wf(m),
        surface.0 <= i32::MAX,
        surface.1 <= i32::MAX,
    ensures
        layout_fits(m, center, surface),
{
    card_is_as_high_as_its_parts(m);
}

} // verus!
