//! What one frame of the overlay shows.

use crate::aim::{pulled, Aimed};
use crate::card::{
    is_list_plan, is_search_plan, layout, layout_of, plan_list, plan_search, row_plan, ButtonTone,
    CardLayout, CardRect, ListPlan, RowFill, RowPlan, SearchPlan,
};
use crate::config::EffectiveMode;
use crate::gesture::{box_around, box_ignores_time, to_whole_px, whole_px};
use crate::overlay::{
    caret_visible, caret_visible_at, lemma_box_bounds, overlay_wf, picked, pulls, DecisionModel,
    Overlay, OverlayModel, Phase,
};
use crate::pen::{mode, PenModel};
use crate::picker::{is_picked_row, row_app, view_end, PickerModel, PickerState};
use crate::snap::guides_go_through_the_result;
use crate::stroke::{half, halve, Bbox};
use crate::text::{
    decimal, is_white, is_word, push_decimal, push_text, split_words, texts, word_is_one_word,
    words, words_part_at_white_space,
};
use vstd::prelude::*;

verus! {

/// The size of a rectangle that is being drawn, to be shown next to the pointer.
#[derive(Debug)]
pub struct Readout {
    /// Where the pointer is, in 1/256 of a logical pixel.
    pub at: (i32, i32),
    pub text: String,
}

/// What is said at the top where a command is preset.
#[derive(Debug)]
pub struct Banner {
    pub text: String,
    /// Is the preset command going to be passed over?
    pub lit: bool,
}

/// How the picker is drawn.
pub struct PickerPlan {
    pub layout: CardLayout,
    pub list: ListPlan,
    pub search: SearchPlan,
    pub caret: bool,
}

/// How a frame is drawn.
pub struct FramePlan {
    /// The size of the image in pixels of the screen, and the bytes of one of its lines.
    pub width: u32,
    pub height: u32,
    pub stride: i32,
    /// The opacity of the stroke.
    pub stroke_alpha: u8,
    /// Does the stroke shimmer?
    pub shimmer: bool,
    /// Where the crosshair is, in 1/256 of a logical pixel.
    pub crosshair: Option<(i32, i32)>,
    /// The vertical line that the pointer is aligned with, in 1/256 of a logical pixel.
    pub x_guide: Option<i64>,
    /// The horizontal line that the pointer is aligned with, in 1/256 of a logical pixel.
    pub y_guide: Option<i64>,
    /// Where a ring shows that the pointer is pulled, in 1/256 of a logical pixel.
    pub ring: Option<(i32, i32)>,
    pub readout: Option<Readout>,
    pub banner: Option<Banner>,
    pub picker: Option<PickerPlan>,
}

/// Where the pointer aims, while something is drawn and it is over the overlay.
pub open spec fn sight(m: OverlayModel) -> Option<Aimed> {
    match m.aim.pointer {
        Some(at) => if m.phase == Phase::Drawing {
            Some(pulled(m.aim.targets, pulls(m.phase, mode(m.pen)), at))
        } else {
            None
        },
        None => None,
    }
}

/// Are these the guides and the ring that show what the pointer is pulled onto? There is a ring where
/// there is a guide.
pub open spec fn shows_sight(s: Option<Aimed>, plan: FramePlan) -> bool {
    match s {
        Some(a) => {
            &&& plan.x_guide == a.x_guide
            &&& plan.y_guide == a.y_guide
            &&& plan.ring == (if a.x_guide is Some || a.y_guide is Some {
                Some(a.at)
            } else {
                None
            })
        },
        None => plan.x_guide is None && plan.y_guide is None && plan.ring is None,
    }
}

/// Is the crosshair shown? It is before anything is drawn, until a press has become a drag, and on
/// the moving corner of a rectangle.
pub open spec fn shows_crosshair(m: PenModel) -> bool {
    if m.drawing {
        !m.committed || mode(m) != EffectiveMode::Freehand
    } else {
        !m.has_drawn
    }
}

/// Is the size shown? It is while a rectangle is dragged, if the settings say so.
pub open spec fn shows_readout(m: PenModel) -> bool {
    m.drawing && m.committed && m.gesture.show_dimensions && mode(m) != EffectiveMode::Freehand
}

/// The size of a box, and that it is a square.
pub open spec fn readout_text(b: Bbox, square: bool) -> Seq<char> {
    let size = decimal(b.w as nat) + "×"@ + decimal(b.h as nat);
    if square {
        size + "  ·  1:1"@
    } else {
        size
    }
}

/// The program of a command, or the command itself where it has no words.
pub open spec fn program(exec: Seq<char>) -> Seq<char> {
    if words(exec).len() == 0 {
        exec
    } else {
        words(exec)[0]
    }
}

/// What is said of a preset command.
pub open spec fn banner_text(exec: Seq<char>) -> Seq<char> {
    "★ "@ + program(exec) + "   ·   Hold CTRL to pick another"@
}

/// The text that tells the size of a box.
pub fn dimensions(b: Bbox, square: bool) -> (r: String)
    ensures
        r@ == readout_text(b, square),
{
    let mut out = String::new();
    push_decimal(&mut out, b.w);
    push_text(&mut out, "×");
    push_decimal(&mut out, b.h);
    assert(out@ =~= decimal(b.w as nat) + "×"@ + decimal(b.h as nat));
    if square {
        push_text(&mut out, "  ·  1:1");
    }
    out
}

/// The text that tells which command is preset.
pub fn banner_line(exec: &str) -> (r: String)
    ensures
        r@ == banner_text(exec@),
{
    let tokens = split_words(exec);
    proof {
        assert(texts(tokens@).len() == tokens@.len());
        if tokens@.len() > 0 {
            assert(texts(tokens@)[0] == tokens@[0]@);
        }
    }
    let mut out = String::new();
    push_text(&mut out, "★ ");
    if tokens.len() == 0 {
        push_text(&mut out, exec);
    } else {
        push_text(&mut out, tokens[0].as_str());
    }
    push_text(&mut out, "   ·   Hold CTRL to pick another");
    assert(out@ =~= banner_text(exec@));
    out
}

/// A rounded box with a text in it.
#[derive(Clone, Copy, Debug, PartialEq, Eq, Structural)]
pub struct Pill {
    pub x: i32,
    pub y: i32,
    pub w: i32,
    pub h: i32,
    pub text_x: i32,
    pub text_y: i32,
}

/// Where a box of this size goes next to the pointer, along one axis: behind it, or before it where
/// the screen ends, but not within four pixels of the screen's edges.
pub open spec fn beside(pointer: int, size: int, screen: int) -> int {
    let wanted = if pointer + 14 + size > screen {
        pointer - 14 - size
    } else {
        pointer + 14
    };
    let low = if wanted < 4 {
        4
    } else {
        wanted
    };
    if low > screen - size - 4 {
        screen - size - 4
    } else {
        low
    }
}

fn put_beside(pointer: i32, size: i32, screen: u32) -> (r: i32)
    requires
        -0x100_0000 <= pointer <= 0x100_0000,
        0 <= size,
        screen - size - 4 >= i32::MIN,
    ensures
        r == beside(pointer as int, size as int, screen as int),
        r <= 0x100_0010,
{
    let mut p: i64 = pointer as i64 + 14;
    if p + size as i64 > screen as i64 {
        p = pointer as i64 - 14 - size as i64;
    }
    if p < 4 {
        p = 4;
    }
    let most: i64 = screen as i64 - size as i64 - 4;
    if p > most {
        p = most;
    }
    p as i32
}

/// Where the size of a rectangle is shown, for a text of this width.
pub fn place_readout(at: (i32, i32), text_w: i32, screen: (u32, u32)) -> (r: Pill)
    requires
        0 <= text_w <= i32::MAX - 16,
        screen.0 - text_w - 20 >= i32::MIN,
    ensures
        r.w == text_w + 16,
        r.h == 22,
        r.x == beside(whole_px(at.0 as int), r.w as int, screen.0 as int),
        r.y == beside(whole_px(at.1 as int), 22, screen.1 as int),
        r.text_x == r.x + 8,
        r.text_y == r.y + 4,
{
    let w: i32 = text_w + 2 * 8;
    let x: i32 = put_beside(to_whole_px(at.0), w, screen.0);
    let y: i32 = put_beside(to_whole_px(at.1), 22, screen.1);
    Pill { x, y, w, h: 22, text_x: x + 8, text_y: y + (22 - 12) / 2 - 1 }
}

/// Where it is said which command is preset, for a text of this width: in the middle of the screen,
/// near its top.
pub fn place_banner(text_w: i32, screen_w: u32) -> (r: Pill)
    requires
        0 <= text_w <= i32::MAX - 32,
    ensures
        r.w == text_w + 32,
        r.h == 32,
        r.x == half(screen_w - r.w),
        r.y == 80,
        r.text_x == r.x + 16,
        r.text_y == 91,
{
    let w: i32 = text_w + 2 * 16;
    let x: i32 = halve(screen_w as i64 - w as i64) as i32;
    Pill { x, y: 80, w, h: 32, text_x: x + 16, text_y: 80 + 32 / 2 - 5 }
}

/// The size of a rectangle is shown on the screen, wherever the pointer is, where there is room.
pub proof fn readout_stays_on_screen(pointer: int, size: int, screen: int)
    requires
        0 <= size,
        size + 8 <= screen,
    ensures
        4 <= beside(pointer, size, screen),
        beside(pointer, size, screen) + size <= screen - 4,
{
}

/// The size of a rectangle does not hide the pointer where there is room on one side of it.
pub proof fn readout_leaves_the_pointer_free(pointer: int, size: int, screen: int)
    requires
        0 <= size,
        4 <= pointer - 14 - size || pointer + 14 + size <= screen - 4,
        0 <= pointer <= screen,
    ensures
        beside(pointer, size, screen) > pointer || beside(pointer, size, screen) + size < pointer,
{
}

/// The row in view, counted from the first one in view, that the pointer is on.
pub open spec fn row_hovered(p: PickerModel, card: Option<CardRect>, cursor: Option<(i32, i32)>) ->
    Option<int> {
    match (card, cursor) {
        (Some(c), Some(at)) => {
            let py = whole_px(at.1 as int);
            if c.covers(whole_px(at.0 as int), py) {
                c.row_hit(py, view_end(p) - p.scroll)
            } else {
                None
            }
        },
        _ => None,
    }
}

/// The row in view, counted from the first one in view, whose button the pointer is on. Only rows
/// that were picked before have one.
pub open spec fn button_hovered(
    p: PickerModel,
    card: Option<CardRect>,
    cursor: Option<(i32, i32)>,
) -> Option<int> {
    match (card, cursor) {
        (Some(c), Some(at)) => {
            let py = whole_px(at.1 as int);
            match c.row_hit(py, view_end(p) - p.scroll) {
                Some(i) => if c.button_hit(whole_px(at.0 as int), py) && is_picked_row(
                    p,
                    p.scroll + i,
                ) {
                    Some(i)
                } else {
                    None
                },
                None => None,
            }
        },
        _ => None,
    }
}

/// Do the two stand for the same number, or both for none?
pub open spec fn same_index(a: Option<usize>, b: Option<int>) -> bool {
    match (a, b) {
        (Some(x), Some(y)) => x == y,
        (None, None) => true,
        _ => false,
    }
}

fn find_row_hovered(
    picker: &PickerState,
    card: Option<CardRect>,
    cursor: Option<(i32, i32)>,
) -> (r: Option<usize>)
    requires
        picker.wf(),
    ensures
        same_index(r, row_hovered(picker@, card, cursor)),
{
    match (card, cursor) {
        (Some(c), Some(at)) => {
            let py: i32 = to_whole_px(at.1);
            if c.contains(to_whole_px(at.0), py) {
                c.item_at(py, picker.visible_count())
            } else {
                None
            }
        },
        _ => None,
    }
}

fn find_button_hovered(
    picker: &PickerState,
    card: Option<CardRect>,
    cursor: Option<(i32, i32)>,
) -> (r: Option<usize>)
    requires
        picker.wf(),
    ensures
        same_index(r, button_hovered(picker@, card, cursor)),
{
    match (card, cursor) {
        (Some(c), Some(at)) => {
            let py: i32 = to_whole_px(at.1);
            match c.item_at(py, picker.visible_count()) {
                Some(rel) => {
                    if c.forget_button_hit(to_whole_px(at.0), py) && picker.is_history_row(
                        picker.scroll_offset() + rel,
                    ) {
                        Some(rel)
                    } else {
                        None
                    }
                },
                None => None,
            }
        },
        _ => None,
    }
}

/// The middle of what was drawn, around which the card is placed.
pub open spec fn middle(places: Seq<(i32, i32)>) -> (int, int) {
    let b = box_around(places, 0);
    (b.x + b.w / 2, b.y + b.h / 2)
}

/// The card is laid out around the middle of what was drawn.
pub open spec fn frame_layout(m: OverlayModel) -> CardLayout {
    layout_of(m.picker, middle(m.pen.places), (m.width as int, m.height as int))
}

/// Is this how the picker is drawn?
pub open spec fn is_picker_plan(m: OverlayModel, ms: int, plan: PickerPlan) -> bool {
    &&& plan.layout == frame_layout(m)
    &&& plan.caret == caret_visible(ms)
    &&& is_search_plan(m.picker, plan.layout, plan.search)
    &&& exists|hovered: Option<usize>, button: Option<usize>|
        {
            &&& #[trigger] same_index(hovered, row_hovered(m.picker, m.card, m.pen.cursor))
            &&& #[trigger] same_index(button, button_hovered(m.picker, m.card, m.pen.cursor))
            &&& is_list_plan(m.picker, plan.layout, hovered, button, plan.list)
        }
}

/// Is this how the frame is drawn, this many milliseconds after the caret began to blink?
pub open spec fn is_frame(m: OverlayModel, ms: int, plan: FramePlan) -> bool {
    let drawing = m.phase == Phase::Drawing;
    &&& plan.width == m.width * m.scale
    &&& plan.height == m.height * m.scale
    &&& plan.stride == 4 * plan.width
    &&& plan.stroke_alpha == (if drawing {
        255
    } else {
        102int
    })
    &&& plan.shimmer == drawing
    &&& plan.crosshair == (if drawing && shows_crosshair(m.pen) {
        m.pen.cursor
    } else {
        None
    })
    &&& shows_sight(sight(m), plan)
    &&& match plan.readout {
        Some(r) => {
            &&& drawing && shows_readout(m.pen) && m.pen.cursor == Some(r.at)
            &&& r.text@ == readout_text(
                box_around(m.pen.places, 0),
                mode(m.pen) == EffectiveMode::Square,
            )
        },
        None => !(drawing && shows_readout(m.pen) && m.pen.cursor is Some),
    }
    &&& match plan.banner {
        Some(b) => {
            &&& drawing && m.preset is Some
            &&& b.text@ == banner_text(m.preset->0)
            &&& b.lit == m.pen.ctrl
        },
        None => !(drawing && m.preset is Some),
    }
    &&& match plan.picker {
        Some(p) => !drawing && is_picker_plan(m, ms, p),
        None => drawing,
    }
}

/// The sides of the image, and the number of bytes of its lines, are 32-bit numbers.
pub open spec fn frame_fits(m: OverlayModel) -> bool {
    &&& 4 * (m.width * m.scale) <= i32::MAX
    &&& m.height * m.scale <= u32::MAX
}

fn find_sight(o: &Overlay) -> (r: Option<Aimed>)
    ensures
        r == sight(o@),
{
    match o.pointer() {
        Some(at) => if o.phase() == Phase::Drawing {
            Some(o.aim_at(at))
        } else {
            None
        },
        None => None,
    }
}

fn find_crosshair(o: &Overlay) -> (r: Option<(i32, i32)>)
    ensures
        r == (if o@.phase == Phase::Drawing && shows_crosshair(o@.pen) {
            o@.pen.cursor
        } else {
            None
        }),
{
    if o.phase() != Phase::Drawing {
        return None;
    }
    let pen = o.pen();
    let show = if pen.is_drawing() {
        !pen.is_committed() || pen.effective_mode() != EffectiveMode::Freehand
    } else {
        !pen.has_drawn()
    };
    if show {
        pen.cursor()
    } else {
        None
    }
}

fn find_readout(o: &Overlay) -> (r: Option<Readout>)
    ensures
        match r {
            Some(k) => {
                &&& o@.phase == Phase::Drawing && shows_readout(o@.pen) && o@.pen.cursor == Some(
                    k.at,
                )
                &&& k.text@ == readout_text(
                    box_around(o@.pen.places, 0),
                    mode(o@.pen) == EffectiveMode::Square,
                )
            },
            None => !(o@.phase == Phase::Drawing && shows_readout(o@.pen) && o@.pen.cursor is Some),
        },
{
    let pen = o.pen();
    let mode = pen.effective_mode();
    if o.phase() == Phase::Drawing && pen.is_drawing() && pen.is_committed()
        && pen.gesture().show_dimensions && mode != EffectiveMode::Freehand {
        match pen.cursor() {
            Some(at) => {
                let stroke = pen.stroke();
                proof {
                    box_ignores_time(stroke@, 0);
                }
                let text = dimensions(stroke.bbox(0), mode == EffectiveMode::Square);
                Some(Readout { at, text })
            },
            None => None,
        }
    } else {
        None
    }
}

fn find_banner(o: &Overlay) -> (r: Option<Banner>)
    ensures
        match r {
            Some(b) => {
                &&& o@.phase == Phase::Drawing && o@.preset is Some
                &&& b.text@ == banner_text(o@.preset->0)
                &&& b.lit == o@.pen.ctrl
            },
            None => !(o@.phase == Phase::Drawing && o@.preset is Some),
        },
{
    if o.phase() == Phase::Drawing {
        match o.preset() {
            Some(exec) => Some(Banner { text: banner_line(exec), lit: o.pen().ctrl_held() }),
            None => None,
        }
    } else {
        None
    }
}

/// Plans how the picker is drawn.
fn plan_picker(o: &Overlay, ms: u128) -> (r: PickerPlan)
    requires
        o.wf(),
        frame_fits(o@),
    ensures
        is_picker_plan(o@, ms as int, r),
{
    let stroke = o.pen().stroke();
    let (w, h) = o.size();
    proof {
        box_ignores_time(stroke@, 0);
        lemma_box_bounds(o@.pen.places, 0);
    }
    let b = stroke.bbox(0);
    let center = (b.x + (b.w / 2) as i32, b.y + (b.h / 2) as i32);
    let at = layout(o.picker(), center, (w, h));
    let hovered = find_row_hovered(o.picker(), o.last_card(), o.pen().cursor());
    let button = find_button_hovered(o.picker(), o.last_card(), o.pen().cursor());
    let list = plan_list(o.picker(), &at, hovered, button);
    let search = plan_search(o.picker(), &at);
    let plan = PickerPlan { layout: at, list, search, caret: caret_visible_at(ms) };
    assert(same_index(hovered, row_hovered(o@.picker, o@.card, o@.pen.cursor)));
    assert(same_index(button, button_hovered(o@.picker, o@.card, o@.pen.cursor)));
    plan
}

proof fn lemma_sides(side: int, scale: int)
    requires
        0 <= side,
        1 <= scale,
    ensures
        side <= side * scale,
{
    assert(side <= side * scale) by (nonlinear_arith)
        requires
            0 <= side,
            1 <= scale,
    ;
}

/// Plans the next frame, this many milliseconds after the caret began to blink. There is none
/// before the size of the screen is known. The card is remembered for what the pointer does next.
pub fn plan_frame(o: &mut Overlay, ms: u128) -> (r: Option<FramePlan>)
    requires
        old(o).wf(),
        frame_fits(old(o)@),
    ensures
        final(o).wf(),
        r is Some <==> old(o)@.width > 0 && old(o)@.height > 0,
        r matches Some(plan) ==> is_frame(old(o)@, ms as int, plan),
        final(o)@ == (if r is Some && old(o)@.phase == Phase::Picking {
            OverlayModel {
                card: Some(frame_layout(old(o)@).card),
                caret_shown: caret_visible(ms as int),
                ..old(o)@
            }
        } else {
            old(o)@
        }),
{
    let (w_log, h_log) = o.size();
    if w_log == 0 || h_log == 0 {
        return None;
    }
    let scale: u32 = o.scale() as u32;
    proof {
        lemma_sides(o@.width as int, o@.scale as int);
        lemma_sides(o@.height as int, o@.scale as int);
    }
    let width: u32 = w_log * scale;
    let height: u32 = h_log * scale;
    let drawing = o.phase() == Phase::Drawing;
    let crosshair = find_crosshair(o);
    let (x_guide, y_guide, ring): (Option<i64>, Option<i64>, Option<(i32, i32)>) = match find_sight(
        o,
    ) {
        Some(a) => {
            let ring: Option<(i32, i32)> = if a.x_guide.is_some() || a.y_guide.is_some() {
                Some(a.at)
            } else {
                None
            };
            (a.x_guide, a.y_guide, ring)
        },
        None => (None, None, None),
    };
    let readout = find_readout(o);
    let banner = find_banner(o);
    let picker: Option<PickerPlan> = if drawing {
        None
    } else {
        let plan = plan_picker(o, ms);
        o.show_card(plan.layout.card, plan.caret);
        Some(plan)
    };
    Some(
        FramePlan {
            width,
            height,
            stride: width as i32 * 4,
            stroke_alpha: if drawing {
                255
            } else {
                102
            },
            shimmer: drawing,
            crosshair,
            x_guide,
            y_guide,
            ring,
            readout,
            banner,
            picker,
        },
    )
}

/// After a frame was drawn, a press outside the card in that frame cancels.
pub proof fn press_outside_the_drawn_card_cancels(
    m: OverlayModel,
    next: OverlayModel,
    at: (i32, i32),
)
    requires
        m.phase == Phase::Picking,
        next == (OverlayModel { card: Some(frame_layout(m).card), ..m }),
        !frame_layout(m).card.covers(whole_px(at.0 as int), whole_px(at.1 as int)),
    ensures
        picked(next, at).0.decision is Cancel,
{
}

/// After a frame was drawn, a press on a row in that frame starts the application of that row,
/// unless it is a press on the button of a row that was picked before.
pub proof fn press_on_a_drawn_row_starts_it(
    m: OverlayModel,
    next: OverlayModel,
    at: (i32, i32),
    i: int,
)
    requires
        overlay_wf(m),
        m.phase == Phase::Picking,
        next == (OverlayModel { card: Some(frame_layout(m).card), ..m }),
        0 <= i < view_end(m.picker) - m.picker.scroll,
        ({
            let card = frame_layout(m).card;
            let px = whole_px(at.0 as int);
            let py = whole_px(at.1 as int);
            &&& card.covers(px, py)
            &&& card.in_row(i, py)
            &&& !(card.button_hit(px, py) && is_picked_row(m.picker, m.picker.scroll + i))
        }),
    ensures
        picked(next, at).0.decision == DecisionModel::Spawn(
            row_app(m.picker, m.picker.scroll + i).command,
        ),
{
    let card = frame_layout(m).card;
    let py = whole_px(at.1 as int);
    let n = view_end(m.picker) - m.picker.scroll;
    let k = choose|k: int| k < n && #[trigger] card.in_row(k, py);
    card.rows_do_not_overlap(i, k, py);
}

/// The size of a rectangle is shown 14 pixels behind the pointer if the screen reaches that far, and
/// else 14 pixels before it; four pixels to the edges of the screen are kept.
pub proof fn readout_keeps_its_distance(pointer: int, size: int, screen: int)
    requires
        size >= 0,
        size + 8 <= screen,
    ensures
        ({
            let p = beside(pointer, size, screen);
            &&& 4 <= pointer + 14 && pointer + 14 + size <= screen - 4 ==> p == pointer + 14
            &&& pointer + 14 + size > screen && 4 <= pointer - 14 - size <= screen - size - 4 ==> p
                + size == pointer - 14
            &&& screen - 4 < pointer + 14 + size <= screen ==> p + size == screen - 4
            &&& pointer + 14 + size > screen && pointer - 14 - size < 4 ==> p == 4
            &&& pointer + 14 < 4 ==> p == 4
        }),
{
}

/// The crosshair is shown until something was drawn, and while something is drawn in any other way
/// than freely; before a press has become a drag it is shown in any case.
pub proof fn crosshair_is_shown_while_it_helps(m: PenModel)
    ensures
        ({
            let free = m.gesture.spec_resolve(m.shift, m.ctrl, m.alt) == EffectiveMode::Freehand;
            &&& !m.drawing ==> (shows_crosshair(m) <==> !m.has_drawn)
            &&& m.drawing && !m.committed ==> shows_crosshair(m)
            &&& m.drawing && m.committed ==> (shows_crosshair(m) <==> !free)
            &&& shows_readout(m) ==> m.drawing && m.committed && !free && m.gesture.show_dimensions
            &&& m.drawing && m.committed && !free && m.gesture.show_dimensions ==> shows_readout(m)
        }),
{
}

/// The size is written as width, cross and height; a square says so behind it.
pub proof fn readout_tells_the_size(b: Bbox)
    ensures
        readout_text(b, false) == decimal(b.w as nat) + "×"@ + decimal(b.h as nat),
        readout_text(b, true) == readout_text(b, false) + "  ·  1:1"@,
{
}

/// The banner names the program of the preset command, without its arguments, between a star and
/// the way to pick another one. A blank command stands for itself.
pub proof fn banner_names_the_program(word: Seq<char>, space: char, rest: Seq<char>)
    requires
        is_word(word),
        is_white(space),
    ensures
        banner_text(word) == "★ "@ + word + "   ·   Hold CTRL to pick another"@,
        banner_text(word + seq![space] + rest) == banner_text(word),
        banner_text(seq![space]) == "★ "@ + seq![space] + "   ·   Hold CTRL to pick another"@,
{
    word_is_one_word(word);
    words_part_at_white_space(word, space, rest);
    assert((words(word) + words(rest))[0] == word);
    assert(seq![space].drop_first() =~= Seq::<char>::empty());
    assert(words(seq![space]).len() == 0);
}

/// The row under the pointer is the one that a press would choose, and the button under it the one
/// that a press would use.
pub proof fn pointer_is_over_what_a_press_takes(m: OverlayModel, card: CardRect, at: (i32, i32))
    requires
        overlay_wf(m),
        m.card == Some(card),
        card.covers(whole_px(at.0 as int), whole_px(at.1 as int)),
    ensures
        ({
            let row = row_hovered(m.picker, Some(card), Some(at));
            let button = button_hovered(m.picker, Some(card), Some(at));
            let (n, gone) = picked(m, at);
            &&& button is Some ==> button == row
            &&& row is None ==> n == m && gone is None
            &&& row matches Some(i) ==> {
                let command = m.picker.apps[m.picker.matches[m.picker.scroll + i] as int].command;
                &&& button is Some ==> gone == Some(command) && n.decision == m.decision
                &&& button is None ==> gone is None && n.decision == DecisionModel::Spawn(command)
            }
        }),
{
    let py = whole_px(at.1 as int);
    let shown = view_end(m.picker) - m.picker.scroll;
    if let Some(i) = card.row_hit(py, shown) {
        assert(i < shown && card.in_row(i, py));
    }
}

/// A pointer that is away, or not on the card, is over no row.
pub proof fn pointer_off_the_card_is_over_no_row(
    p: PickerModel,
    card: CardRect,
    at: (i32, i32),
)
    requires
        !card.covers(whole_px(at.0 as int), whole_px(at.1 as int)),
    ensures
        row_hovered(p, Some(card), Some(at)) is None,
        row_hovered(p, Some(card), None) is None,
        row_hovered(p, None, Some(at)) is None,
        button_hovered(p, Some(card), None) is None,
        button_hovered(p, None, Some(at)) is None,
{
}

/// A frame is as large as the screen, with four bytes to each of its pixels. While the user draws,
/// the stroke is opaque and shimmers, and the picker is away; while the user picks, the stroke is
/// faint, and nothing but the picker is shown with it.
pub proof fn frame_shows_the_phase(m: OverlayModel, ms: int, plan: FramePlan)
    requires
        is_frame(m, ms, plan),
    ensures
        plan.width == m.width * m.scale,
        plan.height == m.height * m.scale,
        plan.stride == 4 * plan.width,
        m.phase == Phase::Drawing ==> {
            &&& plan.stroke_alpha == 255 && plan.shimmer && plan.picker is None
            &&& plan.banner is Some <==> m.preset is Some
            &&& plan.banner matches Some(b) ==> b.lit == m.pen.ctrl && b.text@ == banner_text(
                m.preset->0,
            )
            &&& plan.crosshair is Some <==> shows_crosshair(m.pen) && m.pen.cursor is Some
            &&& plan.crosshair is Some ==> plan.crosshair == m.pen.cursor
            &&& plan.readout is Some <==> shows_readout(m.pen) && m.pen.cursor is Some
            &&& plan.readout matches Some(r) ==> m.pen.cursor == Some(r.at)
        },
        m.phase == Phase::Picking ==> {
            &&& plan.stroke_alpha == 102 && !plan.shimmer && plan.picker is Some
            &&& plan.banner is None && plan.crosshair is None && plan.readout is None
            &&& plan.x_guide is None && plan.y_guide is None && plan.ring is None
            &&& plan.picker matches Some(p) ==> p.caret == ((ms / 530) % 2 == 0)
        },
{
}

/// Guides and a ring are shown just where the pointer is pulled: the guides are those of the pull,
/// and the ring is where it leads. Drawing freely shows none.
pub proof fn guides_are_shown_where_the_pointer_is_pulled(m: OverlayModel, ms: int, plan: FramePlan)
    requires
        is_frame(m, ms, plan),
        overlay_wf(m),
        m.phase == Phase::Drawing,
    ensures
        plan.ring is Some <==> plan.x_guide is Some || plan.y_guide is Some,
        plan.ring is Some ==> plan.ring == m.pen.cursor,
        plan.x_guide matches Some(x) ==> (m.pen.cursor matches Some(c) && c.0 == x),
        plan.y_guide matches Some(y) ==> (m.pen.cursor matches Some(c) && c.1 == y),
        m.pen.gesture.spec_resolve(m.pen.shift, m.pen.ctrl, m.pen.alt) == EffectiveMode::Freehand
            || m.aim.targets is None || m.aim.pointer is None ==> plan.ring is None,
{
    reveal(pulled);
    if let Some(t) = m.aim.targets {
        if let Some(at) = m.aim.pointer {
            guides_go_through_the_result(t, (at.0 as i64, at.1 as i64));
        }
    }
}

/// The card goes around the middle of what was drawn.
pub proof fn card_goes_around_what_was_drawn(places: Seq<(i32, i32)>)
    ensures
        ({
            let b = box_around(places, 0);
            &&& 0 <= 2 * b.x + b.w - 2 * middle(places).0 <= 1
            &&& 0 <= 2 * b.y + b.h - 2 * middle(places).1 <= 1
        }),
{
}

/// The guides on the screen are those of the pull on the pointer.
pub proof fn guides_are_those_of_the_pull(m: OverlayModel, ms: int, plan: FramePlan, at: (i32, i32))
    requires
        is_frame(m, ms, plan),
        m.phase == Phase::Drawing,
        m.aim.pointer == Some(at),
    ensures
        ({
            let on = m.pen.gesture.spec_resolve(m.pen.shift, m.pen.ctrl, m.pen.alt)
                != EffectiveMode::Freehand;
            let pull = pulled(m.aim.targets, on, at);
            &&& plan.x_guide == pull.x_guide
            &&& plan.y_guide == pull.y_guide
        }),
{
}

/// The size that is shown is that of what was drawn, without any padding.
pub proof fn readout_measures_what_was_drawn(m: OverlayModel, ms: int, plan: FramePlan)
    requires
        is_frame(m, ms, plan),
    ensures
        plan.readout matches Some(r) ==> {
            let b = box_around(m.pen.places, 0);
            let square = m.pen.gesture.spec_resolve(m.pen.shift, m.pen.ctrl, m.pen.alt)
                == EffectiveMode::Square;
            r.text@ == decimal(b.w as nat) + "×"@ + decimal(b.h as nat) + (if square {
                "  ·  1:1"@
            } else {
                Seq::empty()
            })
        },
{
    if let Some(r) = plan.readout {
        let b = box_around(m.pen.places, 0);
        let size = decimal(b.w as nat) + "×"@ + decimal(b.h as nat);
        assert(size + Seq::<char>::empty() =~= size);
    }
}

/// The picker is drawn around what was drawn, on all of the screen, and marks the row under the
/// pointer; the button under the pointer is marked with it.
pub proof fn picker_marks_what_is_under_the_pointer(
    m: OverlayModel,
    ms: int,
    plan: PickerPlan,
    rows: Seq<RowPlan>,
    i: int,
)
    requires
        overlay_wf(m),
        is_picker_plan(m, ms, plan),
        plan.list matches ListPlan::Rows(list) && list@ == rows,
        0 <= i < rows.len(),
    ensures
        ({
            let b = box_around(m.pen.places, 0);
            plan.layout == layout_of(
                m.picker,
                (b.x + b.w as int / 2, b.y + b.h as int / 2),
                (m.width as int, m.height as int),
            )
        }),
        rows[i].fill == RowFill::Selected <==> m.picker.scroll + i == m.picker.selected,
        rows[i].fill == RowFill::Hovered <==> m.picker.scroll + i != m.picker.selected
            && row_hovered(m.picker, m.card, m.pen.cursor) == Some(i),
        rows[i].forget matches Some(button) ==> (button.tone == ButtonTone::Hovered
            <==> button_hovered(m.picker, m.card, m.pen.cursor) == Some(i)),
        plan.search.text@ == (if m.picker.query.len() > 0 {
            m.picker.query
        } else if m.picker.apps.len() == 0 {
            "Loading apps…"@
        } else {
            "Type to search"@
        }),
{
    let (hovered, button) = choose|hovered: Option<usize>, button: Option<usize>|
        {
            &&& #[trigger] same_index(hovered, row_hovered(m.picker, m.card, m.pen.cursor))
            &&& #[trigger] same_index(button, button_hovered(m.picker, m.card, m.pen.cursor))
            &&& is_list_plan(m.picker, plan.layout, hovered, button, plan.list)
        };
    assert(rows[i] == row_plan(m.picker, plan.layout, i, hovered, button));
}

} // verus!
