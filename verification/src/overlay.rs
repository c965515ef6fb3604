//! The overlay: what pointer and key events do, from the first press of a button to the decision
//! which command is started in which box.

use crate::aim::{
    is_place, pulled, unpulled_pointer_aims_where_it_is, Aim, AimModel, Aimed,
};
use crate::apps::{opt_text, App};
use crate::card::CardRect;
use crate::config::{EffectiveMode, GestureConfig};
use crate::gesture::{
    box_around, box_ignores_time, box_of_an_outline, drag_rect, drag_rect_spans_the_drag, is_drag,
    to_whole_px, whole_px,
};
use crate::history::{history_wf, History};
use crate::pen::{
    dragged, lemma_modified, lifted, lowered, mode, modified, pen_wf, switches, with_modifiers, Pen,
    PenModel,
};
use crate::picker::{
    all_scorable, forgotten, is_picked_row, is_pin_row, lemma_query_grows, lemma_typed_query, moved,
    picker_wf, pin_toggled, query_with, relisted, row_app, scrolled, typed_all,
    typed_text_extends_the_query, untyped, view_end, PickerModel, PickerState, PinChange,
    VISIBLE_ITEMS,
};
use crate::pinned::{pinned_by, pinned_command_is_loaded, Pinned};
use crate::rank::views;
use crate::snap::{snap_of, targets, SnapModel};
use crate::stroke::{
    clamped_box_is_inside, extremes_are_reached, greatest, inside, least, round_px, span_len,
    span_start, xs, ys, Bbox, Point,
};
use crate::text::{chars_of, trimmed};
use vstd::prelude::*;

verus! {

/// What came of the overlay.
pub enum Outcome {
    /// A command is started in a box. The box lies on the screen, whose rectangle is given, too.
    Spawn { bbox: Bbox, command: String, screen: Bbox },
    /// Nothing happens.
    Cancelled,
}

/// What the overlay starts with.
pub struct RunConfig {
    /// The command that is started without asking.
    pub preset_exec: Option<String>,
    /// The padding of the drawn box.
    pub padding: u32,
    pub history: History,
    pub gesture: GestureConfig,
}

/// Is the user drawing, or picking an application?
#[derive(Clone, Copy, Debug, PartialEq, Eq, Structural)]
pub enum Phase {
    Drawing,
    Picking,
}

/// What the user has decided.
#[derive(Debug)]
pub enum Decision {
    Pending,
    Spawn(String),
    Cancel,
}

/// What the user has decided.
pub enum DecisionModel {
    Pending,
    Spawn(Seq<char>),
    Cancel,
}

impl View for Decision {
    type V = DecisionModel;

    open spec fn view(&self) -> DecisionModel {
        match self {
            Decision::Pending => DecisionModel::Pending,
            Decision::Spawn(s) => DecisionModel::Spawn(s@),
            Decision::Cancel => DecisionModel::Cancel,
        }
    }
}

/// A button of the pointer.
#[derive(Clone, Copy, Debug, PartialEq, Eq, Structural)]
pub enum Button {
    Left,
    Right,
    Other,
}

/// A key that the overlay knows.
#[derive(Clone, Copy, Debug, PartialEq, Eq, Structural)]
pub enum Key {
    Escape,
    Enter,
    BackSpace,
    Up,
    Down,
    PageUp,
    PageDown,
    Delete,
    /// The letter P, in either case.
    P,
    Other,
}

/// What is left to do outside after an event.
#[derive(Debug)]
pub struct Effects {
    /// The shimmer of the stroke starts anew.
    pub shimmer: bool,
    /// The caret is shown, and its blinking starts anew.
    pub caret: bool,
    /// The cursor changes its shape.
    pub cursor: bool,
    /// The applications are looked for.
    pub discover: bool,
    /// This command is taken out of the history file.
    pub forgotten: Option<String>,
    /// What becomes of the file that holds the pinned command.
    pub pin: PinChange,
}

/// What is left to do outside after an event, but for what becomes of the pinned command.
pub struct EffectsModel {
    pub shimmer: bool,
    pub caret: bool,
    pub cursor: bool,
    pub discover: bool,
    pub forgotten: Option<Seq<char>>,
}

impl View for Effects {
    type V = EffectsModel;

    open spec fn view(&self) -> EffectsModel {
        EffectsModel {
            shimmer: self.shimmer,
            caret: self.caret,
            cursor: self.cursor,
            discover: self.discover,
            forgotten: opt_text(self.forgotten),
        }
    }
}

/// Nothing is left to do.
pub open spec fn no_effects() -> EffectsModel {
    EffectsModel { shimmer: false, caret: false, cursor: false, discover: false, forgotten: None }
}

fn quiet() -> (r: Effects)
    ensures
        r@ == no_effects(),
        r.pin is Nothing,
{
    Effects {
        shimmer: false,
        caret: false,
        cursor: false,
        discover: false,
        forgotten: None,
        pin: PinChange::Nothing,
    }
}

/// The state of the overlay.
pub struct OverlayModel {
    pub width: u32,
    pub height: u32,
    /// The number of pixels of the screen along a logical pixel.
    pub scale: i32,
    /// Is the size of the screen known?
    pub configured: bool,
    /// Is what is on the screen out of date?
    pub redraw: bool,
    /// Where the pointer is, and what it is pulled onto.
    pub aim: AimModel,
    pub pen: PenModel,
    pub padding: u32,
    pub phase: Phase,
    /// The command that is started without asking.
    pub preset: Option<Seq<char>>,
    pub picker: PickerModel,
    /// Where the card was drawn last.
    pub card: Option<CardRect>,
    /// Was the caret drawn last?
    pub caret_shown: bool,
    /// Are the applications being looked for, or have they been?
    pub discovering: bool,
    pub decision: DecisionModel,
}

/// Is the pointer pulled onto what is near it? It is while it draws or is about to, but not where it
/// draws freely.
pub open spec fn pulls(phase: Phase, mode: EffectiveMode) -> bool {
    phase == Phase::Drawing && mode != EffectiveMode::Freehand
}

/// Where the pointer aims at a place.
pub open spec fn aimed(m: OverlayModel, at: (i32, i32)) -> (i32, i32) {
    pulled(m.aim.targets, pulls(m.phase, mode(m.pen)), at).at
}

/// Where the pointer aims, if it is over the overlay.
pub open spec fn cursor_of(m: OverlayModel, pointer: Option<(i32, i32)>) -> Option<(i32, i32)> {
    match pointer {
        Some(at) => Some(aimed(m, at)),
        None => None,
    }
}

/// The picker and the pen are sound, the pen is where the pointer aims, nothing is drawn while the
/// user picks, and the applications are looked for where no command is preset.
pub open spec fn overlay_wf(m: OverlayModel) -> bool {
    &&& picker_wf(m.picker)
    &&& pen_wf(m.pen)
    &&& m.pen.cursor == cursor_of(m, m.aim.pointer)
    &&& m.scale >= 1
    &&& m.phase == Phase::Picking ==> !m.pen.drawing && m.preset is None
    &&& m.preset is None ==> m.discovering
}

/// The pointer came to a place, or went away.
pub open spec fn hovered(m: OverlayModel, pointer: Option<(i32, i32)>) -> OverlayModel {
    OverlayModel {
        aim: AimModel { pointer, ..m.aim },
        pen: PenModel { cursor: cursor_of(m, pointer), ..m.pen },
        redraw: true,
        ..m
    }
}

/// The pointer moved to a place. It draws while its button is held.
pub open spec fn pointed(m: OverlayModel, at: (i32, i32)) -> OverlayModel {
    let here = hovered(m, Some(at));
    if m.phase == Phase::Drawing && m.pen.drawing {
        OverlayModel { pen: dragged(here.pen, aimed(m, at)), ..here }
    } else {
        here
    }
}

/// What the pointer is pulled onto was told.
pub open spec fn retargeted(m: OverlayModel, t: Option<SnapModel>) -> OverlayModel {
    let next = OverlayModel { aim: AimModel { targets: t, ..m.aim }, redraw: true, ..m };
    OverlayModel {
        pen: PenModel { cursor: cursor_of(next, m.aim.pointer), ..m.pen },
        ..next
    }
}

/// The application in the selected row is started, if there is one.
pub open spec fn chosen(m: OverlayModel) -> OverlayModel {
    if m.picker.matches.len() > 0 {
        OverlayModel {
            decision: DecisionModel::Spawn(row_app(m.picker, m.picker.selected).command),
            ..m
        }
    } else {
        m
    }
}

/// The row in the list that a place on the card belongs to.
pub open spec fn row_under(p: PickerModel, card: CardRect, py: int) -> Option<int> {
    match card.row_hit(py, view_end(p) - p.scroll) {
        Some(i) => Some(p.scroll + i),
        None => None,
    }
}

/// The left button was pressed at a place while the user picks. Outside the card that cancels; on
/// the button of a row that was picked before it forgets the row; on any other row it starts its
/// application.
pub open spec fn picked(m: OverlayModel, at: (i32, i32)) -> (OverlayModel, Option<Seq<char>>) {
    let px = whole_px(at.0 as int);
    let py = whole_px(at.1 as int);
    match m.card {
        None => (m, None),
        Some(card) => if !card.covers(px, py) {
            (OverlayModel { decision: DecisionModel::Cancel, ..m }, None)
        } else {
            match row_under(m.picker, card, py) {
                None => (m, None),
                Some(row) => if card.button_hit(px, py) && is_picked_row(m.picker, row) {
                    (
                        repicked(m, forgotten(m.picker, row)),
                        Some(row_app(m.picker, row).command),
                    )
                } else {
                    (
                        chosen(
                            OverlayModel {
                                picker: PickerModel { selected: row, ..m.picker },
                                ..m
                            },
                        ),
                        None,
                    )
                },
            }
        },
    }
}

/// A button was pressed.
pub open spec fn pressed(m: OverlayModel, at: (i32, i32), button: Button) -> (
    OverlayModel,
    EffectsModel,
) {
    match button {
        Button::Right => (
            OverlayModel { decision: DecisionModel::Cancel, ..m },
            no_effects(),
        ),
        Button::Left => if m.phase == Phase::Drawing {
            (
                OverlayModel { pen: lowered(m.pen, aimed(m, at)), redraw: true, ..m },
                EffectsModel { shimmer: true, ..no_effects() },
            )
        } else {
            let (next, gone) = picked(m, at);
            (next, EffectsModel { forgotten: gone, ..no_effects() })
        },
        Button::Other => (m, no_effects()),
    }
}

/// The drawing is done: the preset command is started, or else the user picks, and the pointer is no
/// longer pulled.
pub open spec fn drawn(m: OverlayModel) -> OverlayModel {
    match m.preset {
        Some(exec) => OverlayModel { decision: DecisionModel::Spawn(exec), ..m },
        None => OverlayModel {
            phase: Phase::Picking,
            pen: PenModel { cursor: m.aim.pointer, ..m.pen },
            redraw: true,
            ..m
        },
    }
}

/// Does letting go of the button pass over the preset command? It does with the control key held.
pub open spec fn passes_over(m: OverlayModel) -> bool {
    m.pen.ctrl && m.preset is Some
}

/// The left button was let go after drawing.
pub open spec fn finished(m: OverlayModel) -> OverlayModel {
    drawn(
        OverlayModel {
            pen: lifted(m.pen),
            preset: if passes_over(m) {
                None
            } else {
                m.preset
            },
            discovering: m.discovering || passes_over(m),
            ..m
        },
    )
}

/// A button was let go.
pub open spec fn released(m: OverlayModel, button: Button) -> (OverlayModel, EffectsModel) {
    if m.phase == Phase::Drawing && button == Button::Left && m.pen.drawing {
        let picking = m.preset is None || m.pen.ctrl;
        (
            finished(m),
            EffectsModel {
                caret: picking,
                cursor: picking,
                discover: passes_over(m) && !m.discovering,
                ..no_effects()
            },
        )
    } else {
        (m, no_effects())
    }
}

/// How many rows a turn of the wheel scrolls by: its clicks, or else one row the way it turned.
pub open spec fn wheel_rows(discrete: i32, absolute: i32) -> int {
    if discrete != 0 {
        discrete as int
    } else if absolute > 0 {
        1
    } else if absolute < 0 {
        -1
    } else {
        0
    }
}

/// The wheel was turned.
pub open spec fn wheeled(m: OverlayModel, rows: int) -> OverlayModel {
    if m.phase == Phase::Picking && rows != 0 {
        OverlayModel { picker: scrolled(m.picker, rows), redraw: true, ..m }
    } else {
        m
    }
}

/// Where the pointer aims with these modifiers held.
pub open spec fn cursor_with(m: OverlayModel, shift: bool, ctrl: bool, alt: bool) -> Option<
    (i32, i32),
> {
    cursor_of(OverlayModel { pen: with_modifiers(m.pen, shift, ctrl, alt), ..m }, m.aim.pointer)
}

/// Does a change of the modifiers decide whether the pointer is pulled?
pub open spec fn releases(m: OverlayModel, shift: bool, ctrl: bool, alt: bool) -> bool {
    m.aim.targets is Some && pulls(m.phase, mode(m.pen)) != pulls(
        m.phase,
        mode(with_modifiers(m.pen, shift, ctrl, alt)),
    )
}

/// The modifiers changed. The pointer takes aim anew before what was drawn takes on its new shape.
/// What is on the screen is out of date if that changed what was drawn, whether the pointer is
/// pulled, or whether a preset command is passed over.
pub open spec fn remodified(m: OverlayModel, shift: bool, ctrl: bool, alt: bool) -> OverlayModel {
    OverlayModel {
        pen: modified(
            PenModel { cursor: cursor_with(m, shift, ctrl, alt), ..m.pen },
            shift,
            ctrl,
            alt,
        ),
        redraw: m.redraw || switches(m.pen) || releases(m, shift, ctrl, alt) || (m.phase
            == Phase::Drawing && m.preset is Some && m.pen.ctrl != ctrl),
        ..m
    }
}

proof fn lemma_remodified_wf(m: OverlayModel, shift: bool, ctrl: bool, alt: bool)
    requires
        overlay_wf(m),
    ensures
        overlay_wf(remodified(m, shift, ctrl, alt)),
{
    let pen = PenModel { cursor: cursor_with(m, shift, ctrl, alt), ..m.pen };
    lemma_modified(pen, shift, ctrl, alt);
}

/// A key that changes the picker was pressed.
pub open spec fn repicked(m: OverlayModel, p: PickerModel) -> OverlayModel {
    OverlayModel { picker: p, redraw: true, ..m }
}

/// Does this key toggle the pin?
pub open spec fn pins(m: OverlayModel, key: Key) -> bool {
    m.phase == Phase::Picking && m.pen.ctrl && key == Key::P
}

/// Does this key type the text it stands for?
pub open spec fn types(m: OverlayModel, key: Key) -> bool {
    m.phase == Phase::Picking && (key == Key::Other || (key == Key::P && !m.pen.ctrl))
}

/// Where the key types a text, the applications can be searched for it.
pub open spec fn key_fits(m: OverlayModel, key: Key, text: Option<&str>) -> bool {
    types(m, key) && text is Some ==> all_scorable(
        m.picker.apps,
        query_with(m.picker.query, text->0@),
    )
}

/// A key was pressed for the picker, other than the one that toggles the pin.
pub open spec fn picker_keyed(m: OverlayModel, key: Key, text: Option<Seq<char>>) -> (
    OverlayModel,
    EffectsModel,
) {
    let p = m.picker;
    match key {
        Key::Enter => (chosen(m), no_effects()),
        Key::BackSpace => (
            repicked(m, untyped(p)),
            EffectsModel { caret: true, ..no_effects() },
        ),
        Key::Up => (repicked(m, moved(p, -1)), no_effects()),
        Key::Down => (repicked(m, moved(p, 1)), no_effects()),
        Key::PageUp => (repicked(m, moved(p, -VISIBLE_ITEMS)), no_effects()),
        Key::PageDown => (repicked(m, moved(p, VISIBLE_ITEMS as int)), no_effects()),
        Key::Delete => if is_picked_row(p, p.selected) {
            (
                repicked(m, forgotten(p, p.selected)),
                EffectsModel {
                    forgotten: Some(row_app(p, p.selected).command),
                    ..no_effects()
                },
            )
        } else {
            (m, no_effects())
        },
        _ => match text {
            Some(t) => (
                repicked(m, typed_all(p, t)),
                EffectsModel { caret: true, ..no_effects() },
            ),
            None => (m, no_effects()),
        },
    }
}

/// A key was pressed, which may stand for a text. Escape cancels; all other keys are for the
/// picker.
pub open spec fn keyed(m: OverlayModel, key: Key, text: Option<Seq<char>>) -> (
    OverlayModel,
    EffectsModel,
) {
    if key == Key::Escape {
        (OverlayModel { decision: DecisionModel::Cancel, ..m }, no_effects())
    } else if m.phase == Phase::Drawing {
        (m, no_effects())
    } else if pins(m, key) {
        (repicked(m, pin_toggled(m.picker)), no_effects())
    } else {
        picker_keyed(m, key, text)
    }
}

/// The number of milliseconds that the caret is shown, and then hidden.
pub const CARET_BLINK_MS: u128 = 530;

/// Is the caret shown this many milliseconds after its blinking began?
pub fn caret_visible_at(ms: u128) -> (r: bool)
    ensures
        r == caret_visible(ms as int),
{
    (ms / CARET_BLINK_MS) % 2 == 0
}

/// Is the caret shown this many milliseconds after its blinking began?
pub open spec fn caret_visible(ms: int) -> bool {
    (ms / 530) % 2 == 0
}

/// The overlay.
pub struct Overlay {
    width: u32,
    height: u32,
    scale: i32,
    configured: bool,
    needs_redraw: bool,
    aim: Aim,
    pen: Pen,
    padding: u32,
    phase: Phase,
    preset_exec: Option<String>,
    picker: PickerState,
    last_card: Option<CardRect>,
    caret_last_visible: bool,
    discovering: bool,
    decision: Decision,
}

impl View for Overlay {
    type V = OverlayModel;

    closed spec fn view(&self) -> OverlayModel {
        OverlayModel {
            width: self.width,
            height: self.height,
            scale: self.scale,
            configured: self.configured,
            redraw: self.needs_redraw,
            aim: self.aim@,
            pen: self.pen@,
            padding: self.padding,
            phase: self.phase,
            preset: opt_text(self.preset_exec),
            picker: self.picker@,
            card: self.last_card,
            caret_shown: self.caret_last_visible,
            discovering: self.discovering,
            decision: self.decision@,
        }
    }
}

impl Overlay {
    /// Is the state of the overlay sound?
    pub open spec fn wf(&self) -> bool {
        overlay_wf(self@)
    }

    /// An overlay that waits for the first press. The applications are looked for at once unless a
    /// command is preset.
    pub fn new(cfg: RunConfig, pinned: Pinned) -> (r: Overlay)
        requires
            history_wf(cfg.history@),
        ensures
            r.wf(),
            r@ == (OverlayModel {
                width: 0,
                height: 0,
                scale: 1,
                configured: false,
                redraw: false,
                aim: AimModel { targets: None, pointer: None },
                pen: PenModel {
                    cursor: None,
                    drawing: false,
                    has_drawn: false,
                    places: Seq::empty(),
                    rounded: 0,
                    shift: false,
                    ctrl: false,
                    alt: false,
                    anchor: None,
                    origin: None,
                    committed: false,
                    gesture: cfg.gesture,
                },
                padding: cfg.padding,
                phase: Phase::Drawing,
                preset: opt_text(cfg.preset_exec),
                picker: PickerModel {
                    apps: Seq::empty(),
                    query: Seq::empty(),
                    matches: Seq::empty(),
                    selected: 0,
                    scroll: 0,
                    history: cfg.history@,
                    pinned: pinned@,
                    toast: false,
                },
                card: None,
                caret_shown: true,
                discovering: cfg.preset_exec is None,
                decision: DecisionModel::Pending,
            }),
    {
        let discovering = cfg.preset_exec.is_none();
        let mut picker = PickerState::new(cfg.history);
        picker.set_pinned(pinned);
        Overlay {
            width: 0,
            height: 0,
            scale: 1,
            configured: false,
            needs_redraw: false,
            aim: Aim::new(),
            pen: Pen::new(cfg.gesture),
            padding: cfg.padding,
            phase: Phase::Drawing,
            preset_exec: cfg.preset_exec,
            picker,
            last_card: None,
            caret_last_visible: true,
            discovering,
            decision: Decision::Pending,
        }
    }

    /// Tells what the pointer is pulled onto while it draws: the corners and edges of some windows
    /// and of the free area of the screen, unless snapping is switched off.
    pub fn set_targets(&mut self, windows: &Vec<Bbox>, safe_area: Bbox)
        requires
            old(self).wf(),
        ensures
            final(self).wf(),
            final(self)@ == retargeted(
                old(self)@,
                if old(self)@.pen.gesture.snap {
                    Some(
                        targets(windows@, safe_area, old(self)@.pen.gesture.snap_radius_px as int),
                    )
                } else {
                    None
                },
            ),
    {
        let snapper = self.pen.gesture().snapper(windows, safe_area);
        self.aim.set_snapper(snapper);
        let cursor = self.find_cursor(self.aim.pointer());
        self.pen.set_cursor(cursor);
        self.needs_redraw = true;
    }

    /// Where the pointer aims at a place, and the lines that it is aligned with.
    pub fn aim_at(&self, at: (i32, i32)) -> (r: Aimed)
        ensures
            r == pulled(self@.aim.targets, pulls(self@.phase, mode(self@.pen)), at),
            r.at == aimed(self@, at),
    {
        let on = self.phase == Phase::Drawing && self.pen.effective_mode()
            != EffectiveMode::Freehand;
        self.aim.pull(on, at)
    }

    fn find_cursor(&self, pointer: Option<(i32, i32)>) -> (r: Option<(i32, i32)>)
        ensures
            r == cursor_of(self@, pointer),
    {
        match pointer {
            Some(at) => Some(self.aim_at(at).at),
            None => None,
        }
    }

    /// Where the pointer is, if it is over the overlay.
    pub fn pointer(&self) -> (r: Option<(i32, i32)>)
        ensures
            r == self@.aim.pointer,
    {
        self.aim.pointer()
    }

    /// The pointer came to a place.
    pub fn pointer_enter(&mut self, at: (i32, i32))
        requires
            old(self).wf(),
        ensures
            final(self).wf(),
            final(self)@ == hovered(old(self)@, Some(at)),
    {
        let cursor = self.find_cursor(Some(at));
        self.aim.set_pointer(Some(at));
        self.pen.set_cursor(cursor);
        self.needs_redraw = true;
    }

    /// The pointer went away.
    pub fn pointer_leave(&mut self)
        requires
            old(self).wf(),
        ensures
            final(self).wf(),
            final(self)@ == hovered(old(self)@, None),
    {
        self.aim.set_pointer(None);
        self.pen.set_cursor(None);
        self.needs_redraw = true;
    }

    /// The pointer moved to a place.
    pub fn pointer_motion(&mut self, at: (i32, i32))
        requires
            old(self).wf(),
        ensures
            final(self).wf(),
            final(self)@ == pointed(old(self)@, at),
    {
        let aim = self.aim_at(at).at;
        self.aim.set_pointer(Some(at));
        self.pen.set_cursor(Some(aim));
        if self.phase == Phase::Drawing && self.pen.is_drawing() {
            self.pen.commit_or_extend_drag(aim);
        }
        self.needs_redraw = true;
    }

    fn finalize_spawn(&mut self)
        requires
            old(self).wf(),
        ensures
            final(self).wf(),
            final(self)@ == chosen(old(self)@),
    {
        if let Some(app) = self.picker.selected_app() {
            self.decision = Decision::Spawn(app.command.as_str().to_owned());
        }
    }

    fn pick_row(&mut self, abs: usize)
        requires
            old(self).wf(),
            abs < old(self)@.picker.matches.len(),
        ensures
            final(self).wf(),
            final(self)@ == chosen(
                OverlayModel {
                    picker: PickerModel { selected: abs as int, ..old(self)@.picker },
                    ..old(self)@
                },
            ),
    {
        self.picker.select(abs);
        self.finalize_spawn();
    }

    fn forget_row(&mut self, abs: usize) -> (r: Option<String>)
        requires
            old(self).wf(),
            abs < old(self)@.picker.matches.len(),
        ensures
            final(self).wf(),
            final(self)@ == repicked(old(self)@, forgotten(old(self)@.picker, abs as int)),
            opt_text(r) == Some(row_app(old(self)@.picker, abs as int).command),
    {
        let gone = self.picker.forget_at(abs);
        self.needs_redraw = true;
        gone
    }

    /// The row in the list that a height on the card belongs to.
    fn row_at(&self, card: CardRect, py: i32) -> (r: Option<usize>)
        requires
            self.wf(),
        ensures
            match row_under(self@.picker, card, py as int) {
                Some(row) => r matches Some(k) && k == row && k < self@.picker.matches.len(),
                None => r is None,
            },
    {
        match card.item_at(py, self.picker.visible_count()) {
            Some(rel) => Some(self.picker.scroll_offset() + rel),
            None => None,
        }
    }

    fn press_on_card(&mut self, at: (i32, i32)) -> (r: Option<String>)
        requires
            old(self).wf(),
        ensures
            final(self).wf(),
            (final(self)@, opt_text(r)) == picked(old(self)@, at),
    {
        let px: i32 = to_whole_px(at.0);
        let py: i32 = to_whole_px(at.1);
        match self.last_card {
            None => None,
            Some(card) => {
                if !card.contains(px, py) {
                    self.decision = Decision::Cancel;
                    return None;
                }
                match self.row_at(card, py) {
                    None => None,
                    Some(abs) => {
                        if card.forget_button_hit(px, py) && self.picker.is_history_row(abs) {
                            self.forget_row(abs)
                        } else {
                            self.pick_row(abs);
                            None
                        }
                    },
                }
            },
        }
    }

    /// A button was pressed at a place.
    pub fn pointer_press(&mut self, at: (i32, i32), button: Button) -> (r: Effects)
        requires
            old(self).wf(),
        ensures
            final(self).wf(),
            (final(self)@, r@) == pressed(old(self)@, at, button),
            r.pin is Nothing,
    {
        let mut out = quiet();
        match button {
            Button::Left => {
                if self.phase == Phase::Drawing {
                    let aim = self.aim_at(at).at;
                    self.pen.down(aim);
                    self.needs_redraw = true;
                    out.shimmer = true;
                } else {
                    out.forgotten = self.press_on_card(at);
                }
            },
            Button::Right => {
                self.decision = Decision::Cancel;
            },
            Button::Other => {},
        }
        out
    }

    fn enter_picker_phase(&mut self) -> (picking: bool)
        requires
            old(self).wf(),
            !old(self)@.pen.drawing,
        ensures
            final(self).wf(),
            final(self)@ == drawn(old(self)@),
            picking == (old(self)@.preset is None),
    {
        if let Some(exec) = &self.preset_exec {
            self.decision = Decision::Spawn(exec.as_str().to_owned());
            return false;
        }
        self.phase = Phase::Picking;
        self.pen.set_cursor(self.aim.pointer());
        self.needs_redraw = true;
        proof {
            if let Some(at) = self@.aim.pointer {
                unpulled_pointer_aims_where_it_is(self@.aim.targets, false, at);
            }
        }
        true
    }

    /// A button was let go.
    pub fn pointer_release(&mut self, button: Button) -> (r: Effects)
        requires
            old(self).wf(),
        ensures
            final(self).wf(),
            (final(self)@, r@) == released(old(self)@, button),
            r.pin is Nothing,
    {
        let mut out = quiet();
        if self.phase == Phase::Drawing && button == Button::Left && self.pen.is_drawing() {
            self.pen.up();
            if self.pen.ctrl_held() && self.preset_exec.is_some() {
                self.preset_exec = None;
                if !self.discovering {
                    self.discovering = true;
                    out.discover = true;
                }
            }
            let picking = self.enter_picker_phase();
            out.caret = picking;
            out.cursor = picking;
        }
        out
    }

    /// The wheel was turned: by some clicks, or by some distance.
    pub fn pointer_axis(&mut self, discrete: i32, absolute: i32)
        requires
            old(self).wf(),
        ensures
            final(self).wf(),
            final(self)@ == wheeled(old(self)@, wheel_rows(discrete, absolute)),
    {
        if self.phase == Phase::Picking {
            let delta: isize = if discrete != 0 {
                discrete as isize
            } else if absolute > 0 {
                1
            } else if absolute < 0 {
                -1
            } else {
                0
            };
            if delta != 0 {
                self.picker.scroll_by(delta);
                self.needs_redraw = true;
            }
        }
    }

    /// Aims as with these modifiers held.
    fn take_aim(&mut self, shift: bool, ctrl: bool, alt: bool)
        requires
            pen_wf(old(self)@.pen),
        ensures
            final(self)@ == (OverlayModel {
                pen: PenModel { cursor: cursor_with(old(self)@, shift, ctrl, alt), ..old(self)@.pen },
                redraw: old(self)@.redraw || releases(old(self)@, shift, ctrl, alt),
                ..old(self)@
            }),
    {
        let free = EffectiveMode::Freehand;
        let pulled_before = self.phase == Phase::Drawing && self.pen.effective_mode() != free;
        let pulled_now = self.phase == Phase::Drawing && self.pen.gesture().resolve(
            shift,
            ctrl,
            alt,
        ) != free;
        if self.aim.has_targets() && pulled_before != pulled_now {
            self.needs_redraw = true;
        }
        let cursor: Option<(i32, i32)> = match self.aim.pointer() {
            Some(at) => Some(self.aim.pull(pulled_now, at).at),
            None => None,
        };
        self.pen.set_cursor(cursor);
    }

    /// The modifiers changed.
    pub fn update_modifiers(&mut self, shift: bool, ctrl: bool, alt: bool)
        requires
            old(self).wf(),
        ensures
            final(self).wf(),
            final(self)@ == remodified(old(self)@, shift, ctrl, alt),
    {
        proof {
            lemma_remodified_wf(self@, shift, ctrl, alt);
        }
        let passes = self.phase == Phase::Drawing && self.preset_exec.is_some()
            && self.pen.ctrl_held() != ctrl;
        self.take_aim(shift, ctrl, alt);
        let switched = self.pen.update_modifiers(shift, ctrl, alt);
        if passes || switched {
            self.needs_redraw = true;
        }
    }

    fn type_text(&mut self, text: &str)
        requires
            old(self).wf(),
            all_scorable(old(self)@.picker.apps, query_with(old(self)@.picker.query, text@)),
        ensures
            final(self).wf(),
            final(self)@ == (OverlayModel {
                picker: typed_all(old(self)@.picker, text@),
                ..old(self)@
            }),
    {
        let chars = chars_of(text);
        let ghost before = self@.picker;
        let mut i: usize = 0;
        assert(chars@.take(0) =~= Seq::<char>::empty());
        while i < chars.len()
            invariant
                chars@ == text@,
                i <= chars@.len(),
                self.wf(),
                all_scorable(before.apps, query_with(before.query, text@)),
                self@ == (OverlayModel {
                    picker: typed_all(before, chars@.take(i as int)),
                    ..old(self)@
                }),
            decreases chars@.len() - i,
        {
            proof {
                let done = chars@.take(i as int);
                let more = chars@.take(i + 1);
                assert(more.drop_last() =~= done);
                lemma_typed_query(before, done);
                lemma_query_grows(before.apps, before.query, text@, i + 1);
            }
            self.picker.push_char(chars[i]);
            i += 1;
        }
        assert(chars@.take(i as int) =~= chars@);
    }

    /// Moves the selection by some rows.
    fn navigate(&mut self, delta: isize)
        requires
            old(self).wf(),
        ensures
            final(self).wf(),
            final(self)@ == repicked(old(self)@, moved(old(self)@.picker, delta as int)),
    {
        self.picker.move_selection(delta);
        self.needs_redraw = true;
    }

    /// A key was pressed for the picker, other than the one that toggles the pin.
    fn press_picker_key(&mut self, key: Key, text: Option<&str>) -> (r: Effects)
        requires
            old(self).wf(),
            old(self)@.phase == Phase::Picking,
            key != Key::Escape,
            !pins(old(self)@, key),
            key_fits(old(self)@, key, text),
        ensures
            final(self).wf(),
            (final(self)@, r@) == picker_keyed(
                old(self)@,
                key,
                match text {
                    Some(t) => Some(t@),
                    None => None,
                },
            ),
            r.pin is Nothing,
    {
        let mut out = quiet();
        match key {
            Key::Enter => {
                self.finalize_spawn();
            },
            Key::BackSpace => {
                self.picker.pop_char();
                out.caret = true;
                self.needs_redraw = true;
            },
            Key::Up => {
                self.navigate(-1);
            },
            Key::Down => {
                self.navigate(1);
            },
            Key::PageUp => {
                self.navigate(-(VISIBLE_ITEMS as isize));
            },
            Key::PageDown => {
                self.navigate(VISIBLE_ITEMS as isize);
            },
            Key::Delete => {
                let selected: usize = self.picker.selected_index();
                if self.picker.is_history_row(selected) {
                    out.forgotten = self.forget_row(selected);
                }
            },
            _ => {
                if let Some(t) = text {
                    self.type_text(t);
                    out.caret = true;
                    self.needs_redraw = true;
                }
            },
        }
        out
    }

    /// Can the key be handled? Only one that types a text cannot, where the query gets too long.
    pub fn can_handle(&self, key: Key, text: Option<&str>) -> (r: bool)
        ensures
            r == key_fits(self@, key, text),
    {
        let types = self.phase == Phase::Picking && (key == Key::Other || (key == Key::P
            && !self.pen.ctrl_held()));
        match text {
            Some(t) => !types || self.picker.can_search(t),
            None => true,
        }
    }

    /// A key was pressed, which may stand for a text.
    pub fn handle_key_event(&mut self, key: Key, text: Option<&str>) -> (r: Effects)
        requires
            old(self).wf(),
            key_fits(old(self)@, key, text),
        ensures
            final(self).wf(),
            (final(self)@, r@) == keyed(
                old(self)@,
                key,
                match text {
                    Some(t) => Some(t@),
                    None => None,
                },
            ),
            !pins(old(self)@, key) ==> r.pin is Nothing,
            pins(old(self)@, key) ==> pin_change(old(self)@.picker, r.pin),
    {
        if key == Key::Escape {
            self.decision = Decision::Cancel;
            return quiet();
        }
        if self.phase != Phase::Picking {
            return quiet();
        }
        if self.pen.ctrl_held() && key == Key::P {
            let mut out = quiet();
            out.pin = self.picker.toggle_pin_selected();
            self.needs_redraw = true;
            return out;
        }
        self.press_picker_key(key, text)
    }

    /// The applications were found. They are taken if none are known yet.
    pub fn set_apps(&mut self, apps: Vec<App>)
        requires
            old(self).wf(),
            all_scorable(views(apps@), old(self)@.picker.query),
        ensures
            final(self).wf(),
            final(self)@ == (if old(self)@.picker.apps.len() == 0 {
                repicked(
                    old(self)@,
                    relisted(
                        old(self)@.picker,
                        views(apps@),
                        old(self)@.picker.query,
                        old(self)@.picker.history,
                    ),
                )
            } else {
                old(self)@
            }),
    {
        if self.picker.loading() {
            self.picker.set_apps(apps);
            self.needs_redraw = true;
        }
    }

    /// The screen has this size. A side is at least one pixel long.
    pub fn configure(&mut self, width: u32, height: u32)
        requires
            old(self).wf(),
        ensures
            final(self).wf(),
            final(self)@ == (OverlayModel {
                width: if width == 0 {
                    1
                } else {
                    width
                },
                height: if height == 0 {
                    1
                } else {
                    height
                },
                configured: true,
                redraw: true,
                ..old(self)@
            }),
    {
        self.width = if width == 0 {
            1
        } else {
            width
        };
        self.height = if height == 0 {
            1
        } else {
            height
        };
        self.configured = true;
        self.needs_redraw = true;
    }

    /// The screen has this scale, which is at least one. Did it change?
    pub fn scale_factor_changed(&mut self, factor: i32) -> (changed: bool)
        requires
            old(self).wf(),
        ensures
            final(self).wf(),
            ({
                let scale = if factor < 1 {
                    1
                } else {
                    factor
                };
                &&& changed == (scale != old(self)@.scale)
                &&& final(self)@ == (OverlayModel {
                    scale,
                    redraw: old(self)@.redraw || changed,
                    ..old(self)@
                })
            }),
    {
        let scale: i32 = if factor < 1 {
            1
        } else {
            factor
        };
        if scale == self.scale {
            return false;
        }
        self.scale = scale;
        self.needs_redraw = true;
        true
    }

    /// This many milliseconds have passed since the caret began to blink. What is on the screen is
    /// out of date if the caret was to come or to go.
    pub fn blink_tick(&mut self, ms: u128)
        requires
            old(self).wf(),
        ensures
            final(self).wf(),
            final(self)@ == (OverlayModel {
                redraw: old(self)@.redraw || (old(self)@.phase == Phase::Picking && caret_visible(
                    ms as int,
                ) != old(self)@.caret_shown),
                ..old(self)@
            }),
    {
        if self.phase == Phase::Picking {
            let want = caret_visible_at(ms);
            if want != self.caret_last_visible {
                self.needs_redraw = true;
            }
        }
    }

    /// The shimmer moved on. What is on the screen is out of date while there is a stroke.
    pub fn shimmer_tick(&mut self)
        requires
            old(self).wf(),
        ensures
            final(self).wf(),
            final(self)@ == (OverlayModel {
                redraw: old(self)@.redraw || (old(self)@.phase == Phase::Drawing
                    && old(self)@.pen.places.len() >= 2),
                ..old(self)@
            }),
    {
        if self.phase == Phase::Drawing && self.pen.stroke().points().len() >= 2 {
            self.needs_redraw = true;
        }
    }

    /// The overlay was closed from outside.
    pub fn closed(&mut self)
        requires
            old(self).wf(),
        ensures
            final(self).wf(),
            final(self)@ == (OverlayModel { decision: DecisionModel::Cancel, ..old(self)@ }),
    {
        self.decision = Decision::Cancel;
    }

    /// Is what is on the screen out of date, and the size of the screen known?
    pub fn is_due(&self) -> (r: bool)
        ensures
            r == (self@.configured && self@.redraw),
    {
        self.configured && self.needs_redraw
    }

    /// What is on the screen is up to date.
    pub fn mark_drawn(&mut self)
        requires
            old(self).wf(),
        ensures
            final(self).wf(),
            final(self)@ == (OverlayModel { redraw: false, ..old(self)@ }),
    {
        self.needs_redraw = false;
    }

    /// The card was drawn here, with or without the caret.
    pub(crate) fn show_card(&mut self, card: CardRect, caret: bool)
        requires
            old(self).wf(),
        ensures
            final(self).wf(),
            final(self)@ == (OverlayModel { card: Some(card), caret_shown: caret, ..old(self)@ }),
    {
        self.last_card = Some(card);
        self.caret_last_visible = caret;
    }

    /// Has the user decided?
    pub fn is_decided(&self) -> (r: bool)
        ensures
            r == !(self@.decision is Pending),
    {
        match self.decision {
            Decision::Pending => false,
            _ => true,
        }
    }

    /// Is the user drawing, or picking an application?
    pub fn phase(&self) -> (r: Phase)
        ensures
            r == self@.phase,
    {
        self.phase
    }

    /// The pen.
    pub fn pen(&self) -> (r: &Pen)
        ensures
            r@ == self@.pen,
    {
        &self.pen
    }

    /// What the user picks from.
    pub fn picker(&self) -> (r: &PickerState)
        ensures
            r@ == self@.picker,
    {
        &self.picker
    }

    /// The size of the screen in logical pixels.
    pub fn size(&self) -> (r: (u32, u32))
        ensures
            r == (self@.width, self@.height),
    {
        (self.width, self.height)
    }

    /// The number of pixels of the screen along a logical pixel.
    pub fn scale(&self) -> (r: i32)
        ensures
            r == self@.scale,
    {
        self.scale
    }

    /// Are the applications being looked for, or have they been?
    pub fn is_discovering(&self) -> (r: bool)
        ensures
            r == self@.discovering,
    {
        self.discovering
    }

    /// The command that is started without asking.
    pub fn preset(&self) -> (r: Option<&str>)
        ensures
            self@.preset is Some <==> r is Some,
            r matches Some(s) ==> self@.preset == Some(s@),
    {
        match &self.preset_exec {
            Some(s) => Some(s.as_str()),
            None => None,
        }
    }

    /// Where the card was drawn last.
    pub fn last_card(&self) -> (r: Option<CardRect>)
        ensures
            r == self@.card,
    {
        self.last_card
    }

    /// What came of the overlay: the chosen command in the box of the stroke, kept on the screen.
    pub fn outcome(self) -> (r: Outcome)
        ensures
            match self@.decision {
                DecisionModel::Spawn(exec) => r matches Outcome::Spawn {
                    bbox,
                    command,
                    screen,
                } && command@ == exec && screen == screen_of(self@) && bbox == box_around(
                    self@.pen.places,
                    self@.padding,
                ).spec_clamp_to_rect(screen),
                _ => r is Cancelled,
            },
    {
        let screen = Bbox { x: 0, y: 0, w: self.width, h: self.height };
        match self.decision {
            Decision::Spawn(command) => {
                let stroke = self.pen.stroke();
                proof {
                    box_ignores_time(stroke@, self.padding);
                }
                let raw = stroke.bbox(self.padding);
                Outcome::Spawn { bbox: raw.clamp_to_rect(screen), command, screen }
            },
            _ => Outcome::Cancelled,
        }
    }
}

/// The rectangle of the screen.
pub open spec fn screen_of(m: OverlayModel) -> Bbox {
    Bbox { x: 0, y: 0, w: m.width, h: m.height }
}

/// What becomes of the file that holds the pinned command when the pin is toggled: it is removed
/// where the selected application was the pinned one, and else holds its command.
pub open spec fn pin_change(p: PickerModel, change: PinChange) -> bool {
    match change {
        PinChange::Nothing => p.matches.len() == 0,
        PinChange::Remove => is_pin_row(p, p.selected),
        PinChange::Write(text) => {
            &&& p.matches.len() > 0
            &&& !is_pin_row(p, p.selected)
            &&& text@ == row_app(p, p.selected).command.push('\n')
        },
    }
}

/// Escape cancels, whatever the user is doing.
pub proof fn escape_cancels(m: OverlayModel, text: Option<Seq<char>>)
    ensures
        keyed(m, Key::Escape, text).0.decision is Cancel,
{
}

/// The right button cancels, wherever it is pressed.
pub proof fn right_button_cancels(m: OverlayModel, at: (i32, i32))
    ensures
        pressed(m, at, Button::Right).0.decision is Cancel,
{
}

/// No key but escape does anything while the user draws.
pub proof fn keys_wait_for_the_picker(m: OverlayModel, key: Key, text: Option<Seq<char>>)
    requires
        m.phase == Phase::Drawing,
        key != Key::Escape,
    ensures
        keyed(m, key, text) == (m, no_effects()),
{
}

/// Letting go of the button starts the preset command at once, unless the control key is held.
pub proof fn preset_starts_on_release(m: OverlayModel, exec: Seq<char>)
    requires
        m.phase == Phase::Drawing,
        m.pen.drawing,
        m.preset == Some(exec),
        !m.pen.ctrl,
    ensures
        released(m, Button::Left).0.decision == DecisionModel::Spawn(exec),
{
}

/// With the control key held, letting go of the button opens the picker, whatever is preset; the
/// applications are then looked for, if they were not before.
pub proof fn control_opens_the_picker(m: OverlayModel)
    requires
        overlay_wf(m),
        m.phase == Phase::Drawing,
        m.pen.drawing,
        m.pen.ctrl,
    ensures
        ({
            let (next, effects) = released(m, Button::Left);
            &&& next.phase == Phase::Picking
            &&& next.decision == m.decision
            &&& next.discovering
            &&& effects.discover == !m.discovering
        }),
{
}

/// A click leaves a stroke whose box has no extent, where the pointer aimed when the button was
/// pressed.
pub proof fn click_has_no_extent(m: OverlayModel, press: (i32, i32), at: (i32, i32))
    requires
        m.phase == Phase::Drawing,
        !is_drag(aimed(m, press), aimed(m, at), m.pen.gesture.drag_threshold_px as int),
    ensures
        ({
            let down = pressed(m, press, Button::Left).0;
            let up = released(pointed(down, at), Button::Left).0;
            &&& up.pen.places == seq![aimed(m, press)]
            &&& box_around(up.pen.places, 0).w == 0
            &&& box_around(up.pen.places, 0).h == 0
        }),
{
    crate::gesture::box_of_a_click(aimed(m, press));
}

/// A drag starts the preset command in the rectangle that was drawn, to the nearest pixel: the one
/// from where the pointer aimed at the press to where it aims at last.
pub proof fn drag_starts_in_its_rectangle(
    m: OverlayModel,
    press: (i32, i32),
    at: (i32, i32),
    exec: Seq<char>,
)
    requires
        m.phase == Phase::Drawing,
        m.preset == Some(exec),
        !m.pen.ctrl,
        mode(m.pen) == EffectiveMode::Rectangle,
        is_drag(aimed(m, press), aimed(m, at), m.pen.gesture.drag_threshold_px as int),
    ensures
        ({
            let down = pressed(m, press, Button::Left).0;
            let up = released(pointed(down, at), Button::Left).0;
            let c = drag_rect(aimed(m, press), aimed(m, at), false);
            &&& up.decision == DecisionModel::Spawn(exec)
            &&& box_around(up.pen.places, 0) == (Bbox {
                x: round_px(c.x0 as int) as i32,
                y: round_px(c.y0 as int) as i32,
                w: round_px(c.x1 - c.x0) as u32,
                h: round_px(c.y1 - c.y0) as u32,
            })
        }),
{
    let c = drag_rect(aimed(m, press), aimed(m, at), false);
    drag_rect_spans_the_drag(aimed(m, press), aimed(m, at));
    box_of_an_outline(c);
}

/// Outside freehand the pointer and the corner that it drags are pulled onto what is near them: a
/// press begins there, and a motion goes there.
pub proof fn pointer_is_pulled(m: OverlayModel, t: SnapModel, at: (i32, i32))
    requires
        m.phase == Phase::Drawing,
        mode(m.pen) != EffectiveMode::Freehand,
        m.aim.targets == Some(t),
        is_place(snap_of(t, (at.0 as i64, at.1 as i64)).point),
    ensures
        ({
            let to = snap_of(t, (at.0 as i64, at.1 as i64)).point;
            let aim = (to.0 as i32, to.1 as i32);
            &&& pressed(m, at, Button::Left).0.pen == lowered(m.pen, aim)
            &&& pointed(m, at).pen.cursor == Some(aim)
            &&& m.pen.drawing ==> pointed(m, at).pen == dragged(
                PenModel { cursor: Some(aim), ..m.pen },
                aim,
            )
        }),
{
    reveal(pulled);
}

/// In freehand nothing is pulled, whatever windows there are, and neither is anything while the user
/// picks or without targets.
pub proof fn freehand_is_not_pulled(m: OverlayModel, at: (i32, i32))
    requires
        m.phase == Phase::Picking || mode(m.pen) == EffectiveMode::Freehand || m.aim.targets is None,
    ensures
        aimed(m, at) == at,
        pointed(m, at).pen.cursor == Some(at),
        m.phase == Phase::Drawing ==> pressed(m, at, Button::Left).0.pen == lowered(m.pen, at),
        m.phase == Phase::Drawing && m.pen.drawing ==> pointed(m, at).pen == dragged(
            PenModel { cursor: Some(at), ..m.pen },
            at,
        ),
{
    unpulled_pointer_aims_where_it_is(m.aim.targets, pulls(m.phase, mode(m.pen)), at);
}

/// The pointer stays where it is pulled to when a rectangle becomes a square or the other way round.
pub proof fn lock_outlasts_modifiers(m: OverlayModel, shift: bool, ctrl: bool, alt: bool)
    requires
        overlay_wf(m),
        mode(m.pen) != EffectiveMode::Freehand,
        mode(with_modifiers(m.pen, shift, ctrl, alt)) != EffectiveMode::Freehand,
    ensures
        remodified(m, shift, ctrl, alt).pen.cursor == m.pen.cursor,
{
}

/// Only what the user was offered is started: a press on the card starts the application in the row
/// it hit, and nothing else.
pub proof fn press_starts_the_row_it_hit(m: OverlayModel, at: (i32, i32), exec: Seq<char>)
    requires
        overlay_wf(m),
        m.decision is Pending,
        picked(m, at).0.decision == DecisionModel::Spawn(exec),
    ensures
        ({
            let py = whole_px(at.1 as int);
            &&& m.card is Some
            &&& m.card->0.covers(whole_px(at.0 as int), py)
            &&& row_under(m.picker, m.card->0, py) matches Some(row)
            &&& exec == row_app(m.picker, row).command
        }),
{
}

/// The caret is shown for the first half of every blink, and hidden for the second.
pub proof fn caret_blinks(blinks: nat, ms: int)
    requires
        0 <= ms < 2 * CARET_BLINK_MS,
    ensures
        caret_visible(1060 * blinks + ms) <==> ms < CARET_BLINK_MS,
{
    assert((1060 * blinks + ms) / 530 == 2 * blinks + ms / 530);
}

/// The box of a stroke is kept on the screen.
pub proof fn outcome_is_on_screen(m: OverlayModel)
    ensures
        inside(
            box_around(m.pen.places, m.padding).spec_clamp_to_rect(screen_of(m)),
            screen_of(m),
        ),
{
    clamped_box_is_inside(box_around(m.pen.places, m.padding), screen_of(m));
}

/// How far out and how large the box of a stroke can be.
pub(crate) proof fn lemma_box_bounds(at: Seq<(i32, i32)>, padding: u32)
    requires
        padding <= 0x1000_0000,
    ensures
        ({
            let b = box_around(at, padding);
            &&& -0x1100_0000 <= b.x <= 0x100_0000
            &&& -0x1100_0000 <= b.y <= 0x100_0000
            &&& b.w <= 0x100_0001 + 2 * padding
            &&& b.h <= 0x100_0001 + 2 * padding
        }),
{
    let points = at.map_values(|p: (i32, i32)| Point { x: p.0, y: p.1, t: 0 });
    if at.len() > 0 {
        lemma_span_bounds(xs(points), padding as int);
        lemma_span_bounds(ys(points), padding as int);
    }
}

proof fn lemma_span_bounds(s: Seq<int>, padding: int)
    requires
        s.len() > 0,
        0 <= padding <= 0x1000_0000,
        forall|k: int| 0 <= k < s.len() ==> i32::MIN <= #[trigger] s[k] <= i32::MAX,
    ensures
        -0x1100_0000 <= span_start(s, padding) <= 0x100_0000,
        0 <= span_len(s, padding) <= 0x100_0001 + 2 * padding,
{
    extremes_are_reached(s);
    let a = choose|a: int| 0 <= a < s.len() && s[a] == least(s);
    let b = choose|b: int| 0 <= b < s.len() && s[b] == greatest(s);
    assert(s[a] == least(s) && s[b] == greatest(s));
    assert(least(s) <= s[b]);
}

/// The arrow keys move the selection by one row and the page keys by eight, up and down, and stop
/// at the ends of the list.
pub proof fn keys_move_the_selection(m: OverlayModel, text: Option<Seq<char>>)
    requires
        m.phase == Phase::Picking,
        m.picker.matches.len() > 0,
        0 <= m.picker.selected < m.picker.matches.len(),
    ensures
        ({
            let at = m.picker.selected;
            let last = m.picker.matches.len() - 1;
            &&& keyed(m, Key::Down, text).0.picker.selected == (if at < last {
                at + 1
            } else {
                last
            })
            &&& keyed(m, Key::Up, text).0.picker.selected == (if at > 0 {
                at - 1
            } else {
                0
            })
            &&& keyed(m, Key::PageDown, text).0.picker.selected == (if at + 8 < last {
                at + 8
            } else {
                last
            })
            &&& keyed(m, Key::PageUp, text).0.picker.selected == (if at > 8 {
                at - 8
            } else {
                0
            })
        }),
        forall|key: Key|
            key == Key::Down || key == Key::Up || key == Key::PageDown || key == Key::PageUp ==> {
                let (n, effects) = #[trigger] keyed(m, key, text);
                &&& n == (OverlayModel { picker: n.picker, redraw: true, ..m })
                &&& n.picker == (PickerModel {
                    selected: n.picker.selected,
                    scroll: n.picker.scroll,
                    ..m.picker
                })
                &&& n.picker.scroll <= n.picker.selected < n.picker.scroll + 8
                &&& effects == no_effects()
            },
{
}

/// The enter key starts the application in the selected row. Without rows nothing happens.
pub proof fn enter_starts_the_selected_row(m: OverlayModel, text: Option<Seq<char>>)
    requires
        m.phase == Phase::Picking,
    ensures
        ({
            let (n, effects) = keyed(m, Key::Enter, text);
            let p = m.picker;
            &&& p.matches.len() > 0 ==> n.decision == DecisionModel::Spawn(
                p.apps[p.matches[p.selected] as int].command,
            )
            &&& p.matches.len() == 0 ==> n == m
            &&& n == (OverlayModel { decision: n.decision, ..m })
            &&& effects == no_effects()
        }),
{
}

/// Typed text goes into the query, be it a P without the control key. The backspace key takes the
/// last character back. Both show the caret.
pub proof fn typed_keys_change_the_query(m: OverlayModel, key: Key, text: Seq<char>)
    requires
        m.phase == Phase::Picking,
        key == Key::Other || (key == Key::P && !m.pen.ctrl),
        text.len() > 0,
        forall|i: int|
            0 <= i < text.len() ==> ' ' <= #[trigger] text[i] < '\u{7f}' || text[i] >= '\u{a0}',
    ensures
        ({
            let (n, effects) = keyed(m, key, Some(text));
            let (back, taken) = keyed(n, Key::BackSpace, None);
            &&& n.picker.query == m.picker.query + text
            &&& n == (OverlayModel { picker: n.picker, redraw: true, ..m })
            &&& back.picker.query == m.picker.query + text.drop_last()
            &&& back == (OverlayModel { picker: back.picker, redraw: true, ..m })
            &&& effects == taken && effects.caret && effects.forgotten is None
            &&& !effects.shimmer && !effects.cursor && !effects.discover
        }),
        keyed(m, key, None) == (m, no_effects()),
{
    typed_text_extends_the_query(m.picker, text, '\u{0}');
    assert((m.picker.query + text).drop_last() =~= m.picker.query + text.drop_last());
}

/// The delete key forgets the selected row if its command was picked before, and has it taken out
/// of the history file. Of any other row it takes no notice.
pub proof fn delete_forgets_the_selected_row(m: OverlayModel, text: Option<Seq<char>>)
    requires
        m.phase == Phase::Picking,
        0 <= m.picker.selected < m.picker.matches.len(),
    ensures
        ({
            let (n, effects) = keyed(m, Key::Delete, text);
            let command = m.picker.apps[m.picker.matches[m.picker.selected] as int].command;
            &&& m.picker.history.counts.contains_key(command) ==> {
                &&& effects.forgotten == Some(command)
                &&& !n.picker.history.counts.contains_key(command)
                &&& n.picker == forgotten(m.picker, m.picker.selected)
                &&& n == (OverlayModel { picker: n.picker, redraw: true, ..m })
                &&& effects == (EffectsModel { forgotten: Some(command), ..no_effects() })
            }
            &&& !m.picker.history.counts.contains_key(command) ==> n == m && effects
                == no_effects()
        }),
{
}

/// With the control key, P pins the selected row or unpins it; the query stays.
pub proof fn control_p_pins_the_selected_row(m: OverlayModel, text: Option<Seq<char>>)
    requires
        m.phase == Phase::Picking,
        m.pen.ctrl,
        0 <= m.picker.selected < m.picker.matches.len(),
    ensures
        ({
            let (n, effects) = keyed(m, Key::P, text);
            let command = m.picker.apps[m.picker.matches[m.picker.selected] as int].command;
            &&& m.picker.pinned == Some(command) ==> n.picker.pinned is None
            &&& m.picker.pinned != Some(command) ==> n.picker.pinned == Some(command)
                && n.picker.toast
            &&& n == (OverlayModel { picker: n.picker, redraw: true, ..m })
            &&& n.picker == (PickerModel {
                pinned: n.picker.pinned,
                toast: n.picker.toast,
                ..m.picker
            })
            &&& effects == no_effects()
        }),
{
}

/// The file of the pinned command is kept in step with the pin: what is written to it is read back
/// as the command that is pinned from then on, it is removed where nothing is pinned any more, and
/// it stays where the pin does.
pub proof fn pin_file_is_kept_in_step(p: PickerModel, change: PinChange)
    requires
        picker_wf(p),
        pin_change(p, change),
        p.matches.len() > 0 ==> {
            let command = p.apps[p.matches[p.selected] as int].command;
            trimmed(command) == command && command.len() > 0
        },
    ensures
        match change {
            PinChange::Nothing => pin_toggled(p) == p,
            PinChange::Remove => p.pinned is Some && pin_toggled(p).pinned is None,
            PinChange::Write(text) => pin_toggled(p).pinned is Some && pinned_by(text@)
                == pin_toggled(p).pinned,
        },
{
    if let PinChange::Write(text) = change {
        pinned_command_is_loaded(p.apps[p.matches[p.selected] as int].command);
    }
}

/// The wheel moves the view by its clicks, down for positive ones; a touchpad, which reports only a
/// way, moves it by one row in the direction of the way. It moves nothing while the user draws.
pub proof fn wheel_moves_the_view(m: OverlayModel, discrete: i32, absolute: i32)
    ensures
        ({
            let n = wheeled(m, wheel_rows(discrete, absolute));
            let by = if discrete != 0 {
                discrete as int
            } else if absolute > 0 {
                1
            } else if absolute < 0 {
                -1
            } else {
                0
            };
            let most = m.picker.matches.len() - 8;
            &&& n == (OverlayModel { picker: n.picker, redraw: n.redraw, ..m })
            &&& n.picker == (PickerModel { scroll: n.picker.scroll, ..m.picker })
            &&& m.phase == Phase::Drawing || by == 0 ==> n == m
            &&& m.phase == Phase::Picking && by != 0 ==> n.redraw
            &&& m.phase == Phase::Picking && 0 <= m.picker.scroll + by <= most && most > 0
                ==> n.picker.scroll == m.picker.scroll + by
            &&& m.phase == Phase::Picking && by != 0 && m.picker.scroll + by < 0 && most > 0
                ==> n.picker.scroll == 0
            &&& m.phase == Phase::Picking && by != 0 && m.picker.scroll + by > most && most > 0
                ==> n.picker.scroll == most
            &&& most <= 0 ==> n.picker == m.picker
        }),
{
}

/// A press of the left button starts to draw where the pointer aims, with a fresh shimmer. Buttons
/// other than the left and the right one do nothing.
pub proof fn left_button_draws(m: OverlayModel, at: (i32, i32))
    requires
        m.phase == Phase::Drawing,
    ensures
        ({
            let (n, effects) = pressed(m, at, Button::Left);
            &&& n.pen.drawing && n.pen.origin == Some(aimed(m, at)) && n.pen.places.len() == 0
            &&& n == (OverlayModel { pen: n.pen, redraw: true, ..m })
            &&& effects.shimmer && effects.forgotten is None
            &&& !effects.caret && !effects.cursor && !effects.discover
        }),
        pressed(m, at, Button::Other) == (m, no_effects()),
        pressed(m, at, Button::Right) == (
            OverlayModel { decision: DecisionModel::Cancel, ..m },
            no_effects(),
        ),
{
}

/// Only the release of the left button that draws ends the drawing. The picker opens unless a
/// command is preset and the control key is up, and then gets its caret and its cursor; the pointer
/// is where it is, no longer pulled onto anything.
pub proof fn release_ends_the_drawing(m: OverlayModel, button: Button)
    ensures
        ({
            let (n, effects) = released(m, button);
            let ends = m.phase == Phase::Drawing && button == Button::Left && m.pen.drawing;
            let picks = m.preset is None || m.pen.ctrl;
            &&& !ends ==> n == m && effects == no_effects()
            &&& ends ==> {
                &&& !n.pen.drawing
                &&& effects.caret == picks && effects.cursor == picks
                &&& !effects.shimmer && effects.forgotten is None
                &&& picks ==> n == (OverlayModel {
                    phase: Phase::Picking,
                    pen: PenModel { cursor: m.aim.pointer, ..lifted(m.pen) },
                    preset: None,
                    discovering: m.discovering || m.preset is Some,
                    redraw: true,
                    ..m
                })
                &&& !picks ==> n == (OverlayModel {
                    pen: lifted(m.pen),
                    decision: DecisionModel::Spawn(m.preset->0),
                    ..m
                })
                &&& effects.discover <==> m.preset is Some && m.pen.ctrl && !m.discovering
            }
        }),
{
}

/// A press on the button of a row that was picked before forgets that row, and nothing is started.
pub proof fn press_on_a_button_forgets_the_row(m: OverlayModel, at: (i32, i32), card: CardRect, i: int)
    requires
        m.card == Some(card),
        m.picker.scroll >= 0,
        0 <= i < view_end(m.picker) - m.picker.scroll,
        card.covers(whole_px(at.0 as int), whole_px(at.1 as int)),
        card.forget_btn_right - 22 <= whole_px(at.0 as int) < card.forget_btn_right,
        card.in_button(i, whole_px(at.1 as int)),
        m.picker.history.counts.contains_key(
            m.picker.apps[m.picker.matches[m.picker.scroll + i] as int].command,
        ),
    ensures
        ({
            let (n, gone) = picked(m, at);
            let command = m.picker.apps[m.picker.matches[m.picker.scroll + i] as int].command;
            &&& gone == Some(command)
            &&& !n.picker.history.counts.contains_key(command)
            &&& n == (OverlayModel {
                picker: forgotten(m.picker, m.picker.scroll + i),
                redraw: true,
                ..m
            })
        }),
{
    let py = whole_px(at.1 as int);
    card.buttons_lie_in_their_rows(i, py);
    let n = view_end(m.picker) - m.picker.scroll;
    assert(i < n && card.in_row(i, py));
    let j = choose|j: int| j < n && #[trigger] card.in_row(j, py);
    card.rows_do_not_overlap(i, j, py);
}

/// A pointer that goes away leaves what is drawn; it only no longer has a place.
pub proof fn leaving_pointer_keeps_the_drawing(m: OverlayModel)
    ensures
        ({
            let n = hovered(m, None);
            &&& n.aim.pointer is None && n.pen.cursor is None && n.redraw
            &&& n.pen == (PenModel { cursor: None, ..m.pen })
            &&& n.aim.targets == m.aim.targets
            &&& n == (OverlayModel { aim: n.aim, pen: n.pen, redraw: true, ..m })
        }),
{
}

/// A pointer that moves without a button held draws nothing.
pub proof fn free_pointer_draws_nothing(m: OverlayModel, at: (i32, i32))
    requires
        !m.pen.drawing || m.phase == Phase::Picking,
    ensures
        pointed(m, at).aim.pointer == Some(at),
        pointed(m, at).pen == (PenModel { cursor: pointed(m, at).pen.cursor, ..m.pen }),
        pointed(m, at).pen.cursor is Some,
        pointed(m, at).aim.targets == m.aim.targets,
        pointed(m, at) == (OverlayModel {
            aim: pointed(m, at).aim,
            pen: pointed(m, at).pen,
            redraw: true,
            ..m
        }),
{
}

/// Modifiers that change nothing on the screen are only noted: without a drag, without anything to
/// be pulled onto, and without a preset command whose banner would light up.
pub proof fn modifiers_alone_draw_nothing(m: OverlayModel, shift: bool, ctrl: bool, alt: bool)
    requires
        !m.pen.committed,
        m.aim.targets is None,
        m.preset is None || m.pen.ctrl == ctrl,
        m.pen.cursor == m.aim.pointer,
    ensures
        ({
            let n = remodified(m, shift, ctrl, alt);
            &&& n.redraw == m.redraw
            &&& n.pen == (PenModel { shift, ctrl, alt, ..m.pen })
            &&& n == (OverlayModel { pen: n.pen, ..m })
        }),
{
    reveal(pulled);
}

/// The window that is asked for lies on the screen, all of which can be covered.
pub proof fn screen_is_all_of_the_surface(m: OverlayModel)
    ensures
        screen_of(m).x == 0,
        screen_of(m).y == 0,
        screen_of(m).w == m.width,
        screen_of(m).h == m.height,
{
}

/// When the windows become known, the pointer is pulled onto them at once; what was drawn stays.
pub proof fn known_windows_pull_at_once(m: OverlayModel, t: SnapModel, at: (i32, i32))
    requires
        m.aim.pointer == Some(at),
    ensures
        ({
            let n = retargeted(m, Some(t));
            let on = m.phase == Phase::Drawing && m.pen.gesture.spec_resolve(
                m.pen.shift,
                m.pen.ctrl,
                m.pen.alt,
            ) != EffectiveMode::Freehand;
            &&& n.aim.targets == Some(t) && n.aim.pointer == Some(at) && n.redraw
            &&& n.pen.cursor == Some(pulled(Some(t), on, at).at)
            &&& n.pen == (PenModel { cursor: n.pen.cursor, ..m.pen })
            &&& n == (OverlayModel { aim: n.aim, pen: n.pen, redraw: true, ..m })
        }),
{
}

/// Modifiers that turn to drawing freely let go of the pointer, and those that turn from it pull it
/// again. A drag on its way takes the new shape, and the screen is drawn anew.
pub proof fn modifiers_let_go_and_pull(
    m: OverlayModel,
    at: (i32, i32),
    shift: bool,
    ctrl: bool,
    alt: bool,
)
    requires
        m.phase == Phase::Drawing,
        m.aim.pointer == Some(at),
        m.pen.cursor is Some,
    ensures
        ({
            let n = remodified(m, shift, ctrl, alt);
            let free = m.pen.gesture.spec_resolve(shift, ctrl, alt) == EffectiveMode::Freehand;
            let was_free = m.pen.gesture.spec_resolve(m.pen.shift, m.pen.ctrl, m.pen.alt)
                == EffectiveMode::Freehand;
            &&& n.pen.shift == shift && n.pen.ctrl == ctrl && n.pen.alt == alt
            &&& free ==> n.pen.cursor == Some(at)
            &&& !free ==> n.pen.cursor == Some(pulled(m.aim.targets, true, at).at)
            &&& n.redraw <==> m.redraw || m.pen.committed || (m.aim.targets is Some && free
                != was_free) || (m.preset is Some && m.pen.ctrl != ctrl)
            &&& m.pen.committed && free ==> n.pen.places == seq![at]
            &&& n.pen == modified(
                PenModel { cursor: n.pen.cursor, ..m.pen },
                shift,
                ctrl,
                alt,
            )
            &&& n == (OverlayModel { pen: n.pen, redraw: n.redraw, ..m })
        }),
{
    reveal(pulled);
}

/// A key that types nothing can always be handled, and so can every key while the user draws.
pub proof fn other_keys_can_be_handled(m: OverlayModel, key: Key, text: Option<&str>)
    requires
        m.phase == Phase::Drawing || text is None || (key != Key::Other && key != Key::P) || (key
            == Key::P && m.pen.ctrl),
    ensures
        key_fits(m, key, text),
{
}

/// A press outside the card cancels, and one on the card but on no row does nothing.
pub proof fn press_outside_the_card_cancels(m: OverlayModel, at: (i32, i32), card: CardRect)
    requires
        m.phase == Phase::Picking,
        m.card == Some(card),
    ensures
        ({
            let px = whole_px(at.0 as int);
            let py = whole_px(at.1 as int);
            let (n, effects) = pressed(m, at, Button::Left);
            let on = card.x <= px < card.x + card.w && card.y <= py < card.y + card.h;
            &&& !on ==> n.decision is Cancel && effects == no_effects()
            &&& on && (forall|i: int|
                0 <= i < view_end(m.picker) - m.picker.scroll ==> !(#[trigger] card.in_row(i, py)))
                ==> n == m && effects == no_effects()
        }),
{
}

/// The escape key cancels in every phase, and does nothing else.
pub proof fn escape_only_cancels(m: OverlayModel, text: Option<Seq<char>>)
    ensures
        keyed(m, Key::Escape, text) == (
            OverlayModel { decision: DecisionModel::Cancel, ..m },
            no_effects(),
        ),
        no_effects().forgotten is None,
        !no_effects().shimmer && !no_effects().caret && !no_effects().cursor
            && !no_effects().discover,
{
}

/// A press on a row selects it and starts its application.
pub proof fn press_on_a_row_starts_it(m: OverlayModel, at: (i32, i32), card: CardRect, i: int)
    requires
        m.card == Some(card),
        0 <= m.picker.scroll,
        0 <= i < view_end(m.picker) - m.picker.scroll,
        view_end(m.picker) <= m.picker.matches.len(),
        card.covers(whole_px(at.0 as int), whole_px(at.1 as int)),
        card.in_row(i, whole_px(at.1 as int)),
        !card.button_hit(whole_px(at.0 as int), whole_px(at.1 as int))
            || !m.picker.history.counts.contains_key(
            m.picker.apps[m.picker.matches[m.picker.scroll + i] as int].command,
        ),
    ensures
        ({
            let (n, gone) = picked(m, at);
            let row = m.picker.scroll + i;
            &&& gone is None
            &&& n == (OverlayModel {
                picker: PickerModel { selected: row, ..m.picker },
                decision: DecisionModel::Spawn(
                    m.picker.apps[m.picker.matches[row] as int].command,
                ),
                ..m
            })
        }),
{
    let py = whole_px(at.1 as int);
    let n = view_end(m.picker) - m.picker.scroll;
    assert(i < n && card.in_row(i, py));
    let j = choose|j: int| j < n && #[trigger] card.in_row(j, py);
    card.rows_do_not_overlap(i, j, py);
}

/// While the user picks, modifiers are noted and change nothing that is shown.
pub proof fn modifiers_show_nothing_in_the_picker(
    m: OverlayModel,
    shift: bool,
    ctrl: bool,
    alt: bool,
)
    requires
        overlay_wf(m),
        m.phase == Phase::Picking,
    ensures
        remodified(m, shift, ctrl, alt) == (OverlayModel {
            pen: PenModel { shift, ctrl, alt, ..m.pen },
            ..m
        }),
{
    reveal(pulled);
}

} // verus!
