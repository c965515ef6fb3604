//! The pen: the pointer while it draws, and the modifiers that choose what it draws.

use crate::config::{EffectiveMode, GestureConfig};
use crate::gesture::{
    corner_rounding, crossed, drag_corners, drag_rect, drag_rect_spans_the_drag, draw_outline,
    is_drag, outline, places, push_place, rounding,
};
use crate::stroke::Stroke;
use vstd::prelude::*;

verus! {

/// The state of the pen.
pub struct PenModel {
    /// Where the pointer is, if it is over the overlay.
    pub cursor: Option<(i32, i32)>,
    /// Is the left button held?
    pub drawing: bool,
    /// Was it ever pressed?
    pub has_drawn: bool,
    /// The places that the stroke goes through.
    pub places: Seq<(i32, i32)>,
    /// The diameter by which the corners of the stroke's first rectangle are rounded.
    pub rounded: u32,
    pub shift: bool,
    pub ctrl: bool,
    pub alt: bool,
    /// The fixed corner of the rectangle that is being drawn.
    pub anchor: Option<(i32, i32)>,
    /// Where the left button was pressed.
    pub origin: Option<(i32, i32)>,
    /// Has the press become a drag?
    pub committed: bool,
    pub gesture: GestureConfig,
}

/// A held button has a place where it was pressed, only a held button drags, only a drag has a
/// corner, and a press that has not become a drag has drawn nothing.
pub open spec fn pen_wf(m: PenModel) -> bool {
    &&& m.drawing <==> m.origin is Some
    &&& m.committed ==> m.drawing
    &&& m.anchor is Some ==> m.committed
    &&& !m.committed && m.drawing ==> m.places.len() == 0 && m.rounded == 0
}

/// What is drawn with the modifiers that are held.
pub open spec fn mode(m: PenModel) -> EffectiveMode {
    m.gesture.spec_resolve(m.shift, m.ctrl, m.alt)
}

/// The stroke becomes the rectangle from the anchor to the pointer.
pub open spec fn reshaped(m: PenModel, at: (i32, i32), square: bool) -> PenModel {
    match m.anchor {
        None => m,
        Some(a) => {
            let c = drag_rect(a, at, square);
            PenModel { places: outline(c), rounded: rounding(c), ..m }
        },
    }
}

/// The press at `origin` became a drag.
pub open spec fn begun(m: PenModel, origin: (i32, i32), at: (i32, i32)) -> PenModel {
    if mode(m) == EffectiveMode::Freehand {
        PenModel { committed: true, anchor: None, places: seq![origin, at], rounded: 0, ..m }
    } else {
        reshaped(
            PenModel { committed: true, anchor: Some(origin), ..m },
            at,
            mode(m) == EffectiveMode::Square,
        )
    }
}

/// The drag went on.
pub open spec fn extended(m: PenModel, at: (i32, i32)) -> PenModel {
    if mode(m) == EffectiveMode::Freehand {
        PenModel { places: m.places.push(at), ..m }
    } else {
        reshaped(m, at, mode(m) == EffectiveMode::Square)
    }
}

/// The pointer moved with the button held. Until it has gone far enough nothing is drawn; from then
/// on the rectangle follows it, or the stroke goes on.
pub open spec fn dragged(m: PenModel, at: (i32, i32)) -> PenModel {
    if m.committed {
        extended(m, at)
    } else {
        match m.origin {
            None => m,
            Some(o) => if is_drag(o, at, m.gesture.drag_threshold_px as int) {
                begun(m, o, at)
            } else {
                m
            },
        }
    }
}

/// The button was pressed at a place.
pub open spec fn lowered(m: PenModel, at: (i32, i32)) -> PenModel {
    PenModel {
        drawing: true,
        has_drawn: true,
        places: Seq::empty(),
        rounded: 0,
        anchor: None,
        origin: Some(at),
        committed: false,
        ..m
    }
}

/// The button was let go. A click leaves the place of the press alone.
pub open spec fn lifted(m: PenModel) -> PenModel {
    PenModel {
        drawing: false,
        anchor: None,
        places: if m.committed || m.origin is None {
            m.places
        } else {
            seq![m.origin->0]
        },
        origin: None,
        committed: false,
        ..m
    }
}

/// The modifiers are these.
pub open spec fn with_modifiers(m: PenModel, shift: bool, ctrl: bool, alt: bool) -> PenModel {
    PenModel { shift, ctrl, alt, ..m }
}

/// The place that a rectangle is drawn from when the drag becomes one: the corner it has, or else
/// where the button was pressed.
pub open spec fn new_anchor(m: PenModel, at: (i32, i32)) -> (i32, i32) {
    match m.anchor {
        Some(a) => a,
        None => match m.origin {
            Some(o) => o,
            None => at,
        },
    }
}

/// The drag takes on the shape that the modifiers stand for: a rectangle from its anchor to the
/// pointer, or a stroke that starts anew at the pointer.
pub open spec fn switched(m: PenModel, at: (i32, i32)) -> PenModel {
    if mode(m) == EffectiveMode::Freehand {
        PenModel { anchor: None, places: seq![at], rounded: 0, ..m }
    } else {
        reshaped(
            PenModel { anchor: Some(new_anchor(m, at)), ..m },
            at,
            mode(m) == EffectiveMode::Square,
        )
    }
}

/// Does a change of the modifiers change what was drawn? It does while the pointer drags.
pub open spec fn switches(m: PenModel) -> bool {
    m.committed && m.cursor is Some
}

/// The modifiers changed.
pub open spec fn modified(m: PenModel, shift: bool, ctrl: bool, alt: bool) -> PenModel {
    let next = with_modifiers(m, shift, ctrl, alt);
    if switches(m) {
        switched(next, m.cursor->0)
    } else {
        next
    }
}

/// What a change of the modifiers leaves as it was.
pub(crate) proof fn lemma_modified(m: PenModel, shift: bool, ctrl: bool, alt: bool)
    requires
        pen_wf(m),
    ensures
        ({
            let next = modified(m, shift, ctrl, alt);
            &&& pen_wf(next)
            &&& next.cursor == m.cursor
            &&& next.drawing == m.drawing
            &&& next.gesture == m.gesture
            &&& (next.shift, next.ctrl, next.alt) == (shift, ctrl, alt)
        }),
{
}

/// The pen.
pub struct Pen {
    cursor: Option<(i32, i32)>,
    drawing: bool,
    has_drawn: bool,
    stroke: Stroke,
    rounded: u32,
    shift_held: bool,
    ctrl_held: bool,
    alt_held: bool,
    rect_start: Option<(i32, i32)>,
    drag_origin: Option<(i32, i32)>,
    drag_committed: bool,
    gesture_cfg: GestureConfig,
}

impl View for Pen {
    type V = PenModel;

    closed spec fn view(&self) -> PenModel {
        PenModel {
            cursor: self.cursor,
            drawing: self.drawing,
            has_drawn: self.has_drawn,
            places: places(self.stroke@),
            rounded: self.rounded,
            shift: self.shift_held,
            ctrl: self.ctrl_held,
            alt: self.alt_held,
            anchor: self.rect_start,
            origin: self.drag_origin,
            committed: self.drag_committed,
            gesture: self.gesture_cfg,
        }
    }
}

impl Pen {
    /// Is the state of the pen sound?
    pub open spec fn wf(&self) -> bool {
        pen_wf(self@)
    }

    /// A pen that has drawn nothing.
    pub fn new(gesture: GestureConfig) -> (r: Pen)
        ensures
            r.wf(),
            r@ == (PenModel {
                cursor: None,
                drawing: false,
                has_drawn: false,
                places: Seq::empty(),
                rounded: 0,
                shift: false,
                ctrl: false,
                alt: false,
                anchor: None,
                origin: None,
                committed: false,
                gesture,
            }),
    {
        let r = Pen {
            cursor: None,
            drawing: false,
            has_drawn: false,
            stroke: Stroke::new(),
            rounded: 0,
            shift_held: false,
            ctrl_held: false,
            alt_held: false,
            rect_start: None,
            drag_origin: None,
            drag_committed: false,
            gesture_cfg: gesture,
        };
        assert(r@.places =~= Seq::empty());
        r
    }

    /// What is drawn with the modifiers that are held.
    pub fn effective_mode(&self) -> (r: EffectiveMode)
        ensures
            r == mode(self@),
    {
        self.gesture_cfg.resolve(self.shift_held, self.ctrl_held, self.alt_held)
    }

    /// Where the pointer is, if it is over the overlay.
    pub fn cursor(&self) -> (r: Option<(i32, i32)>)
        ensures
            r == self@.cursor,
    {
        self.cursor
    }

    /// Is the left button held?
    pub fn is_drawing(&self) -> (r: bool)
        ensures
            r == self@.drawing,
    {
        self.drawing
    }

    /// Was the left button ever pressed?
    pub fn has_drawn(&self) -> (r: bool)
        ensures
            r == self@.has_drawn,
    {
        self.has_drawn
    }

    /// Has the press become a drag?
    pub fn is_committed(&self) -> (r: bool)
        ensures
            r == self@.committed,
    {
        self.drag_committed
    }

    /// Is the control key held?
    pub fn ctrl_held(&self) -> (r: bool)
        ensures
            r == self@.ctrl,
    {
        self.ctrl_held
    }

    /// How the pointer draws.
    pub fn gesture(&self) -> (r: &GestureConfig)
        ensures
            *r == self@.gesture,
    {
        &self.gesture_cfg
    }

    /// What was drawn.
    pub fn stroke(&self) -> (r: &Stroke)
        ensures
            places(r@) == self@.places,
    {
        &self.stroke
    }

    /// The diameter by which the corners of the stroke's first rectangle are rounded.
    pub fn rounded(&self) -> (r: u32)
        ensures
            r == self@.rounded,
    {
        self.rounded
    }

    /// The pointer is at a place, or gone.
    pub fn set_cursor(&mut self, cursor: Option<(i32, i32)>)
        requires
            old(self).wf(),
        ensures
            final(self).wf(),
            final(self)@ == (PenModel { cursor, ..old(self)@ }),
    {
        self.cursor = cursor;
    }

    fn update_rect_stroke(&mut self, at: (i32, i32), square: bool)
        ensures
            final(self)@ == reshaped(old(self)@, at, square),
    {
        if let Some(start) = self.rect_start {
            let c = drag_corners(start, at, square);
            self.rounded = corner_rounding(c);
            draw_outline(&mut self.stroke, c);
        }
    }

    fn begin_drag(&mut self, origin: (i32, i32), at: (i32, i32))
        requires
            old(self).wf(),
            old(self)@.drawing,
        ensures
            final(self).wf(),
            final(self)@ == begun(old(self)@, origin, at),
    {
        let mode = self.effective_mode();
        self.drag_committed = true;
        match mode {
            EffectiveMode::Freehand => {
                self.rect_start = None;
                self.rounded = 0;
                self.stroke.clear();
                push_place(&mut self.stroke, origin.0, origin.1);
                push_place(&mut self.stroke, at.0, at.1);
                assert(places(self.stroke@) =~= seq![origin, at]);
            },
            _ => {
                self.rect_start = Some(origin);
                self.update_rect_stroke(at, mode == EffectiveMode::Square);
            },
        }
    }

    /// The pointer moved to a place with the button held.
    pub fn commit_or_extend_drag(&mut self, at: (i32, i32))
        requires
            old(self).wf(),
            old(self)@.drawing,
        ensures
            final(self).wf(),
            final(self)@ == dragged(old(self)@, at),
    {
        if !self.drag_committed {
            if let Some(origin) = self.drag_origin {
                if crossed(origin, at, self.gesture_cfg.drag_threshold_px) {
                    self.begin_drag(origin, at);
                }
            }
            return ;
        }
        let mode = self.effective_mode();
        match mode {
            EffectiveMode::Freehand => push_place(&mut self.stroke, at.0, at.1),
            _ => self.update_rect_stroke(at, mode == EffectiveMode::Square),
        }
    }

    /// The button was pressed at a place.
    pub fn down(&mut self, at: (i32, i32))
        requires
            old(self).wf(),
        ensures
            final(self).wf(),
            final(self)@ == lowered(old(self)@, at),
    {
        self.drawing = true;
        self.has_drawn = true;
        self.stroke.clear();
        self.rounded = 0;
        self.rect_start = None;
        self.drag_origin = Some(at);
        self.drag_committed = false;
        assert(self@.places =~= Seq::empty());
    }

    /// The button was let go.
    pub fn up(&mut self)
        requires
            old(self).wf(),
        ensures
            final(self).wf(),
            final(self)@ == lifted(old(self)@),
    {
        if !self.drag_committed {
            if let Some(origin) = self.drag_origin {
                self.stroke.clear();
                push_place(&mut self.stroke, origin.0, origin.1);
                assert(places(self.stroke@) =~= seq![origin]);
            }
        }
        self.drawing = false;
        self.rect_start = None;
        self.drag_origin = None;
        self.drag_committed = false;
    }

    fn switch_shape(&mut self, at: (i32, i32))
        requires
            old(self).wf(),
            old(self)@.committed,
        ensures
            final(self).wf(),
            final(self)@ == switched(old(self)@, at),
    {
        let mode = self.effective_mode();
        match mode {
            EffectiveMode::Freehand => {
                self.rect_start = None;
                self.rounded = 0;
                self.stroke.clear();
                push_place(&mut self.stroke, at.0, at.1);
                assert(places(self.stroke@) =~= seq![at]);
            },
            _ => {
                if self.rect_start.is_none() {
                    let anchor = match self.drag_origin {
                        Some(o) => o,
                        None => at,
                    };
                    self.rect_start = Some(anchor);
                }
                self.update_rect_stroke(at, mode == EffectiveMode::Square);
            },
        }
    }

    /// The modifiers changed. Was what was drawn changed by that?
    pub fn update_modifiers(&mut self, shift: bool, ctrl: bool, alt: bool) -> (r: bool)
        requires
            old(self).wf(),
        ensures
            final(self).wf(),
            final(self)@ == modified(old(self)@, shift, ctrl, alt),
            r == switches(old(self)@),
    {
        self.shift_held = shift;
        self.ctrl_held = ctrl;
        self.alt_held = alt;
        if self.drag_committed {
            if let Some(at) = self.cursor {
                self.switch_shape(at);
                return true;
            }
        }
        false
    }
}

/// A press that stays short of the threshold is a click: however the pointer jitters, the stroke is
/// the place of the press alone.
pub proof fn jitter_is_a_click(m: PenModel, press: (i32, i32), at: (i32, i32))
    requires
        !is_drag(press, at, m.gesture.drag_threshold_px as int),
    ensures
        dragged(lowered(m, press), at) == lowered(m, press),
        lifted(dragged(lowered(m, press), at)).places == seq![press],
{
}

/// Only the last place matters to a rectangle: what a drag went through before leaves no trace.
pub proof fn rectangles_forget_the_way(m: PenModel, via: (i32, i32), at: (i32, i32))
    requires
        m.committed,
        m.anchor is Some,
        mode(m) != EffectiveMode::Freehand,
    ensures
        dragged(dragged(m, via), at) == dragged(m, at),
{
}

/// A drag draws the rectangle from the press to the pointer, or the square in it.
pub proof fn drag_draws_from_the_press(m: PenModel, press: (i32, i32), at: (i32, i32))
    requires
        is_drag(press, at, m.gesture.drag_threshold_px as int),
        mode(m) != EffectiveMode::Freehand,
    ensures
        lifted(dragged(lowered(m, press), at)).places == outline(
            drag_rect(press, at, mode(m) == EffectiveMode::Square),
        ),
{
}

/// Drawing freely keeps every place from the press on.
pub proof fn freehand_keeps_every_place(
    m: PenModel,
    press: (i32, i32),
    first: (i32, i32),
    second: (i32, i32),
)
    requires
        is_drag(press, first, m.gesture.drag_threshold_px as int),
        mode(m) == EffectiveMode::Freehand,
    ensures
        lifted(dragged(dragged(lowered(m, press), first), second)).places == seq![
            press,
            first,
            second,
        ],
{
    let drag = dragged(lowered(m, press), first);
    assert(drag.places.push(second) =~= seq![press, first, second]);
}

/// A modifier that is held late draws the same rectangle as one that is held from the start.
pub proof fn late_modifier_draws_the_same(
    m: PenModel,
    press: (i32, i32),
    at: (i32, i32),
    shift: bool,
    ctrl: bool,
    alt: bool,
)
    requires
        is_drag(press, at, m.gesture.drag_threshold_px as int),
        mode(with_modifiers(m, shift, ctrl, alt)) != EffectiveMode::Freehand,
        m.cursor == Some(at),
    ensures
        modified(dragged(lowered(m, press), at), shift, ctrl, alt).places == dragged(
            lowered(with_modifiers(m, shift, ctrl, alt), press),
            at,
        ).places,
{
}

/// A press starts anew where it is: nothing is drawn yet, and what was drawn before is gone.
pub proof fn press_starts_anew(m: PenModel, at: (i32, i32))
    ensures
        ({
            let n = lowered(m, at);
            &&& n.drawing && n.has_drawn && !n.committed
            &&& n.origin == Some(at) && n.anchor is None
            &&& n.places.len() == 0 && n.rounded == 0
            &&& n.cursor == m.cursor && n.gesture == m.gesture
            &&& n.shift == m.shift && n.ctrl == m.ctrl && n.alt == m.alt
        }),
{
}

/// A release ends the drawing and keeps what was drawn, with its rounding; of a press that went
/// nowhere it keeps the place.
pub proof fn release_keeps_what_was_drawn(m: PenModel)
    requires
        pen_wf(m),
    ensures
        ({
            let n = lifted(m);
            &&& !n.drawing && !n.committed && n.origin is None && n.anchor is None
            &&& n.has_drawn == m.has_drawn && n.rounded == m.rounded
            &&& m.committed ==> n.places == m.places
            &&& m.drawing && !m.committed ==> n.places == seq![m.origin->0]
            &&& !m.drawing ==> n.places == m.places
            &&& n.cursor == m.cursor && n.gesture == m.gesture
            &&& n.shift == m.shift && n.ctrl == m.ctrl && n.alt == m.alt
        }),
{
}

/// Drawing freely adds every place behind those that are there, and changes nothing else.
pub proof fn freehand_adds_each_place(m: PenModel, at: (i32, i32))
    requires
        m.committed,
        mode(m) == EffectiveMode::Freehand,
    ensures
        dragged(m, at).places.len() == m.places.len() + 1,
        dragged(m, at).places.last() == at,
        forall|i: int|
            0 <= i < m.places.len() ==> #[trigger] dragged(m, at).places[i] == m.places[i],
        dragged(m, at) == (PenModel { places: dragged(m, at).places, ..m }),
{
}

/// A drawn rectangle has the press as one corner and the pointer as the opposite one, and the
/// rounding that fits it.
pub proof fn rectangle_spans_press_and_pointer(m: PenModel, press: (i32, i32), at: (i32, i32))
    requires
        is_drag(press, at, m.gesture.drag_threshold_px as int),
        mode(m) == EffectiveMode::Rectangle,
    ensures
        ({
            let n = dragged(lowered(m, press), at);
            &&& n.drawing && n.committed && n.anchor == Some(press)
            &&& n.places.len() == 5
            &&& n.places.contains(press) && n.places.contains(at)
            &&& n.places.contains((press.0, at.1)) && n.places.contains((at.0, press.1))
            &&& forall|i: int|
                0 <= i < 5 ==> {
                    let q = #[trigger] n.places[i];
                    (q.0 == press.0 || q.0 == at.0) && (q.1 == press.1 || q.1 == at.1)
                }
            &&& n.rounded == rounding(drag_rect(press, at, false))
            &&& n == (PenModel {
                places: n.places,
                rounded: n.rounded,
                anchor: Some(press),
                committed: true,
                ..lowered(m, press)
            })
        }),
{
    drag_rect_spans_the_drag(press, at);
    let c = drag_rect(press, at, false);
    let n = dragged(lowered(m, press), at);
    assert(n.places == outline(c));
    assert(n.places[0] == (c.x0, c.y0) && n.places[1] == (c.x1, c.y0));
    assert(n.places[2] == (c.x1, c.y1) && n.places[3] == (c.x0, c.y1));
    assert(n.places.contains(n.places[0]) && n.places.contains(n.places[1]));
    assert(n.places.contains(n.places[2]) && n.places.contains(n.places[3]));
    assert(press == (press.0, press.1) && at == (at.0, at.1));
}

/// Before a drag is on its way, and while the pointer is away, the modifiers are noted and nothing
/// else happens.
pub proof fn modifiers_are_noted(m: PenModel, shift: bool, ctrl: bool, alt: bool)
    ensures
        ({
            let n = modified(m, shift, ctrl, alt);
            &&& n.shift == shift && n.ctrl == ctrl && n.alt == alt
            &&& n.drawing == m.drawing && n.committed == m.committed && n.origin == m.origin
            &&& n.cursor == m.cursor && n.gesture == m.gesture && n.has_drawn == m.has_drawn
            &&& !m.committed || m.cursor is None ==> n.places == m.places && n.anchor == m.anchor
                && n.rounded == m.rounded
        }),
{
}

/// A drag that turns into drawing freely starts over at the pointer; one that turns into a rectangle
/// or a square spans from where it was pressed, or from the corner it had, to the pointer.
pub proof fn drag_changes_its_shape(m: PenModel, at: (i32, i32), shift: bool, ctrl: bool, alt: bool)
    requires
        pen_wf(m),
        m.committed,
        m.cursor == Some(at),
    ensures
        ({
            let n = modified(m, shift, ctrl, alt);
            let to = m.gesture.spec_resolve(shift, ctrl, alt);
            let from = if m.anchor is Some {
                m.anchor->0
            } else {
                m.origin->0
            };
            &&& to == EffectiveMode::Freehand ==> n.places == seq![at] && n.anchor is None
                && n.rounded == 0
            &&& to != EffectiveMode::Freehand ==> {
                let c = drag_rect(from, at, to == EffectiveMode::Square);
                &&& n.anchor == Some(from)
                &&& n.places == outline(c)
                &&& n.rounded == rounding(c)
            }
        }),
{
}

/// A press that becomes a drag while drawing freely draws from the press to the pointer.
pub proof fn freehand_drag_starts_at_the_press(m: PenModel, press: (i32, i32), at: (i32, i32))
    requires
        is_drag(press, at, m.gesture.drag_threshold_px as int),
        mode(m) == EffectiveMode::Freehand,
    ensures
        dragged(lowered(m, press), at) == (PenModel {
            places: seq![press, at],
            committed: true,
            ..lowered(m, press)
        }),
{
}

/// A rectangle on its way follows the pointer from its fixed corner, and nothing else changes.
pub proof fn rectangle_follows_the_pointer(m: PenModel, from: (i32, i32), at: (i32, i32))
    requires
        m.committed,
        m.anchor == Some(from),
        mode(m) != EffectiveMode::Freehand,
    ensures
        ({
            let c = drag_rect(from, at, mode(m) == EffectiveMode::Square);
            dragged(m, at) == (PenModel { places: outline(c), rounded: rounding(c), ..m })
        }),
{
}

} // verus!
