//! A plain overlay: one stroke, from the press of the left button to its release, is all that is
//! drawn, and what becomes of it is left to others.

use crate::gesture::{places, push_place};
use crate::overlay::{Button, Key};
use crate::stroke::Stroke;
use vstd::prelude::*;

verus! {

/// What came of the overlay.
pub enum Outcome {
    /// This stroke was drawn.
    Spawn(Stroke),
    /// Nothing happens.
    Cancelled,
}

/// What the user has decided.
#[derive(Clone, Copy, Debug, PartialEq, Eq, Structural)]
pub enum Decision {
    Pending,
    Spawn,
    Cancel,
}

/// The state of the overlay.
pub struct SketchModel {
    pub width: u32,
    pub height: u32,
    /// Is the size of the screen known?
    pub configured: bool,
    /// Is what is on the screen out of date?
    pub redraw: bool,
    /// Where the pointer is, if it is over the overlay.
    pub cursor: Option<(i32, i32)>,
    /// Is the left button held?
    pub drawing: bool,
    /// Was it ever pressed?
    pub has_drawn: bool,
    /// The places that the stroke goes through.
    pub places: Seq<(i32, i32)>,
    pub decision: Decision,
}

/// The pointer came to a place, or moved to it. It draws while its button is held.
pub open spec fn moved(m: SketchModel, at: (i32, i32)) -> SketchModel {
    SketchModel {
        cursor: Some(at),
        redraw: true,
        places: if m.drawing {
            m.places.push(at)
        } else {
            m.places
        },
        ..m
    }
}

/// A button was pressed.
pub open spec fn pressed(m: SketchModel, at: (i32, i32), button: Button) -> SketchModel {
    match button {
        Button::Left => SketchModel {
            drawing: true,
            has_drawn: true,
            places: m.places.push(at),
            redraw: true,
            ..m
        },
        Button::Right => SketchModel { decision: Decision::Cancel, ..m },
        Button::Other => m,
    }
}

/// A button was let go.
pub open spec fn released(m: SketchModel, button: Button) -> SketchModel {
    if button == Button::Left && m.drawing {
        SketchModel { drawing: false, decision: Decision::Spawn, ..m }
    } else {
        m
    }
}

/// The plain overlay.
pub struct Sketch {
    width: u32,
    height: u32,
    configured: bool,
    needs_redraw: bool,
    cursor: Option<(i32, i32)>,
    drawing: bool,
    has_drawn: bool,
    stroke: Stroke,
    decision: Decision,
}

impl View for Sketch {
    type V = SketchModel;

    closed spec fn view(&self) -> SketchModel {
        SketchModel {
            width: self.width,
            height: self.height,
            configured: self.configured,
            redraw: self.needs_redraw,
            cursor: self.cursor,
            drawing: self.drawing,
            has_drawn: self.has_drawn,
            places: places(self.stroke@),
            decision: self.decision,
        }
    }
}

impl Sketch {
    /// An overlay on which nothing was drawn yet.
    pub fn new() -> (r: Sketch)
        ensures
            r@ == (SketchModel {
                width: 0,
                height: 0,
                configured: false,
                redraw: false,
                cursor: None,
                drawing: false,
                has_drawn: false,
                places: Seq::empty(),
                decision: Decision::Pending,
            }),
    {
        let r = Sketch {
            width: 0,
            height: 0,
            configured: false,
            needs_redraw: false,
            cursor: None,
            drawing: false,
            has_drawn: false,
            stroke: Stroke::new(),
            decision: Decision::Pending,
        };
        assert(r@.places =~= Seq::empty());
        r
    }

    /// The pointer came to a place, or moved to it.
    pub fn pointer_motion(&mut self, at: (i32, i32))
        ensures
            final(self)@ == moved(old(self)@, at),
    {
        self.cursor = Some(at);
        if self.drawing {
            push_place(&mut self.stroke, at.0, at.1);
        }
        self.needs_redraw = true;
    }

    /// The pointer went away.
    pub fn pointer_leave(&mut self)
        ensures
            final(self)@ == (SketchModel { cursor: None, redraw: true, ..old(self)@ }),
    {
        self.cursor = None;
        self.needs_redraw = true;
    }

    /// A button was pressed at a place.
    pub fn pointer_press(&mut self, at: (i32, i32), button: Button)
        ensures
            final(self)@ == pressed(old(self)@, at, button),
    {
        match button {
            Button::Left => {
                self.drawing = true;
                self.has_drawn = true;
                push_place(&mut self.stroke, at.0, at.1);
                self.needs_redraw = true;
            },
            Button::Right => {
                self.decision = Decision::Cancel;
            },
            Button::Other => {},
        }
    }

    /// A button was let go.
    pub fn pointer_release(&mut self, button: Button)
        ensures
            final(self)@ == released(old(self)@, button),
    {
        if button == Button::Left && self.drawing {
            self.drawing = false;
            self.decision = Decision::Spawn;
        }
    }

    /// A key was pressed. Escape cancels.
    pub fn press_key(&mut self, key: Key)
        ensures
            final(self)@ == (SketchModel {
                decision: if key == Key::Escape {
                    Decision::Cancel
                } else {
                    old(self)@.decision
                },
                ..old(self)@
            }),
    {
        if key == Key::Escape {
            self.decision = Decision::Cancel;
        }
    }

    /// The overlay was closed from outside.
    pub fn closed(&mut self)
        ensures
            final(self)@ == (SketchModel { decision: Decision::Cancel, ..old(self)@ }),
    {
        self.decision = Decision::Cancel;
    }

    /// The screen has this size. A side is at least one pixel long.
    pub fn configure(&mut self, width: u32, height: u32)
        ensures
            final(self)@ == (SketchModel {
                width: if width == 0 {
                    1
                } else {
                    width
                },
                height: if height == 0 {
                    1
                } else {
                    height
                },
                configured: true,
                redraw: true,
                ..old(self)@
            }),
    {
        self.width = if width == 0 {
            1
        } else {
            width
        };
        self.height = if height == 0 {
            1
        } else {
            height
        };
        self.configured = true;
        self.needs_redraw = true;
    }

    /// The screen is ready for another frame.
    pub fn frame(&mut self)
        ensures
            final(self)@ == (SketchModel { redraw: true, ..old(self)@ }),
    {
        self.needs_redraw = true;
    }

    /// Is what is on the screen out of date, and the size of the screen known?
    pub fn is_due(&self) -> (r: bool)
        ensures
            r == (self@.configured && self@.redraw),
    {
        self.configured && self.needs_redraw
    }

    /// What is on the screen is up to date.
    pub fn mark_drawn(&mut self)
        ensures
            final(self)@ == (SketchModel { redraw: false, ..old(self)@ }),
    {
        self.needs_redraw = false;
    }

    /// Has the user decided?
    pub fn is_decided(&self) -> (r: bool)
        ensures
            r == (self@.decision != Decision::Pending),
    {
        self.decision != Decision::Pending
    }

    /// The size of the screen in logical pixels.
    pub fn size(&self) -> (r: (u32, u32))
        ensures
            r == (self@.width, self@.height),
    {
        (self.width, self.height)
    }

    /// What was drawn.
    pub fn stroke(&self) -> (r: &Stroke)
        ensures
            places(r@) == self@.places,
    {
        &self.stroke
    }

    /// Where the crosshair is shown: at the pointer, until the button is pressed.
    pub fn crosshair(&self) -> (r: Option<(i32, i32)>)
        ensures
            r == (if !self@.drawing && !self@.has_drawn {
                self@.cursor
            } else {
                None
            }),
    {
        if !self.drawing && !self.has_drawn {
            self.cursor
        } else {
            None
        }
    }

    /// What came of the overlay.
    pub fn outcome(self) -> (r: Outcome)
        ensures
            match r {
                Outcome::Spawn(stroke) => self@.decision == Decision::Spawn && places(stroke@)
                    == self@.places,
                Outcome::Cancelled => self@.decision != Decision::Spawn,
            },
    {
        match self.decision {
            Decision::Spawn => Outcome::Spawn(self.stroke),
            _ => Outcome::Cancelled,
        }
    }
}

/// The stroke goes through the place of the press and every place that the pointer moved to until
/// the release.
pub proof fn stroke_keeps_every_place(m: SketchModel, press: (i32, i32), at: (i32, i32))
    requires
        !m.drawing,
        m.places.len() == 0,
    ensures
        ({
            let done = released(moved(pressed(m, press, Button::Left), at), Button::Left);
            &&& done.places == seq![press, at]
            &&& done.decision == Decision::Spawn
        }),
{
    assert(m.places.push(press).push(at) =~= seq![press, at]);
}

/// Every place that the pointer comes to with the button held is drawn, behind those before it;
/// without the button none is.
pub proof fn held_button_draws_every_place(m: SketchModel, at: (i32, i32))
    ensures
        m.drawing ==> moved(m, at).places == m.places + seq![at],
        !m.drawing ==> moved(m, at).places == m.places,
        moved(m, at) == (SketchModel {
            cursor: Some(at),
            redraw: true,
            places: moved(m, at).places,
            ..m
        }),
{
}

/// The left button starts to draw where it is pressed, the right one cancels, and any other does
/// nothing.
pub proof fn buttons_draw_and_cancel(m: SketchModel, at: (i32, i32))
    ensures
        ({
            let n = pressed(m, at, Button::Left);
            &&& n.places == m.places + seq![at]
            &&& n == (SketchModel {
                drawing: true,
                has_drawn: true,
                redraw: true,
                places: n.places,
                ..m
            })
        }),
        pressed(m, at, Button::Right) == (SketchModel { decision: Decision::Cancel, ..m }),
        pressed(m, at, Button::Other) == m,
{
}

/// Letting go of the left button after drawing spawns what was drawn, and nothing else does.
pub proof fn release_spawns_what_was_drawn(m: SketchModel, button: Button)
    ensures
        ({
            let n = released(m, button);
            &&& button == Button::Left && m.drawing ==> n == (SketchModel {
                drawing: false,
                decision: Decision::Spawn,
                ..m
            })
            &&& button != Button::Left || !m.drawing ==> n == m
        }),
{
}

} // verus!
