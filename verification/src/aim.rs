//! Where the pointer aims: where it is, or the corner or edge of a window that it is pulled onto.

use crate::snap::{snap_of, snapping_moves_within_the_radius, SnapModel, Snapper};
use vstd::prelude::*;

verus! {

/// Where the pointer aims, and the lines that it is aligned with.
#[derive(Clone, Copy, Debug)]
pub struct Aimed {
    pub at: (i32, i32),
    /// The vertical line that the pointer is aligned with.
    pub x_guide: Option<i64>,
    /// The horizontal line that the pointer is aligned with.
    pub y_guide: Option<i64>,
}

/// What the pointer is pulled onto, and where it is.
pub struct AimModel {
    /// What the pointer is pulled onto, if snapping is on.
    pub targets: Option<SnapModel>,
    /// Where the pointer is, if it is over the overlay.
    pub pointer: Option<(i32, i32)>,
}

/// Is this a place that the pointer can have?
pub open spec fn is_place(p: (i64, i64)) -> bool {
    &&& i32::MIN <= p.0 <= i32::MAX
    &&& i32::MIN <= p.1 <= i32::MAX
}

/// A place that nothing pulls.
pub open spec fn unpulled(at: (i32, i32)) -> Aimed {
    Aimed { at, x_guide: None, y_guide: None }
}

/// Where the pointer aims at a place: onto a target in reach, while it is pulled at all.
#[verifier::opaque]
pub open spec fn pulled(targets: Option<SnapModel>, on: bool, at: (i32, i32)) -> Aimed {
    match targets {
        Some(t) => {
            let r = snap_of(t, (at.0 as i64, at.1 as i64));
            if on && is_place(r.point) {
                Aimed {
                    at: (r.point.0 as i32, r.point.1 as i32),
                    x_guide: r.x_guide,
                    y_guide: r.y_guide,
                }
            } else {
                unpulled(at)
            }
        },
        None => unpulled(at),
    }
}

/// What the pointer is pulled onto, and where it is.
pub struct Aim {
    snapper: Option<Snapper>,
    pointer: Option<(i32, i32)>,
}

impl View for Aim {
    type V = AimModel;

    closed spec fn view(&self) -> AimModel {
        AimModel {
            targets: match self.snapper {
                Some(s) => Some(s@),
                None => None,
            },
            pointer: self.pointer,
        }
    }
}

impl Aim {
    /// A pointer that is not over the overlay, and that nothing pulls.
    pub fn new() -> (r: Aim)
        ensures
            r@ == (AimModel { targets: None, pointer: None }),
    {
        Aim { snapper: None, pointer: None }
    }

    /// The pointer is pulled onto what the snapper holds.
    pub fn set_snapper(&mut self, snapper: Option<Snapper>)
        ensures
            final(self)@.pointer == old(self)@.pointer,
            final(self)@.targets is Some <==> snapper is Some,
            snapper matches Some(s) ==> final(self)@.targets == Some(s@),
    {
        self.snapper = snapper;
    }

    /// Is there anything that the pointer can be pulled onto?
    pub fn has_targets(&self) -> (r: bool)
        ensures
            r == (self@.targets is Some),
    {
        self.snapper.is_some()
    }

    /// The pointer is at a place, or gone.
    pub fn set_pointer(&mut self, pointer: Option<(i32, i32)>)
        ensures
            final(self)@ == (AimModel { pointer, ..old(self)@ }),
    {
        self.pointer = pointer;
    }

    /// Where the pointer is, if it is over the overlay.
    pub fn pointer(&self) -> (r: Option<(i32, i32)>)
        ensures
            r == self@.pointer,
    {
        self.pointer
    }

    /// Where the pointer aims at a place.
    pub fn pull(&self, on: bool, at: (i32, i32)) -> (r: Aimed)
        ensures
            r == pulled(self@.targets, on, at),
    {
        reveal(pulled);
        if on {
            if let Some(s) = &self.snapper {
                let r = s.snap((at.0 as i64, at.1 as i64));
                let (x, y) = r.point;
                if -0x8000_0000 <= x && x <= 0x7fff_ffff && -0x8000_0000 <= y && y <= 0x7fff_ffff {
                    return Aimed {
                        at: (x as i32, y as i32),
                        x_guide: r.x_guide,
                        y_guide: r.y_guide,
                    };
                }
            }
        }
        Aimed { at, x_guide: None, y_guide: None }
    }
}

/// While the pointer is not pulled it aims where it is, whatever windows there are.
pub proof fn unpulled_pointer_aims_where_it_is(
    targets: Option<SnapModel>,
    on: bool,
    at: (i32, i32),
)
    requires
        !on || targets is None,
    ensures
        pulled(targets, on, at) == unpulled(at),
{
    reveal(pulled);
}

/// A pulled pointer aims onto a target: it moves no further than the radius, each guide goes through
/// where it aims, and along an axis without a guide it aims where it is.
pub proof fn pulled_pointer_aims_at_its_guides(t: SnapModel, at: (i32, i32))
    requires
        t.radius >= 0,
    ensures
        ({
            let a = pulled(Some(t), true, at);
            &&& at.0 - t.radius <= a.at.0 <= at.0 + t.radius
            &&& at.1 - t.radius <= a.at.1 <= at.1 + t.radius
            &&& a.x_guide matches Some(x) ==> a.at.0 == x
            &&& a.x_guide is None ==> a.at.0 == at.0
            &&& a.y_guide matches Some(y) ==> a.at.1 == y
            &&& a.y_guide is None ==> a.at.1 == at.1
        }),
{
    reveal(pulled);
    snapping_moves_within_the_radius(t, (at.0 as i64, at.1 as i64));
}

/// While it is pulled, the pointer aims where the snapping leads, with its guides, as long as that
/// is a place that it can have; else it aims where it is, with no guides.
pub proof fn pointer_aims_where_the_snapping_leads(t: SnapModel, at: (i32, i32))
    ensures
        ({
            let r = snap_of(t, (at.0 as i64, at.1 as i64));
            let a = pulled(Some(t), true, at);
            let off = pulled(Some(t), false, at);
            let none = pulled(None, true, at);
            &&& i32::MIN <= r.point.0 <= i32::MAX && i32::MIN <= r.point.1 <= i32::MAX ==> a.at.0
                == r.point.0 && a.at.1 == r.point.1 && a.x_guide == r.x_guide && a.y_guide
                == r.y_guide
            &&& !(i32::MIN <= r.point.0 <= i32::MAX && i32::MIN <= r.point.1 <= i32::MAX) ==> a.at
                == at && a.x_guide is None && a.y_guide is None
            &&& off.at == at && off.x_guide is None && off.y_guide is None
            &&& none.at == at && none.x_guide is None && none.y_guide is None
        }),
{
    reveal(pulled);
}

} // verus!
