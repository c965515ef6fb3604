//! The shapes that a drag draws. Coordinates are whole numbers of 1/256 of a logical pixel.

use crate::stroke::{spec_bbox, xs, ys, Bbox, Point, Stroke};
use vstd::prelude::*;

verus! {

/// The whole pixels in a coordinate, with the fraction dropped toward zero.
pub open spec fn whole_px(v: int) -> int {
    if v >= 0 {
        v / 256
    } else {
        -((-v) / 256)
    }
}

/// The whole pixels in a coordinate, with the fraction dropped toward zero.
pub fn to_whole_px(v: i32) -> (r: i32)
    ensures
        r == whole_px(v as int),
        -0x80_0000 <= r <= 0x7f_ffff,
{
    if v >= 0 {
        v / 256
    } else {
        let n: i64 = (-(v as i64)) / 256;
        (-n) as i32
    }
}

/// The distance between two numbers.
pub open spec fn gap(a: int, b: int) -> int {
    if a < b {
        b - a
    } else {
        a - b
    }
}

/// Has the pointer travelled far enough from `origin` for a drag?
#[verifier::opaque]
pub open spec fn is_drag(origin: (i32, i32), at: (i32, i32), threshold: int) -> bool {
    let dx = at.0 - origin.0;
    let dy = at.1 - origin.1;
    threshold <= 0 || dx * dx + dy * dy >= threshold * threshold
}

/// Has the pointer travelled far enough from `origin` for a drag?
pub fn crossed(origin: (i32, i32), at: (i32, i32), threshold: i32) -> (r: bool)
    ensures
        r == is_drag(origin, at, threshold as int),
{
    proof {
        reveal(is_drag);
    }
    if threshold <= 0 {
        return true;
    }
    let dx: i128 = at.0 as i128 - origin.0 as i128;
    let dy: i128 = at.1 as i128 - origin.1 as i128;
    let t: i128 = threshold as i128;
    proof {
        lemma_square(dx as int);
        lemma_square(dy as int);
        lemma_square(t as int);
    }
    dx * dx + dy * dy >= t * t
}

proof fn lemma_square(n: int)
    requires
        -0x1_0000_0000 <= n <= 0x1_0000_0000,
    ensures
        0 <= n * n <= 0x1_0000_0000 * 0x1_0000_0000,
{
    assert(0 <= n * n <= 0x1_0000_0000 * 0x1_0000_0000) by (nonlinear_arith)
        requires
            -0x1_0000_0000 <= n <= 0x1_0000_0000,
    ;
}

/// Two opposite corners of an upright rectangle, the top-left one first.
#[derive(Clone, Copy, Debug, PartialEq, Eq, Structural)]
pub struct Corners {
    pub x0: i32,
    pub y0: i32,
    pub x1: i32,
    pub y1: i32,
}

/// The smaller of two numbers.
pub open spec fn smaller(a: int, b: int) -> int {
    if a < b {
        a
    } else {
        b
    }
}

/// Where a side of length `side` that starts at `from` and goes toward `to` ends.
pub open spec fn toward(from: int, to: int, side: int) -> int {
    if to < from {
        from - side
    } else {
        from + side
    }
}

/// The rectangle from one point to another.
pub open spec fn rect_between(a: (int, int), b: (int, int)) -> Corners {
    Corners {
        x0: smaller(a.0, b.0) as i32,
        y0: smaller(a.1, b.1) as i32,
        x1: (a.0 + b.0 - smaller(a.0, b.0)) as i32,
        y1: (a.1 + b.1 - smaller(a.1, b.1)) as i32,
    }
}

/// The rectangle of a drag. A square has the length of the shorter way, and goes the way that the
/// pointer went.
#[verifier::opaque]
pub open spec fn drag_rect(anchor: (i32, i32), at: (i32, i32), square: bool) -> Corners {
    let a = (anchor.0 as int, anchor.1 as int);
    let b = (at.0 as int, at.1 as int);
    if square {
        let side = smaller(gap(a.0, b.0), gap(a.1, b.1));
        rect_between(a, (toward(a.0, b.0, side), toward(a.1, b.1, side)))
    } else {
        rect_between(a, b)
    }
}

fn min_max(a: i32, b: i32) -> (r: (i32, i32))
    ensures
        r.0 == smaller(a as int, b as int),
        r.1 == a + b - smaller(a as int, b as int),
{
    if a < b {
        (a, b)
    } else {
        (b, a)
    }
}

/// The rectangle of a drag.
pub fn drag_corners(anchor: (i32, i32), at: (i32, i32), square: bool) -> (r: Corners)
    ensures
        r == drag_rect(anchor, at, square),
        r.x0 <= r.x1,
        r.y0 <= r.y1,
{
    proof {
        reveal(drag_rect);
    }
    let mut ex: i32 = at.0;
    let mut ey: i32 = at.1;
    if square {
        let dx: i64 = if at.0 < anchor.0 {
            anchor.0 as i64 - at.0 as i64
        } else {
            at.0 as i64 - anchor.0 as i64
        };
        let dy: i64 = if at.1 < anchor.1 {
            anchor.1 as i64 - at.1 as i64
        } else {
            at.1 as i64 - anchor.1 as i64
        };
        let side: i64 = if dx < dy {
            dx
        } else {
            dy
        };
        ex = (if at.0 < anchor.0 {
            anchor.0 as i64 - side
        } else {
            anchor.0 as i64 + side
        }) as i32;
        ey = (if at.1 < anchor.1 {
            anchor.1 as i64 - side
        } else {
            anchor.1 as i64 + side
        }) as i32;
    }
    let (x0, x1) = min_max(anchor.0, ex);
    let (y0, y1) = min_max(anchor.1, ey);
    Corners { x0, y0, x1, y1 }
}

/// The corners of a rectangle, clockwise from the top-left one and back to it.
pub open spec fn outline(c: Corners) -> Seq<(i32, i32)> {
    seq![(c.x0, c.y0), (c.x1, c.y0), (c.x1, c.y1), (c.x0, c.y1), (c.x0, c.y0)]
}

/// The diameter of the rounding of a rectangle's corners: sixteen pixels, or the shorter side if it
/// is less. Corners that would be rounded by less than two pixels stay sharp.
#[verifier::opaque]
pub open spec fn rounding(c: Corners) -> u32 {
    let d = smaller(smaller(4096, c.x1 - c.x0), c.y1 - c.y0);
    if d < 512 {
        0
    } else {
        d as u32
    }
}

/// The diameter of the rounding of a rectangle's corners.
pub fn corner_rounding(c: Corners) -> (r: u32)
    requires
        c.x0 <= c.x1,
        c.y0 <= c.y1,
    ensures
        r == rounding(c),
{
    proof {
        reveal(rounding);
    }
    let w: i64 = c.x1 as i64 - c.x0 as i64;
    let h: i64 = c.y1 as i64 - c.y0 as i64;
    let mut d: i64 = if w < 4096 {
        w
    } else {
        4096
    };
    if h < d {
        d = h;
    }
    if d < 512 {
        0
    } else {
        d as u32
    }
}

/// The places that a stroke goes through.
pub open spec fn places(points: Seq<Point>) -> Seq<(i32, i32)> {
    points.map_values(|p: Point| (p.x, p.y))
}

/// The box around some places, with padding on every side.
pub open spec fn box_around(places: Seq<(i32, i32)>, padding: u32) -> Bbox {
    spec_bbox(places.map_values(|p: (i32, i32)| Point { x: p.0, y: p.1, t: 0 }), padding)
}

/// When its points were reached does not matter to the box around a stroke.
pub proof fn box_ignores_time(points: Seq<Point>, padding: u32)
    ensures
        spec_bbox(points, padding) == box_around(places(points), padding),
{
    let timeless = places(points).map_values(|p: (i32, i32)| Point { x: p.0, y: p.1, t: 0 });
    assert(xs(points) =~= xs(timeless));
    assert(ys(points) =~= ys(timeless));
}

/// Adds a place to a stroke.
pub(crate) fn push_place(stroke: &mut Stroke, x: i32, y: i32)
    ensures
        places(final(stroke)@) == places(old(stroke)@).push((x, y)),
{
    stroke.push(x, y);
    assert(places(stroke@) =~= places(old(stroke)@).push((x, y)));
}

/// Makes a stroke the outline of a rectangle.
pub(crate) fn draw_outline(stroke: &mut Stroke, c: Corners)
    ensures
        places(final(stroke)@) == outline(c),
{
    stroke.clear();
    assert(places(stroke@) =~= Seq::empty());
    push_place(stroke, c.x0, c.y0);
    push_place(stroke, c.x1, c.y0);
    push_place(stroke, c.x1, c.y1);
    push_place(stroke, c.x0, c.y1);
    push_place(stroke, c.x0, c.y0);
    assert(places(stroke@) =~= outline(c));
}

/// The rectangle of a drag reaches from where it began to where it is.
pub proof fn drag_rect_spans_the_drag(anchor: (i32, i32), at: (i32, i32))
    ensures
        ({
            let c = drag_rect(anchor, at, false);
            &&& c.x0 <= c.x1 && c.y0 <= c.y1
            &&& (c.x0 == anchor.0 && c.x1 == at.0) || (c.x0 == at.0 && c.x1 == anchor.0)
            &&& (c.y0 == anchor.1 && c.y1 == at.1) || (c.y0 == at.1 && c.y1 == anchor.1)
        }),
{
    reveal(drag_rect);
}

/// The rectangle of a drag does not depend on which of its corners the drag began at.
pub proof fn drag_rect_has_no_direction(a: (i32, i32), b: (i32, i32))
    ensures
        drag_rect(a, b, false) == drag_rect(b, a, false),
{
    reveal(drag_rect);
}

/// A square has equal sides, has a corner where the drag began, and fits into the rectangle of the
/// same drag.
pub proof fn square_is_square(anchor: (i32, i32), at: (i32, i32))
    ensures
        ({
            let s = drag_rect(anchor, at, true);
            let c = drag_rect(anchor, at, false);
            &&& s.x1 - s.x0 == s.y1 - s.y0
            &&& s.x0 == anchor.0 || s.x1 == anchor.0
            &&& s.y0 == anchor.1 || s.y1 == anchor.1
            &&& c.x0 <= s.x0 && s.x1 <= c.x1
            &&& c.y0 <= s.y0 && s.y1 <= c.y1
            &&& s.x1 - s.x0 == smaller(c.x1 - c.x0, c.y1 - c.y0)
        }),
{
    reveal(drag_rect);
}

/// The rounding of a rectangle's corners fits into it.
pub proof fn rounding_fits(c: Corners)
    requires
        c.x0 <= c.x1,
        c.y0 <= c.y1,
    ensures
        rounding(c) <= c.x1 - c.x0,
        rounding(c) <= c.y1 - c.y0,
        rounding(c) <= 4096,
{
    reveal(rounding);
}

proof fn lemma_span_of_outline(a: int, b: int, s: Seq<int>)
    requires
        a <= b,
        s == seq![a, b, b, a, a] || s == seq![a, a, b, b, a],
    ensures
        crate::stroke::least(s) == a,
        crate::stroke::greatest(s) == b,
{
    reveal_with_fuel(crate::stroke::least, 6);
    reveal_with_fuel(crate::stroke::greatest, 6);
    let s4 = s.drop_last();
    let s3 = s4.drop_last();
    let s2 = s3.drop_last();
    let s1 = s2.drop_last();
    assert(s1.len() == 1 && s2.len() == 2 && s3.len() == 3 && s4.len() == 4);
    assert(s1[0] == a);
    assert(s2.last() == s[1] && s3.last() == s[2] && s4.last() == s[3]);
}

/// The box of a rectangle is the rectangle, to the nearest pixel.
pub proof fn box_of_an_outline(c: Corners)
    requires
        c.x0 <= c.x1,
        c.y0 <= c.y1,
    ensures
        box_around(outline(c), 0) == (Bbox {
            x: crate::stroke::round_px(c.x0 as int) as i32,
            y: crate::stroke::round_px(c.y0 as int) as i32,
            w: crate::stroke::round_px(c.x1 - c.x0) as u32,
            h: crate::stroke::round_px(c.y1 - c.y0) as u32,
        }),
{
    let points = outline(c).map_values(|p: (i32, i32)| Point { x: p.0, y: p.1, t: 0 });
    assert(xs(points) =~= seq![c.x0 as int, c.x1 as int, c.x1 as int, c.x0 as int, c.x0 as int]);
    assert(ys(points) =~= seq![c.y0 as int, c.y0 as int, c.y1 as int, c.y1 as int, c.y0 as int]);
    lemma_span_of_outline(c.x0 as int, c.x1 as int, xs(points));
    lemma_span_of_outline(c.y0 as int, c.y1 as int, ys(points));
}

/// The box of a single place has no extent.
pub proof fn box_of_a_click(at: (i32, i32))
    ensures
        box_around(seq![at], 0) == (Bbox {
            x: crate::stroke::round_px(at.0 as int) as i32,
            y: crate::stroke::round_px(at.1 as int) as i32,
            w: 0,
            h: 0,
        }),
{
    let points = seq![at].map_values(|p: (i32, i32)| Point { x: p.0, y: p.1, t: 0 });
    assert(points =~= seq![Point { x: at.0, y: at.1, t: 0 }]);
    crate::stroke::bbox_of_one_point(Point { x: at.0, y: at.1, t: 0 });
}

/// A press becomes a drag once the pointer is as far from it as the threshold, as the crow flies; a
/// threshold of zero or less is always reached. The direction does not matter, and neither does the
/// place on the screen.
pub proof fn drags_are_measured_as_the_crow_flies(
    origin: (i32, i32),
    at: (i32, i32),
    moved: (i32, i32),
    moved_at: (i32, i32),
    threshold: int,
)
    requires
        moved_at.0 - moved.0 == at.0 - origin.0,
        moved_at.1 - moved.1 == at.1 - origin.1,
    ensures
        is_drag(origin, at, threshold) <==> threshold <= 0 || (at.0 - origin.0) * (at.0 - origin.0)
            + (at.1 - origin.1) * (at.1 - origin.1) >= threshold * threshold,
        is_drag(moved, moved_at, threshold) == is_drag(origin, at, threshold),
        is_drag(at, origin, threshold) == is_drag(origin, at, threshold),
        at.1 == origin.1 ==> (is_drag(origin, at, threshold) <==> at.0 - origin.0 >= threshold
            || origin.0 - at.0 >= threshold),
        at.0 == origin.0 ==> (is_drag(origin, at, threshold) <==> at.1 - origin.1 >= threshold
            || origin.1 - at.1 >= threshold),
{
    reveal(is_drag);
    let dx = at.0 - origin.0;
    let dy = at.1 - origin.1;
    assert((-dx) * (-dx) == dx * dx) by (nonlinear_arith);
    assert((-dy) * (-dy) == dy * dy) by (nonlinear_arith);
    assert(dx == 0 ==> dx * dx == 0) by (nonlinear_arith);
    assert(dy == 0 ==> dy * dy == 0) by (nonlinear_arith);
    lemma_one_way(dx, threshold);
    lemma_one_way(dy, threshold);
}

proof fn lemma_one_way(d: int, threshold: int)
    ensures
        threshold > 0 ==> (d * d >= threshold * threshold <==> d >= threshold || -d >= threshold),
        threshold <= 0 ==> d >= threshold || -d >= threshold,
{
    if threshold > 0 {
        if d >= threshold || -d >= threshold {
            assert(d * d >= threshold * threshold) by (nonlinear_arith)
                requires
                    threshold > 0,
                    d >= threshold || -d >= threshold,
            ;
        } else {
            assert(d * d < threshold * threshold) by (nonlinear_arith)
                requires
                    threshold > 0,
                    d < threshold,
                    -d < threshold,
            ;
        }
    }
}

/// The square of a drag starts at the press, goes the way that the pointer went on each axis, and
/// has the length of the shorter of the two ways.
pub proof fn square_goes_the_shorter_way(anchor: (i32, i32), at: (i32, i32))
    ensures
        ({
            let s = drag_rect(anchor, at, true);
            let dx = if at.0 < anchor.0 {
                anchor.0 - at.0
            } else {
                at.0 - anchor.0
            };
            let dy = if at.1 < anchor.1 {
                anchor.1 - at.1
            } else {
                at.1 - anchor.1
            };
            let side = s.x1 - s.x0;
            &&& side == s.y1 - s.y0
            &&& side <= dx && side <= dy && (side == dx || side == dy)
            &&& at.0 >= anchor.0 ==> s.x0 == anchor.0
            &&& at.0 < anchor.0 ==> s.x1 == anchor.0
            &&& at.1 >= anchor.1 ==> s.y0 == anchor.1
            &&& at.1 < anchor.1 ==> s.y1 == anchor.1
        }),
{
    reveal(drag_rect);
}

/// An outline goes once around the rectangle, clockwise from its top-left corner and back to it.
pub proof fn outline_goes_once_around(c: Corners)
    ensures
        outline(c).len() == 5,
        outline(c)[0] == (c.x0, c.y0),
        outline(c)[1] == (c.x1, c.y0),
        outline(c)[2] == (c.x1, c.y1),
        outline(c)[3] == (c.x0, c.y1),
        outline(c)[4] == outline(c)[0],
{
}

/// Corners are rounded with a diameter of sixteen pixels, or of the shorter side where that is
/// less. A rectangle with a side of less than two pixels keeps its sharp corners.
pub proof fn corners_are_rounded_as_far_as_they_fit(c: Corners)
    requires
        c.x0 <= c.x1,
        c.y0 <= c.y1,
    ensures
        ({
            let w = c.x1 - c.x0;
            let h = c.y1 - c.y0;
            &&& w < 2 * 256 || h < 2 * 256 ==> rounding(c) == 0
            &&& w >= 2 * 256 && h >= 2 * 256 ==> {
                &&& rounding(c) <= 16 * 256 && rounding(c) <= w && rounding(c) <= h
                &&& rounding(c) == 16 * 256 || rounding(c) == w || rounding(c) == h
            }
        }),
{
    reveal(rounding);
}

/// Whole pixels are what is left of a coordinate without its fraction, on both sides of zero.
pub proof fn fractions_are_dropped_toward_zero(v: int)
    ensures
        v >= 0 ==> 0 <= v - 256 * whole_px(v) < 256,
        whole_px(-v) == -whole_px(v),
{
}

} // verus!
