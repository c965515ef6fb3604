//! Snapping to windows: a point near a corner, an edge or the middle of an edge of a window, or of
//! the free area of the screen, is pulled onto it.
//!
//! Coordinates are whole numbers of 1/256 of a logical pixel.

use crate::rank::{in_order, insert_in_order, orders, ranked, ranked_list_is_in_order, views, Ranked};
use crate::stroke::Bbox;
use vstd::prelude::*;

verus! {

/// Where a point was pulled to, and the lines that it was aligned with.
#[derive(Debug, Clone, Copy, PartialEq, Eq)]
pub struct SnapResult {
    pub point: (i64, i64),
    /// The vertical line that the point was aligned with.
    pub x_guide: Option<i64>,
    /// The horizontal line that the point was aligned with.
    pub y_guide: Option<i64>,
}

impl SnapResult {
    /// The point where it is, aligned with nothing.
    pub fn passthrough(p: (i64, i64)) -> (r: SnapResult)
        ensures
            r == (SnapResult { point: p, x_guide: None, y_guide: None }),
    {
        SnapResult { point: p, x_guide: None, y_guide: None }
    }

    /// Was the point aligned with anything?
    pub fn snapped(&self) -> (r: bool)
        ensures
            r == (self.x_guide is Some || self.y_guide is Some),
    {
        self.x_guide.is_some() || self.y_guide.is_some()
    }
}

impl Ranked for i64 {
    open spec fn before(a: i64, b: i64) -> bool {
        a < b
    }

    fn goes_before(&self, other: &Self) -> (r: bool) {
        *self < *other
    }
}

/// The distance between two numbers.
pub open spec fn distance(a: int, b: int) -> int {
    if a < b {
        b - a
    } else {
        a - b
    }
}

fn apart(a: i64, b: i64) -> (r: i128)
    ensures
        r == distance(a as int, b as int),
{
    if a < b {
        b as i128 - a as i128
    } else {
        a as i128 - b as i128
    }
}

/// The left or top edge of a box along one axis.
pub open spec fn near_edge(pos: i32) -> i64 {
    (256 * pos) as i64
}

/// The right or bottom edge of a box along one axis.
pub open spec fn far_edge(pos: i32, size: u32) -> i64 {
    (256 * (pos + size)) as i64
}

/// The middle of a box along one axis.
pub open spec fn mid_edge(pos: i32, size: u32) -> i64 {
    (128 * (2 * pos + size)) as i64
}

/// The corners of a box and the middles of its edges.
pub open spec fn rect_points(b: Bbox) -> Seq<(i64, i64)> {
    let (x0, x1, cx) = (near_edge(b.x), far_edge(b.x, b.w), mid_edge(b.x, b.w));
    let (y0, y1, cy) = (near_edge(b.y), far_edge(b.y, b.h), mid_edge(b.y, b.h));
    seq![(x0, y0), (x1, y0), (x0, y1), (x1, y1), (cx, y0), (cx, y1), (x0, cy), (x1, cy)]
}

/// The vertical edges of a box.
pub open spec fn rect_x_lines(b: Bbox) -> Seq<i64> {
    seq![near_edge(b.x), far_edge(b.x, b.w)]
}

/// The horizontal edges of a box.
pub open spec fn rect_y_lines(b: Bbox) -> Seq<i64> {
    seq![near_edge(b.y), far_edge(b.y, b.h)]
}

/// The points of several boxes, one box after the other.
pub open spec fn all_points(rects: Seq<Bbox>) -> Seq<(i64, i64)>
    decreases rects.len(),
{
    if rects.len() == 0 {
        Seq::empty()
    } else {
        all_points(rects.drop_last()) + rect_points(rects.last())
    }
}

/// The vertical edges of several boxes, one box after the other.
pub open spec fn all_x_lines(rects: Seq<Bbox>) -> Seq<i64>
    decreases rects.len(),
{
    if rects.len() == 0 {
        Seq::empty()
    } else {
        all_x_lines(rects.drop_last()) + rect_x_lines(rects.last())
    }
}

/// The horizontal edges of several boxes, one box after the other.
pub open spec fn all_y_lines(rects: Seq<Bbox>) -> Seq<i64>
    decreases rects.len(),
{
    if rects.len() == 0 {
        Seq::empty()
    } else {
        all_y_lines(rects.drop_last()) + rect_y_lines(rects.last())
    }
}

/// The list without every number that lies closer than `eps` to the last one that was kept.
pub open spec fn thinned(values: Seq<i64>, eps: int) -> Seq<i64>
    decreases values.len(),
{
    if values.len() == 0 {
        Seq::empty()
    } else {
        let front = thinned(values.drop_last(), eps);
        if front.len() > 0 && distance(values.last() as int, front.last() as int) < eps {
            front
        } else {
            front.push(values.last())
        }
    }
}

/// Two lines closer than this are one.
pub const SAME_LINE: i64 = 128;

/// The line nearest to `v` among those at most `radius` away, the first of several.
pub open spec fn nearest(lines: Seq<i64>, v: int, radius: int) -> Option<i64>
    decreases lines.len(),
{
    if lines.len() == 0 {
        None
    } else {
        let best = nearest(lines.drop_last(), v, radius);
        let d = distance(lines.last() as int, v);
        if d <= radius && (best is None || d < distance(best->0 as int, v)) {
            Some(lines.last())
        } else {
            best
        }
    }
}

/// The square of the distance between two points.
pub open spec fn distance2(a: (i64, i64), b: (i64, i64)) -> int {
    (a.0 - b.0) * (a.0 - b.0) + (a.1 - b.1) * (a.1 - b.1)
}

/// The point nearest to `p` among those at most `radius` away, the first of several.
pub open spec fn nearest_point(points: Seq<(i64, i64)>, p: (i64, i64), radius: int) -> Option<
    (i64, i64),
>
    decreases points.len(),
{
    if points.len() == 0 {
        None
    } else {
        let best = nearest_point(points.drop_last(), p, radius);
        let d = distance2(points.last(), p);
        if d <= radius * radius && (best is None || d < distance2(best->0, p)) {
            Some(points.last())
        } else {
            best
        }
    }
}

/// What a point can be pulled to.
pub struct SnapModel {
    pub points: Seq<(i64, i64)>,
    pub x_lines: Seq<i64>,
    pub y_lines: Seq<i64>,
    pub radius: int,
}

/// What some windows and a free area offer.
pub open spec fn targets(windows: Seq<Bbox>, safe_area: Bbox, radius: int) -> SnapModel {
    let rects = windows.push(safe_area);
    SnapModel {
        points: all_points(rects),
        x_lines: thinned(ranked::<i64>(all_x_lines(rects)), SAME_LINE as int),
        y_lines: thinned(ranked::<i64>(all_y_lines(rects)), SAME_LINE as int),
        radius,
    }
}

/// Where a point is pulled to: onto the nearest corner or middle of an edge within the radius, or
/// else, on each axis for itself, onto the nearest edge within the radius.
pub open spec fn snap_of(m: SnapModel, p: (i64, i64)) -> SnapResult {
    match nearest_point(m.points, p, m.radius) {
        Some(q) => SnapResult { point: q, x_guide: Some(q.0), y_guide: Some(q.1) },
        None => {
            let x = nearest(m.x_lines, p.0 as int, m.radius);
            let y = nearest(m.y_lines, p.1 as int, m.radius);
            SnapResult {
                point: (
                    if x is Some {
                        x->0
                    } else {
                        p.0
                    },
                    if y is Some {
                        y->0
                    } else {
                        p.1
                    },
                ),
                x_guide: x,
                y_guide: y,
            }
        },
    }
}

/// Pulls points onto the windows that were there when it was made.
pub struct Snapper {
    points: Vec<(i64, i64)>,
    x_lines: Vec<i64>,
    y_lines: Vec<i64>,
    radius: i32,
}

impl View for Snapper {
    type V = SnapModel;

    closed spec fn view(&self) -> SnapModel {
        SnapModel {
            points: self.points@,
            x_lines: self.x_lines@,
            y_lines: self.y_lines@,
            radius: self.radius as int,
        }
    }
}

impl Snapper {
    fn push_rect(&mut self, b: Bbox)
        ensures
            final(self).points@ == old(self).points@ + rect_points(b),
            final(self).x_lines@ == old(self).x_lines@ + rect_x_lines(b),
            final(self).y_lines@ == old(self).y_lines@ + rect_y_lines(b),
            final(self).radius == old(self).radius,
    {
        let x0: i64 = b.x as i64 * 256;
        let y0: i64 = b.y as i64 * 256;
        let x1: i64 = (b.x as i64 + b.w as i64) * 256;
        let y1: i64 = (b.y as i64 + b.h as i64) * 256;
        let cx: i64 = (2 * b.x as i64 + b.w as i64) * 128;
        let cy: i64 = (2 * b.y as i64 + b.h as i64) * 128;
        self.points.push((x0, y0));
        self.points.push((x1, y0));
        self.points.push((x0, y1));
        self.points.push((x1, y1));
        self.points.push((cx, y0));
        self.points.push((cx, y1));
        self.points.push((x0, cy));
        self.points.push((x1, cy));
        self.x_lines.push(x0);
        self.x_lines.push(x1);
        self.y_lines.push(y0);
        self.y_lines.push(y1);
        assert(self.points@ =~= old(self).points@ + rect_points(b));
        assert(self.x_lines@ =~= old(self).x_lines@ + rect_x_lines(b));
        assert(self.y_lines@ =~= old(self).y_lines@ + rect_y_lines(b));
    }

    /// A snapper for some windows and the free area of the screen, with a reach of `radius`.
    pub fn new(windows: &Vec<Bbox>, safe_area: Bbox, radius: i32) -> (r: Snapper)
        ensures
            r@ == targets(windows@, safe_area, radius as int),
    {
        let mut s = Snapper {
            points: Vec::new(),
            x_lines: Vec::new(),
            y_lines: Vec::new(),
            radius,
        };
        let mut i: usize = 0;
        assert(windows@.take(0) =~= Seq::<Bbox>::empty());
        while i < windows.len()
            invariant
                i <= windows@.len(),
                s.points@ == all_points(windows@.take(i as int)),
                s.x_lines@ == all_x_lines(windows@.take(i as int)),
                s.y_lines@ == all_y_lines(windows@.take(i as int)),
                s.radius == radius,
            decreases windows@.len() - i,
        {
            assert(windows@.take(i + 1).drop_last() =~= windows@.take(i as int));
            s.push_rect(windows[i]);
            i += 1;
        }
        assert(windows@.take(i as int) =~= windows@);
        assert(windows@.push(safe_area).drop_last() =~= windows@);
        s.push_rect(safe_area);
        s.x_lines = dedupe_close(&s.x_lines, SAME_LINE);
        s.y_lines = dedupe_close(&s.y_lines, SAME_LINE);
        s
    }

    /// The vertical lines that a point can be pulled onto, from left to right.
    pub fn x_lines(&self) -> (r: &Vec<i64>)
        ensures
            r@ == self@.x_lines,
    {
        &self.x_lines
    }

    /// The horizontal lines that a point can be pulled onto, from top to bottom.
    pub fn y_lines(&self) -> (r: &Vec<i64>)
        ensures
            r@ == self@.y_lines,
    {
        &self.y_lines
    }

    /// Pulls a point onto what is near it. Without anything in reach it stays where it is.
    pub fn snap(&self, p: (i64, i64)) -> (r: SnapResult)
        ensures
            r == snap_of(self@, p),
    {
        let mut best: Option<(i64, i64)> = None;
        let mut best_d: i128 = 0;
        let reach: i128 = if self.radius < 0 {
            -(self.radius as i128)
        } else {
            self.radius as i128
        };
        let ghost r = self.radius as int;
        assert(reach * reach == r * r) by (nonlinear_arith)
            requires
                reach == r || reach == -r,
        ;
        let mut i: usize = 0;
        assert(self.points@.take(0) =~= Seq::<(i64, i64)>::empty());
        while i < self.points.len()
            invariant
                i <= self.points@.len(),
                best == nearest_point(self.points@.take(i as int), p, r),
                best matches Some(b) ==> best_d == distance2(b, p),
                0 <= reach <= 0x8000_0000,
                r == self.radius,
                reach * reach == r * r,
            decreases self.points@.len() - i,
        {
            let c = self.points[i];
            let dx: i128 = apart(c.0, p.0);
            let dy: i128 = apart(c.1, p.1);
            proof {
                assert(self.points@.take(i + 1).drop_last() =~= self.points@.take(i as int));
                lemma_reach(c, p, dx as int, dy as int, reach as int);
            }
            if dx <= reach && dy <= reach {
                proof {
                    lemma_square_bound(dx as int, reach as int);
                    lemma_square_bound(dy as int, reach as int);
                    lemma_square_bound(reach as int, 0x8000_0000);
                }
                let d: i128 = dx * dx + dy * dy;
                if d <= reach * reach && (best.is_none() || d < best_d) {
                    best = Some(c);
                    best_d = d;
                }
            }
            i += 1;
        }
        assert(self.points@.take(i as int) =~= self.points@);
        if let Some(q) = best {
            return SnapResult { point: q, x_guide: Some(q.0), y_guide: Some(q.1) };
        }
        let x = nearest_within(&self.x_lines, p.0, self.radius);
        let y = nearest_within(&self.y_lines, p.1, self.radius);
        SnapResult {
            point: (
                match x {
                    Some(l) => l,
                    None => p.0,
                },
                match y {
                    Some(l) => l,
                    None => p.1,
                },
            ),
            x_guide: x,
            y_guide: y,
        }
    }
}

proof fn lemma_square_bound(a: int, b: int)
    requires
        0 <= a <= b,
    ensures
        0 <= a * a <= b * b,
{
    assert(0 <= a * a <= b * b) by (nonlinear_arith)
        requires
            0 <= a <= b,
    ;
}

/// A point within the reach is within the reach on both axes.
proof fn lemma_reach(c: (i64, i64), p: (i64, i64), dx: int, dy: int, reach: int)
    requires
        dx == distance(c.0 as int, p.0 as int),
        dy == distance(c.1 as int, p.1 as int),
        0 <= reach,
    ensures
        distance2(c, p) == dx * dx + dy * dy,
        distance2(c, p) <= reach * reach ==> dx <= reach && dy <= reach,
{
    let a = c.0 - p.0;
    let b = c.1 - p.1;
    assert(a * a == dx * dx) by (nonlinear_arith)
        requires
            a == dx || a == -dx,
    ;
    assert(b * b == dy * dy) by (nonlinear_arith)
        requires
            b == dy || b == -dy,
    ;
    assert(dx * dx + dy * dy <= reach * reach ==> dx <= reach && dy <= reach) by (nonlinear_arith)
        requires
            0 <= dx,
            0 <= dy,
            0 <= reach,
    ;
}

/// The line nearest to `v` among those at most `radius` away.
fn nearest_within(lines: &Vec<i64>, v: i64, radius: i32) -> (r: Option<i64>)
    ensures
        r == nearest(lines@, v as int, radius as int),
{
    let mut best: Option<i64> = None;
    let mut best_d: i128 = 0;
    let mut i: usize = 0;
    assert(lines@.take(0) =~= Seq::<i64>::empty());
    while i < lines.len()
        invariant
            i <= lines@.len(),
            best == nearest(lines@.take(i as int), v as int, radius as int),
            best matches Some(b) ==> best_d == distance(b as int, v as int),
        decreases lines@.len() - i,
    {
        assert(lines@.take(i + 1).drop_last() =~= lines@.take(i as int));
        let d: i128 = apart(lines[i], v);
        if d <= radius as i128 && (best.is_none() || d < best_d) {
            best = Some(lines[i]);
            best_d = d;
        }
        i += 1;
    }
    assert(lines@.take(i as int) =~= lines@);
    best
}

/// The numbers in order, without those that lie closer than `eps` to the one before them.
fn dedupe_close(values: &Vec<i64>, eps: i64) -> (r: Vec<i64>)
    ensures
        r@ == thinned(ranked::<i64>(values@), eps as int),
{
    let mut sorted: Vec<i64> = Vec::new();
    let mut i: usize = 0;
    assert(values@.take(0) =~= Seq::<i64>::empty());
    while i < values.len()
        invariant
            i <= values@.len(),
            sorted@ == ranked::<i64>(values@.take(i as int)),
        decreases values@.len() - i,
    {
        assert(values@.take(i + 1).drop_last() =~= values@.take(i as int));
        proof {
            lemma_own_views(sorted@);
        }
        insert_in_order(&mut sorted, values[i]);
        proof {
            lemma_own_views(sorted@);
        }
        i += 1;
    }
    assert(values@.take(i as int) =~= values@);
    let mut out: Vec<i64> = Vec::new();
    let mut j: usize = 0;
    assert(sorted@.take(0) =~= Seq::<i64>::empty());
    while j < sorted.len()
        invariant
            j <= sorted@.len(),
            out@ == thinned(sorted@.take(j as int), eps as int),
        decreases sorted@.len() - j,
    {
        assert(sorted@.take(j + 1).drop_last() =~= sorted@.take(j as int));
        let close = out.len() > 0 && apart(sorted[j], out[out.len() - 1]) < eps as i128;
        if !close {
            out.push(sorted[j]);
        }
        j += 1;
    }
    assert(sorted@.take(j as int) =~= sorted@);
    out
}

proof fn lemma_own_views(s: Seq<i64>)
    ensures
        views(s) == s,
{
    assert(views(s) =~= s);
}


proof fn lemma_nearest_point(points: Seq<(i64, i64)>, p: (i64, i64), radius: int)
    ensures
        match nearest_point(points, p, radius) {
            Some(q) => {
                &&& points.contains(q)
                &&& distance2(q, p) <= radius * radius
                &&& forall|i: int|
                    0 <= i < points.len() ==> distance2(q, p) <= distance2(#[trigger] points[i], p)
            },
            None => forall|i: int|
                0 <= i < points.len() ==> distance2(#[trigger] points[i], p) > radius * radius,
        },
    decreases points.len(),
{
    if points.len() > 0 {
        let front = points.drop_last();
        lemma_nearest_point(front, p, radius);
        assert forall|i: int| 0 <= i < points.len() implies #[trigger] points[i] == (if i
            < front.len() {
            front[i]
        } else {
            points.last()
        }) by {}
        if let Some(q) = nearest_point(front, p, radius) {
            let k = choose|k: int| 0 <= k < front.len() && front[k] == q;
            assert(points[k] == q);
        }
        assert(points[points.len() - 1] == points.last());
    }
}

proof fn lemma_nearest(lines: Seq<i64>, v: int, radius: int)
    ensures
        match nearest(lines, v, radius) {
            Some(l) => {
                &&& lines.contains(l)
                &&& distance(l as int, v) <= radius
                &&& forall|i: int|
                    0 <= i < lines.len() ==> distance(l as int, v) <= distance(
                        #[trigger] lines[i] as int,
                        v,
                    )
            },
            None => forall|i: int|
                0 <= i < lines.len() ==> distance(#[trigger] lines[i] as int, v) > radius,
        },
    decreases lines.len(),
{
    if lines.len() > 0 {
        let front = lines.drop_last();
        lemma_nearest(front, v, radius);
        assert forall|i: int| 0 <= i < lines.len() implies #[trigger] lines[i] == (if i
            < front.len() {
            front[i]
        } else {
            lines.last()
        }) by {}
        if let Some(l) = nearest(front, v, radius) {
            let k = choose|k: int| 0 <= k < front.len() && front[k] == l;
            assert(lines[k] == l);
        }
        assert(lines[lines.len() - 1] == lines.last());
    }
}

/// A point in reach wins: the result is one of the points, none is nearer, and both guides go
/// through it.
pub proof fn point_in_reach_locks_both_axes(m: SnapModel, p: (i64, i64), i: int)
    requires
        0 <= i < m.points.len(),
        distance2(m.points[i], p) <= m.radius * m.radius,
    ensures
        ({
            let r = snap_of(m, p);
            &&& m.points.contains(r.point)
            &&& distance2(r.point, p) <= m.radius * m.radius
            &&& forall|j: int|
                0 <= j < m.points.len() ==> distance2(r.point, p) <= distance2(
                    #[trigger] m.points[j],
                    p,
                )
            &&& r.x_guide == Some(r.point.0)
            &&& r.y_guide == Some(r.point.1)
        }),
{
    lemma_nearest_point(m.points, p, m.radius);
}

/// Without a point in reach, each axis is decided by its own lines: it goes to a nearest one in
/// reach, or stays where it is if none is.
pub proof fn lines_in_reach_lock_their_axis(m: SnapModel, p: (i64, i64))
    requires
        forall|i: int|
            0 <= i < m.points.len() ==> distance2(#[trigger] m.points[i], p) > m.radius * m.radius,
    ensures
        axis_snap(m.x_lines, m.radius, p.0, snap_of(m, p).point.0, snap_of(m, p).x_guide),
        axis_snap(m.y_lines, m.radius, p.1, snap_of(m, p).point.1, snap_of(m, p).y_guide),
{
    lemma_nearest_point(m.points, p, m.radius);
    if let Some(q) = nearest_point(m.points, p, m.radius) {
        let k = choose|k: int| 0 <= k < m.points.len() && m.points[k] == q;
        assert(distance2(m.points[k], p) <= m.radius * m.radius);
    }
    lemma_nearest(m.x_lines, p.0 as int, m.radius);
    lemma_nearest(m.y_lines, p.1 as int, m.radius);
}

/// The coordinate `to` is where `from` goes among `lines`, and `guide` the line that it goes to.
pub open spec fn axis_snap(
    lines: Seq<i64>,
    radius: int,
    from: i64,
    to: i64,
    guide: Option<i64>,
) -> bool {
    match guide {
        Some(l) => {
            &&& to == l
            &&& lines.contains(l)
            &&& distance(l as int, from as int) <= radius
            &&& forall|i: int|
                0 <= i < lines.len() ==> distance(l as int, from as int) <= distance(
                    #[trigger] lines[i] as int,
                    from as int,
                )
        },
        None => {
            &&& to == from
            &&& forall|i: int|
                0 <= i < lines.len() ==> distance(#[trigger] lines[i] as int, from as int) > radius
        },
    }
}

/// An axis moves only onto its guide: where there is none, the coordinate is the one that was
/// given.
pub proof fn guides_go_through_the_result(m: SnapModel, p: (i64, i64))
    ensures
        ({
            let r = snap_of(m, p);
            &&& r.x_guide matches Some(l) ==> r.point.0 == l
            &&& r.x_guide is None ==> r.point.0 == p.0
            &&& r.y_guide matches Some(l) ==> r.point.1 == l
            &&& r.y_guide is None ==> r.point.1 == p.1
        }),
{
}

/// A point moves by no more than the radius on either axis.
pub proof fn snapping_moves_within_the_radius(m: SnapModel, p: (i64, i64))
    requires
        m.radius >= 0,
    ensures
        distance(snap_of(m, p).point.0 as int, p.0 as int) <= m.radius,
        distance(snap_of(m, p).point.1 as int, p.1 as int) <= m.radius,
{
    lemma_nearest_point(m.points, p, m.radius);
    lemma_nearest(m.x_lines, p.0 as int, m.radius);
    lemma_nearest(m.y_lines, p.1 as int, m.radius);
    if let Some(q) = nearest_point(m.points, p, m.radius) {
        lemma_reach(
            q,
            p,
            distance(q.0 as int, p.0 as int),
            distance(q.1 as int, p.1 as int),
            m.radius,
        );
    }
}

/// With a radius of zero nothing moves: only what is hit exactly is a guide.
pub proof fn radius_zero_moves_nothing(m: SnapModel, p: (i64, i64))
    requires
        m.radius == 0,
    ensures
        snap_of(m, p).point == p,
{
    snapping_moves_within_the_radius(m, p);
}

proof fn lemma_lines_are_ordered()
    ensures
        orders::<i64>(),
{
}

/// The list `t` holds numbers of `values`, at least `eps` apart, and something close to each.
spec fn thins(t: Seq<i64>, values: Seq<i64>, eps: int) -> bool {
    &&& forall|i: int| 0 <= i < t.len() ==> values.contains(#[trigger] t[i])
    &&& forall|i: int, j: int| 0 <= i < j < t.len() ==> #[trigger] t[i] + eps <= #[trigger] t[j]
    &&& forall|k: int| 0 <= k < values.len() ==> has_close(t, #[trigger] values[k], eps)
}

proof fn lemma_thins_drop(t: Seq<i64>, values: Seq<i64>, v: i64, eps: int)
    requires
        thins(t, values, eps),
        t.len() > 0,
        distance(v as int, t.last() as int) < eps,
    ensures
        thins(t, values.push(v), eps),
{
    let all = values.push(v);
    assert forall|i: int| 0 <= i < t.len() implies all.contains(#[trigger] t[i]) by {
        let k = choose|k: int| 0 <= k < values.len() && values[k] == t[i];
        assert(all[k] == t[i]);
    }
    assert forall|k: int| 0 <= k < all.len() implies has_close(t, #[trigger] all[k], eps) by {
        if k < values.len() {
            assert(has_close(t, values[k], eps));
        } else {
            assert(distance(t[t.len() - 1] as int, v as int) < eps);
        }
    }
}

proof fn lemma_thins_keep(t: Seq<i64>, values: Seq<i64>, v: i64, eps: int)
    requires
        thins(t, values, eps),
        t.len() > 0 ==> t.last() + eps <= v,
        eps > 0,
    ensures
        thins(t.push(v), values.push(v), eps),
{
    let all = values.push(v);
    let kept = t.push(v);
    assert(all[values.len() as int] == v);
    assert forall|i: int| 0 <= i < kept.len() implies all.contains(#[trigger] kept[i]) by {
        if i < t.len() {
            assert(values.contains(t[i]));
            let k = choose|k: int| 0 <= k < values.len() && values[k] == t[i];
            assert(all[k] == t[i]);
        }
    }
    assert forall|i: int, j: int| 0 <= i < j < kept.len() implies #[trigger] kept[i] + eps
        <= #[trigger] kept[j] by {
        if j == t.len() && i < t.len() - 1 {
            assert(t[i] + eps <= t[t.len() - 1]);
        }
    }
    assert forall|k: int| 0 <= k < all.len() implies has_close(kept, #[trigger] all[k], eps) by {
        if k < values.len() {
            assert(has_close(t, values[k], eps));
            let i = choose|i: int|
                0 <= i < t.len() && distance(#[trigger] t[i] as int, values[k] as int) < eps;
            assert(kept[i] == t[i]);
        } else {
            assert(distance(kept[t.len() as int] as int, v as int) < eps);
        }
    }
}

proof fn lemma_thinned(values: Seq<i64>, eps: int)
    requires
        in_order::<i64>(values),
        eps > 0,
    ensures
        thins(thinned(values, eps), values, eps),
    decreases values.len(),
{
    if values.len() > 0 {
        let front = values.drop_last();
        let v = values.last();
        assert forall|i: int, j: int| 0 <= i < j < front.len() implies !<i64 as Ranked>::before(
            #[trigger] front[j],
            #[trigger] front[i],
        ) by {
            assert(!<i64 as Ranked>::before(values[j], values[i]));
        }
        lemma_thinned(front, eps);
        let t = thinned(front, eps);
        assert(values =~= front.push(v));
        if t.len() > 0 {
            assert(front.contains(t[t.len() - 1]));
            let k = choose|k: int| 0 <= k < front.len() && front[k] == t[t.len() - 1];
            assert(!<i64 as Ranked>::before(values[values.len() - 1], values[k]));
        }
        if t.len() > 0 && distance(v as int, t.last() as int) < eps {
            lemma_thins_drop(t, front, v, eps);
        } else {
            lemma_thins_keep(t, front, v, eps);
        }
    }
}

/// One of the lines lies closer than `eps` to `v`.
pub open spec fn has_close(lines: Seq<i64>, v: i64, eps: int) -> bool {
    exists|i: int| 0 <= i < lines.len() && distance(#[trigger] lines[i] as int, v as int) < eps
}

proof fn lemma_line_list(edges: Seq<i64>)
    ensures
        ({
            let t = thinned(ranked::<i64>(edges), SAME_LINE as int);
            &&& forall|i: int| 0 <= i < t.len() ==> edges.contains(#[trigger] t[i])
            &&& forall|i: int, j: int|
                0 <= i < j < t.len() ==> #[trigger] t[i] + SAME_LINE <= #[trigger] t[j]
            &&& forall|k: int|
                0 <= k < edges.len() ==> has_close(t, #[trigger] edges[k], SAME_LINE as int)
        }),
{
    broadcast use vstd::seq_lib::group_to_multiset_ensures;

    lemma_lines_are_ordered();
    ranked_list_is_in_order::<i64>(edges);
    let s = ranked::<i64>(edges);
    lemma_thinned(s, SAME_LINE as int);
    let t = thinned(s, SAME_LINE as int);
    assert forall|i: int| 0 <= i < t.len() implies edges.contains(#[trigger] t[i]) by {
        assert(s.contains(t[i]));
        assert(s.to_multiset().count(t[i]) > 0);
    }
    assert forall|k: int| 0 <= k < edges.len() implies has_close(
        t,
        #[trigger] edges[k],
        SAME_LINE as int,
    ) by {
        assert(edges.contains(edges[k]));
        assert(edges.to_multiset().count(edges[k]) > 0);
        assert(s.contains(edges[k]));
        let j = choose|j: int| 0 <= j < s.len() && s[j] == edges[k];
        assert(has_close(t, s[j], SAME_LINE as int));
    }
}

/// Edges that windows share are held once: the lines are edges, they stand in order and at least
/// half a pixel apart, and every edge has a line less than half a pixel away.
pub proof fn shared_edges_are_held_once(windows: Seq<Bbox>, safe_area: Bbox, radius: int)
    ensures
        ({
            let m = targets(windows, safe_area, radius);
            let rects = windows.push(safe_area);
            &&& forall|i: int|
                0 <= i < m.x_lines.len() ==> all_x_lines(rects).contains(#[trigger] m.x_lines[i])
            &&& forall|i: int, j: int|
                0 <= i < j < m.x_lines.len() ==> #[trigger] m.x_lines[i] + SAME_LINE
                    <= #[trigger] m.x_lines[j]
            &&& forall|k: int|
                0 <= k < all_x_lines(rects).len() ==> has_close(
                    m.x_lines,
                    #[trigger] all_x_lines(rects)[k],
                    SAME_LINE as int,
                )
            &&& forall|i: int|
                0 <= i < m.y_lines.len() ==> all_y_lines(rects).contains(#[trigger] m.y_lines[i])
            &&& forall|i: int, j: int|
                0 <= i < j < m.y_lines.len() ==> #[trigger] m.y_lines[i] + SAME_LINE
                    <= #[trigger] m.y_lines[j]
            &&& forall|k: int|
                0 <= k < all_y_lines(rects).len() ==> has_close(
                    m.y_lines,
                    #[trigger] all_y_lines(rects)[k],
                    SAME_LINE as int,
                )
        }),
{
    lemma_line_list(all_x_lines(windows.push(safe_area)));
    lemma_line_list(all_y_lines(windows.push(safe_area)));
}

/// What a box offers is its four corners and the middles of its four edges, and nothing else. A
/// middle of its left or right edge is as far from its top as from its bottom, and a middle of its
/// top or bottom edge is as far from its left as from its right.
pub proof fn targets_of_a_box(b: Bbox, q: (i64, i64))
    ensures
        ({
            let (left, right) = (256 * b.x, 256 * (b.x + b.w));
            let (top, bottom) = (256 * b.y, 256 * (b.y + b.h));
            rect_points(b).contains(q) <==> {
                ||| (q.0 == left || q.0 == right) && (q.1 == top || q.1 == bottom)
                ||| (q.0 == left || q.0 == right) && 2 * q.1 == top + bottom
                ||| (q.1 == top || q.1 == bottom) && 2 * q.0 == left + right
            }
        }),
{
    let (x0, x1, cx) = (near_edge(b.x), far_edge(b.x, b.w), mid_edge(b.x, b.w));
    let (y0, y1, cy) = (near_edge(b.y), far_edge(b.y, b.h), mid_edge(b.y, b.h));
    let r = rect_points(b);
    assert(r[0] == (x0, y0) && r[1] == (x1, y0) && r[2] == (x0, y1) && r[3] == (x1, y1));
    assert(r[4] == (cx, y0) && r[5] == (cx, y1) && r[6] == (x0, cy) && r[7] == (x1, cy));
    assert(q == (q.0, q.1));
}

/// The points are those of the windows and of the free area: each is a corner or the middle of an
/// edge of one of these boxes, and none of these is missing.
pub proof fn targets_are_those_of_the_boxes(
    windows: Seq<Bbox>,
    safe_area: Bbox,
    radius: int,
    q: (i64, i64),
)
    ensures
        targets(windows, safe_area, radius).radius == radius,
        targets(windows, safe_area, radius).points.contains(q) <==> exists|k: int|
            0 <= k <= windows.len() && {
                let b = #[trigger] windows.push(safe_area)[k];
                let (left, right) = (256 * b.x, 256 * (b.x + b.w));
                let (top, bottom) = (256 * b.y, 256 * (b.y + b.h));
                ||| (q.0 == left || q.0 == right) && (q.1 == top || q.1 == bottom)
                ||| (q.0 == left || q.0 == right) && 2 * q.1 == top + bottom
                ||| (q.1 == top || q.1 == bottom) && 2 * q.0 == left + right
            },
{
    let rects = windows.push(safe_area);
    lemma_points_of_boxes(rects, q);
    if all_points(rects).contains(q) {
        let k = choose|k: int| 0 <= k < rects.len() && rect_points(#[trigger] rects[k]).contains(q);
        targets_of_a_box(rects[k], q);
    }
    assert forall|k: int| 0 <= k < rects.len() implies {
        let b = #[trigger] rects[k];
        let (left, right) = (256 * b.x, 256 * (b.x + b.w));
        let (top, bottom) = (256 * b.y, 256 * (b.y + b.h));
        rect_points(b).contains(q) <==> {
            ||| (q.0 == left || q.0 == right) && (q.1 == top || q.1 == bottom)
            ||| (q.0 == left || q.0 == right) && 2 * q.1 == top + bottom
            ||| (q.1 == top || q.1 == bottom) && 2 * q.0 == left + right
        }
    } by {
        targets_of_a_box(rects[k], q);
    }
}

proof fn lemma_points_of_boxes(rects: Seq<Bbox>, q: (i64, i64))
    ensures
        all_points(rects).contains(q) <==> exists|k: int|
            0 <= k < rects.len() && rect_points(#[trigger] rects[k]).contains(q),
    decreases rects.len(),
{
    if rects.len() > 0 {
        let front = rects.drop_last();
        let more = rect_points(rects.last());
        let all = all_points(rects);
        lemma_points_of_boxes(front, q);
        if all.contains(q) {
            let i = choose|i: int| 0 <= i < all.len() && all[i] == q;
            if i < all_points(front).len() {
                assert(all_points(front)[i] == q);
                let k = choose|k: int|
                    0 <= k < front.len() && rect_points(#[trigger] front[k]).contains(q);
                assert(rect_points(rects[k]).contains(q));
            } else {
                assert(more[i - all_points(front).len()] == q);
                assert(rect_points(rects[rects.len() - 1]).contains(q));
            }
        }
        if exists|k: int| 0 <= k < rects.len() && rect_points(#[trigger] rects[k]).contains(q) {
            let k = choose|k: int|
                0 <= k < rects.len() && rect_points(#[trigger] rects[k]).contains(q);
            if k < front.len() {
                assert(rect_points(front[k]).contains(q));
                let i = choose|i: int|
                    0 <= i < all_points(front).len() && all_points(front)[i] == q;
                assert(all[i] == q);
            } else {
                let i = choose|i: int| 0 <= i < more.len() && more[i] == q;
                assert(all[all_points(front).len() + i] == q);
            }
        }
    }
}

/// The vertical lines are the left and right edges of the windows and of the free area, each once
/// and from left to right; the horizontal lines are their top and bottom edges, each once and from
/// top to bottom.
pub proof fn lines_are_the_edges(windows: Seq<Bbox>, safe_area: Bbox, radius: int, v: i64)
    ensures
        ({
            let m = targets(windows, safe_area, radius);
            let boxes = windows.push(safe_area);
            &&& m.x_lines.contains(v) <==> exists|k: int|
                0 <= k < boxes.len() && (256 * (#[trigger] boxes[k]).x == v || 256 * (boxes[k].x
                    + boxes[k].w) == v)
            &&& m.y_lines.contains(v) <==> exists|k: int|
                0 <= k < boxes.len() && (256 * (#[trigger] boxes[k]).y == v || 256 * (boxes[k].y
                    + boxes[k].h) == v)
            &&& forall|i: int, j: int|
                0 <= i < j < m.x_lines.len() ==> #[trigger] m.x_lines[i] < #[trigger] m.x_lines[j]
            &&& forall|i: int, j: int|
                0 <= i < j < m.y_lines.len() ==> #[trigger] m.y_lines[i] < #[trigger] m.y_lines[j]
        }),
{
    let boxes = windows.push(safe_area);
    lemma_edges_of_boxes(boxes, v);
    assert forall|k: int| 0 <= k < all_x_lines(boxes).len() implies #[trigger] all_x_lines(boxes)[k]
        % 256 == 0 by {
        lemma_edges_of_boxes(boxes, all_x_lines(boxes)[k]);
        assert(all_x_lines(boxes).contains(all_x_lines(boxes)[k]));
    }
    assert forall|k: int| 0 <= k < all_y_lines(boxes).len() implies #[trigger] all_y_lines(boxes)[k]
        % 256 == 0 by {
        lemma_edges_of_boxes(boxes, all_y_lines(boxes)[k]);
        assert(all_y_lines(boxes).contains(all_y_lines(boxes)[k]));
    }
    lemma_whole_pixel_lines(all_x_lines(boxes), v);
    lemma_whole_pixel_lines(all_y_lines(boxes), v);
}

proof fn lemma_edges_of_boxes(boxes: Seq<Bbox>, v: i64)
    ensures
        all_x_lines(boxes).contains(v) <==> exists|k: int|
            0 <= k < boxes.len() && (256 * (#[trigger] boxes[k]).x == v || 256 * (boxes[k].x
                + boxes[k].w) == v),
        all_y_lines(boxes).contains(v) <==> exists|k: int|
            0 <= k < boxes.len() && (256 * (#[trigger] boxes[k]).y == v || 256 * (boxes[k].y
                + boxes[k].h) == v),
    decreases boxes.len(),
{
    if boxes.len() > 0 {
        let front = boxes.drop_last();
        let last = boxes.last();
        lemma_edges_of_boxes(front, v);
        assert(forall|k: int| 0 <= k < front.len() ==> #[trigger] front[k] == boxes[k]);
        assert(forall|k: int| 0 <= k < front.len() ==> #[trigger] boxes[k] == front[k]);
        assert(boxes[boxes.len() - 1] == last);
        lemma_contains_either(all_x_lines(front), rect_x_lines(last), v);
        lemma_contains_either(all_y_lines(front), rect_y_lines(last), v);
        assert(rect_x_lines(last)[0] == near_edge(last.x));
        assert(rect_x_lines(last)[1] == far_edge(last.x, last.w));
        assert(rect_y_lines(last)[0] == near_edge(last.y));
        assert(rect_y_lines(last)[1] == far_edge(last.y, last.h));
    }
}

proof fn lemma_contains_either(a: Seq<i64>, b: Seq<i64>, v: i64)
    ensures
        (a + b).contains(v) <==> a.contains(v) || b.contains(v),
{
    if (a + b).contains(v) {
        let i = choose|i: int| 0 <= i < (a + b).len() && (a + b)[i] == v;
        if i < a.len() {
            assert(a[i] == v);
        } else {
            assert(b[i - a.len()] == v);
        }
    }
    if a.contains(v) {
        let i = choose|i: int| 0 <= i < a.len() && a[i] == v;
        assert((a + b)[i] == v);
    }
    if b.contains(v) {
        let i = choose|i: int| 0 <= i < b.len() && b[i] == v;
        assert((a + b)[a.len() + i] == v);
    }
}

/// Lines on whole pixels are thinned only of their repetitions.
proof fn lemma_whole_pixel_lines(edges: Seq<i64>, v: i64)
    requires
        forall|k: int| 0 <= k < edges.len() ==> #[trigger] edges[k] % 256 == 0,
    ensures
        ({
            let t = thinned(ranked::<i64>(edges), SAME_LINE as int);
            &&& t.contains(v) <==> edges.contains(v)
            &&& forall|i: int, j: int| 0 <= i < j < t.len() ==> #[trigger] t[i] < #[trigger] t[j]
        }),
{
    let t = thinned(ranked::<i64>(edges), SAME_LINE as int);
    if edges.contains(v) {
        let k = choose|k: int| 0 <= k < edges.len() && edges[k] == v;
        let i = lemma_edge_has_a_line(edges, k);
        let j = lemma_line_is_an_edge(edges, i);
        assert(edges[j] % 256 == 0 && edges[k] % 256 == 0);
        assert(t[i] == v);
    }
    if t.contains(v) {
        let i = choose|i: int| 0 <= i < t.len() && t[i] == v;
        let j = lemma_line_is_an_edge(edges, i);
        assert(edges[j] == v);
    }
    assert forall|i: int, j: int| 0 <= i < j < t.len() implies #[trigger] t[i] < #[trigger] t[j] by {
        lemma_line_list(edges);
    }
}

proof fn lemma_line_is_an_edge(edges: Seq<i64>, i: int) -> (j: int)
    requires
        0 <= i < thinned(ranked::<i64>(edges), SAME_LINE as int).len(),
    ensures
        0 <= j < edges.len(),
        edges[j] == thinned(ranked::<i64>(edges), SAME_LINE as int)[i],
{
    let line = thinned(ranked::<i64>(edges), SAME_LINE as int)[i];
    assert(edges.contains(line)) by {
        lemma_line_list(edges);
    }
    choose|j: int| 0 <= j < edges.len() && edges[j] == line
}

proof fn lemma_edge_has_a_line(edges: Seq<i64>, k: int) -> (i: int)
    requires
        0 <= k < edges.len(),
    ensures
        0 <= i < thinned(ranked::<i64>(edges), SAME_LINE as int).len(),
        distance(
            thinned(ranked::<i64>(edges), SAME_LINE as int)[i] as int,
            edges[k] as int,
        ) < SAME_LINE,
{
    let t = thinned(ranked::<i64>(edges), SAME_LINE as int);
    assert(has_close(t, edges[k], SAME_LINE as int)) by {
        lemma_line_list(edges);
    }
    choose|i: int|
        0 <= i < t.len() && distance(#[trigger] t[i] as int, edges[k] as int) < SAME_LINE
}

/// A point within the radius, as the crow flies, of a corner or the middle of an edge is pulled
/// onto the nearest of these, the first of several. Both guides go through it.
pub proof fn nearest_point_in_the_circle_wins(m: SnapModel, p: (i64, i64), i: int)
    requires
        0 <= i < m.points.len(),
        (m.points[i].0 - p.0) * (m.points[i].0 - p.0) + (m.points[i].1 - p.1) * (m.points[i].1
            - p.1) <= m.radius * m.radius,
    ensures
        exists|j: int|
            {
                let r = snap_of(m, p);
                let q = #[trigger] m.points[j];
                let near = (q.0 - p.0) * (q.0 - p.0) + (q.1 - p.1) * (q.1 - p.1);
                &&& 0 <= j < m.points.len()
                &&& r.point == q && r.x_guide == Some(q.0) && r.y_guide == Some(q.1)
                &&& near <= m.radius * m.radius
                &&& forall|k: int|
                    0 <= k < m.points.len() ==> {
                        let c = #[trigger] m.points[k];
                        let d = (c.0 - p.0) * (c.0 - p.0) + (c.1 - p.1) * (c.1 - p.1);
                        near <= d && (k < j ==> near < d)
                    }
            },
{
    lemma_nearest_point(m.points, p, m.radius);
    assert(distance2(m.points[i], p) <= m.radius * m.radius);
    let j = lemma_first_nearest_point(m.points, p, m.radius);
    assert(m.points[j] == nearest_point(m.points, p, m.radius)->0);
    assert forall|k: int| 0 <= k < m.points.len() implies {
        let c = #[trigger] m.points[k];
        let q = m.points[j];
        let near = (q.0 - p.0) * (q.0 - p.0) + (q.1 - p.1) * (q.1 - p.1);
        let d = (c.0 - p.0) * (c.0 - p.0) + (c.1 - p.1) * (c.1 - p.1);
        near <= d && (k < j ==> near < d)
    } by {
        assert(distance2(m.points[j], p) <= distance2(m.points[k], p));
    }
}

proof fn lemma_first_nearest_point(points: Seq<(i64, i64)>, p: (i64, i64), radius: int) -> (j: int)
    requires
        nearest_point(points, p, radius) is Some,
    ensures
        0 <= j < points.len(),
        points[j] == nearest_point(points, p, radius)->0,
        forall|k: int| 0 <= k < j ==> distance2(points[j], p) < distance2(#[trigger] points[k], p),
    decreases points.len(),
{
    let front = points.drop_last();
    let best = nearest_point(front, p, radius);
    let d = distance2(points.last(), p);
    lemma_nearest_point(front, p, radius);
    if d <= radius * radius && (best is None || d < distance2(best->0, p)) {
        assert forall|k: int| 0 <= k < front.len() implies d < distance2(#[trigger] points[k], p) by {
            assert(front[k] == points[k]);
        }
        points.len() - 1
    } else {
        let j = lemma_first_nearest_point(front, p, radius);
        assert(points[j] == front[j]);
        assert forall|k: int| 0 <= k < j implies distance2(points[j], p) < distance2(
            #[trigger] points[k],
            p,
        ) by {
            assert(front[k] == points[k]);
        }
        j
    }
}

/// Away from all points each axis is pulled for itself: onto the nearest line within the radius,
/// the first of several that are as near, and nowhere if none is within the radius.
pub proof fn nearest_line_in_reach_wins(m: SnapModel, p: (i64, i64))
    requires
        forall|i: int|
            #![trigger m.points[i]]
            0 <= i < m.points.len() ==> (m.points[i].0 - p.0) * (m.points[i].0 - p.0) + (
            m.points[i].1 - p.1) * (m.points[i].1 - p.1) > m.radius * m.radius,
    ensures
        ({
            let r = snap_of(m, p);
            &&& r.x_guide matches Some(l) ==> {
                let near = if l < p.0 {
                    p.0 - l
                } else {
                    l - p.0
                };
                &&& r.point.0 == l
                &&& near <= m.radius
                &&& exists|j: int|
                    {
                        &&& 0 <= j < m.x_lines.len() && #[trigger] m.x_lines[j] == l
                        &&& forall|k: int|
                            0 <= k < m.x_lines.len() ==> {
                                let c = #[trigger] m.x_lines[k];
                                &&& c <= p.0 - near || p.0 + near <= c
                                &&& k < j ==> c < p.0 - near || p.0 + near < c
                            }
                    }
            }
            &&& r.x_guide is None ==> r.point.0 == p.0 && forall|k: int|
                0 <= k < m.x_lines.len() ==> {
                    let c = #[trigger] m.x_lines[k];
                    c < p.0 - m.radius || p.0 + m.radius < c
                }
            &&& r.y_guide matches Some(l) ==> {
                let near = if l < p.1 {
                    p.1 - l
                } else {
                    l - p.1
                };
                &&& r.point.1 == l
                &&& near <= m.radius
                &&& exists|j: int|
                    {
                        &&& 0 <= j < m.y_lines.len() && #[trigger] m.y_lines[j] == l
                        &&& forall|k: int|
                            0 <= k < m.y_lines.len() ==> {
                                let c = #[trigger] m.y_lines[k];
                                &&& c <= p.1 - near || p.1 + near <= c
                                &&& k < j ==> c < p.1 - near || p.1 + near < c
                            }
                    }
            }
            &&& r.y_guide is None ==> r.point.1 == p.1 && forall|k: int|
                0 <= k < m.y_lines.len() ==> {
                    let c = #[trigger] m.y_lines[k];
                    c < p.1 - m.radius || p.1 + m.radius < c
                }
        }),
{
    assert forall|i: int| 0 <= i < m.points.len() implies distance2(#[trigger] m.points[i], p)
        > m.radius * m.radius by {}
    lemma_nearest_point(m.points, p, m.radius);
    lemma_nearest(m.x_lines, p.0 as int, m.radius);
    lemma_nearest(m.y_lines, p.1 as int, m.radius);
    if nearest(m.x_lines, p.0 as int, m.radius) is Some {
        let j = lemma_first_nearest(m.x_lines, p.0 as int, m.radius);
        assert(m.x_lines[j] == nearest(m.x_lines, p.0 as int, m.radius)->0);
    }
    if nearest(m.y_lines, p.1 as int, m.radius) is Some {
        let j = lemma_first_nearest(m.y_lines, p.1 as int, m.radius);
        assert(m.y_lines[j] == nearest(m.y_lines, p.1 as int, m.radius)->0);
    }
}

proof fn lemma_first_nearest(lines: Seq<i64>, v: int, radius: int) -> (j: int)
    requires
        nearest(lines, v, radius) is Some,
    ensures
        0 <= j < lines.len(),
        lines[j] == nearest(lines, v, radius)->0,
        forall|k: int|
            0 <= k < j ==> distance(lines[j] as int, v) < distance(#[trigger] lines[k] as int, v),
    decreases lines.len(),
{
    let front = lines.drop_last();
    let best = nearest(front, v, radius);
    let d = distance(lines.last() as int, v);
    lemma_nearest(front, v, radius);
    if d <= radius && (best is None || d < distance(best->0 as int, v)) {
        assert forall|k: int| 0 <= k < front.len() implies d < distance(
            #[trigger] lines[k] as int,
            v,
        ) by {
            assert(front[k] == lines[k]);
        }
        lines.len() - 1
    } else {
        let j = lemma_first_nearest(front, v, radius);
        assert(lines[j] == front[j]);
        assert forall|k: int| 0 <= k < j implies distance(lines[j] as int, v) < distance(
            #[trigger] lines[k] as int,
            v,
        ) by {
            assert(front[k] == lines[k]);
        }
        j
    }
}

/// Of values that lie closer together than asked for, the first one is kept: a further value is
/// dropped if it lies closer than that to the last one that was kept, and is kept if it does not.
pub proof fn first_of_close_values_is_kept(values: Seq<i64>, v: i64, eps: int)
    requires
        thinned(values, eps).len() > 0,
    ensures
        ({
            let kept = thinned(values, eps);
            let gap = v - kept.last();
            &&& -eps < gap < eps ==> thinned(values.push(v), eps) == kept
            &&& !(-eps < gap < eps) ==> thinned(values.push(v), eps) == kept.push(v)
        }),
        thinned(seq![v], eps) == seq![v],
{
    assert(values.push(v).drop_last() =~= values);
    assert(seq![v].drop_last() =~= Seq::<i64>::empty());
    assert(thinned(Seq::<i64>::empty(), eps) =~= Seq::<i64>::empty());
    assert(thinned(seq![v], eps) =~= seq![v]);
}

/// A point that lies on a corner or on the middle of an edge of a window stays there, and both
/// guides show it.
pub proof fn point_on_a_target_stays(windows: Seq<Bbox>, safe_area: Bbox, radius: int, q: (i64, i64))
    requires
        targets(windows, safe_area, radius).points.contains(q),
    ensures
        snap_of(targets(windows, safe_area, radius), q) == (SnapResult {
            point: q,
            x_guide: Some(q.0),
            y_guide: Some(q.1),
        }),
{
    let m = targets(windows, safe_area, radius);
    let i = choose|i: int| 0 <= i < m.points.len() && m.points[i] == q;
    assert(0 <= radius * radius) by (nonlinear_arith);
    nearest_point_in_the_circle_wins(m, q, i);
    let r = snap_of(m, q);
    let dx = r.point.0 - q.0;
    let dy = r.point.1 - q.1;
    assert(dx * dx + dy * dy <= 0);
    assert(dx == 0 && dy == 0) by (nonlinear_arith)
        requires
            dx * dx + dy * dy <= 0,
    ;
}

} // verus!
