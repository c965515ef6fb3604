//! Rectangles on the screen and the stroke that the pointer draws.

use vstd::prelude::*;

verus! {

/// Half of `n`, with the fraction dropped toward zero.
pub open spec fn half(n: int) -> int {
    if n >= 0 {
        n / 2
    } else {
        -((-n) / 2)
    }
}

/// Halves `n`, dropping the fraction.
pub fn halve(n: i64) -> (r: i64)
    requires
        n > i64::MIN,
    ensures
        r == half(n as int),
{
    if n >= 0 {
        n / 2
    } else {
        -((-n) / 2)
    }
}

/// A rectangle: its top-left corner and its size, in logical pixels.
#[derive(Clone, Copy, Debug, PartialEq, Eq, Structural)]
pub struct Bbox {
    pub x: i32,
    pub y: i32,
    pub w: u32,
    pub h: u32,
}

impl Default for Bbox {
    fn default() -> (r: Bbox)
        ensures
            r == (Bbox { x: 0, y: 0, w: 0, h: 0 }),
    {
        Bbox { x: 0, y: 0, w: 0, h: 0 }
    }
}

/// How far an axis of length `size` moves back when it grows to `min`.
pub open spec fn grow_shift(size: int, min: int) -> int {
    if size < min {
        (min - size) / 2
    } else {
        0
    }
}

/// The longer of the two lengths.
pub open spec fn longer(a: int, b: int) -> int {
    if a < b {
        b
    } else {
        a
    }
}

/// The place and length of one axis of a box after it was kept within one axis of an output.
pub open spec fn clamp_axis(pos: int, size: int, out_pos: int, out_size: int) -> (int, int) {
    if size > out_size {
        (out_pos, out_size)
    } else if longer(pos, out_pos) + size > out_pos + out_size {
        (out_pos + out_size - size, size)
    } else {
        (longer(pos, out_pos), size)
    }
}

fn shift_fits(pos: i32, size: u32, min: u32) -> (r: bool)
    ensures
        r == (i32::MIN <= pos - grow_shift(size as int, min as int)),
{
    if size < min {
        pos as i64 - ((min - size) / 2) as i64 >= -0x8000_0000
    } else {
        true
    }
}

fn keep_within(pos: i32, size: u32, out_pos: i32, out_size: u32) -> (r: (i32, u32))
    ensures
        (r.0 as int, r.1 as int) == clamp_axis(
            pos as int,
            size as int,
            out_pos as int,
            out_size as int,
        ),
{
    if size > out_size {
        return (out_pos, out_size);
    }
    let p: i32 = if pos < out_pos {
        out_pos
    } else {
        pos
    };
    let edge: i64 = out_pos as i64 + out_size as i64;
    if p as i64 + size as i64 > edge {
        ((edge - size as i64) as i32, size)
    } else {
        (p, size)
    }
}

impl Bbox {
    /// The box of at least `min_w` by `min_h` that `enforce_min` makes.
    pub open spec fn spec_enforce_min(self, min_w: u32, min_h: u32) -> Bbox {
        Bbox {
            x: (self.x - grow_shift(self.w as int, min_w as int)) as i32,
            y: (self.y - grow_shift(self.h as int, min_h as int)) as i32,
            w: longer(self.w as int, min_w as int) as u32,
            h: longer(self.h as int, min_h as int) as u32,
        }
    }

    /// The corner that `enforce_min` moves to is a 32-bit number on both axes.
    pub open spec fn enforce_min_fits(self, min_w: u32, min_h: u32) -> bool {
        &&& i32::MIN <= self.x - grow_shift(self.w as int, min_w as int)
        &&& i32::MIN <= self.y - grow_shift(self.h as int, min_h as int)
    }

    /// Can the box grow to at least `min_w` by `min_h`?
    pub fn can_enforce_min(self, min_w: u32, min_h: u32) -> (r: bool)
        ensures
            r == self.enforce_min_fits(min_w, min_h),
    {
        shift_fits(self.x, self.w, min_w) && shift_fits(self.y, self.h, min_h)
    }

    /// Grows the box to at least `min_w` by `min_h`. A side that grows does so on both ends, so
    /// that the box keeps its middle.
    pub fn enforce_min(self, min_w: u32, min_h: u32) -> (r: Bbox)
        requires
            self.enforce_min_fits(min_w, min_h),
        ensures
            r == self.spec_enforce_min(min_w, min_h),
            r.x == self.x - grow_shift(self.w as int, min_w as int),
            r.y == self.y - grow_shift(self.h as int, min_h as int),
    {
        let mut b = self;
        if b.w < min_w {
            b.x = (b.x as i64 - ((min_w - b.w) / 2) as i64) as i32;
            b.w = min_w;
        }
        if b.h < min_h {
            b.y = (b.y as i64 - ((min_h - b.h) / 2) as i64) as i32;
            b.h = min_h;
        }
        b
    }

    /// The box that `clamp_to_rect` makes.
    pub open spec fn spec_clamp_to_rect(self, rect: Bbox) -> Bbox {
        let h = clamp_axis(self.x as int, self.w as int, rect.x as int, rect.w as int);
        let v = clamp_axis(self.y as int, self.h as int, rect.y as int, rect.h as int);
        Bbox { x: h.0 as i32, y: v.0 as i32, w: h.1 as u32, h: v.1 as u32 }
    }

    /// Keeps the box within an output rectangle in the same coordinates: it slides back over
    /// the edge it overhangs, and an axis longer than the output's becomes the output's own.
    pub fn clamp_to_rect(self, rect: Bbox) -> (r: Bbox)
        ensures
            r == self.spec_clamp_to_rect(rect),
            (r.x as int, r.w as int) == clamp_axis(
                self.x as int,
                self.w as int,
                rect.x as int,
                rect.w as int,
            ),
            (r.y as int, r.h as int) == clamp_axis(
                self.y as int,
                self.h as int,
                rect.y as int,
                rect.h as int,
            ),
    {
        let (x, w) = keep_within(self.x, self.w, rect.x, rect.w);
        let (y, h) = keep_within(self.y, self.h, rect.y, rect.h);
        Bbox { x, y, w, h }
    }
}

/// Pointer coordinates are whole numbers of this fraction of a logical pixel.
pub const SUBPX: i32 = 256;

/// The moments of `std::time::Instant`.
#[verifier::external_type_specification]
#[verifier::external_body]
pub struct ExInstant(std::time::Instant);

/// Calls `std::time::Instant::now`. Nothing is claimed of the moment it returns.
#[verifier::external_body]
fn read_clock() -> std::time::Instant {
    std::time::Instant::now()
}

/// Calls `std::time::Instant::duration_since` and gives the time in whole microseconds. Nothing
/// is claimed of how much time passed.
#[verifier::external_body]
fn micros_since(now: std::time::Instant, start: std::time::Instant) -> u128 {
    now.duration_since(start).as_micros()
}

/// A point of a stroke, in fractions of a logical pixel, and the time in microseconds since the
/// stroke began.
#[derive(Clone, Copy, Debug)]
pub struct Point {
    pub x: i32,
    pub y: i32,
    pub t: u128,
}

/// What the pointer drew.
pub struct Stroke {
    points: Vec<Point>,
    started: Option<std::time::Instant>,
}

impl View for Stroke {
    type V = Seq<Point>;

    closed spec fn view(&self) -> Seq<Point> {
        self.points@
    }
}

/// The nearest whole number of pixels, and away from zero from half way.
pub open spec fn round_px(v: int) -> int {
    if v >= 0 {
        (v + 128) / 256
    } else {
        -((128 - v) / 256)
    }
}

/// The number that is nearest to `v` between `lo` and `hi`.
pub open spec fn bounded(v: int, lo: int, hi: int) -> int {
    if v < lo {
        lo
    } else if v > hi {
        hi
    } else {
        v
    }
}

/// The smallest of some numbers.
pub open spec fn least(s: Seq<int>) -> int
    decreases s.len(),
{
    if s.len() <= 1 {
        s[0]
    } else {
        let before = least(s.drop_last());
        if s.last() < before {
            s.last()
        } else {
            before
        }
    }
}

/// The largest of some numbers.
pub open spec fn greatest(s: Seq<int>) -> int
    decreases s.len(),
{
    if s.len() <= 1 {
        s[0]
    } else {
        let before = greatest(s.drop_last());
        if s.last() > before {
            s.last()
        } else {
            before
        }
    }
}

/// The horizontal places of some points.
pub open spec fn xs(points: Seq<Point>) -> Seq<int> {
    points.map_values(|p: Point| p.x as int)
}

/// The vertical places of some points.
pub open spec fn ys(points: Seq<Point>) -> Seq<int> {
    points.map_values(|p: Point| p.y as int)
}

/// Where the padded span of some places starts, in whole pixels.
pub open spec fn span_start(s: Seq<int>, padding: int) -> int {
    bounded(round_px(least(s) - 256 * padding), i32::MIN as int, i32::MAX as int)
}

/// The length of the padded span of some places, in whole pixels.
pub open spec fn span_len(s: Seq<int>, padding: int) -> int {
    bounded(round_px(greatest(s) - least(s) + 512 * padding), 0, u32::MAX as int)
}

/// The box around some points, with padding on every side.
pub open spec fn spec_bbox(points: Seq<Point>, padding: u32) -> Bbox {
    if points.len() == 0 {
        Bbox { x: 0, y: 0, w: 0, h: 0 }
    } else {
        Bbox {
            x: span_start(xs(points), padding as int) as i32,
            y: span_start(ys(points), padding as int) as i32,
            w: span_len(xs(points), padding as int) as u32,
            h: span_len(ys(points), padding as int) as u32,
        }
    }
}

/// The nearest whole pixel that fits in 32 signed bits.
fn start_px(v: i64) -> (r: i32)
    requires
        -0x1000_0000_0000 <= v <= 0x1000_0000_0000,
    ensures
        r == bounded(round_px(v as int), i32::MIN as int, i32::MAX as int),
{
    let px: i64 = if v >= 0 {
        (v + 128) / 256
    } else {
        -((128 - v) / 256)
    };
    if px < -0x8000_0000 {
        i32::MIN
    } else if px > 0x7fff_ffff {
        i32::MAX
    } else {
        px as i32
    }
}

/// The nearest whole pixel that fits in 32 unsigned bits.
fn len_px(v: i64) -> (r: u32)
    requires
        0 <= v <= 0x1000_0000_0000,
    ensures
        r == bounded(round_px(v as int), 0, u32::MAX as int),
{
    let px: i64 = (v + 128) / 256;
    if px > 0xffff_ffff {
        u32::MAX
    } else {
        px as u32
    }
}

impl Stroke {
    /// Has the clock of this stroke begun to run?
    pub closed spec fn running(self) -> bool {
        self.started is Some
    }

    /// A stroke without points.
    pub fn new() -> (r: Stroke)
        ensures
            r@ == Seq::<Point>::empty(),
            !r.running(),
    {
        Stroke { points: Vec::new(), started: None }
    }

    /// Removes all points and stops the clock.
    pub fn clear(&mut self)
        ensures
            final(self)@ == Seq::<Point>::empty(),
            !final(self).running(),
    {
        self.points.clear();
        self.started = None;
    }

    /// Adds a point that was reached this many microseconds after the stroke began.
    pub fn push_timed(&mut self, x: i32, y: i32, t: u128)
        ensures
            final(self)@ == old(self)@.push(point_at(x, y, t)),
            final(self).running() == old(self).running(),
    {
        self.points.push(Point { x, y, t });
    }

    /// Adds a point and the time it was reached at, which the clock tells. The clock starts with the
    /// first point.
    pub fn push(&mut self, x: i32, y: i32)
        ensures
            exists|t: u128| final(self)@ == old(self)@.push(#[trigger] point_at(x, y, t)),
            !old(self).running() ==> final(self)@ == old(self)@.push(point_at(x, y, 0)),
            final(self).running(),
    {
        let now = read_clock();
        let t: u128 = match self.started {
            Some(start) => micros_since(now, start),
            None => {
                self.started = Some(now);
                0
            },
        };
        self.push_timed(x, y, t);
        assert(self@ == old(self)@.push(point_at(x, y, t)));
    }

    /// The points, in the order they were drawn.
    pub fn points(&self) -> (r: &Vec<Point>)
        ensures
            r@ == self@,
    {
        &self.points
    }

    /// The box around the stroke in whole pixels, with padding on every side.
    pub fn bbox(&self, padding: u32) -> (r: Bbox)
        ensures
            r == spec_bbox(self@, padding),
    {
        if self.points.len() == 0 {
            return Bbox::default();
        }
        let mut x_min: i32 = self.points[0].x;
        let mut x_max: i32 = self.points[0].x;
        let mut y_min: i32 = self.points[0].y;
        let mut y_max: i32 = self.points[0].y;
        let mut i: usize = 1;
        while i < self.points.len()
            invariant
                1 <= i <= self.points@.len(),
                x_min == least(xs(self.points@.take(i as int))),
                x_max == greatest(xs(self.points@.take(i as int))),
                y_min == least(ys(self.points@.take(i as int))),
                y_max == greatest(ys(self.points@.take(i as int))),
                x_min <= x_max,
                y_min <= y_max,
            decreases self.points@.len() - i,
        {
            let p = self.points[i];
            proof {
                let now = self.points@.take(i + 1);
                assert(xs(now).drop_last() =~= xs(self.points@.take(i as int)));
                assert(ys(now).drop_last() =~= ys(self.points@.take(i as int)));
                assert(xs(now).last() == p.x && ys(now).last() == p.y);
            }
            if p.x < x_min {
                x_min = p.x;
            }
            if p.y < y_min {
                y_min = p.y;
            }
            if p.x > x_max {
                x_max = p.x;
            }
            if p.y > y_max {
                y_max = p.y;
            }
            i += 1;
        }
        assert(self.points@.take(i as int) =~= self@);
        let pad: i64 = padding as i64 * 256;
        Bbox {
            x: start_px(x_min as i64 - pad),
            y: start_px(y_min as i64 - pad),
            w: len_px(x_max as i64 - x_min as i64 + 2 * pad),
            h: len_px(y_max as i64 - y_min as i64 + 2 * pad),
        }
    }
}

/// The point at this place and time.
pub open spec fn point_at(x: i32, y: i32, t: u128) -> Point {
    Point { x, y, t }
}

impl Default for Stroke {
    fn default() -> (r: Stroke)
        ensures
            r@ == Seq::<Point>::empty(),
            !r.running(),
    {
        Stroke::new()
    }
}

/// Every point of `inner` is a point of `outer`.
pub open spec fn inside(inner: Bbox, outer: Bbox) -> bool {
    &&& outer.x <= inner.x && inner.x + inner.w <= outer.x + outer.w
    &&& outer.y <= inner.y && inner.y + inner.h <= outer.y + outer.h
}

/// A box that was kept within an output lies inside it and did not grow.
pub proof fn clamped_box_is_inside(b: Bbox, rect: Bbox)
    ensures
        inside(b.spec_clamp_to_rect(rect), rect),
        b.spec_clamp_to_rect(rect).w <= b.w,
        b.spec_clamp_to_rect(rect).h <= b.h,
{
}

/// A box that fits the output keeps its size.
pub proof fn clamping_keeps_a_fitting_size(b: Bbox, rect: Bbox)
    requires
        b.w <= rect.w,
        b.h <= rect.h,
    ensures
        b.spec_clamp_to_rect(rect).w == b.w,
        b.spec_clamp_to_rect(rect).h == b.h,
{
}

/// A box that lies inside the output stays as it is.
pub proof fn clamping_leaves_a_box_inside(b: Bbox, rect: Bbox)
    requires
        inside(b, rect),
    ensures
        b.spec_clamp_to_rect(rect) == b,
{
}

/// Keeping a box within an output twice is the same as doing it once.
pub proof fn clamping_twice_is_clamping_once(b: Bbox, rect: Bbox)
    ensures
        b.spec_clamp_to_rect(rect).spec_clamp_to_rect(rect) == b.spec_clamp_to_rect(rect),
{
}

/// A box that was grown has at least the minimum size, and one that was large enough is left
/// as it was.
pub proof fn grown_box_has_the_minimum(b: Bbox, min_w: u32, min_h: u32)
    requires
        b.enforce_min_fits(min_w, min_h),
    ensures
        b.spec_enforce_min(min_w, min_h).w >= min_w,
        b.spec_enforce_min(min_w, min_h).h >= min_h,
        b.w >= min_w && b.h >= min_h ==> b.spec_enforce_min(min_w, min_h) == b,
{
}

/// A box that was grown keeps its middle to within half a pixel and covers the box it grew from.
pub proof fn grown_box_keeps_its_middle(b: Bbox, min_w: u32, min_h: u32)
    requires
        b.enforce_min_fits(min_w, min_h),
    ensures
        ({
            let g = b.spec_enforce_min(min_w, min_h);
            &&& 0 <= (2 * g.x + g.w) - (2 * b.x + b.w) <= 1
            &&& 0 <= (2 * g.y + g.h) - (2 * b.y + b.h) <= 1
            &&& inside(b, g)
        }),
{
}

/// Growing a box twice is the same as doing it once.
pub proof fn growing_twice_is_growing_once(b: Bbox, min_w: u32, min_h: u32)
    requires
        b.enforce_min_fits(min_w, min_h),
    ensures
        b.spec_enforce_min(min_w, min_h).spec_enforce_min(min_w, min_h) == b.spec_enforce_min(
            min_w,
            min_h,
        ),
{
}

/// The smallest and the largest of some numbers are among them, and all others lie between.
pub proof fn extremes_are_reached(s: Seq<int>)
    requires
        s.len() > 0,
    ensures
        s.contains(least(s)),
        s.contains(greatest(s)),
        forall|i: int| 0 <= i < s.len() ==> least(s) <= #[trigger] s[i] <= greatest(s),
    decreases s.len(),
{
    if s.len() > 1 {
        let front = s.drop_last();
        extremes_are_reached(front);
        let i = choose|i: int| 0 <= i < front.len() && front[i] == least(front);
        assert(s[i] == least(front));
        let j = choose|j: int| 0 <= j < front.len() && front[j] == greatest(front);
        assert(s[j] == greatest(front));
        assert(s[s.len() - 1] == s.last());
        assert forall|i: int| 0 <= i < s.len() implies least(s) <= #[trigger] s[i] <= greatest(
            s,
        ) by {
            if i < front.len() {
                assert(front[i] == s[i]);
            }
        }
    } else {
        assert(s[0] == least(s));
    }
}

/// The box around a stroke holds every point of it, to within the half pixel that its start is
/// rounded by and the half pixel that its length is. Where the points lie on whole pixels it
/// holds them exactly.
pub proof fn bbox_encloses_every_point(points: Seq<Point>, padding: u32, i: int)
    requires
        0 <= i < points.len(),
        padding <= 0x1000_0000,
    ensures
        ({
            let b = spec_bbox(points, padding);
            let p = points[i];
            &&& 256 * b.x - 128 <= p.x <= 256 * (b.x + b.w) + 256
            &&& 256 * b.y - 128 <= p.y <= 256 * (b.y + b.h) + 256
            &&& (forall|k: int| #![trigger points[k]] 0 <= k < points.len() ==> points[k].x % 256 == 0)
                ==> 256 * b.x <= p.x <= 256 * (b.x + b.w)
            &&& (forall|k: int| #![trigger points[k]] 0 <= k < points.len() ==> points[k].y % 256 == 0)
                ==> 256 * b.y <= p.y <= 256 * (b.y + b.h)
        }),
{
    lemma_span(xs(points), padding as int, i);
    lemma_span(ys(points), padding as int, i);
    assert(xs(points)[i] == points[i].x);
    assert(ys(points)[i] == points[i].y);
    if forall|k: int| #![trigger points[k]] 0 <= k < points.len() ==> points[k].x % 256 == 0 {
        assert forall|k: int| 0 <= k < points.len() implies #[trigger] xs(points)[k] % 256 == 0 by {
            assert(xs(points)[k] == points[k].x);
        }
        lemma_whole_span(xs(points), padding as int, i);
    }
    if forall|k: int| #![trigger points[k]] 0 <= k < points.len() ==> points[k].y % 256 == 0 {
        assert forall|k: int| 0 <= k < points.len() implies #[trigger] ys(points)[k] % 256 == 0 by {
            assert(ys(points)[k] == points[k].y);
        }
        lemma_whole_span(ys(points), padding as int, i);
    }
}

proof fn lemma_span(s: Seq<int>, padding: int, i: int)
    requires
        0 <= i < s.len(),
        0 <= padding <= 0x1000_0000,
        forall|k: int| 0 <= k < s.len() ==> i32::MIN <= #[trigger] s[k] <= i32::MAX,
    ensures
        i32::MIN <= span_start(s, padding) <= i32::MAX,
        0 <= span_len(s, padding) <= u32::MAX,
        256 * span_start(s, padding) - 128 <= s[i],
        s[i] <= 256 * (span_start(s, padding) + span_len(s, padding)) + 256,
{
    extremes_are_reached(s);
    let lo = least(s);
    let hi = greatest(s);
    assert(s.contains(lo) && s.contains(hi));
    let a = choose|a: int| 0 <= a < s.len() && s[a] == lo;
    let b = choose|b: int| 0 <= b < s.len() && s[b] == hi;
    assert(lo <= s[i] <= hi);
    assert(s[a] == lo && s[b] == hi);
}

proof fn lemma_whole_span(s: Seq<int>, padding: int, i: int)
    requires
        0 <= i < s.len(),
        0 <= padding <= 0x1000_0000,
        forall|k: int| 0 <= k < s.len() ==> i32::MIN <= #[trigger] s[k] <= i32::MAX,
        forall|k: int| 0 <= k < s.len() ==> #[trigger] s[k] % 256 == 0,
    ensures
        256 * span_start(s, padding) <= s[i],
        s[i] <= 256 * (span_start(s, padding) + span_len(s, padding)),
{
    extremes_are_reached(s);
    let lo = least(s);
    let hi = greatest(s);
    let a = choose|a: int| 0 <= a < s.len() && s[a] == lo;
    let b = choose|b: int| 0 <= b < s.len() && s[b] == hi;
    assert(s[a] % 256 == 0 && s[b] % 256 == 0);
    assert(lo <= s[i] <= hi);
}

/// A single point has an empty box, at the nearest whole pixel.
pub proof fn bbox_of_one_point(p: Point)
    ensures
        spec_bbox(seq![p], 0) == (Bbox {
            x: round_px(p.x as int) as i32,
            y: round_px(p.y as int) as i32,
            w: 0,
            h: 0,
        }),
{
    let points = seq![p];
    assert(xs(points)[0] == p.x);
    assert(ys(points)[0] == p.y);
}

/// Padding adds itself to both sides: the box starts that much earlier and is twice that much
/// longer. (A start half way between two pixels that padding moves across zero is left out.)
pub proof fn padding_grows_both_sides(s: Seq<int>, padding: int)
    requires
        s.len() > 0,
        0 <= padding <= 0x1000_0000,
        forall|k: int| 0 <= k < s.len() ==> i32::MIN <= #[trigger] s[k] <= i32::MAX,
        least(s) % 256 != 128 || least(s) < 0 || least(s) >= 256 * padding,
    ensures
        span_start(s, padding) == span_start(s, 0) - padding,
        span_len(s, padding) == span_len(s, 0) + 2 * padding,
{
    extremes_are_reached(s);
    let lo = least(s);
    let hi = greatest(s);
    let a = choose|a: int| 0 <= a < s.len() && s[a] == lo;
    let b = choose|b: int| 0 <= b < s.len() && s[b] == hi;
    assert(s[a] == lo && s[b] == hi);
    assert(lo <= s[0] <= hi);
}

/// Pixels are rounded to the nearest whole number, and half a pixel away from zero: the number that
/// comes out is at most half a pixel off, is zero or more for what is not negative, and is the same
/// on both sides of zero.
pub proof fn pixels_are_rounded_to_the_nearest(v: int)
    ensures
        v >= 0 ==> -128 < 256 * round_px(v) - v <= 128,
        round_px(-v) == -round_px(v),
{
}

/// Halving drops the fraction toward zero.
pub proof fn halves_are_cut_toward_zero(n: int)
    ensures
        n >= 0 ==> 0 <= n - 2 * half(n) <= 1,
        half(-n) == -half(n),
{
}

/// The box of a stroke starts at its least place and spans to its greatest one, both to the nearest
/// pixel and with the padding on either side; on each axis for itself.
pub proof fn bbox_spans_from_the_least_to_the_greatest(
    points: Seq<Point>,
    padding: u32,
    left: int,
    right: int,
    top: int,
    bottom: int,
)
    requires
        0 <= left < points.len() && 0 <= right < points.len(),
        0 <= top < points.len() && 0 <= bottom < points.len(),
        forall|k: int|
            0 <= k < points.len() ==> points[left].x <= (#[trigger] points[k]).x
                <= points[right].x,
        forall|k: int|
            0 <= k < points.len() ==> points[top].y <= (#[trigger] points[k]).y
                <= points[bottom].y,
        padding <= 0x7000_0000,
    ensures
        ({
            let b = spec_bbox(points, padding);
            let x = points[left].x - 256 * padding;
            let y = points[top].y - 256 * padding;
            let w = points[right].x - points[left].x + 512 * padding;
            let h = points[bottom].y - points[top].y + 512 * padding;
            &&& x >= 0 ==> -128 < 256 * b.x - x <= 128
            &&& x < 0 ==> -128 <= 256 * b.x - x < 128
            &&& y >= 0 ==> -128 < 256 * b.y - y <= 128
            &&& y < 0 ==> -128 <= 256 * b.y - y < 128
            &&& -128 < 256 * b.w - w <= 128
            &&& -128 < 256 * b.h - h <= 128
        }),
{
    extremes_are_reached(xs(points));
    extremes_are_reached(ys(points));
    let i = choose|i: int| 0 <= i < points.len() && xs(points)[i] == least(xs(points));
    let j = choose|j: int| 0 <= j < points.len() && xs(points)[j] == greatest(xs(points));
    let k = choose|k: int| 0 <= k < points.len() && ys(points)[k] == least(ys(points));
    let l = choose|l: int| 0 <= l < points.len() && ys(points)[l] == greatest(ys(points));
    assert(xs(points)[left] == points[left].x && xs(points)[right] == points[right].x);
    assert(ys(points)[top] == points[top].y && ys(points)[bottom] == points[bottom].y);
    assert(xs(points)[i] == points[i].x && xs(points)[j] == points[j].x);
    assert(ys(points)[k] == points[k].y && ys(points)[l] == points[l].y);
}

/// Nothing was drawn: the box has neither place nor size.
pub proof fn bbox_of_nothing(points: Seq<Point>, padding: u32)
    requires
        points.len() == 0,
    ensures
        spec_bbox(points, padding) == (Bbox { x: 0, y: 0, w: 0, h: 0 }),
{
}

/// Keeping a box within another slides it no further than it has to: it stays where it fits, comes
/// to lie at the edge that it reached over, and takes the whole length of an axis that it is too
/// long for. The two axes do not touch each other.
pub proof fn clamping_slides_no_further_than_needed(b: Bbox, rect: Bbox)
    ensures
        ({
            let r = b.spec_clamp_to_rect(rect);
            &&& b.w > rect.w ==> r.x == rect.x && r.w == rect.w
            &&& b.w <= rect.w ==> r.w == b.w
            &&& b.w <= rect.w && b.x < rect.x ==> r.x == rect.x
            &&& b.w <= rect.w && b.x + b.w > rect.x + rect.w ==> r.x + r.w == rect.x + rect.w
            &&& rect.x <= b.x && b.x + b.w <= rect.x + rect.w ==> r.x == b.x && r.w == b.w
            &&& b.h > rect.h ==> r.y == rect.y && r.h == rect.h
            &&& b.h <= rect.h ==> r.h == b.h
            &&& b.h <= rect.h && b.y < rect.y ==> r.y == rect.y
            &&& b.h <= rect.h && b.y + b.h > rect.y + rect.h ==> r.y + r.h == rect.y + rect.h
            &&& rect.y <= b.y && b.y + b.h <= rect.y + rect.h ==> r.y == b.y && r.h == b.h
        }),
{
}

/// A side that is too short grows to just the least length, half of it on either end; a side that is
/// long enough stays as it is. This can be done wherever the corner stays a 32-bit number.
pub proof fn box_grows_to_just_the_minimum(b: Bbox, min_w: u32, min_h: u32)
    ensures
        ({
            let g = b.spec_enforce_min(min_w, min_h);
            let fits_x = b.w >= min_w || 2 * b.x - (min_w - b.w) >= 2 * i32::MIN - 1;
            let fits_y = b.h >= min_h || 2 * b.y - (min_h - b.h) >= 2 * i32::MIN - 1;
            &&& b.enforce_min_fits(min_w, min_h) <==> fits_x && fits_y
            &&& b.w >= min_w ==> g.x == b.x && g.w == b.w
            &&& b.w < min_w ==> g.w == min_w
            &&& b.w < min_w && fits_x ==> 0 <= (2 * g.x + g.w) - (2 * b.x + b.w) <= 1
            &&& b.h >= min_h ==> g.y == b.y && g.h == b.h
            &&& b.h < min_h ==> g.h == min_h
            &&& b.h < min_h && fits_y ==> 0 <= (2 * g.y + g.h) - (2 * b.y + b.h) <= 1
        }),
{
}

} // verus!
