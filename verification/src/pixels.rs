//! Drawing glyphs onto an image of RGBA pixels whose colours are multiplied by their opacity.

use tiny_skia::PremultipliedColorU8;
use vstd::arithmetic::div_mod::{
    lemma_fundamental_div_mod, lemma_fundamental_div_mod_converse, lemma_mod_bound,
};
use vstd::prelude::*;

verus! {

/// A colour: red, green, blue and opacity.
#[derive(Clone, Copy, Debug, PartialEq, Eq, Structural)]
pub struct Rgba {
    pub r: u8,
    pub g: u8,
    pub b: u8,
    pub a: u8,
}

/// How heavy a text is drawn. A heavier text is drawn twice, the second time one pixel further to
/// the right.
#[derive(Clone, Copy, Debug, PartialEq, Eq, Structural)]
pub enum Weight {
    Normal,
    Medium,
    SemiBold,
}

impl Weight {
    /// The opacity of the second pass, of a text with this opacity: none, 55 percent to the nearest
    /// number, or all of it.
    pub open spec fn spec_bold_alpha(self, alpha: u8) -> u32 {
        match self {
            Weight::Normal => 0,
            Weight::Medium => ((alpha * 55 + 50) / 100) as u32,
            Weight::SemiBold => alpha as u32,
        }
    }

    /// The opacity of the second pass, of a text with this opacity. Zero is no second pass.
    pub fn bold_alpha(&self, alpha: u8) -> (r: u32)
        ensures
            r == self.spec_bold_alpha(alpha),
            r <= alpha,
    {
        match self {
            Weight::Normal => 0,
            Weight::Medium => (alpha as u32 * 55 + 50) / 100,
            Weight::SemiBold => alpha as u32,
        }
    }
}

/// No part of the colour is larger than its opacity.
pub open spec fn is_premultiplied(c: Rgba) -> bool {
    c.r <= c.a && c.g <= c.a && c.b <= c.a
}

/// The colour that `PremultipliedColorU8::demultiply` makes.
pub uninterp spec fn demultiplied(c: Rgba) -> Rgba;

/// Calls `PremultipliedColorU8::from_rgba` and `PremultipliedColorU8::demultiply`. The claim: the
/// result depends on the colour alone, keeps the opacity, and is the colour itself where that is
/// opaque.
#[verifier::external_body]
fn demultiply(c: Rgba) -> (r: Rgba)
    requires
        is_premultiplied(c),
    ensures
        r == demultiplied(c),
        r.a == c.a,
        c.a == 255 ==> r == c,
{
    let d = PremultipliedColorU8::from_rgba(c.r, c.g, c.b, c.a).unwrap().demultiply();
    Rgba { r: d.red(), g: d.green(), b: d.blue(), a: d.alpha() }
}

/// One part of a colour laid over another, by weights that add up to 255.
pub open spec fn mixed(top: u8, bottom: u8, weight: int) -> u8 {
    ((top * weight + bottom * (255 - weight)) / 255) as u8
}

/// A colour laid with some weight over one that is not multiplied by its opacity. Where that makes
/// a colour brighter than its opacity allows, `keep` stays.
pub open spec fn laid_over(keep: Rgba, below: Rgba, color: Rgba, weight: int) -> Rgba {
    let c = Rgba {
        r: mixed(color.r, below.r, weight),
        g: mixed(color.g, below.g, weight),
        b: mixed(color.b, below.b, weight),
        a: (weight + (below.a * (255 - weight)) / 255) as u8,
    };
    if is_premultiplied(c) {
        c
    } else {
        keep
    }
}

/// A pixel after a glyph was drawn over it that covers it to some part, with the colour and the
/// opacity of the text.
pub open spec fn blended(dst: Rgba, color: Rgba, coverage: u8, alpha: u32) -> Rgba {
    let weight = (coverage * alpha) / 255;
    if weight == 0 {
        dst
    } else if weight == 255 {
        Rgba { r: color.r, g: color.g, b: color.b, a: 255 }
    } else {
        laid_over(dst, demultiplied(dst), color, weight)
    }
}

proof fn lemma_mix(top: int, bottom: int, weight: int)
    requires
        0 <= top <= 255,
        0 <= bottom <= 255,
        0 <= weight <= 255,
    ensures
        0 <= top * weight <= 255 * 255,
        0 <= bottom * (255 - weight) <= 255 * 255,
        0 <= top * weight + bottom * (255 - weight) <= 255 * 255,
{
    assert(0 <= top * weight <= 255 * weight) by (nonlinear_arith)
        requires
            0 <= top <= 255,
            0 <= weight,
    ;
    let rest = 255 - weight;
    assert(0 <= bottom * rest <= 255 * rest) by (nonlinear_arith)
        requires
            0 <= bottom <= 255,
            0 <= rest,
    ;
}

fn mix(top: u8, bottom: u8, weight: u32) -> (r: u8)
    requires
        weight <= 255,
    ensures
        r == mixed(top, bottom, weight as int),
{
    proof {
        lemma_mix(top as int, bottom as int, weight as int);
    }
    ((top as u32 * weight + bottom as u32 * (255 - weight)) / 255) as u8
}

/// Lays a colour with some weight over one that is not multiplied by its opacity.
pub fn lay_over(keep: Rgba, below: Rgba, color: Rgba, weight: u32) -> (r: Rgba)
    requires
        weight <= 255,
    ensures
        r == laid_over(keep, below, color, weight as int),
        is_premultiplied(keep) ==> is_premultiplied(r),
{
    proof {
        lemma_mix(0, below.a as int, weight as int);
    }
    let c = Rgba {
        r: mix(color.r, below.r, weight),
        g: mix(color.g, below.g, weight),
        b: mix(color.b, below.b, weight),
        a: (weight + (below.a as u32 * (255 - weight)) / 255) as u8,
    };
    if c.r <= c.a && c.g <= c.a && c.b <= c.a {
        c
    } else {
        keep
    }
}

/// Draws a glyph over one pixel.
pub fn blend(dst: Rgba, color: Rgba, coverage: u8, alpha: u32) -> (r: Rgba)
    requires
        is_premultiplied(dst),
        alpha <= 255,
    ensures
        r == blended(dst, color, coverage, alpha),
        is_premultiplied(r),
{
    proof {
        lemma_mix(coverage as int, 0, alpha as int);
    }
    let weight: u32 = (coverage as u32 * alpha) / 255;
    if weight == 0 {
        dst
    } else if weight == 255 {
        Rgba { r: color.r, g: color.g, b: color.b, a: 255 }
    } else {
        lay_over(dst, demultiply(dst), color, weight)
    }
}

/// The pixel at a place in the bytes of an image.
pub open spec fn pixel(bytes: Seq<u8>, k: int) -> Rgba {
    Rgba { r: bytes[4 * k], g: bytes[4 * k + 1], b: bytes[4 * k + 2], a: bytes[4 * k + 3] }
}

/// A picture of a glyph: how much of each pixel it covers, and where its top-left corner goes.
#[derive(Debug)]
pub struct Glyph {
    pub x: i32,
    pub y: i32,
    pub w: usize,
    pub h: usize,
    pub coverage: Vec<u8>,
}

impl Glyph {
    /// The picture has as many numbers as pixels, and its pixels are at 32-bit places.
    pub open spec fn wf(&self) -> bool {
        &&& self.coverage@.len() == self.w * self.h
        &&& self.w <= i32::MAX && self.h <= i32::MAX
        &&& self.x + self.w <= i32::MAX
        &&& self.y + self.h <= i32::MAX
    }

    /// How much of the pixel in this column and row of the image the glyph covers.
    pub open spec fn cover(&self, col: int, row: int) -> u8 {
        if self.x <= col < self.x + self.w && self.y <= row < self.y + self.h {
            self.coverage@[(row - self.y) * self.w + (col - self.x)]
        } else {
            0
        }
    }
}

/// The pixel at place `k` of an image of this width, after a glyph was drawn.
pub open spec fn drawn(
    before: Seq<u8>,
    k: int,
    width: int,
    glyph: Glyph,
    color: Rgba,
    alpha: u32,
) -> Rgba {
    blended(pixel(before, k), color, glyph.cover(k % width, k / width), alpha)
}

/// Was the pixel at place `k` dealt with by the time that a column and a row of the glyph were
/// reached?
spec fn reached(k: int, width: int, glyph: Glyph, row: int, col: int) -> bool {
    ||| k / width - glyph.y < row
    ||| k / width - glyph.y == row && k % width - glyph.x < col
    ||| k / width < glyph.y
}

/// The image as far as it was drawn.
spec fn drawn_to(
    before: Seq<u8>,
    now: Seq<u8>,
    width: int,
    height: int,
    glyph: Glyph,
    color: Rgba,
    alpha: u32,
    row: int,
    col: int,
) -> bool {
    &&& now.len() == before.len() == 4 * (width * height)
    &&& forall|k: int|
        #![trigger pixel(now, k)]
        0 <= k < width * height ==> {
            &&& pixel(now, k) == (if reached(k, width, glyph, row, col) {
                drawn(before, k, width, glyph, color, alpha)
            } else {
                pixel(before, k)
            })
            &&& is_premultiplied(pixel(now, k))
        }
}

/// A pixel that is not covered stays as it is.
proof fn lemma_uncovered(dst: Rgba, color: Rgba, alpha: u32)
    ensures
        blended(dst, color, 0, alpha) == dst,
{
    assert(0 * alpha == 0) by (nonlinear_arith);
}

/// Where the pixels that are dealt with before a row starts are those of the rows above it, nothing
/// changes between the end of a row and the start of the next one.
proof fn lemma_row_done(
    before: Seq<u8>,
    now: Seq<u8>,
    width: int,
    height: int,
    glyph: Glyph,
    color: Rgba,
    alpha: u32,
    row: int,
)
    requires
        drawn_to(before, now, width, height, glyph, color, alpha, row, glyph.w as int),
        width > 0,
    ensures
        drawn_to(before, now, width, height, glyph, color, alpha, row + 1, 0),
{
    assert forall|k: int|
        #![trigger pixel(now, k)]
        0 <= k < width * height implies pixel(now, k) == (if reached(k, width, glyph, row + 1, 0) {
        drawn(before, k, width, glyph, color, alpha)
    } else {
        pixel(before, k)
    }) && is_premultiplied(pixel(now, k)) by {
        lemma_uncovered(pixel(before, k), color, alpha);
    }
}

/// A row of the glyph that lies outside the image changes nothing.
proof fn lemma_row_outside(
    before: Seq<u8>,
    now: Seq<u8>,
    width: int,
    height: int,
    glyph: Glyph,
    color: Rgba,
    alpha: u32,
    row: int,
)
    requires
        drawn_to(before, now, width, height, glyph, color, alpha, row, 0),
        width > 0,
        glyph.y + row < 0 || glyph.y + row >= height,
    ensures
        drawn_to(before, now, width, height, glyph, color, alpha, row + 1, 0),
{
    assert forall|k: int|
        #![trigger pixel(now, k)]
        0 <= k < width * height implies pixel(now, k) == (if reached(k, width, glyph, row + 1, 0) {
        drawn(before, k, width, glyph, color, alpha)
    } else {
        pixel(before, k)
    }) && is_premultiplied(pixel(now, k)) by {
        lemma_uncovered(pixel(before, k), color, alpha);
        lemma_place(k, width, height);
    }
}

/// The column and the row of a place lie inside the image.
proof fn lemma_place(k: int, width: int, height: int)
    requires
        0 <= k < width * height,
        width > 0,
    ensures
        0 <= k % width < width,
        0 <= k / width < height,
        k == (k / width) * width + k % width,
{
    lemma_fundamental_div_mod(k, width);
    lemma_mod_bound(k, width);
    let q = k / width;
    let m = k % width;
    assert(width * q == q * width) by (nonlinear_arith);
    assert(q < height) by (nonlinear_arith)
        requires
            q * width + m == k,
            k < width * height,
            m >= 0,
            width > 0,
    ;
    assert(q >= 0) by (nonlinear_arith)
        requires
            q * width + m == k,
            k >= 0,
            m < width,
            width > 0,
    ;
}

/// The place of a column and a row.
proof fn lemma_index(col: int, row: int, width: int, height: int)
    requires
        0 <= col < width,
        0 <= row < height,
    ensures
        0 <= row * width + col < width * height,
        (row * width + col) % width == col,
        (row * width + col) / width == row,
{
    assert(0 <= row * width + col < width * height) by (nonlinear_arith)
        requires
            0 <= col < width,
            0 <= row < height,
    ;
    lemma_fundamental_div_mod_converse(row * width + col, width, row, col);
}

fn set_pixel(bytes: &mut Vec<u8>, k: usize, c: Rgba)
    requires
        4 * k + 3 < old(bytes)@.len(),
    ensures
        final(bytes)@.len() == old(bytes)@.len(),
        pixel(final(bytes)@, k as int) == c,
        forall|j: int|
            j != k && 0 <= j && 4 * j + 3 < old(bytes)@.len() ==> #[trigger] pixel(
                final(bytes)@,
                j,
            ) == pixel(old(bytes)@, j),
{
    let size: usize = bytes.len();
    assert(4 * k < size);
    bytes.set(4 * k, c.r);
    bytes.set(4 * k + 1, c.g);
    bytes.set(4 * k + 2, c.b);
    bytes.set(4 * k + 3, c.a);
}

/// Draws a glyph onto an image. Parts of it that lie outside the image are left out.
pub fn composite_glyph(
    bytes: &mut Vec<u8>,
    width: u32,
    height: u32,
    glyph: &Glyph,
    color: Rgba,
    alpha: u32,
)
    requires
        old(bytes)@.len() == 4 * (width * height),
        forall|k: int|
            0 <= k < width * height ==> is_premultiplied(#[trigger] pixel(old(bytes)@, k)),
        width <= i32::MAX,
        height <= i32::MAX,
        glyph.wf(),
        alpha <= 255,
    ensures
        final(bytes)@.len() == old(bytes)@.len(),
        forall|k: int|
            0 <= k < width * height ==> {
                &&& (#[trigger] pixel(final(bytes)@, k)) == drawn(
                    old(bytes)@,
                    k,
                    width as int,
                    *glyph,
                    color,
                    alpha,
                )
                &&& is_premultiplied(pixel(final(bytes)@, k))
            },
{
    let ghost before = bytes@;
    let ghost (w, h) = (width as int, height as int);
    if width == 0 {
        assert(0 * h == 0) by (nonlinear_arith);
        return ;
    }
    let size: usize = bytes.len();
    let numbers: usize = glyph.coverage.len();
    proof {
        assert forall|k: int|
            #![trigger pixel(before, k)]
            0 <= k < w * h implies pixel(before, k) == (if reached(k, w, *glyph, 0, 0) {
            drawn(before, k, w, *glyph, color, alpha)
        } else {
            pixel(before, k)
        }) by {
            lemma_uncovered(pixel(before, k), color, alpha);
        }
    }
    let mut row: usize = 0;
    while row < glyph.h
        invariant
            glyph.wf(),
            row <= glyph.h,
            width <= i32::MAX,
            height <= i32::MAX,
            w == width,
            h == height,
            w > 0,
            alpha <= 255,
            size == before.len(),
            numbers == glyph.w * glyph.h,
            drawn_to(before, bytes@, w, h, *glyph, color, alpha, row as int, 0),
        decreases glyph.h - row,
    {
        let py: i32 = glyph.y + row as i32;
        if py < 0 || py >= height as i32 {
            proof {
                lemma_row_outside(before, bytes@, w, h, *glyph, color, alpha, row as int);
            }
            row += 1;
            continue ;
        }
        let mut col: usize = 0;
        while col < glyph.w
            invariant
                glyph.wf(),
                row < glyph.h,
                col <= glyph.w,
                py == glyph.y + row,
                0 <= py < height,
                width <= i32::MAX,
                height <= i32::MAX,
                w == width,
                h == height,
                w > 0,
                alpha <= 255,
                size == before.len(),
                numbers == glyph.w * glyph.h,
                drawn_to(before, bytes@, w, h, *glyph, color, alpha, row as int, col as int),
            decreases glyph.w - col,
        {
            let px: i32 = glyph.x + col as i32;
            let ghost prior = bytes@;
            if px >= 0 && px < width as i32 {
                proof {
                    lemma_index(col as int, row as int, glyph.w as int, glyph.h as int);
                    lemma_index(px as int, py as int, w, h);
                    assert(0 <= row * glyph.w <= row * glyph.w + col < numbers);
                }
                let ghost k = py as int * w + px as int;
                let cov: u8 = glyph.coverage[row * glyph.w + col];
                let at: usize = py as usize * width as usize + px as usize;
                let dst = Rgba {
                    r: bytes[4 * at],
                    g: bytes[4 * at + 1],
                    b: bytes[4 * at + 2],
                    a: bytes[4 * at + 3],
                };
                assert(dst == pixel(prior, k));
                assert(!reached(k, w, *glyph, row as int, col as int));
                assert(pixel(prior, k) == pixel(before, k));
                let c = blend(dst, color, cov, alpha);
                assert(glyph.cover(px as int, py as int) == cov);
                set_pixel(bytes, at, c);
            }
            proof {
                assert forall|k: int|
                    #![trigger pixel(bytes@, k)]
                    0 <= k < w * h implies pixel(bytes@, k) == (if reached(
                    k,
                    w,
                    *glyph,
                    row as int,
                    col + 1,
                ) {
                    drawn(before, k, w, *glyph, color, alpha)
                } else {
                    pixel(before, k)
                }) && is_premultiplied(pixel(bytes@, k)) by {
                    lemma_place(k, w, h);
                    lemma_uncovered(pixel(before, k), color, alpha);
                    assert(is_premultiplied(pixel(prior, k)));
                }
            }
            col += 1;
        }
        proof {
            lemma_row_done(before, bytes@, w, h, *glyph, color, alpha, row as int);
        }
        row += 1;
    }
    proof {
        assert forall|k: int| 0 <= k < w * h implies (#[trigger] pixel(bytes@, k)) == drawn(
            before,
            k,
            w,
            *glyph,
            color,
            alpha,
        ) && is_premultiplied(pixel(bytes@, k)) by {
            lemma_uncovered(pixel(before, k), color, alpha);
        }
    }
}

/// The bytes of an image with red and blue exchanged.
pub fn to_bgra(bytes: &[u8]) -> (r: Vec<u8>)
    requires
        bytes@.len() % 4 == 0,
    ensures
        r@.len() == bytes@.len(),
        forall|k: int|
            0 <= k && 4 * k + 3 < bytes@.len() ==> (#[trigger] pixel(r@, k)) == swapped(
                pixel(bytes@, k),
            ),
{
    let mut out: Vec<u8> = Vec::new();
    let mut i: usize = 0;
    while i < bytes.len()
        invariant
            bytes@.len() % 4 == 0,
            i % 4 == 0,
            i <= bytes@.len(),
            out@.len() == i,
            forall|k: int|
                0 <= k && 4 * k + 3 < i ==> (#[trigger] pixel(out@, k)) == swapped(
                    pixel(bytes@, k),
                ),
        decreases bytes@.len() - i,
    {
        let ghost prior = out@;
        out.push(bytes[i + 2]);
        out.push(bytes[i + 1]);
        out.push(bytes[i]);
        out.push(bytes[i + 3]);
        proof {
            assert forall|k: int| 0 <= k && 4 * k + 3 < i + 4 implies (#[trigger] pixel(out@, k))
                == swapped(pixel(bytes@, k)) by {
                if 4 * k + 3 < i {
                    assert(pixel(out@, k) == pixel(prior, k));
                } else {
                    assert(4 * k == i);
                }
            }
        }
        i += 4;
    }
    out
}

/// The colour with red and blue exchanged.
pub open spec fn swapped(c: Rgba) -> Rgba {
    Rgba { r: c.b, g: c.g, b: c.r, a: c.a }
}

/// Pixels that a glyph does not cover stay as they are.
pub proof fn uncovered_pixels_stay(
    before: Seq<u8>,
    k: int,
    width: int,
    glyph: Glyph,
    color: Rgba,
    alpha: u32,
)
    requires
        glyph.cover(k % width, k / width) == 0,
    ensures
        drawn(before, k, width, glyph, color, alpha) == pixel(before, k),
{
    lemma_uncovered(pixel(before, k), color, alpha);
}

/// A fully covered pixel under an opaque text takes the colour of the text.
pub proof fn covered_pixels_take_the_colour(dst: Rgba, color: Rgba)
    ensures
        blended(dst, color, 255, 255) == (Rgba { r: color.r, g: color.g, b: color.b, a: 255 }),
{
}

/// A colour is mixed into another in proportion to its weight, and the fraction is dropped. All of
/// the weight gives the colour itself, none of it the other one.
pub proof fn colours_mix_in_proportion(top: u8, bottom: u8, weight: int)
    requires
        0 <= weight <= 255,
    ensures
        ({
            let whole = top * weight + bottom * (255 - weight);
            let c = mixed(top, bottom, weight);
            &&& 255 * c <= whole < 255 * c + 255
            &&& weight == 255 ==> c == top
            &&& weight == 0 ==> c == bottom
            &&& top == bottom ==> c == top
        }),
{
    lemma_mix(top as int, bottom as int, weight as int);
    let whole = top * weight + bottom * (255 - weight);
    assert(weight == 255 ==> whole == 255 * top) by (nonlinear_arith)
        requires
            whole == top * weight + bottom * (255 - weight),
    ;
    assert(weight == 0 ==> whole == 255 * bottom) by (nonlinear_arith)
        requires
            whole == top * weight + bottom * (255 - weight),
    ;
    assert(top == bottom ==> whole == 255 * top) by (nonlinear_arith)
        requires
            whole == top * weight + bottom * (255 - weight),
    ;
}

/// A colour laid over an opaque one mixes with it, part by part, and stays opaque.
pub proof fn opaque_stays_opaque(keep: Rgba, below: Rgba, color: Rgba, weight: int)
    requires
        below.a == 255,
        0 <= weight <= 255,
    ensures
        ({
            let c = laid_over(keep, below, color, weight);
            &&& c.a == 255
            &&& c.r == mixed(color.r, below.r, weight)
            &&& c.g == mixed(color.g, below.g, weight)
            &&& c.b == mixed(color.b, below.b, weight)
        }),
{
    assert((255 * (255 - weight)) / 255 == 255 - weight);
}

/// A colour laid over one that is not opaque adds its weight to what is left of the other's opacity.
/// Where a part would be larger than the opacity, the pixel is kept as it was.
pub proof fn opacities_add_up(keep: Rgba, below: Rgba, color: Rgba, weight: int)
    requires
        0 <= weight <= 255,
    ensures
        ({
            let c = laid_over(keep, below, color, weight);
            let r = mixed(color.r, below.r, weight);
            let g = mixed(color.g, below.g, weight);
            let b = mixed(color.b, below.b, weight);
            let a = weight + (below.a * (255 - weight)) / 255;
            &&& r <= a && g <= a && b <= a ==> c.r == r && c.g == g && c.b == b && c.a == a
            &&& r > a || g > a || b > a ==> c == keep
        }),
{
    assert(0 <= below.a * (255 - weight) <= 255 * (255 - weight)) by (nonlinear_arith)
        requires
            0 <= below.a <= 255,
            0 <= weight <= 255,
    ;
}

/// A glyph's pixel is drawn with as much weight as the glyph covers of it, times the opacity. Too
/// little to count leaves the pixel as it is, and all of it gives the colour.
pub proof fn coverage_and_opacity_weigh_together(dst: Rgba, color: Rgba, coverage: u8, alpha: u32)
    requires
        alpha <= 255,
    ensures
        coverage * alpha < 255 ==> blended(dst, color, coverage, alpha) == dst,
        coverage * alpha == 255 * 255 ==> blended(dst, color, coverage, alpha) == (Rgba {
            a: 255,
            ..color
        }),
        255 <= coverage * alpha < 255 * 255 ==> blended(dst, color, coverage, alpha) == laid_over(
            dst,
            demultiplied(dst),
            color,
            coverage * alpha / 255,
        ),
{
    lemma_mix(coverage as int, 0, alpha as int);
}

/// A medium text is drawn a second time with 55 percent of its opacity, to the nearest number; a
/// semi-bold one with all of it; and a normal one not at all.
pub proof fn heavier_texts_are_drawn_twice(alpha: u8)
    ensures
        Weight::Normal.spec_bold_alpha(alpha) == 0,
        -50 <= 100 * Weight::Medium.spec_bold_alpha(alpha) - 55 * alpha <= 50,
        Weight::SemiBold.spec_bold_alpha(alpha) == alpha,
{
}

/// A glyph covers the pixels of its picture, which stands at its place; no other pixel is touched.
/// An image is stored line by line, with red, green, blue and opacity of each pixel behind each
/// other.
pub proof fn glyphs_are_drawn_at_their_place(
    before: Seq<u8>,
    width: int,
    glyph: Glyph,
    color: Rgba,
    alpha: u32,
    col: int,
    row: int,
)
    requires
        0 <= col < width,
        0 <= row,
        glyph.wf(),
    ensures
        ({
            let k = row * width + col;
            let at = Rgba {
                r: before[4 * k],
                g: before[4 * k + 1],
                b: before[4 * k + 2],
                a: before[4 * k + 3],
            };
            let i = col - glyph.x;
            let j = row - glyph.y;
            &&& 0 <= i < glyph.w && 0 <= j < glyph.h ==> drawn(
                before,
                k,
                width,
                glyph,
                color,
                alpha,
            ) == blended(at, color, glyph.coverage@[j * glyph.w + i], alpha)
            &&& !(0 <= i < glyph.w && 0 <= j < glyph.h) ==> drawn(
                before,
                k,
                width,
                glyph,
                color,
                alpha,
            ) == at
        }),
{
    let k = row * width + col;
    vstd::arithmetic::div_mod::lemma_fundamental_div_mod_converse(k, width, row, col);
    assert(0 * alpha == 0) by (nonlinear_arith);
}

/// Red and blue change places, and changing them twice changes nothing.
pub proof fn red_and_blue_change_places(c: Rgba)
    ensures
        swapped(c).r == c.b,
        swapped(c).b == c.r,
        swapped(c).g == c.g,
        swapped(c).a == c.a,
        swapped(swapped(c)) == c,
{
}

} // verus!
