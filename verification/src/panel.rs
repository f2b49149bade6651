//! The panel pass: a soft-edged translucent rectangle blended over the
//! canvas. The blending opacity ramps linearly from 0 at the rectangle
//! border to the color's base alpha `blur` pixels inward; the result's alpha
//! channel is forced fully opaque. All arithmetic is exact integer
//! arithmetic over the real-valued blend formula
//! `(1 - a) * base + a * paint` with `a = (alpha/255) * (d/blur)`.

use crate::canvas::{
    color_channel, get_channel, idx_channel, idx_x, idx_y, lemma_pix_index, pix_index, set_channel,
    Canvas, Rgba8,
};
use vstd::arithmetic::div_mod::{
    lemma_div_by_multiple, lemma_div_denominator, lemma_div_is_ordered, lemma_div_multiples_vanish,
};
use vstd::prelude::*;

verus! {

/// Chebyshev-style distance from rectangle-relative position `(dx, dy)` to
/// the nearest of the four edges of a `rw` by `rh` rectangle.
pub open spec fn edge_distance(dx: int, dy: int, rw: int, rh: int) -> int {
    vstd::math::min(
        vstd::math::min(dx, rw - dx),
        vstd::math::min(dy, rh - dy),
    )
}

/// One blended channel: linear interpolation between `base` and `paint`
/// with opacity `(alpha/255) * (min(d, blur)/blur)`, written as a single
/// exact integer division.
pub open spec fn blend_channel(base: u8, paint: u8, alpha: u8, blur: u32, d: int) -> int {
    let m = if d < blur { d } else { blur as int };
    ((255 * blur - alpha * m) * base + alpha * m * paint) / (255 * blur)
}

/// Byte `i` of the canvas after the panel pass: inside the rectangle the
/// color channels are blended by edge distance and the alpha channel is
/// forced to 255; outside, the byte is unchanged.
pub open spec fn panel_pixel_at(
    pix: Seq<u8>,
    w: int,
    rx: int,
    ry: int,
    rw: int,
    rh: int,
    col: Rgba8,
    blur: u32,
    i: int,
) -> u8 {
    let ch = idx_channel(i);
    let dx = idx_x(w, i) - rx;
    let dy = idx_y(w, i) - ry;
    if 0 <= dx < rw && 0 <= dy < rh {
        if ch == 3 {
            255u8
        } else {
            blend_channel(pix[i], color_channel(col, ch), col.a, blur, edge_distance(
                dx,
                dy,
                rw,
                rh,
            )) as u8
        }
    } else {
        pix[i]
    }
}

/// The whole canvas after the panel pass, pointwise.
pub open spec fn panel_result(
    pix: Seq<u8>,
    w: int,
    rx: int,
    ry: int,
    rw: int,
    rh: int,
    col: Rgba8,
    blur: u32,
) -> Seq<u8> {
    Seq::new(pix.len(), |i: int| panel_pixel_at(pix, w, rx, ry, rw, rh, col, blur, i))
}

/// The blended channel stays in byte range.
pub proof fn lemma_blend_channel_range(base: u8, paint: u8, alpha: u8, blur: u32, d: int)
    requires
        blur >= 1,
        d >= 0,
    ensures
        0 <= blend_channel(base, paint, alpha, blur, d) <= 255,
{
    let m = if d < blur {
        d
    } else {
        blur as int
    };
    let den = 255 * (blur as int);
    let am = (alpha as int) * m;
    assert(0 <= am <= den) by (nonlinear_arith)
        requires
            0 <= alpha <= 255 && 0 <= m <= blur && am == alpha * m && den == 255 * blur,
    ;
    let num = (den - am) * (base as int) + am * (paint as int);
    assert(0 <= num <= den * 255) by (nonlinear_arith)
        requires
            0 <= am <= den && 0 <= base <= 255 && 0 <= paint <= 255 && num == (den - am) * base
                + am * paint,
    ;
    lemma_div_is_ordered(0, num, den);
    lemma_div_is_ordered(num, den * 255, den);
    lemma_div_by_multiple(255, den);
    assert(den * 255 == 255 * den) by (nonlinear_arith);
}

/// Edge-alpha boundary: at distance 0 the blend leaves the channel
/// unchanged; at distance `blur` or more it is exactly the base-alpha
/// blend `((255 - alpha) * base + alpha * paint) / 255`.
pub proof fn lemma_edge_alpha_boundary(base: u8, paint: u8, alpha: u8, blur: u32, d: int)
    requires
        blur >= 1,
        d >= 0,
    ensures
        d == 0 ==> blend_channel(base, paint, alpha, blur, d) == base,
        d >= blur ==> blend_channel(base, paint, alpha, blur, d) == ((255 - alpha as int) * (
        base as int) + (alpha as int) * (paint as int)) / 255,
{
    let den = 255 * (blur as int);
    if d == 0 {
        assert((den - alpha * 0) * base + alpha * 0 * paint == den * base) by (nonlinear_arith);
        lemma_div_multiples_vanish(base as int, den);
    }
    if d >= blur {
        let a = alpha as int;
        let inner = (255 - a) * (base as int) + a * (paint as int);
        assert((den - a * (blur as int)) * base + a * (blur as int) * paint == inner * (
        blur as int)) by (nonlinear_arith)
            requires
                den == 255 * blur && inner == (255 - a) * base + a * paint,
        ;
        assert(0 <= inner) by (nonlinear_arith)
            requires
                0 <= a <= 255 && 0 <= base && 0 <= paint && inner == (255 - a) * base + a * paint,
        ;
        lemma_div_by_multiple(inner, blur as int);
        lemma_div_denominator(inner * (blur as int), blur as int, 255);
        assert((blur as int) * 255 == den) by (nonlinear_arith)
            requires
                den == 255 * (blur as int),
        ;
    }
}

/// One blended channel, executably: exactly `blend_channel`.
fn blend_exec(base: u8, paint: u8, alpha: u8, blur: u32, d: i128) -> (v: u8)
    requires
        blur >= 1,
        d >= 0,
    ensures
        v as int == blend_channel(base, paint, alpha, blur, d as int),
{
    let m: u64 = if d < blur as i128 {
        d as u64
    } else {
        blur as u64
    };
    let den: u64 = 255 * (blur as u64);
    proof {
        assert(0 <= (alpha as int) * (m as int) <= 255 * (blur as int)) by (nonlinear_arith)
            requires
                0 <= alpha <= 255 && 0 <= m <= blur,
        ;
    }
    let am: u64 = (alpha as u64) * m;
    proof {
        assert((255 * (blur as int) - (alpha as int) * (m as int)) * (base as int) + (alpha as int)
            * (m as int) * (paint as int) <= 255 * (blur as int) * 255) by (nonlinear_arith)
            requires
                0 <= (alpha as int) * (m as int) <= 255 * (blur as int) && 0 <= base <= 255 && 0
                    <= paint <= 255,
        ;
        assert(0 <= (255 * (blur as int) - (alpha as int) * (m as int)) * (base as int) + (
        alpha as int) * (m as int) * (paint as int)) by (nonlinear_arith)
            requires
                0 <= (alpha as int) * (m as int) <= 255 * (blur as int) && 0 <= base && 0 <= paint,
        ;
        assert(255 * (blur as int) * 255 < 0x1_0000_0000_0000) by (nonlinear_arith)
            requires
                blur <= 0xFFFF_FFFFu32,
        ;
    }
    let num: u64 = (den - am) * (base as u64) + am * (paint as u64);
    let v64: u64 = num / den;
    proof {
        lemma_blend_channel_range(base, paint, alpha, blur, d as int);
        assert(255 * (blur as int) * 255 == (den as int) * 255 && (blur as int) * 255 == den)
            by (nonlinear_arith)
            requires
                den == 255 * (blur as int),
        ;
    }
    v64 as u8
}

/// Draws a soft-edged rectangle of color `col` with blur radius `blur` at
/// `(x, y)`, clipped to the canvas: every covered canvas pixel is blended
/// by its distance to the rectangle edge and made fully opaque; everything
/// else is untouched.
pub fn draw_soft_centered_rect(
    img: &mut Canvas,
    x: i128,
    y: i128,
    width: i128,
    height: i128,
    col: Rgba8,
    blur: u32,
)
    requires
        old(img).wf(),
        blur >= 1,
        0 <= width <= 0x1000_0000_0000_0000_0000_0000_0000,
        0 <= height <= 0x1000_0000_0000_0000_0000_0000_0000,
        -0x1000_0000_0000_0000_0000_0000_0000 <= x <= 0x1000_0000_0000_0000_0000_0000_0000,
        -0x1000_0000_0000_0000_0000_0000_0000 <= y <= 0x1000_0000_0000_0000_0000_0000_0000,
    ensures
        final(img).width == old(img).width,
        final(img).height == old(img).height,
        final(img).wf(),
        final(img).pixels@ == panel_result(
            old(img).pixels@,
            old(img).width as int,
            x as int,
            y as int,
            width as int,
            height as int,
            col,
            blur,
        ),
{
    let ghost orig = old(img).pixels@;
    let ghost w = old(img).width as int;
    let ghost h = old(img).height as int;
    let mut dx: i128 = 0;
    while dx < width
        invariant
            old(img).wf(),
            img.width == old(img).width,
            img.height == old(img).height,
            img.pixels@.len() == orig.len(),
            0 <= dx <= width,
            blur >= 1,
            0 <= width <= 0x1000_0000_0000_0000_0000_0000_0000,
            0 <= height <= 0x1000_0000_0000_0000_0000_0000_0000,
            -0x1000_0000_0000_0000_0000_0000_0000 <= x <= 0x1000_0000_0000_0000_0000_0000_0000,
            -0x1000_0000_0000_0000_0000_0000_0000 <= y <= 0x1000_0000_0000_0000_0000_0000_0000,
            orig == old(img).pixels@,
            w == old(img).width as int,
            h == old(img).height as int,
            forall|i: int|
                0 <= i < orig.len() ==> #[trigger] img.pixels@[i] == (if covered(
                    w,
                    x as int,
                    y as int,
                    width as int,
                    height as int,
                    dx as int,
                    0,
                    i,
                ) {
                    panel_pixel_at(orig, w, x as int, y as int, width as int, height as int, col, blur, i)
                } else {
                    orig[i]
                }),
        decreases width - dx,
    {
        let mut dy: i128 = 0;
        while dy < height
            invariant
                old(img).wf(),
                img.width == old(img).width,
                img.height == old(img).height,
                img.pixels@.len() == orig.len(),
                0 <= dx < width,
                0 <= dy <= height,
                blur >= 1,
                0 <= width <= 0x1000_0000_0000_0000_0000_0000_0000,
                0 <= height <= 0x1000_0000_0000_0000_0000_0000_0000,
                -0x1000_0000_0000_0000_0000_0000_0000 <= x
                    <= 0x1000_0000_0000_0000_0000_0000_0000,
                -0x1000_0000_0000_0000_0000_0000_0000 <= y
                    <= 0x1000_0000_0000_0000_0000_0000_0000,
                orig == old(img).pixels@,
                w == old(img).width as int,
                h == old(img).height as int,
                forall|i: int|
                    0 <= i < orig.len() ==> #[trigger] img.pixels@[i] == (if covered(
                        w,
                        x as int,
                        y as int,
                        width as int,
                        height as int,
                        dx as int,
                        dy as int,
                        i,
                    ) {
                        panel_pixel_at(orig, w, x as int, y as int, width as int, height as int, col, blur, i)
                    } else {
                        orig[i]
                    }),
            decreases height - dy,
        {
            let px: i128 = x + dx;
            let py: i128 = y + dy;
            if px >= 0 && py >= 0 && px < img.width as i128 && py < img.height as i128 {
                let pxu = px as u32;
                let pyu = py as u32;
                proof {
                    lemma_pix_index(w, h, px as int, py as int, 0);
                    lemma_pix_index(w, h, px as int, py as int, 1);
                    lemma_pix_index(w, h, px as int, py as int, 2);
                    lemma_pix_index(w, h, px as int, py as int, 3);
                }
                let e1: i128 = if dx < width - dx {
                    dx
                } else {
                    width - dx
                };
                let e2: i128 = if dy < height - dy {
                    dy
                } else {
                    height - dy
                };
                let e: i128 = if e1 < e2 {
                    e1
                } else {
                    e2
                };
                let b0 = get_channel(img, pxu, pyu, 0);
                let b1 = get_channel(img, pxu, pyu, 1);
                let b2 = get_channel(img, pxu, pyu, 2);
                let v0 = blend_exec(b0, col.r, col.a, blur, e);
                let v1 = blend_exec(b1, col.g, col.a, blur, e);
                let v2 = blend_exec(b2, col.b, col.a, blur, e);
                set_channel(img, pxu, pyu, 0, v0);
                set_channel(img, pxu, pyu, 1, v1);
                set_channel(img, pxu, pyu, 2, v2);
                set_channel(img, pxu, pyu, 3, 255);
                proof {
                    lemma_blend_channel_range(b0, col.r, col.a, blur, e as int);
                    lemma_blend_channel_range(b1, col.g, col.a, blur, e as int);
                    lemma_blend_channel_range(b2, col.b, col.a, blur, e as int);
                    assert forall|i: int| 0 <= i < orig.len() implies #[trigger] img.pixels@[i] == (
                    if covered(w, x as int, y as int, width as int, height as int, dx as int, (dy
                        + 1) as int, i) {
                        panel_pixel_at(orig, w, x as int, y as int, width as int, height as int, col, blur, i)
                    } else {
                        orig[i]
                    }) by {
                        let ich = idx_channel(i);
                        let ix = idx_x(w, i);
                        let iy = idx_y(w, i);
                        lemma_pix_index_inverse(w, h, i);
                        if ix == px as int && iy == py as int {
                            assert(i == pix_index(w, ix, iy, ich));
                        }
                    }
                }
            } else {
                proof {
                    assert forall|i: int| 0 <= i < orig.len() implies (covered(
                        w,
                        x as int,
                        y as int,
                        width as int,
                        height as int,
                        dx as int,
                        (dy + 1) as int,
                        i,
                    ) == covered(
                        w,
                        x as int,
                        y as int,
                        width as int,
                        height as int,
                        dx as int,
                        dy as int,
                        i,
                    )) by {
                        lemma_pix_index_inverse(w, h, i);
                    }
                }
            }
            dy = dy + 1;
        }
        proof {
            assert forall|i: int| 0 <= i < orig.len() implies (covered(
                w,
                x as int,
                y as int,
                width as int,
                height as int,
                (dx + 1) as int,
                0,
                i,
            ) == covered(w, x as int, y as int, width as int, height as int, dx as int, height as int, i)) by {
                lemma_pix_index_inverse(w, h, i);
            }
        }
        dx = dx + 1;
    }
    proof {
        assert(img.pixels@ =~= panel_result(orig, w, x as int, y as int, width as int, height as int, col, blur));
    }
}

/// Whether byte `i` of the canvas lies in the part of the rectangle already
/// traversed: a full column before `dx`, or the first `dy` rows of column
/// `dx`.
pub open spec fn covered(
    w: int,
    rx: int,
    ry: int,
    rw: int,
    rh: int,
    dx: int,
    dy: int,
    i: int,
) -> bool {
    let cx = idx_x(w, i) - rx;
    let cy = idx_y(w, i) - ry;
    &&& 0 <= cx < rw
    &&& 0 <= cy < rh
    &&& (cx < dx || (cx == dx && cy < dy))
}

/// Every in-range byte index is the index of its own decomposition.
pub proof fn lemma_pix_index_inverse(w: int, h: int, i: int)
    requires
        0 <= i < 4 * w * h,
        0 <= w,
        0 <= h,
    ensures
        0 <= idx_channel(i) < 4,
        0 <= idx_x(w, i) < w,
        0 <= idx_y(w, i) < h,
        i == pix_index(w, idx_x(w, i), idx_y(w, i), idx_channel(i)),
{
    assert(0 < w && 0 < h) by (nonlinear_arith)
        requires
            0 <= w && 0 <= h && 0 <= i < 4 * w * h,
    ;
    let p = i / 4;
    vstd::arithmetic::div_mod::lemma_fundamental_div_mod(i, 4);
    assert(0 <= i % 4 < 4);
    assert(0 <= p) by {
        vstd::arithmetic::div_mod::lemma_div_pos_is_pos(i, 4);
    }
    vstd::arithmetic::div_mod::lemma_fundamental_div_mod(p, w);
    vstd::arithmetic::div_mod::lemma_mod_bound(p, w);
    assert(0 <= p / w) by {
        vstd::arithmetic::div_mod::lemma_div_pos_is_pos(p, w);
    }
    assert(p < w * h) by (nonlinear_arith)
        requires
            0 <= i < 4 * w * h && p == i / 4 && i == 4 * p + i % 4 && 0 <= i % 4 < 4,
    ;
    assert(p / w < h) by (nonlinear_arith)
        requires
            p < w * h && 0 < w && 0 <= p && p == w * (p / w) + p % w && 0 <= p % w < w,
    ;
    assert(i == 4 * ((p / w) * w + p % w) + i % 4) by (nonlinear_arith)
        requires
            i == 4 * p + i % 4 && p == w * (p / w) + p % w,
    ;
}

} // verus!
