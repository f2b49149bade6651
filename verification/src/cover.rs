//! The text pass: per-pixel glyph coverage values, produced by the font
//! rendering engine, are blended channel-wise as alpha against the canvas,
//! using a fixed opaque text color.

use crate::canvas::{
    color_channel, get_channel, idx_channel, idx_x, idx_y, lemma_pix_index, pix_index, set_channel,
    Canvas, Rgba8,
};
use vstd::arithmetic::div_mod::{lemma_div_by_multiple, lemma_div_is_ordered};
use vstd::prelude::*;

verus! {

/// A rasterized line of text: one byte of coverage (0 = no ink, 255 = full
/// ink) per pixel of a `width` by `height` bitmap, placed at offset
/// `(dx, dy)` from the line's layout origin.
pub struct CoverageMap {
    pub width: u32,
    pub height: u32,
    pub dx: i32,
    pub dy: i32,
    pub alpha: Vec<u8>,
}

impl CoverageMap {
    /// One coverage byte per bitmap pixel.
    pub open spec fn wf(&self) -> bool {
        self.alpha@.len() == (self.width as int) * (self.height as int)
    }
}

/// One channel blended with coverage `a` as alpha:
/// `((255 - a) * base + a * paint) / 255`, exact integer arithmetic.
pub open spec fn cover_blend(base: u8, paint: u8, a: u8) -> int {
    ((255 - a) * base + a * paint) / 255
}

/// Byte `i` of the canvas after one coverage map is blended at origin
/// `(ox, oy)`: covered bytes are interpolated toward the text color by
/// their coverage value, all others are unchanged.
pub open spec fn cover_pixel_at(
    pix: Seq<u8>,
    w: int,
    ox: int,
    oy: int,
    cm: CoverageMap,
    col: Rgba8,
    i: int,
) -> u8 {
    let ch = idx_channel(i);
    let cx = idx_x(w, i) - (ox + cm.dx);
    let cy = idx_y(w, i) - (oy + cm.dy);
    if 0 <= cx < cm.width && 0 <= cy < cm.height {
        let a = cm.alpha@[cy * cm.width + cx];
        cover_blend(pix[i], color_channel(col, ch), a) as u8
    } else {
        pix[i]
    }
}

/// The whole canvas after one coverage map is blended, pointwise.
pub open spec fn cover_result(
    pix: Seq<u8>,
    w: int,
    ox: int,
    oy: int,
    cm: CoverageMap,
    col: Rgba8,
) -> Seq<u8> {
    Seq::new(pix.len(), |i: int| cover_pixel_at(pix, w, ox, oy, cm, col, i))
}

/// Coverage blending stays in byte range; full coverage paints the text
/// color exactly and zero coverage leaves the canvas byte unchanged.
pub proof fn lemma_cover_blend_range(base: u8, paint: u8, a: u8)
    ensures
        0 <= cover_blend(base, paint, a) <= 255,
        a == 0 ==> cover_blend(base, paint, a) == base,
        a == 255 ==> cover_blend(base, paint, a) == paint,
{
    let num = (255 - a as int) * (base as int) + (a as int) * (paint as int);
    assert(0 <= num <= 255 * 255) by (nonlinear_arith)
        requires
            0 <= a <= 255 && 0 <= base <= 255 && 0 <= paint <= 255 && num == (255 - a) * base + a
                * paint,
    ;
    lemma_div_is_ordered(0, num, 255);
    lemma_div_is_ordered(num, (255 * 255) as int, 255);
    lemma_div_by_multiple(255, 255);
    if a == 0 {
        assert(num == (base as int) * 255) by (nonlinear_arith)
            requires
                a == 0 && num == (255 - a) * base + a * paint,
        ;
        lemma_div_by_multiple(base as int, 255);
    }
    if a == 255 {
        assert(num == paint * 255) by (nonlinear_arith)
            requires
                a == 255 && num == (255 - a) * base + a * paint,
        ;
        lemma_div_by_multiple(paint as int, 255);
    }
}

/// One channel blended with coverage, executably: exactly `cover_blend`.
fn cover_blend_exec(base: u8, paint: u8, a: u8) -> (v: u8)
    ensures
        v as int == cover_blend(base, paint, a),
{
    proof {
        lemma_cover_blend_range(base, paint, a);
        assert((255 - a as int) * (base as int) + (a as int) * (paint as int) <= 255 * 255)
            by (nonlinear_arith)
            requires
                0 <= a <= 255 && 0 <= base <= 255 && 0 <= paint <= 255,
        ;
        assert(0 <= (255 - a as int) * (base as int) && 0 <= (a as int) * (paint as int))
            by (nonlinear_arith)
            requires
                0 <= a <= 255 && 0 <= base && 0 <= paint,
        ;
    }
    let num: u32 = (255 - a as u32) * (base as u32) + (a as u32) * (paint as u32);
    (num / 255) as u8
}

/// Whether byte `i` of the canvas lies in the already-traversed part of the
/// bitmap placed at `(bx, by)`: a full column before `cx`, or the first
/// `cy` rows of column `cx`.
pub open spec fn cover_covered(
    w: int,
    bx: int,
    by: int,
    cw: int,
    chh: int,
    cx: int,
    cy: int,
    i: int,
) -> bool {
    let ux = idx_x(w, i) - bx;
    let uy = idx_y(w, i) - by;
    &&& 0 <= ux < cw
    &&& 0 <= uy < chh
    &&& (ux < cx || (ux == cx && uy < cy))
}

/// Blends one rasterized line over the canvas at origin `(ox, oy)`, clipped
/// to the canvas: each covered canvas byte is interpolated toward the text
/// color by its coverage value; everything else is untouched.
pub fn blend_coverage(img: &mut Canvas, ox: i128, oy: i128, cm: &CoverageMap, col: Rgba8)
    requires
        old(img).wf(),
        cm.wf(),
        -0x1000_0000_0000_0000_0000_0000_0000 <= ox <= 0x1000_0000_0000_0000_0000_0000_0000,
        -0x1000_0000_0000_0000_0000_0000_0000 <= oy <= 0x1000_0000_0000_0000_0000_0000_0000,
    ensures
        final(img).width == old(img).width,
        final(img).height == old(img).height,
        final(img).wf(),
        final(img).pixels@ == cover_result(
            old(img).pixels@,
            old(img).width as int,
            ox as int,
            oy as int,
            *cm,
            col,
        ),
{
    let ghost orig = old(img).pixels@;
    let ghost w = old(img).width as int;
    let ghost h = old(img).height as int;
    let bx: i128 = ox + cm.dx as i128;
    let by: i128 = oy + cm.dy as i128;
    let mut cx: u32 = 0;
    while cx < cm.width
        invariant
            old(img).wf(),
            cm.wf(),
            img.width == old(img).width,
            img.height == old(img).height,
            img.pixels@.len() == orig.len(),
            0 <= cx <= cm.width,
            bx == ox + cm.dx,
            by == oy + cm.dy,
            -0x2000_0000_0000_0000_0000_0000_0000 <= bx <= 0x2000_0000_0000_0000_0000_0000_0000,
            -0x2000_0000_0000_0000_0000_0000_0000 <= by <= 0x2000_0000_0000_0000_0000_0000_0000,
            orig == old(img).pixels@,
            w == old(img).width as int,
            h == old(img).height as int,
            forall|i: int|
                0 <= i < orig.len() ==> #[trigger] img.pixels@[i] == (if cover_covered(
                    w,
                    bx as int,
                    by as int,
                    cm.width as int,
                    cm.height as int,
                    cx as int,
                    0,
                    i,
                ) {
                    cover_pixel_at(orig, w, ox as int, oy as int, *cm, col, i)
                } else {
                    orig[i]
                }),
        decreases cm.width - cx,
    {
        let mut cy: u32 = 0;
        while cy < cm.height
            invariant
                old(img).wf(),
                cm.wf(),
                img.width == old(img).width,
                img.height == old(img).height,
                img.pixels@.len() == orig.len(),
                0 <= cx < cm.width,
                0 <= cy <= cm.height,
                bx == ox + cm.dx,
                by == oy + cm.dy,
                -0x2000_0000_0000_0000_0000_0000_0000 <= bx
                    <= 0x2000_0000_0000_0000_0000_0000_0000,
                -0x2000_0000_0000_0000_0000_0000_0000 <= by
                    <= 0x2000_0000_0000_0000_0000_0000_0000,
                orig == old(img).pixels@,
                w == old(img).width as int,
                h == old(img).height as int,
                forall|i: int|
                    0 <= i < orig.len() ==> #[trigger] img.pixels@[i] == (if cover_covered(
                        w,
                        bx as int,
                        by as int,
                        cm.width as int,
                        cm.height as int,
                        cx as int,
                        cy as int,
                        i,
                    ) {
                        cover_pixel_at(orig, w, ox as int, oy as int, *cm, col, i)
                    } else {
                        orig[i]
                    }),
            decreases cm.height - cy,
        {
            let px: i128 = bx + cx as i128;
            let py: i128 = by + cy as i128;
            if px >= 0 && py >= 0 && px < img.width as i128 && py < img.height as i128 {
                let pxu = px as u32;
                let pyu = py as u32;
                proof {
                    lemma_pix_index(w, h, px as int, py as int, 0);
                    lemma_pix_index(w, h, px as int, py as int, 1);
                    lemma_pix_index(w, h, px as int, py as int, 2);
                    lemma_pix_index(w, h, px as int, py as int, 3);
                    assert(0 <= (cy as int) * (cm.width as int) + cx < (cm.width as int) * (
                    cm.height as int)) by (nonlinear_arith)
                        requires
                            0 <= cx < (cm.width as int) && 0 <= cy < (cm.height as int),
                    ;
                }
                let alen = cm.alpha.len();
                let aidx: usize = (cy as usize) * (cm.width as usize) + (cx as usize);
                let a = cm.alpha[aidx];
                let b0 = get_channel(img, pxu, pyu, 0);
                let b1 = get_channel(img, pxu, pyu, 1);
                let b2 = get_channel(img, pxu, pyu, 2);
                let b3 = get_channel(img, pxu, pyu, 3);
                let v0 = cover_blend_exec(b0, col.r, a);
                let v1 = cover_blend_exec(b1, col.g, a);
                let v2 = cover_blend_exec(b2, col.b, a);
                let v3 = cover_blend_exec(b3, col.a, a);
                set_channel(img, pxu, pyu, 0, v0);
                set_channel(img, pxu, pyu, 1, v1);
                set_channel(img, pxu, pyu, 2, v2);
                set_channel(img, pxu, pyu, 3, v3);
                proof {
                    lemma_cover_blend_range(b0, col.r, a);
                    lemma_cover_blend_range(b1, col.g, a);
                    lemma_cover_blend_range(b2, col.b, a);
                    lemma_cover_blend_range(b3, col.a, a);
                    assert forall|i: int| 0 <= i < orig.len() implies #[trigger] img.pixels@[i] == (
                    if cover_covered(w, bx as int, by as int, cm.width as int, cm.height as int, cx as int, (
                    cy + 1) as int, i) {
                        cover_pixel_at(orig, w, ox as int, oy as int, *cm, col, i)
                    } else {
                        orig[i]
                    }) by {
                        let ich = idx_channel(i);
                        let ix = idx_x(w, i);
                        let iy = idx_y(w, i);
                        crate::panel::lemma_pix_index_inverse(w, h, i);
                        if ix == px as int && iy == py as int {
                            assert(i == pix_index(w, ix, iy, ich));
                        }
                    }
                }
            } else {
                proof {
                    assert forall|i: int| 0 <= i < orig.len() implies (cover_covered(
                        w,
                        bx as int,
                        by as int,
                        cm.width as int,
                        cm.height as int,
                        cx as int,
                        (cy + 1) as int,
                        i,
                    ) == cover_covered(
                        w,
                        bx as int,
                        by as int,
                        cm.width as int,
                        cm.height as int,
                        cx as int,
                        cy as int,
                        i,
                    )) by {
                        crate::panel::lemma_pix_index_inverse(w, h, i);
                    }
                }
            }
            cy = cy + 1;
        }
        proof {
            assert forall|i: int| 0 <= i < orig.len() implies (cover_covered(
                w,
                bx as int,
                by as int,
                cm.width as int,
                cm.height as int,
                (cx + 1) as int,
                0,
                i,
            ) == cover_covered(
                w,
                bx as int,
                by as int,
                cm.width as int,
                cm.height as int,
                cx as int,
                cm.height as int,
                i,
            )) by {
                crate::panel::lemma_pix_index_inverse(w, h, i);
            }
        }
        cx = cx + 1;
    }
    proof {
        assert(img.pixels@ =~= cover_result(orig, w, ox as int, oy as int, *cm, col));
    }
}

} // verus!
