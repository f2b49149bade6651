//! An owned RGBA pixel buffer: `width * height` pixels of four 8-bit
//! channels, stored row-major as `r, g, b, a` bytes.

use vstd::arithmetic::div_mod::lemma_fundamental_div_mod_converse;
use vstd::arithmetic::mul::{lemma_mul_inequality, lemma_mul_is_distributive_add};
use vstd::prelude::*;

verus! {

/// A mutable in-memory RGBA canvas.
#[derive(Debug)]
pub struct Canvas {
    pub width: u32,
    pub height: u32,
    pub pixels: Vec<u8>,
}

/// An RGBA color, 8 bits per channel.
pub struct Rgba8 {
    pub r: u8,
    pub g: u8,
    pub b: u8,
    pub a: u8,
}

/// Channel `ch` (0..4) of a color, in `r, g, b, a` order.
pub open spec fn color_channel(col: Rgba8, ch: int) -> u8 {
    if ch == 0 {
        col.r
    } else if ch == 1 {
        col.g
    } else if ch == 2 {
        col.b
    } else {
        col.a
    }
}

/// Byte index of channel `ch` of pixel `(x, y)` in a row-major RGBA buffer
/// of width `w`.
pub open spec fn pix_index(w: int, x: int, y: int, ch: int) -> int {
    4 * (y * w + x) + ch
}

/// Decomposition of a byte index `i` of a row-major RGBA buffer: its
/// channel, column and row.
pub open spec fn idx_channel(i: int) -> int {
    i % 4
}

pub open spec fn idx_x(w: int, i: int) -> int {
    (i / 4) % w
}

pub open spec fn idx_y(w: int, i: int) -> int {
    (i / 4) / w
}

impl Canvas {
    /// The buffer holds exactly four bytes per pixel.
    pub open spec fn wf(&self) -> bool {
        self.pixels@.len() == 4 * (self.width as int) * (self.height as int)
    }
}

/// `pix_index` and the `idx_*` decomposition are inverse to each other on
/// in-range coordinates, and the index lies inside the buffer.
pub proof fn lemma_pix_index(w: int, h: int, x: int, y: int, ch: int)
    requires
        0 <= x < w,
        0 <= y < h,
        0 <= ch < 4,
    ensures
        ({
            let i = pix_index(w, x, y, ch);
            &&& 0 <= i < 4 * w * h
            &&& idx_channel(i) == ch
            &&& idx_x(w, i) == x
            &&& idx_y(w, i) == y
        }),
{
    let p = y * w + x;
    let i = 4 * p + ch;
    assert(p * 4 == 4 * p) by (nonlinear_arith);
    lemma_fundamental_div_mod_converse(i, 4, p, ch);
    assert(y * w == w * y) by (nonlinear_arith);
    lemma_fundamental_div_mod_converse(p, w, y, x);
    assert(0 <= p);
    lemma_mul_inequality(y + 1, h, w);
    lemma_mul_is_distributive_add(w, y, 1);
    assert(p < (y + 1) * w) by (nonlinear_arith)
        requires
            p == y * w + x && x < w,
    ;
    assert((y + 1) * w <= h * w);
    assert(4 * p + ch < 4 * (h * w)) by (nonlinear_arith)
        requires
            p < h * w && ch < 4,
    ;
    assert(4 * (h * w) == 4 * w * h) by (nonlinear_arith);
}

/// One byte of the canvas: channel `ch` of pixel `(x, y)`.
pub fn get_channel(img: &Canvas, x: u32, y: u32, ch: u32) -> (v: u8)
    requires
        img.wf(),
        x < img.width,
        y < img.height,
        ch < 4,
    ensures
        v == img.pixels@[pix_index(img.width as int, x as int, y as int, ch as int)],
{
    proof {
        lemma_pix_index(img.width as int, img.height as int, x as int, y as int, ch as int);
    }
    let len = img.pixels.len();
    let idx: usize = 4 * ((y as usize) * (img.width as usize) + (x as usize)) + (ch as usize);
    img.pixels[idx]
}

/// Overwrites channel `ch` of pixel `(x, y)`; every other byte is kept.
pub fn set_channel(img: &mut Canvas, x: u32, y: u32, ch: u32, v: u8)
    requires
        old(img).wf(),
        x < old(img).width,
        y < old(img).height,
        ch < 4,
    ensures
        final(img).width == old(img).width,
        final(img).height == old(img).height,
        final(img).pixels@ == old(img).pixels@.update(
            pix_index(old(img).width as int, x as int, y as int, ch as int),
            v,
        ),
        final(img).wf(),
{
    proof {
        lemma_pix_index(img.width as int, img.height as int, x as int, y as int, ch as int);
    }
    let len = img.pixels.len();
    let idx: usize = 4 * ((y as usize) * (img.width as usize) + (x as usize)) + (ch as usize);
    img.pixels.set(idx, v);
}

/// Channel `ch` of pixel `i % 4` of a solid fill: the fill color repeated.
pub open spec fn solid_byte(col: Rgba8, i: int) -> u8 {
    color_channel(col, i % 4)
}

/// A canvas of the given dimensions filled with one color, or `None` when
/// four bytes per pixel do not fit in a machine word.
pub fn filled_canvas(width: u32, height: u32, col: Rgba8) -> (r: Option<Canvas>)
    ensures
        r matches Some(c) ==> {
            &&& c.wf()
            &&& c.width == width
            &&& c.height == height
            &&& forall|i: int|
                0 <= i < c.pixels@.len() ==> #[trigger] c.pixels@[i] == solid_byte(col, i)
        },
{
    proof {
        assert((width as int) * (height as int) <= 0xFFFF_FFFF * 0xFFFF_FFFF) by (nonlinear_arith)
            requires
                width <= 0xFFFF_FFFFu32 && height <= 0xFFFF_FFFFu32,
        ;
        assert((width as int) * (height as int) >= 0) by (nonlinear_arith);
    }
    let wh: u64 = (width as u64) * (height as u64);
    let total: u128 = 4u128 * (wh as u128);
    if total > (usize::MAX as u128) {
        return None;
    }
    let n: usize = total as usize;
    let mut pixels: Vec<u8> = Vec::new();
    let mut i: usize = 0;
    while i < n
        invariant
            i <= n,
            pixels@.len() == i,
            forall|j: int| 0 <= j < i ==> #[trigger] pixels@[j] == solid_byte(col, j),
        decreases n - i,
    {
        let ch: usize = i % 4;
        let v: u8 = if ch == 0 {
            col.r
        } else if ch == 1 {
            col.g
        } else if ch == 2 {
            col.b
        } else {
            col.a
        };
        pixels.push(v);
        i = i + 1;
    }
    proof {
        assert(4 * (width as int) * (height as int) == 4 * ((width as int) * (
        height as int))) by (nonlinear_arith);
    }
    Some(Canvas { width, height, pixels })
}

} // verus!
