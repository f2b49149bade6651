//! The layout engine: line height from the font's vertical metrics, the
//! centered origin of each line, and the panel rectangle behind the text.
//! All positions are in device pixels; line widths stay in subpixel units
//! until a centered origin is computed.

use crate::metrics::{line_width, lemma_line_width_bound, FontMetrics, MAX_METRIC, SUBPIXEL};
use vstd::arithmetic::div_mod::{
    lemma_div_is_ordered, lemma_div_pos_is_pos, lemma_fundamental_div_mod,
};
use vstd::prelude::*;

verus! {

/// Fixed vertical breathing room added to each line, in device pixels.
pub const LINE_GAP: i64 = 30;

/// Fixed margin added to the panel's height, in device pixels.
pub const PANEL_MARGIN: i64 = 60;

/// Fixed blur radius of the panel's soft edge, in device pixels.
pub const PANEL_BLUR: u32 = 30;

/// Bound on every coordinate a layout can produce.
pub const COORD_BOUND: i128 = 0x1000_0000_0000_0000_0000_0000_0000;

/// The panel rectangle, in device pixels; `x` and `y` may lie outside the
/// canvas (the compositor clips).
pub struct PanelRect {
    pub x: i128,
    pub y: i128,
    pub width: i128,
    pub height: i128,
}

/// One laid-out line: its advance width in subpixel units and its centered
/// origin in device pixels.
pub struct LinePlacement {
    pub width: i128,
    pub x: i128,
    pub y: i128,
}

/// The full layout of a text block over a canvas.
pub struct Layout {
    pub line_height: i128,
    pub text_height: i128,
    pub text_y: i128,
    pub panel: PanelRect,
    pub lines: Vec<LinePlacement>,
}

/// Division rounding toward zero, as a float-to-integer truncation rounds.
pub open spec fn trunc_div(a: int, b: int) -> int {
    if a >= 0 {
        a / b
    } else {
        -((-a) / b)
    }
}

/// Line height in device pixels: `ceil(ascent - descent + LINE_GAP)`, the
/// metrics being in subpixel units.
pub open spec fn spec_line_height(fm: FontMetrics) -> int {
    (fm.ascent - fm.descent + LINE_GAP * SUBPIXEL + (SUBPIXEL - 1)) as int / (SUBPIXEL as int)
}

/// Total text block height for `n` lines.
pub open spec fn spec_text_height(fm: FontMetrics, n: int) -> int {
    spec_line_height(fm) * n
}

/// Panel width: nine tenths of the canvas width, rounded down.
pub open spec fn spec_panel_width(w: u32) -> int {
    (w as int) * 9 / 10
}

/// Panel height: the text block height plus the fixed margin.
pub open spec fn spec_panel_height(fm: FontMetrics, n: int) -> int {
    spec_text_height(fm, n) + PANEL_MARGIN
}

/// Panel left edge: horizontally centered.
pub open spec fn spec_panel_x(w: u32) -> int {
    trunc_div(w as int - spec_panel_width(w), 2)
}

/// The font descent truncated to whole device pixels (toward zero).
pub open spec fn spec_descent_px(fm: FontMetrics) -> int {
    trunc_div(fm.descent as int, SUBPIXEL as int)
}

/// Panel top edge: vertically centered, shifted down by the truncated
/// descent to optically balance ascender-heavy text.
pub open spec fn spec_panel_y(fm: FontMetrics, h: u32, n: int) -> int {
    trunc_div(h as int - spec_panel_height(fm, n), 2) + spec_descent_px(fm)
}

/// Text block top edge: vertically centered, independent of the panel's
/// descent correction.
pub open spec fn spec_text_y(fm: FontMetrics, h: u32, n: int) -> int {
    trunc_div(h as int - spec_text_height(fm, n), 2)
}

/// Centered left edge of one line: `(w - line_width) / 2`, truncated toward
/// zero, computed in subpixel units.
pub open spec fn spec_line_x(fm: FontMetrics, w: u32, line: Seq<char>) -> int {
    trunc_div(SUBPIXEL * (w as int) - line_width(fm, line), 2 * SUBPIXEL)
}

/// The placements of all lines: each line centered by its own width, lines
/// stacked top to bottom at `line_height` intervals.
pub open spec fn spec_placements(fm: FontMetrics, lines: Seq<Seq<char>>, w: u32, h: u32) -> Seq<
    LinePlacement,
> {
    Seq::new(
        lines.len(),
        |i: int|
            LinePlacement {
                width: line_width(fm, lines[i]) as i128,
                x: spec_line_x(fm, w, lines[i]) as i128,
                y: (spec_text_y(fm, h, lines.len() as int) + i * spec_line_height(fm)) as i128,
            },
    )
}

impl Layout {
    /// Every coordinate the compositor will consume is bounded and the
    /// panel's extent is nonnegative.
    pub open spec fn wf(&self) -> bool {
        &&& 0 <= self.panel.width <= COORD_BOUND
        &&& 0 <= self.panel.height <= COORD_BOUND
        &&& -COORD_BOUND <= self.panel.x <= COORD_BOUND
        &&& -COORD_BOUND <= self.panel.y <= COORD_BOUND
        &&& forall|i: int|
            0 <= i < self.lines@.len() ==> -COORD_BOUND <= #[trigger] self.lines@[i].x
                <= COORD_BOUND && -COORD_BOUND <= self.lines@[i].y <= COORD_BOUND
    }
}

/// `trunc_div` by a positive divisor never grows the magnitude.
proof fn lemma_trunc_div_bound(a: int, b: int, m: int)
    requires
        b >= 1,
        -m <= a <= m,
        0 <= m,
    ensures
        -m <= trunc_div(a, b) <= m,
{
    if a >= 0 {
        lemma_div_pos_is_pos(a, b);
        lemma_div_is_ordered(a, m, b);
        lemma_div_is_ordered_by_denominator_self(m, b);
    } else {
        lemma_div_pos_is_pos(-a, b);
        lemma_div_is_ordered(-a, m, b);
        lemma_div_is_ordered_by_denominator_self(m, b);
    }
}

/// `m / b <= m` for nonnegative `m` and positive `b`.
proof fn lemma_div_is_ordered_by_denominator_self(m: int, b: int)
    requires
        0 <= m,
        b >= 1,
    ensures
        m / b <= m,
{
    lemma_fundamental_div_mod(m, b);
    assert(m / b >= 0) by {
        lemma_div_pos_is_pos(m, b);
    }
    assert(b * (m / b) >= m / b) by (nonlinear_arith)
        requires
            b >= 1 && m / b >= 0,
    ;
}

/// Division rounding toward zero, executably.
fn trunc_div_i128(a: i128, b: i128) -> (q: i128)
    requires
        1 <= b <= 0x1000_0000_0000_0000_0000_0000_0000,
        -0x2000_0000_0000_0000_0000_0000_0000 <= a <= 0x2000_0000_0000_0000_0000_0000_0000,
    ensures
        q as int == trunc_div(a as int, b as int),
{
    if a >= 0 {
        a / b
    } else {
        -((-a) / b)
    }
}

/// Lays the text out over a `width` by `height` canvas: uniform line
/// height, per-line centered origins, and the centered panel rectangle.
pub fn layout_text(fm: &FontMetrics, lines: &Vec<Vec<char>>, width: u32, height: u32) -> (l:
    Layout)
    requires
        fm.wf(),
    ensures
        l.wf(),
        l.line_height == spec_line_height(*fm),
        l.text_height == spec_text_height(*fm, lines@.len() as int),
        l.text_y == spec_text_y(*fm, height, lines@.len() as int),
        l.panel.width == spec_panel_width(width),
        l.panel.height == spec_panel_height(*fm, lines@.len() as int),
        l.panel.x == spec_panel_x(width),
        l.panel.y == spec_panel_y(*fm, height, lines@.len() as int),
        l.lines@ == spec_placements(*fm, lines.deep_view(), width, height),
        0 < l.line_height <= 0x10000,
{
    let n = lines.len();
    let num: i64 = fm.ascent - fm.descent + LINE_GAP * SUBPIXEL + (SUBPIXEL - 1);
    proof {
        lemma_div_pos_is_pos(num as int, SUBPIXEL as int);
        lemma_div_is_ordered(num as int, 0x40_0000, SUBPIXEL as int);
    }
    let line_height: i128 = (num / SUBPIXEL) as i128;
    proof {
        assert(0 <= (line_height as int) * (n as int) <= 0x10000 * 0x1_0000_0000_0000_0000)
            by (nonlinear_arith)
            requires
                0 <= line_height <= 0x10000 && 0 <= n <= 0x1_0000_0000_0000_0000,
        ;
    }
    let text_height: i128 = line_height * (n as i128);
    let panel_width: i128 = (width as i128) * 9 / 10;
    let panel_height: i128 = text_height + PANEL_MARGIN as i128;
    let panel_x: i128 = trunc_div_i128(width as i128 - panel_width, 2);
    let descent_px: i128 = trunc_div_i128(fm.descent as i128, SUBPIXEL as i128);
    let panel_y: i128 = trunc_div_i128(height as i128 - panel_height, 2) + descent_px;
    let text_y: i128 = trunc_div_i128(height as i128 - text_height, 2);
    proof {
        lemma_div_pos_is_pos((width as int) * 9, 10);
        lemma_div_is_ordered((width as int) * 9, 0x24_0000_0000, 10);
        assert(0 <= (width as int) * 9 <= 0x24_0000_0000) by (nonlinear_arith)
            requires
                width <= 0x1_0000_0000u64,
        ;
        lemma_trunc_div_bound(
            height as int - panel_height as int,
            2,
            0x2_0000_0000_0000_0000_0000,
        );
        lemma_trunc_div_bound(fm.descent as int, SUBPIXEL as int, MAX_METRIC as int);
        lemma_trunc_div_bound(height as int - text_height as int, 2, 0x2_0000_0000_0000_0000_0000);
    }
    let ghost placements = spec_placements(*fm, lines.deep_view(), width, height);
    let mut out: Vec<LinePlacement> = Vec::new();
    let mut i: usize = 0;
    while i < n
        invariant
            i <= n,
            n == lines@.len(),
            fm.wf(),
            out@.len() == i,
            placements == spec_placements(*fm, lines.deep_view(), width, height),
            placements.len() == n,
            line_height as int == spec_line_height(*fm),
            0 < line_height <= 0x10000,
            text_y as int == spec_text_y(*fm, height, n as int),
            -0x2_0000_0000_0000_0000_0000 <= text_y <= 0x2_0000_0000_0000_0000_0000,
            forall|j: int| 0 <= j < i ==> #[trigger] out@[j] == placements[j],
            forall|j: int|
                0 <= j < i ==> -COORD_BOUND <= #[trigger] out@[j].x <= COORD_BOUND && -COORD_BOUND
                    <= out@[j].y <= COORD_BOUND,
        decreases n - i,
    {
        let llen = lines[i].len();
        let lw: i128 = crate::metrics::measure_line(fm, &lines[i]);
        proof {
            assert(llen == lines@[i as int]@.len());
            lemma_line_width_bound(*fm, lines@[i as int]@);
            assert(2 * MAX_METRIC * lines@[i as int]@.len() <= 2 * (MAX_METRIC as int)
                * 0x1_0000_0000_0000_0000) by (nonlinear_arith)
                requires
                    0 <= lines@[i as int]@.len() <= 0x1_0000_0000_0000_0000 && MAX_METRIC
                        == 0x10_0000,
            ;
            assert(-2 * MAX_METRIC * lines@[i as int]@.len() >= -2 * (MAX_METRIC as int)
                * 0x1_0000_0000_0000_0000) by (nonlinear_arith)
                requires
                    0 <= lines@[i as int]@.len() <= 0x1_0000_0000_0000_0000 && MAX_METRIC
                        == 0x10_0000,
            ;
        }
        let x: i128 = trunc_div_i128(
            (SUBPIXEL as i128) * (width as i128) - lw,
            2 * (SUBPIXEL as i128),
        );
        proof {
            lemma_trunc_div_bound(
                (SUBPIXEL as int) * (width as int) - lw as int,
                2 * (SUBPIXEL as int),
                0x1000_0000_0000_0000_0000_0000,
            );
            assert(0 <= (i as int) * (line_height as int) <= 0x10000 * 0x1_0000_0000_0000_0000
                && (i as int) * (line_height as int) == (line_height as int) * (i as int))
                by (nonlinear_arith)
                requires
                    0 < line_height <= 0x10000 && 0 <= i <= 0x1_0000_0000_0000_0000,
            ;
        }
        let y: i128 = text_y + (i as i128) * line_height;
        let placed = LinePlacement { width: lw, x, y };
        out.push(placed);
        proof {
            assert(lines.deep_view()[i as int] =~= lines@[i as int]@);
            assert(out@[i as int] == placements[i as int]);
        }
        i = i + 1;
    }
    proof {
        assert(out@ =~= placements);
    }
    Layout {
        line_height,
        text_height,
        text_y,
        panel: PanelRect { x: panel_x, y: panel_y, width: panel_width, height: panel_height },
        lines: out,
    }
}

/// Centering: for a line that fits the canvas, the gap left of the line and
/// the gap right of it differ by less than two device pixels (the right gap
/// absorbs the rounding), measured in subpixel units.
pub proof fn lemma_horizontal_centering(fm: FontMetrics, w: u32, line: Seq<char>)
    requires
        fm.wf(),
        0 <= line_width(fm, line) <= SUBPIXEL * (w as int),
    ensures
        ({
            let left = SUBPIXEL * spec_line_x(fm, w, line);
            let right = SUBPIXEL * (w as int) - left - line_width(fm, line);
            0 <= right - left < 2 * SUBPIXEL
        }),
{
    let lw = line_width(fm, line);
    let nmr = SUBPIXEL * (w as int) - lw;
    let x = spec_line_x(fm, w, line);
    lemma_fundamental_div_mod(nmr, 2 * SUBPIXEL as int);
    vstd::arithmetic::div_mod::lemma_mod_bound(nmr, 2 * SUBPIXEL as int);
    lemma_div_pos_is_pos(nmr, 2 * SUBPIXEL as int);
    assert(x == nmr / (2 * SUBPIXEL as int));
    assert(SUBPIXEL * x == 64 * x);
    assert(nmr == (2 * SUBPIXEL as int) * (nmr / (2 * SUBPIXEL as int)) + nmr % (2
        * SUBPIXEL as int));
}

/// Line spacing: in any layout, consecutive line origins are exactly one
/// line height apart, whatever the lines hold.
pub proof fn lemma_line_spacing(fm: FontMetrics, lines: Seq<Seq<char>>, w: u32, h: u32, i: int)
    requires
        fm.wf(),
        0 <= i,
        i + 1 < lines.len(),
        lines.len() <= 0x1_0000_0000_0000_0000,
    ensures
        spec_placements(fm, lines, w, h)[i + 1].y as int - spec_placements(fm, lines, w, h)[i].y
            as int == spec_line_height(fm),
{
    let lh = spec_line_height(fm);
    let n = lines.len() as int;
    lemma_line_height_small(fm);
    assert(0 <= spec_text_height(fm, n) <= 0x10000 * 0x1_0000_0000_0000_0000) by (nonlinear_arith)
        requires
            0 < lh <= 0x10000 && 0 <= n <= 0x1_0000_0000_0000_0000 && spec_text_height(fm, n) == lh
                * n,
    ;
    lemma_trunc_div_bound(
        h as int - spec_text_height(fm, n),
        2,
        (0x1_0000_0000 + 0x10000 * 0x1_0000_0000_0000_0000) as int,
    );
    let ty = spec_text_y(fm, h, n);
    assert(0 <= (i + 1) * lh <= 0x10000 * 0x1_0000_0000_0000_0000 && 0 <= i * lh <= 0x10000
        * 0x1_0000_0000_0000_0000 && (i + 1) * lh == i * lh + lh) by (nonlinear_arith)
        requires
            0 < lh <= 0x10000 && 0 <= i && i + 1 <= 0x1_0000_0000_0000_0000,
    ;
    assert((ty + (i + 1) * lh) as i128 as int == ty + (i + 1) * lh);
    assert((ty + i * lh) as i128 as int == ty + i * lh);
}

/// The line height of a well-formed font is positive and small.
pub proof fn lemma_line_height_small(fm: FontMetrics)
    requires
        fm.wf(),
    ensures
        LINE_GAP <= spec_line_height(fm) <= 0x10000,
{
    let num = fm.ascent - fm.descent + LINE_GAP * SUBPIXEL + (SUBPIXEL - 1);
    lemma_div_is_ordered(1983, num as int, SUBPIXEL as int);
    lemma_div_is_ordered(num as int, 0x40_0000, SUBPIXEL as int);
}

/// Panel containment: for any non-empty text the panel is at least as tall
/// as the whole text block.
pub proof fn lemma_panel_contains_text(fm: FontMetrics, n: int)
    requires
        fm.wf(),
        n >= 1,
    ensures
        spec_panel_height(fm, n) >= spec_text_height(fm, n),
        spec_panel_height(fm, n) >= spec_line_height(fm) * n,
{
}

/// Empty input: a zero-length text has no lines, a zero-height text block,
/// and the minimal panel height — the bare margin.
pub proof fn lemma_empty_input(fm: FontMetrics)
    requires
        fm.wf(),
    ensures
        crate::textual::spec_lines(Seq::<char>::empty()).len() == 0,
        spec_text_height(fm, 0) == 0,
        spec_panel_height(fm, 0) == PANEL_MARGIN,
{
    assert(crate::textual::spec_lines(Seq::<char>::empty()) =~= Seq::<Seq<char>>::empty());
    assert(spec_line_height(fm) * 0 == 0) by (nonlinear_arith);
}

} // verus!
