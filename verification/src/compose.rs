//! The compositor: the panel pass, then every rasterized line in top-to-
//! bottom order, then lossless encoding. The whole pipeline is a pure
//! function of the canvas, the layout, and the coverage maps.

use crate::canvas::{Canvas, Rgba8};
use crate::codec::{encode_canvas, webp_encoding, RenderError};
use crate::cover::{blend_coverage, cover_result, CoverageMap};
use crate::layout::{Layout, LinePlacement, PANEL_BLUR};
use crate::metrics::FontMetrics;
use crate::panel::{draw_soft_centered_rect, panel_result};
use vstd::prelude::*;

verus! {

/// The panel's fixed warm tone, with its base alpha.
pub open spec fn panel_color() -> Rgba8 {
    Rgba8 { r: 220, g: 210, b: 200, a: 200 }
}

/// The fixed opaque brownish text color.
pub open spec fn text_color() -> Rgba8 {
    Rgba8 { r: 70, g: 50, b: 40, a: 255 }
}

/// The canvas after the first `n` lines are blended, each coverage map
/// placed at its line's origin.
pub open spec fn text_pass(
    pix: Seq<u8>,
    w: int,
    placements: Seq<LinePlacement>,
    art: Seq<CoverageMap>,
    n: int,
) -> Seq<u8>
    decreases n,
{
    if n <= 0 {
        pix
    } else {
        cover_result(
            text_pass(pix, w, placements, art, n - 1),
            w,
            placements[n - 1].x as int,
            placements[n - 1].y as int,
            art[n - 1],
            text_color(),
        )
    }
}

/// The finished canvas: the panel blended behind, then every line's
/// coverage blended over it.
pub open spec fn composed_pixels(
    pix: Seq<u8>,
    w: int,
    plan: Layout,
    art: Seq<CoverageMap>,
) -> Seq<u8> {
    text_pass(
        panel_result(
            pix,
            w,
            plan.panel.x as int,
            plan.panel.y as int,
            plan.panel.width as int,
            plan.panel.height as int,
            panel_color(),
            PANEL_BLUR,
        ),
        w,
        plan.lines@,
        art,
        art.len() as int,
    )
}

/// Composites the panel and the rasterized lines onto the canvas and
/// encodes the result as lossless WebP. Encoding failure discards the
/// buffer and is reported; nothing else can fail.
pub fn compose_and_encode(canvas: Canvas, plan: &Layout, art: &Vec<CoverageMap>) -> (r: Result<
    Vec<u8>,
    RenderError,
>)
    requires
        canvas.wf(),
        plan.wf(),
        art@.len() == plan.lines@.len(),
        forall|i: int| 0 <= i < art@.len() ==> (#[trigger] art@[i]).wf(),
    ensures
        r matches Ok(b) ==> webp_encoding(
            composed_pixels(canvas.pixels@, canvas.width as int, *plan, art@),
            canvas.width,
            canvas.height,
        ) == Some(b@),
        r is Err <==> webp_encoding(
            composed_pixels(canvas.pixels@, canvas.width as int, *plan, art@),
            canvas.width,
            canvas.height,
        ) is None,
        r matches Err(e) ==> e is EncodeFailed,
{
    let ghost orig = canvas.pixels@;
    let ghost w = canvas.width as int;
    let ghost h = canvas.height;
    let mut img = canvas;
    draw_soft_centered_rect(
        &mut img,
        plan.panel.x,
        plan.panel.y,
        plan.panel.width,
        plan.panel.height,
        Rgba8 { r: 220, g: 210, b: 200, a: 200 },
        PANEL_BLUR,
    );
    let ghost paneled = img.pixels@;
    proof {
        assert(paneled == panel_result(
            orig,
            w,
            plan.panel.x as int,
            plan.panel.y as int,
            plan.panel.width as int,
            plan.panel.height as int,
            panel_color(),
            PANEL_BLUR,
        ));
    }
    let n = art.len();
    let mut i: usize = 0;
    while i < n
        invariant
            i <= n,
            n == art@.len(),
            n == plan.lines@.len(),
            plan.wf(),
            forall|k: int| 0 <= k < art@.len() ==> (#[trigger] art@[k]).wf(),
            img.wf(),
            img.width as int == w,
            img.height == h,
            img.pixels@ == text_pass(paneled, w, plan.lines@, art@, i as int),
        decreases n - i,
    {
        let place = &plan.lines[i];
        let cm = &art[i];
        blend_coverage(&mut img, place.x, place.y, cm, Rgba8 { r: 70, g: 50, b: 40, a: 255 });
        i = i + 1;
    }
    encode_canvas(&img)
}

/// The whole render as one function of its inputs: decode the background
/// bytes, lay the text's lines out over the decoded canvas, blend the panel
/// and the rasterized lines, and encode losslessly.
pub open spec fn spec_render(
    background: Seq<u8>,
    fm: FontMetrics,
    text: Seq<char>,
    art: Seq<CoverageMap>,
) -> Option<Seq<u8>> {
    match crate::codec::decoded_image(background) {
        None => None,
        Some(s) => {
            let w = s.0;
            let h = s.1;
            let lines = crate::textual::spec_lines(text);
            let n = lines.len() as int;
            let paneled = panel_result(
                s.2,
                w as int,
                crate::layout::spec_panel_x(w),
                crate::layout::spec_panel_y(fm, h, n),
                crate::layout::spec_panel_width(w),
                crate::layout::spec_panel_height(fm, n),
                panel_color(),
                PANEL_BLUR,
            );
            let texted = text_pass(
                paneled,
                w as int,
                crate::layout::spec_placements(fm, lines, w, h),
                art,
                art.len() as int,
            );
            webp_encoding(texted, w, h)
        },
    }
}

/// Determinism: for identical text, identical background and font assets,
/// and identical rasterized coverage, two renders yield identical encoded
/// bytes.
pub proof fn lemma_render_deterministic(
    b1: Seq<u8>,
    fm1: FontMetrics,
    t1: Seq<char>,
    a1: Seq<CoverageMap>,
    b2: Seq<u8>,
    fm2: FontMetrics,
    t2: Seq<char>,
    a2: Seq<CoverageMap>,
)
    requires
        b1 == b2,
        fm1 == fm2,
        t1 == t2,
        a1 == a2,
    ensures
        spec_render(b1, fm1, t1, a1) == spec_render(b2, fm2, t2, a2),
{
}

} // verus!
