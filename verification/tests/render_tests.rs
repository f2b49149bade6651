use haiku_render::canvas::{filled_canvas, get_channel, Canvas, Rgba8};
use haiku_render::codec::{decode_canvas, RenderError};
use haiku_render::compose::compose_and_encode;
use haiku_render::cover::{blend_coverage, CoverageMap};
use haiku_render::layout::{layout_text, Layout, PanelRect};
use haiku_render::metrics::FontMetrics;
use haiku_render::panel::draw_soft_centered_rect;
use haiku_render::textual::split_lines;

fn test_font() -> FontMetrics {
    FontMetrics {
        ascent: 40 * 64,
        descent: -10 * 64,
        notdef_advance: 20 * 64,
        glyphs: Vec::new(),
        kerning: Vec::new(),
    }
}

fn gray(w: u32, h: u32) -> Canvas {
    filled_canvas(w, h, Rgba8 { r: 100, g: 100, b: 100, a: 255 }).unwrap()
}

fn empty_marks(n: usize) -> Vec<CoverageMap> {
    let mut v = Vec::new();
    for _ in 0..n {
        v.push(CoverageMap { width: 0, height: 0, dx: 0, dy: 0, alpha: Vec::new() });
    }
    v
}

fn render(text: &str, w: u32, h: u32) -> Result<Vec<u8>, RenderError> {
    let fm = test_font();
    let canvas = gray(w, h);
    let lines = split_lines(text);
    let plan = layout_text(&fm, &lines, w, h);
    let art = empty_marks(lines.len());
    compose_and_encode(canvas, &plan, &art)
}

#[test]
fn haiku_scenario_renders_webp() {
    let fm = test_font();
    let text = "old pond\na frog jumps in\nthe sound of water";
    let lines = split_lines(text);
    let plan = layout_text(&fm, &lines, 800, 600);
    assert_eq!(plan.lines.len(), 3);
    assert_eq!(plan.panel.width, 720);
    let y0 = plan.lines[0].y;
    let y1 = plan.lines[1].y;
    let y2 = plan.lines[2].y;
    assert!(y0 != y1 && y1 != y2 && y0 != y2);
    assert_eq!(y1 - y0, plan.line_height);
    assert_eq!(y2 - y1, plan.line_height);
    let canvas = gray(800, 600);
    let art = empty_marks(3);
    let bytes = compose_and_encode(canvas, &plan, &art).unwrap();
    assert!(!bytes.is_empty());
    assert_eq!(&bytes[0..4], &b"RIFF"[..]);
    assert_eq!(&bytes[8..12], &b"WEBP"[..]);
}

#[test]
fn rendering_is_deterministic() {
    let a = render("a quiet render\ntwice over", 120, 90).unwrap();
    let b = render("a quiet render\ntwice over", 120, 90).unwrap();
    assert_eq!(a, b);
}

#[test]
fn unmapped_characters_still_render() {
    let out = render("snow \u{2603} here", 120, 90).unwrap();
    assert_eq!(&out[0..4], &b"RIFF"[..]);
}

#[test]
fn empty_text_renders_without_error() {
    let out = render("", 64, 48);
    assert!(out.is_ok());
}

#[test]
fn panel_edge_pixel_is_unchanged() {
    let mut img = gray(100, 100);
    let color = Rgba8 { r: 220, g: 210, b: 200, a: 200 };
    draw_soft_centered_rect(&mut img, 10, 10, 60, 60, color, 30);
    // edge distance 0 at the rectangle border: the pixel is untouched
    assert_eq!(get_channel(&img, 10, 10, 0), 100);
    assert_eq!(get_channel(&img, 10, 10, 1), 100);
    assert_eq!(get_channel(&img, 10, 10, 2), 100);
    // outside the rectangle nothing changes either
    assert_eq!(get_channel(&img, 5, 5, 0), 100);
}

#[test]
fn panel_center_pixel_gets_full_base_alpha() {
    let mut img = gray(100, 100);
    let color = Rgba8 { r: 220, g: 210, b: 200, a: 200 };
    draw_soft_centered_rect(&mut img, 10, 10, 60, 60, color, 30);
    // at the rectangle center the edge distance reaches the blur radius,
    // so the blend is exactly (55 * base + 200 * paint) / 255
    assert_eq!(get_channel(&img, 40, 40, 0), ((55 * 100 + 200 * 220) / 255) as u8);
    assert_eq!(get_channel(&img, 40, 40, 1), ((55 * 100 + 200 * 210) / 255) as u8);
    assert_eq!(get_channel(&img, 40, 40, 2), ((55 * 100 + 200 * 200) / 255) as u8);
    assert_eq!(get_channel(&img, 40, 40, 3), 255);
}

#[test]
fn panel_ramp_pixel_is_exact() {
    let mut img = gray(100, 100);
    let color = Rgba8 { r: 220, g: 210, b: 200, a: 200 };
    draw_soft_centered_rect(&mut img, 10, 10, 60, 60, color, 30);
    // (25, 25) canvas = (15, 15) in the rectangle: edge distance 15
    let num: u32 = 200 * 15;
    let den: u32 = 255 * 30;
    let expect = |base: u32, paint: u32| (((den - num) * base + num * paint) / den) as u8;
    assert_eq!(get_channel(&img, 25, 25, 0), expect(100, 220));
    assert_eq!(get_channel(&img, 25, 25, 1), expect(100, 210));
    assert_eq!(get_channel(&img, 25, 25, 2), expect(100, 200));
}

#[test]
fn coverage_blends_toward_text_color() {
    let mut img = gray(10, 10);
    let text = Rgba8 { r: 70, g: 50, b: 40, a: 255 };
    let cm = CoverageMap { width: 2, height: 1, dx: 0, dy: 0, alpha: vec![255, 51] };
    blend_coverage(&mut img, 3, 4, &cm, text);
    // full coverage paints the text color exactly
    assert_eq!(get_channel(&img, 3, 4, 0), 70);
    assert_eq!(get_channel(&img, 3, 4, 1), 50);
    assert_eq!(get_channel(&img, 3, 4, 2), 40);
    // partial coverage interpolates: ((255 - 51) * 100 + 51 * 70) / 255
    assert_eq!(get_channel(&img, 4, 4, 0), ((204 * 100 + 51 * 70) / 255) as u8);
    // an uncovered pixel is untouched
    assert_eq!(get_channel(&img, 5, 4, 0), 100);
}

#[test]
fn coverage_is_clipped_at_the_canvas_edge() {
    let mut img = gray(4, 4);
    let text = Rgba8 { r: 70, g: 50, b: 40, a: 255 };
    let cm = CoverageMap { width: 2, height: 2, dx: 0, dy: 0, alpha: vec![255, 255, 255, 255] };
    blend_coverage(&mut img, -1, -1, &cm, text);
    // only the bitmap cell that lands on the canvas is drawn
    assert_eq!(get_channel(&img, 0, 0, 0), 70);
    assert_eq!(get_channel(&img, 1, 1, 0), 100);
    assert_eq!(get_channel(&img, 1, 0, 0), 100);
}

#[test]
fn encode_then_decode_round_trips() {
    let img = gray(8, 8);
    let original = img.pixels.clone();
    let plan = Layout {
        line_height: 80,
        text_height: 0,
        text_y: 0,
        panel: PanelRect { x: 0, y: 0, width: 0, height: 0 },
        lines: Vec::new(),
    };
    let bytes = compose_and_encode(img, &plan, &Vec::new()).unwrap();
    let back = decode_canvas(&bytes).unwrap();
    assert_eq!(back.width, 8);
    assert_eq!(back.height, 8);
    assert_eq!(back.pixels, original);
}

#[test]
fn junk_bytes_fail_to_decode() {
    let r = decode_canvas(&[1, 2, 3, 4]);
    assert_eq!(r.unwrap_err(), RenderError::BackgroundDecode);
    assert_eq!(
        RenderError::BackgroundDecode.message(),
        "could not decode the background image"
    );
}

#[test]
fn zero_size_canvas_fails_to_encode() {
    let r = render("anything", 0, 0);
    assert_eq!(r.unwrap_err(), RenderError::EncodeFailed);
    assert_eq!(RenderError::EncodeFailed.message(), "could not encode the image");
}
