use haiku_render::layout::layout_text;
use haiku_render::metrics::{FontMetrics, GlyphEntry, KernPair};
use haiku_render::textual::split_lines;

fn test_font() -> FontMetrics {
    // ascent 40 px, descent -10 px, every unmapped character 20 px wide
    FontMetrics {
        ascent: 40 * 64,
        descent: -10 * 64,
        notdef_advance: 20 * 64,
        glyphs: Vec::new(),
        kerning: Vec::new(),
    }
}

#[test]
fn split_lines_basic() {
    let lines = split_lines("a\nb");
    assert_eq!(lines.len(), 2);
    assert_eq!(lines[0], vec!['a']);
    assert_eq!(lines[1], vec!['b']);
}

#[test]
fn split_lines_crlf_and_trailing_newline() {
    let lines = split_lines("one\r\ntwo\n");
    assert_eq!(lines.len(), 2);
    assert_eq!(lines[0], vec!['o', 'n', 'e']);
    assert_eq!(lines[1], vec!['t', 'w', 'o']);
}

#[test]
fn split_lines_empty_text_has_no_lines() {
    let lines = split_lines("");
    assert_eq!(lines.len(), 0);
}

#[test]
fn line_height_is_ceiling_of_metrics_plus_gap() {
    let fm = test_font();
    let lines = split_lines("x");
    let plan = layout_text(&fm, &lines, 800, 600);
    // ascent - descent = 50 px, plus the 30 px gap
    assert_eq!(plan.line_height, 80);
}

#[test]
fn empty_input_minimal_panel() {
    let fm = test_font();
    let lines = split_lines("");
    let plan = layout_text(&fm, &lines, 800, 600);
    assert_eq!(plan.lines.len(), 0);
    assert_eq!(plan.text_height, 0);
    assert_eq!(plan.panel.height, 60);
}

#[test]
fn single_line_is_centered_within_rounding() {
    let fm = test_font();
    let lines = split_lines("aa");
    let plan = layout_text(&fm, &lines, 800, 600);
    // the line is 40 px wide: left gap 380, right gap 380
    assert_eq!(plan.lines[0].width, 2 * 20 * 64);
    let x = plan.lines[0].x;
    assert_eq!(x, 380);
    let right = 800 - x - 40;
    assert!((x - right).abs() <= 1);
}

#[test]
fn two_line_gap_is_exactly_line_height() {
    let fm = test_font();
    let lines = split_lines("first\nsecond");
    let plan = layout_text(&fm, &lines, 800, 600);
    assert_eq!(plan.lines.len(), 2);
    assert_eq!(plan.lines[1].y - plan.lines[0].y, plan.line_height);
}

#[test]
fn panel_contains_text_block() {
    let fm = test_font();
    let lines = split_lines("a\nb\nc\nd");
    let plan = layout_text(&fm, &lines, 800, 600);
    assert!(plan.panel.height >= plan.line_height * 4);
    assert_eq!(plan.panel.height, plan.text_height + 60);
}

#[test]
fn kerning_adjusts_line_width() {
    let mut fm = test_font();
    fm.glyphs = vec![
        GlyphEntry { code: 'a', glyph: 1, advance: 10 * 64 },
        GlyphEntry { code: 'b', glyph: 2, advance: 10 * 64 },
    ];
    fm.kerning = vec![KernPair { left: 1, right: 2, adjust: -64 }];
    let lines = split_lines("ab");
    let plan = layout_text(&fm, &lines, 800, 600);
    assert_eq!(plan.lines[0].width, 640 + 640 - 64);
    // the reversed pair is not kerned
    let lines_rev = split_lines("ba");
    let plan_rev = layout_text(&fm, &lines_rev, 800, 600);
    assert_eq!(plan_rev.lines[0].width, 1280);
}

#[test]
fn unmapped_character_falls_back_to_notdef() {
    let mut fm = test_font();
    fm.glyphs = vec![GlyphEntry { code: 'a', glyph: 1, advance: 10 * 64 }];
    let lines = split_lines("\u{2603}a");
    let plan = layout_text(&fm, &lines, 800, 600);
    // the snowman is not in the table: notdef advance 20 px + 'a' 10 px
    assert_eq!(plan.lines[0].width, 20 * 64 + 10 * 64);
}

#[test]
fn lone_newline_is_one_empty_line() {
    let lines = split_lines("\n");
    assert_eq!(lines.len(), 1);
    assert_eq!(lines[0].len(), 0);
}

#[test]
fn odd_leftover_centering_is_off_by_at_most_one() {
    let mut fm = test_font();
    fm.glyphs = vec![GlyphEntry { code: 'm', glyph: 1, advance: 30 * 64 }];
    let lines = split_lines("m");
    let plan = layout_text(&fm, &lines, 99, 600);
    // 30 px line on a 99 px canvas: left gap 34, right gap 35
    assert_eq!(plan.lines[0].x, 34);
    let right = 99 - plan.lines[0].x - 30;
    assert!((plan.lines[0].x - right).abs() <= 1);
}

#[test]
fn panel_geometry_matches_canvas() {
    let fm = test_font();
    let lines = split_lines("one\ntwo\nthree");
    let plan = layout_text(&fm, &lines, 800, 600);
    assert_eq!(plan.panel.width, 720);
    assert_eq!(plan.panel.x, 40);
    // three 80 px lines plus the 60 px margin, centered, shifted by the
    // truncated descent (-10 px)
    assert_eq!(plan.panel.height, 300);
    assert_eq!(plan.panel.y, (600 - 300) / 2 - 10);
    assert_eq!(plan.text_y, (600 - 240) / 2);
}
