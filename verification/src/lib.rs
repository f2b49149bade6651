//! Rendering engine for short multi-line texts composited over a raster
//! canvas: a soft-edged translucent panel is blended behind the text, each
//! line is centered by its measured width, and the result is encoded to a
//! lossless WebP byte stream.
//!
//! Font metrics (ascent, descent, per-glyph advances, kerning) are carried as
//! plain fixed-point values in [`metrics::FontMetrics`]; glyph coverage
//! bitmaps are supplied by the caller. Everything that decides or computes is
//! verified; only the raster decode and encode calls are trusted.

pub mod canvas;
pub mod codec;
pub mod compose;
pub mod cover;
pub mod layout;
pub mod listing;
pub mod metrics;
pub mod panel;
pub mod textual;
