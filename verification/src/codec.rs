//! Decoding the background raster and encoding the finished canvas.
//! These are the only two trusted calls of the library: both are pure
//! functions of their byte arguments, so their results are named and every
//! caller's contract is exact in those names.

use crate::canvas::Canvas;
use vstd::prelude::*;

verus! {

/// What decoding a raster byte stream to RGBA yields: the width, height
/// and pixel bytes, or nothing when the stream is not a decodable image.
/// The decoder is a pure function of the bytes alone.
pub uninterp spec fn decoded_image(bytes: Seq<u8>) -> Option<(u32, u32, Seq<u8>)>;

/// What losslessly encoding an RGBA buffer to WebP yields, or nothing when
/// the encoder refuses the dimensions. The encoder is a pure function of
/// the pixels and dimensions alone.
pub uninterp spec fn webp_encoding(pixels: Seq<u8>, width: u32, height: u32) -> Option<Seq<u8>>;

/// Why a render can fail.
#[derive(Clone, Copy, Debug, PartialEq, Eq, Structural)]
pub enum RenderError {
    /// The embedded background image could not be decoded.
    BackgroundDecode,
    /// The finished canvas could not be encoded.
    EncodeFailed,
}

impl RenderError {
    /// A short description of the failure.
    pub fn message(&self) -> (m: String)
        ensures
            self is BackgroundDecode ==> m@ == "could not decode the background image"@,
            self is EncodeFailed ==> m@ == "could not encode the image"@,
    {
        match self {
            RenderError::BackgroundDecode => "could not decode the background image".to_owned(),
            RenderError::EncodeFailed => "could not encode the image".to_owned(),
        }
    }
}

/// Relies on image::load_from_memory and DynamicImage::into_rgba8: decodes
/// a raster byte stream into width, height and a row-major RGBA buffer of
/// four bytes per pixel, deterministically in the bytes.
#[verifier::external_body]
fn decode_rgba(bytes: &[u8]) -> (r: Option<(u32, u32, Vec<u8>)>)
    ensures
        r is Some <==> decoded_image(bytes@) is Some,
        r matches Some(t) ==> {
            &&& decoded_image(bytes@) matches Some(s)
            &&& t.0 == s.0
            &&& t.1 == s.1
            &&& t.2@ == s.2
            &&& s.2.len() == 4 * (s.0 as int) * (s.1 as int)
        },
{
    match imageproc::image::load_from_memory(bytes) {
        Ok(img) => {
            let rgba = img.into_rgba8();
            let w = rgba.width();
            let h = rgba.height();
            Some((w, h, rgba.into_raw()))
        },
        Err(_) => None,
    }
}

/// Relies on image::codecs::webp::WebPEncoder (new_lossless / encode):
/// encodes a row-major RGBA buffer to a lossless WebP byte stream,
/// deterministically in the pixels and dimensions. The encoder panics on a
/// buffer whose length does not match the dimensions, so that is required.
#[verifier::external_body]
fn encode_webp(pixels: &Vec<u8>, width: u32, height: u32) -> (r: Option<Vec<u8>>)
    requires
        pixels@.len() == 4 * (width as int) * (height as int),
    ensures
        r is Some <==> webp_encoding(pixels@, width, height) is Some,
        r matches Some(b) ==> webp_encoding(pixels@, width, height) == Some(b@),
{
    let mut cursor = std::io::Cursor::new(Vec::new());
    let encoder = imageproc::image::codecs::webp::WebPEncoder::new_lossless(&mut cursor);
    match encoder.encode(
        pixels.as_slice(),
        width,
        height,
        imageproc::image::ExtendedColorType::Rgba8,
    ) {
        Ok(()) => Some(cursor.into_inner()),
        Err(_) => None,
    }
}

/// Decodes the background bytes into a canvas, or reports that the
/// embedded asset is not decodable.
pub fn decode_canvas(bytes: &[u8]) -> (r: Result<Canvas, RenderError>)
    ensures
        r matches Ok(c) ==> {
            &&& decoded_image(bytes@) matches Some(s)
            &&& c.width == s.0
            &&& c.height == s.1
            &&& c.pixels@ == s.2
            &&& c.wf()
        },
        r is Err <==> decoded_image(bytes@) is None,
        r matches Err(e) ==> e is BackgroundDecode,
{
    match decode_rgba(bytes) {
        Some((width, height, pixels)) => Ok(Canvas { width, height, pixels }),
        None => Err(RenderError::BackgroundDecode),
    }
}

/// Encodes a finished canvas to a lossless WebP byte stream, or reports
/// that the encoder refused it.
pub fn encode_canvas(img: &Canvas) -> (r: Result<Vec<u8>, RenderError>)
    requires
        img.wf(),
    ensures
        r matches Ok(b) ==> webp_encoding(img.pixels@, img.width, img.height) == Some(b@),
        r is Err <==> webp_encoding(img.pixels@, img.width, img.height) is None,
        r matches Err(e) ==> e is EncodeFailed,
{
    match encode_webp(&img.pixels, img.width, img.height) {
        Some(b) => Ok(b),
        None => Err(RenderError::EncodeFailed),
    }
}

} // verus!
