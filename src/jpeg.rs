use vstd::prelude::*;

use crate::error::Error;

verus! {

/// How a decoded JPEG stores its pixels.
#[derive(Clone, Copy, Debug, PartialEq, Eq, Structural)]
pub enum PixelKind {
    /// One 8-bit luminance channel.
    Luma,
    /// Three 8-bit channels, red, green, blue.
    Rgb,
    /// Four 8-bit channels, cyan, magenta, yellow, black.
    Cmyk,
}

/// How texture data maps to color values.
#[derive(Clone, Copy, Debug, PartialEq, Eq, Structural)]
pub enum ColorSpace {
    Linear,
    Srgb,
}

/// Pixel formats of textures.
#[derive(Clone, Copy, Debug, PartialEq, Eq, Structural)]
pub enum Format {
    Rgba,
    Srgba,
    Rgb,
    Srgb,
    Gray,
}

/// A decoded JPEG image.
pub struct DecodedJpeg {
    pub pixels: Vec<u8>,
    pub width: u16,
    pub height: u16,
    pub kind: PixelKind,
}

/// Texture data made from a JPEG image.
pub struct JpegData {
    pub data: Vec<u8>,
    pub format: Format,
    pub width: u32,
    pub height: u32,
}

/// What decoding `bytes` as a JPEG image gives: pixels, width, height and
/// pixel layout, or nothing where the bytes are not a supported JPEG image.
pub uninterp spec fn jpeg_decoded(bytes: Seq<u8>) -> Option<(Seq<u8>, u16, u16, PixelKind)>;

/// Relies on jpeg_decoder's `Decoder::decode` to decode `bytes`, and on
/// `Decoder::info`, which after a successful decode reports the image's size
/// and pixel format. The outcome depends on the bytes alone.
#[verifier::external_body]
fn decode_jpeg(bytes: &[u8]) -> (r: Option<DecodedJpeg>)
    ensures
        r is None <==> jpeg_decoded(bytes@) is None,
        r is Some ==> r->Some_0.pixels@ == jpeg_decoded(bytes@)->Some_0.0,
        r is Some ==> r->Some_0.width == jpeg_decoded(bytes@)->Some_0.1,
        r is Some ==> r->Some_0.height == jpeg_decoded(bytes@)->Some_0.2,
        r is Some ==> r->Some_0.kind == jpeg_decoded(bytes@)->Some_0.3,
{
    let mut decoder = jpeg_decoder::Decoder::new(bytes);
    let pixels = decoder.decode().ok()?;
    let info = decoder.info()?;
    let kind = match info.pixel_format {
        jpeg_decoder::PixelFormat::L8 => PixelKind::Luma,
        jpeg_decoder::PixelFormat::RGB24 => PixelKind::Rgb,
        jpeg_decoder::PixelFormat::CMYK32 => PixelKind::Cmyk,
    };
    Some(DecodedJpeg { pixels, width: info.width, height: info.height, kind })
}

/// The texture format for pixels of `kind` in `color_space`; only RGB
/// pixels have one.
pub open spec fn jpeg_format(kind: PixelKind, color_space: ColorSpace) -> Option<Format> {
    match kind {
        PixelKind::Rgb => Some(if color_space == ColorSpace::Linear { Format::Rgb } else { Format::Srgb }),
        _ => None,
    }
}

/// Texture data from a decoded image.
pub fn jpeg_texture(decoded: DecodedJpeg, color_space: ColorSpace) -> (r: Result<JpegData, Error>)
    ensures
        jpeg_format(decoded.kind, color_space) is None ==> r is Err && r->Err_0 == Error::UnsupportedFormat,
        jpeg_format(decoded.kind, color_space) is Some ==> r is Ok && {
            let t = r->Ok_0;
            &&& t.data@ == decoded.pixels@
            &&& t.format == jpeg_format(decoded.kind, color_space)->Some_0
            &&& t.width == decoded.width as u32
            &&& t.height == decoded.height as u32
        },
{
    let format = match decoded.kind {
        PixelKind::Rgb => match color_space {
            ColorSpace::Linear => Format::Rgb,
            ColorSpace::Srgb => Format::Srgb,
        },
        _ => {
            return Err(Error::UnsupportedFormat);
        },
    };
    Ok(JpegData { data: decoded.pixels, format, width: decoded.width as u32, height: decoded.height as u32 })
}

/// Decodes `bytes` into texture data in `color_space`.
pub fn load_jpeg(bytes: &[u8], color_space: ColorSpace) -> (r: Result<JpegData, Error>)
    ensures
        jpeg_decoded(bytes@) is None ==> r is Err && r->Err_0 == Error::InvalidJpeg,
        jpeg_decoded(bytes@) is Some && jpeg_format(jpeg_decoded(bytes@)->Some_0.3, color_space) is None
            ==> r is Err && r->Err_0 == Error::UnsupportedFormat,
        jpeg_decoded(bytes@) is Some && jpeg_format(jpeg_decoded(bytes@)->Some_0.3, color_space) is Some ==> r is Ok && {
            let d = jpeg_decoded(bytes@)->Some_0;
            let t = r->Ok_0;
            &&& t.data@ == d.0
            &&& t.format == jpeg_format(d.3, color_space)->Some_0
            &&& t.width == d.1 as u32
            &&& t.height == d.2 as u32
        },
{
    match decode_jpeg(bytes) {
        Some(decoded) => jpeg_texture(decoded, color_space),
        None => Err(Error::InvalidJpeg),
    }
}

} // verus!
