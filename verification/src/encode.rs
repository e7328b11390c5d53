//! Lossy re-encoding of a converted page.
//!
//! The general-purpose codec is an outside service; the library fixes the
//! quality level and names the encoder's output, which is a function of the
//! pixel bytes and dimensions alone.

use vstd::prelude::*;

verus! {

/// The bytes the JPEG codec produces, at the converter's fixed quality
/// level, for a packed RGB buffer of the given dimensions.
pub uninterp spec fn jpeg_of(pixels: Seq<u8>, width: int, height: int) -> Seq<u8>;

/// Encode a packed RGB buffer as a JPEG at the converter's fixed quality
/// level of 85.
///
/// Relies on image::codecs::jpeg::JpegEncoder: the output is a function of
/// the pixel bytes and dimensions alone; encoding a buffer of exactly three
/// bytes per pixel fails exactly when a dimension is zero or above the JPEG
/// limit of 65535, since writing to a Vec cannot fail.
#[verifier::external_body]
pub(crate) fn encode_rgb_jpeg(pixels: &Vec<u8>, width: u32, height: u32) -> (r: Result<
    Vec<u8>,
    (),
>)
    requires
        pixels@.len() == 3 * width * height,
    ensures
        r is Ok <==> (1 <= width <= 65535 && 1 <= height <= 65535),
        r is Ok ==> r->Ok_0@ == jpeg_of(pixels@, width as int, height as int),
{
    let mut jpeg: Vec<u8> = Vec::new();
    let mut encoder = image::codecs::jpeg::JpegEncoder::new_with_quality(&mut jpeg, 85);
    match encoder.encode(pixels.as_slice(), width, height, image::ExtendedColorType::Rgb8) {
        Ok(()) => Ok(jpeg),
        Err(_) => Err(()),
    }
}

} // verus!
