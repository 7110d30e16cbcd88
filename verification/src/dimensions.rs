//! The dimension reader: pixel dimensions of an in-memory image, with a
//! cheap JPEG header probe and a generic full-decode fallback.

use std::io::Cursor;

use vstd::prelude::*;

use crate::calculator::RasterSize;
use crate::error::GeoRefError;

verus! {

/// What the JPEG header probe yields for a byte stream: the declared
/// dimensions where the stream starts with a readable JPEG header, nothing
/// otherwise. A pure function of the bytes.
pub uninterp spec fn spec_jpeg_header_dims(bytes: Seq<u8>) -> Option<(u32, u32)>;

/// What a full generic decode yields for a byte stream: the pixel
/// dimensions where some decoder recognizes the content, nothing
/// otherwise. A pure function of the bytes.
pub uninterp spec fn spec_decoded_dims(bytes: Seq<u8>) -> Option<(u32, u32)>;

/// Relies on `image::codecs::jpeg::JpegDecoder::new`, which reads just the
/// JPEG headers of the stream, and `image::ImageDecoder::dimensions`,
/// which returns the dimensions those headers declare. Both depend on the
/// bytes alone, named here [`spec_jpeg_header_dims`].
#[verifier::external_body]
fn jpeg_header_dimensions(bytes: &[u8]) -> (r: Option<(u32, u32)>)
    ensures
        r == spec_jpeg_header_dims(bytes@),
{
    match image::codecs::jpeg::JpegDecoder::new(Cursor::new(bytes)) {
        Ok(dec) => Some(image::ImageDecoder::dimensions(&dec)),
        Err(_) => None,
    }
}

/// Relies on `image::load_from_memory`, which guesses the format from the
/// content and fully decodes it, and `image::GenericImageView::dimensions`,
/// which returns the decoded image's dimensions. Both depend on the bytes
/// alone, named here [`spec_decoded_dims`].
#[verifier::external_body]
fn decoded_dimensions(bytes: &[u8]) -> (r: Option<(u32, u32)>)
    ensures
        r == spec_decoded_dims(bytes@),
{
    match image::load_from_memory(bytes) {
        Ok(img) => Some(image::GenericImageView::dimensions(&img)),
        Err(_) => None,
    }
}

/// What reading an image's dimensions yields: the header probe's answer
/// where it has one (its failures are swallowed), the full decode's
/// otherwise; no recognized content is a decode error, and a declared zero
/// dimension is rejected rather than passed on.
pub open spec fn spec_read_image_size(bytes: Seq<u8>) -> Result<RasterSize, GeoRefError> {
    let dims = if spec_jpeg_header_dims(bytes) is Some {
        spec_jpeg_header_dims(bytes)
    } else {
        spec_decoded_dims(bytes)
    };
    match dims {
        Some(d) => {
            if d.0 > 0 && d.1 > 0 {
                Ok(RasterSize { width: d.0, height: d.1 })
            } else {
                Err(GeoRefError::InvalidDimensions)
            }
        },
        None => Err(GeoRefError::Decode),
    }
}

/// Reads the pixel dimensions of the image held in `bytes`.
///
/// The JPEG header probe runs first, purely as a latency optimization:
/// full decoding of a large raster is far slower than reading its header.
/// A probe failure is swallowed and the generic full decode decides; only
/// its failure surfaces, as a decode error. A dimension of zero is
/// rejected here, so every size handed out is usable.
pub fn read_image_size(bytes: &[u8]) -> (r: Result<RasterSize, GeoRefError>)
    ensures
        r == spec_read_image_size(bytes@),
        r matches Ok(s) ==> s.wf(),
{
    let dims: Option<(u32, u32)> = match jpeg_header_dimensions(bytes) {
        Some(d) => Some(d),
        None => decoded_dimensions(bytes),
    };
    match dims {
        Some(d) => {
            if d.0 > 0 && d.1 > 0 {
                Ok(RasterSize { width: d.0, height: d.1 })
            } else {
                Err(GeoRefError::InvalidDimensions)
            }
        },
        None => Err(GeoRefError::Decode),
    }
}

} // verus!
