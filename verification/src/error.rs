//! Error taxonomy: every failure a single image can run into.

use vstd::prelude::*;

verus! {

/// The tagged failures of processing one image. All of them abort that
/// image's processing; none of them is transient, so no retry helps.
#[derive(Clone, Copy, Debug, PartialEq, Eq, Structural)]
pub enum GeoRefError {
    /// A file could not be opened, read, created or written.
    Io,
    /// No decoder recognized the image content, so its pixel dimensions are
    /// unknown.
    Decode,
    /// Text serialization of a path or file name failed because of invalid
    /// encoding.
    Encoding,
    /// A raster dimension was zero: a geotransform would have to divide by
    /// it, so the size is rejected before any arithmetic happens.
    InvalidDimensions,
}

impl GeoRefError {
    /// A short human-readable name of the error kind, for diagnostics.
    pub fn describe(&self) -> (r: &'static str)
        ensures
            *self is Io ==> r@ == "I/O error"@,
            *self is Decode ==> r@ == "no decoder recognized the image"@,
            *self is Encoding ==> r@ == "invalid text encoding"@,
            *self is InvalidDimensions ==> r@ == "image has a zero dimension"@,
    {
        match self {
            GeoRefError::Io => "I/O error",
            GeoRefError::Decode => "no decoder recognized the image",
            GeoRefError::Encoding => "invalid text encoding",
            GeoRefError::InvalidDimensions => "image has a zero dimension",
        }
    }
}

} // verus!
