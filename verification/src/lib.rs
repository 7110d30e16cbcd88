//! Synthetic georeferencing for raster images.
//!
//! Given the pixel dimensions of an image and a fixed world extent, this crate
//! derives the six-parameter affine geotransform that places the image inside
//! the extent, renders it as a world file, and emits a matching projection
//! file. Image dimensions are discovered from in-memory bytes with a cheap
//! JPEG header probe and a generic full-decode fallback.
//!
//! All coordinates are exact fractions (integer numerator over positive
//! integer denominator), so every derivation in this crate is exact; world
//! files render the fractions as plain decimal numbers.
//!
//! The modules, leaves first: [`frac`] holds the fraction type, [`error`]
//! the error taxonomy, [`extent`] the two world-extent presets and their
//! coordinate reference systems, [`calculator`] the geotransform
//! derivation and its laws, [`worldfile`] the decimal rendering, parsing
//! and their round trip, [`dimensions`] the image-dimension reader,
//! [`extension`] the supported-extension filter, and [`georef`] the
//! per-image record and the end-to-end derivation of both sidecar
//! contents.

pub mod calculator;
pub mod dimensions;
pub mod error;
pub mod extension;
pub mod extent;
pub mod frac;
pub mod georef;
pub mod worldfile;

pub use calculator::BoundingBox;
pub use calculator::Geotransform;
pub use calculator::RasterSize;
pub use calculator::compute_reference;
pub use dimensions::read_image_size;
pub use error::GeoRefError;
pub use extension::is_supported_extension;
pub use extent::WorldExtent;
pub use extent::WorldPreset;
pub use georef::GeoRefOutput;
pub use georef::RefBox;
pub use georef::pseudo_georef;
pub use frac::Frac;
pub use frac::FracV;
