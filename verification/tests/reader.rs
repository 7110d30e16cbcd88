//! Dimension reading from real encoded images, the extension filter, and
//! the per-image derivation end to end.

use std::io::Cursor;

use georef::GeoRefError;
use georef::WorldPreset;
use georef::is_supported_extension;
use georef::pseudo_georef;
use georef::read_image_size;

fn png_bytes(width: u32, height: u32) -> Vec<u8> {
    let img = image::RgbaImage::new(width, height);
    let mut buf: Vec<u8> = Vec::new();
    img.write_to(&mut Cursor::new(&mut buf), image::ImageFormat::Png).unwrap();
    buf
}

fn jpeg_bytes(width: u32, height: u32) -> Vec<u8> {
    let img = image::RgbImage::new(width, height);
    let mut buf: Vec<u8> = Vec::new();
    img.write_to(&mut Cursor::new(&mut buf), image::ImageFormat::Jpeg).unwrap();
    buf
}

#[test]
fn reads_png_dimensions_via_fallback() {
    let bytes = png_bytes(2, 3);
    let size = read_image_size(&bytes).unwrap();
    assert_eq!(size.width, 2);
    assert_eq!(size.height, 3);
}

#[test]
fn reads_jpeg_dimensions_via_header_probe() {
    let bytes = jpeg_bytes(5, 4);
    let size = read_image_size(&bytes).unwrap();
    assert_eq!(size.width, 5);
    assert_eq!(size.height, 4);
}

#[test]
fn corrupt_content_is_a_decode_error() {
    let r = read_image_size(b"this is not an image at all");
    assert_eq!(r.unwrap_err(), GeoRefError::Decode);
    assert_eq!(read_image_size(b"").unwrap_err(), GeoRefError::Decode);
}

#[test]
fn supported_extensions_ignore_case() {
    assert!(is_supported_extension(Some("jpg")));
    assert!(is_supported_extension(Some("JPG")));
    assert!(is_supported_extension(Some("jpeg")));
    assert!(is_supported_extension(Some("Png")));
    assert!(is_supported_extension(Some("gif")));
    assert!(is_supported_extension(Some("TIFF")));
    assert!(is_supported_extension(Some("tif")));
    assert!(!is_supported_extension(Some("txt")));
    assert!(!is_supported_extension(Some("jpgx")));
    assert!(!is_supported_extension(Some("")));
    assert!(!is_supported_extension(None));
}

#[test]
fn pseudo_georef_end_to_end() {
    let bytes = png_bytes(2, 1);
    let out = pseudo_georef(
        &bytes,
        &WorldPreset::Geographic,
        Some("tile".to_string()),
        Some("tile.png".to_string()),
    )
    .unwrap();
    assert_eq!(out.refbox.size.width, 2);
    assert_eq!(out.refbox.size.height, 1);
    assert_eq!(out.refbox.name.as_deref(), Some("tile"));
    assert_eq!(out.refbox.filename.as_deref(), Some("tile.png"));
    assert_eq!(
        std::str::from_utf8(&out.world_file).unwrap(),
        "180\n0\n0\n-90\n-180\n45\n"
    );
    let proj = std::str::from_utf8(&out.projection_file).unwrap();
    assert!(proj.starts_with("GEOGCS[\"GCS_WGS_1984\""));
}

#[test]
fn pseudo_georef_mercator_projection_file() {
    let bytes = png_bytes(3, 3);
    let out = pseudo_georef(&bytes, &WorldPreset::WebMercator, None, None).unwrap();
    let proj = std::str::from_utf8(&out.projection_file).unwrap();
    assert!(proj.starts_with("PROJCS[\"WGS_1984_Web_Mercator_Auxiliary_Sphere\""));
    assert!(out.refbox.name.is_none());
}

#[test]
fn pseudo_georef_rejects_corrupt_content() {
    let r = pseudo_georef(b"garbage header", &WorldPreset::Geographic, None, None);
    assert_eq!(r.unwrap_err(), GeoRefError::Decode);
}
