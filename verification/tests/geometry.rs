//! The geotransform calculator on concrete inputs.

use georef::Frac;
use georef::GeoRefError;
use georef::RasterSize;
use georef::RefBox;
use georef::WorldExtent;
use georef::compute_reference;

fn as_f64(f: &Frac) -> f64 {
    f.num as f64 / f.den as f64
}

#[test]
fn scenario_geographic_2048_1024() {
    // A 2048 x 1024 image in the geographic extent: the world is twice as
    // wide as high and so is the image, so the y span is divided by the
    // image ratio and the box runs the full longitude range.
    let extent = WorldExtent::geographic();
    let refbox = RefBox::new(2048, 1024, &extent).unwrap();
    assert_eq!(as_f64(&refbox.bbox.min_x), -180.0);
    assert_eq!(as_f64(&refbox.bbox.max_x), 180.0);
    assert_eq!(as_f64(&refbox.bbox.min_y), -45.0);
    assert_eq!(as_f64(&refbox.bbox.max_y), 45.0);

    let v = refbox.world_file_values();
    assert_eq!(v.len(), 6);
    // Pixel width is exactly 360 / 2048.
    assert_eq!(as_f64(&v[0]), 0.17578125);
    assert_eq!(v[0].num, 1474560);
    assert_eq!(v[0].den, 8388608);
    assert_eq!(v[1].num, 0);
    assert_eq!(v[2].num, 0);
    // Pixel height is exactly -(90 / 1024).
    assert_eq!(as_f64(&v[3]), -0.087890625);
    assert_eq!(as_f64(&v[4]), -180.0);
    assert_eq!(as_f64(&v[5]), 45.0);
}

#[test]
fn scenario_web_mercator_2_1() {
    let extent = WorldExtent::web_mercator();
    let refbox = RefBox::new(2, 1, &extent).unwrap();
    assert_eq!(as_f64(&refbox.bbox.min_x), -20026376.39);
    assert_eq!(as_f64(&refbox.bbox.max_x), 20026376.39);
    // The y span shrinks to half its world height, centered on zero.
    assert_eq!(refbox.bbox.min_y.num, -4009793220);
    assert_eq!(refbox.bbox.min_y.den, 400);
    assert_eq!(as_f64(&refbox.bbox.min_y), -10024483.05);
    assert_eq!(as_f64(&refbox.bbox.max_y), 10024483.05);
}

#[test]
fn deterministic_for_equal_inputs() {
    let extent = WorldExtent::geographic();
    let a = RefBox::new(640, 480, &extent).unwrap();
    let b = RefBox::new(640, 480, &extent).unwrap();
    assert_eq!(a.bbox, b.bbox);
    assert_eq!(a.size, b.size);
    assert_eq!(a.world_file_values(), b.world_file_values());
}

#[test]
fn aspect_ratio_kept_in_square_extent() {
    // In a square extent, a landscape image's box has exactly the image's
    // aspect ratio.
    let extent = WorldExtent::new(0, 0, 100, 100, 1);
    let refbox = RefBox::new(4, 2, &extent).unwrap();
    let b = &refbox.bbox;
    // All four corners share one denominator, so spans compare by numerator.
    let width_num = b.max_x.num - b.min_x.num;
    let height_num = b.max_y.num - b.min_y.num;
    assert_eq!(width_num * 2, height_num * 4);
    assert_eq!(as_f64(&b.min_x), 0.0);
    assert_eq!(as_f64(&b.max_x), 100.0);
    assert_eq!(as_f64(&b.min_y), 25.0);
    assert_eq!(as_f64(&b.max_y), 75.0);
}

#[test]
fn centered_whatever_corner_order() {
    // Swapping the extent's corner fields describes the same rectangle and
    // yields the same box.
    let normal = WorldExtent::geographic();
    let swapped = WorldExtent::new(180, 90, -180, -90, 1);
    let a = RefBox::new(10, 7, &normal).unwrap();
    let b = RefBox::new(10, 7, &swapped).unwrap();
    assert_eq!(a.bbox, b.bbox);
    // The box midpoint is the extent midpoint (zero on both axes here).
    assert_eq!(a.bbox.min_x.num + a.bbox.max_x.num, 0);
    assert_eq!(a.bbox.min_y.num + a.bbox.max_y.num, 0);
}

#[test]
fn rotations_are_exactly_zero() {
    let extent = WorldExtent::web_mercator();
    let v = RefBox::new(123, 456, &extent).unwrap().world_file_values();
    assert_eq!(v[1].num, 0);
    assert_eq!(v[1].den, 1);
    assert_eq!(v[2].num, 0);
    assert_eq!(v[2].den, 1);
}

#[test]
fn pixel_height_never_positive() {
    let extent = WorldExtent::geographic();
    for (w, h) in [(1u32, 1u32), (2048, 1024), (7, 3000), (5000, 5000)] {
        let v = RefBox::new(w, h, &extent).unwrap().world_file_values();
        assert!(v[3].num <= 0);
        assert!(v[3].den > 0);
    }
}

#[test]
fn zero_dimensions_rejected() {
    let extent = WorldExtent::geographic();
    assert_eq!(RefBox::new(0, 100, &extent).unwrap_err(), GeoRefError::InvalidDimensions);
    assert_eq!(RefBox::new(100, 0, &extent).unwrap_err(), GeoRefError::InvalidDimensions);
    assert_eq!(RefBox::new(0, 0, &extent).unwrap_err(), GeoRefError::InvalidDimensions);
    let r = compute_reference(RasterSize { width: 0, height: 9 }, &extent);
    assert_eq!(r.unwrap_err(), GeoRefError::InvalidDimensions);
    assert_eq!(
        RasterSize::new(3, 0).unwrap_err(),
        GeoRefError::InvalidDimensions
    );
}

#[test]
fn compute_reference_returns_box_and_transform() {
    let extent = WorldExtent::geographic();
    let (bbox, gt) = compute_reference(RasterSize { width: 2048, height: 1024 }, &extent).unwrap();
    assert_eq!(as_f64(&gt.pixel_width), 0.17578125);
    assert_eq!(as_f64(&gt.pixel_height), -0.087890625);
    assert_eq!(gt.origin_x, bbox.min_x);
    assert_eq!(gt.origin_y, bbox.max_y);
    let slots = gt.slots();
    assert_eq!(slots.len(), 6);
    assert_eq!(slots[0], gt.pixel_width);
    assert_eq!(slots[5], gt.origin_y);
}

#[test]
fn error_descriptions() {
    assert_eq!(GeoRefError::Io.describe(), "I/O error");
    assert_eq!(GeoRefError::Decode.describe(), "no decoder recognized the image");
    assert_eq!(GeoRefError::Encoding.describe(), "invalid text encoding");
    assert_eq!(GeoRefError::InvalidDimensions.describe(), "image has a zero dimension");
}
