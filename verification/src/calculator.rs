//! The geotransform calculator: fits an image's pixel grid into the fixed
//! world extent and derives the six affine coefficients.

use vstd::prelude::*;
use vstd::math::abs;
use vstd::math::min;

use crate::error::GeoRefError;
use crate::extent::WorldExtent;
use crate::frac::Frac;
use crate::frac::FracV;

verus! {

/// Magnitude cap on the numerators of a [`BoundingBox`]. The derivation
/// below never exceeds it, and it leaves ample room for the further
/// divisions that build the geotransform inside `i128`.
pub const MAX_BB_NUM: i128 = 1267650600228229401496703205376;

/// Cap on the shared denominator of a [`BoundingBox`].
pub const MAX_BB_DEN: i128 = 18446744073709551616;

/// Pixel dimensions of one image. Both dimensions must be strictly
/// positive to be usable; a zero dimension is rejected wherever it would be
/// divided by, never silently coerced.
#[derive(Clone, Copy, Debug, PartialEq, Eq, Structural)]
pub struct RasterSize {
    pub width: u32,
    pub height: u32,
}

impl RasterSize {
    /// Both dimensions are strictly positive.
    pub open spec fn wf(self) -> bool {
        self.width > 0 && self.height > 0
    }

    /// Builds a size, rejecting zero dimensions.
    pub fn new(width: u32, height: u32) -> (r: Result<RasterSize, GeoRefError>)
        ensures
            r is Ok <==> (width > 0 && height > 0),
            r matches Ok(s) ==> s == (RasterSize { width, height }) && s.wf(),
            r matches Err(e) ==> e == GeoRefError::InvalidDimensions,
    {
        if width == 0 || height == 0 {
            Err(GeoRefError::InvalidDimensions)
        } else {
            Ok(RasterSize { width, height })
        }
    }
}

/// The synthetic geographic footprint computed for one image: four corner
/// coordinates as exact fractions over one shared denominator.
#[derive(Clone, Copy, Debug, PartialEq, Eq, Structural)]
pub struct BoundingBox {
    pub min_x: Frac,
    pub min_y: Frac,
    pub max_x: Frac,
    pub max_y: Frac,
}

impl BoundingBox {
    /// The four corners share one positive, bounded denominator, and the
    /// numerators are bounded so that further products stay in `i128`.
    pub open spec fn wf(self) -> bool {
        &&& 0 < self.min_x.den <= MAX_BB_DEN
        &&& self.min_y.den == self.min_x.den
        &&& self.max_x.den == self.min_x.den
        &&& self.max_y.den == self.min_x.den
        &&& -MAX_BB_NUM <= self.min_x.num <= MAX_BB_NUM
        &&& -MAX_BB_NUM <= self.min_y.num <= MAX_BB_NUM
        &&& -MAX_BB_NUM <= self.max_x.num <= MAX_BB_NUM
        &&& -MAX_BB_NUM <= self.max_y.num <= MAX_BB_NUM
    }

    /// The horizontal span `|max_x - min_x|`.
    pub open spec fn spec_width(self) -> FracV {
        FracV { num: abs(self.max_x@.num - self.min_x@.num) as int, den: self.min_x@.den }
    }

    /// The vertical span `|max_y - min_y|`.
    pub open spec fn spec_height(self) -> FracV {
        FracV { num: abs(self.max_y@.num - self.min_y@.num) as int, den: self.min_y@.den }
    }

    /// The absolute horizontal span of the box.
    pub fn width(&self) -> (r: Frac)
        requires
            self.wf(),
        ensures
            r@ == self.spec_width(),
            r.wf(),
            0 <= r.num <= 2 * MAX_BB_NUM,
    {
        let d: i128 = self.max_x.num - self.min_x.num;
        let n: i128 = if d < 0 { -d } else { d };
        Frac { num: n, den: self.min_x.den }
    }

    /// The absolute vertical span of the box.
    pub fn height(&self) -> (r: Frac)
        requires
            self.wf(),
        ensures
            r@ == self.spec_height(),
            r.wf(),
            0 <= r.num <= 2 * MAX_BB_NUM,
    {
        let d: i128 = self.max_y.num - self.min_y.num;
        let n: i128 = if d < 0 { -d } else { d };
        Frac { num: n, den: self.min_y.den }
    }
}

/// The six affine coefficients mapping pixel (column, row) to world (x, y),
/// in world-file slot order: pixel width, y rotation, x rotation, negative
/// pixel height, then x and y of the upper-left corner.
#[derive(Clone, Copy, Debug, PartialEq, Eq, Structural)]
pub struct Geotransform {
    pub pixel_width: Frac,
    pub rot_y: Frac,
    pub rot_x: Frac,
    pub pixel_height: Frac,
    pub origin_x: Frac,
    pub origin_y: Frac,
}

impl Geotransform {
    /// Every coefficient is a well-formed fraction: the transform holds no
    /// undefined value.
    pub open spec fn wf(self) -> bool {
        &&& self.pixel_width.wf()
        &&& self.rot_y.wf()
        &&& self.rot_x.wf()
        &&& self.pixel_height.wf()
        &&& self.origin_x.wf()
        &&& self.origin_y.wf()
    }

    /// The coefficients in world-file slot order.
    pub fn slots(&self) -> (r: Vec<Frac>)
        ensures
            r@.len() == 6,
            r@[0] == self.pixel_width,
            r@[1] == self.rot_y,
            r@[2] == self.rot_x,
            r@[3] == self.pixel_height,
            r@[4] == self.origin_x,
            r@[5] == self.origin_y,
    {
        let v: Vec<Frac> = vec![
            self.pixel_width,
            self.rot_y,
            self.rot_x,
            self.pixel_height,
            self.origin_x,
            self.origin_y,
        ];
        v
    }
}

/// Width of the world extent, `|max_x - min_x|`, in units of `1 / e.den`.
pub open spec fn spec_ext_w(e: WorldExtent) -> int {
    abs(e.max_x - e.min_x) as int
}

/// Height of the world extent, `|max_y - min_y|`, in units of `1 / e.den`.
pub open spec fn spec_ext_h(e: WorldExtent) -> int {
    abs(e.max_y - e.min_y) as int
}

/// The true lower x corner, whatever order the extent's fields are in.
pub open spec fn spec_low_x(e: WorldExtent) -> int {
    min(e.min_x as int, e.max_x as int)
}

/// The true lower y corner, whatever order the extent's fields are in.
pub open spec fn spec_low_y(e: WorldExtent) -> int {
    min(e.min_y as int, e.max_y as int)
}

/// True when the world extent is wider, relative to its height, than the
/// image is relative to its own: the ratio comparison
/// `ext_w / ext_h > width / height`, cross-multiplied. In that case the
/// box's x span is the one divided by the image ratio, otherwise the y span
/// is.
pub open spec fn spec_x_rescaled(size: RasterSize, e: WorldExtent) -> bool {
    spec_ext_w(e) * size.height > spec_ext_h(e) * size.width
}

/// Shared denominator of the bounding-box corners: twice the extent's
/// denominator times the image width (the factors the corner derivations
/// divide by).
pub open spec fn spec_bb_den(size: RasterSize, e: WorldExtent) -> int {
    2 * e.den * size.width
}

/// Numerator of the box's west edge over [`spec_bb_den`].
pub open spec fn spec_bb_min_x_num(size: RasterSize, e: WorldExtent) -> int {
    if spec_x_rescaled(size, e) {
        (2 * spec_low_x(e) + spec_ext_w(e)) * size.width - spec_ext_w(e) * size.height
    } else {
        spec_low_x(e) * 2 * size.width
    }
}

/// Numerator of the box's east edge over [`spec_bb_den`].
pub open spec fn spec_bb_max_x_num(size: RasterSize, e: WorldExtent) -> int {
    if spec_x_rescaled(size, e) {
        (2 * spec_low_x(e) + spec_ext_w(e)) * size.width + spec_ext_w(e) * size.height
    } else {
        (spec_low_x(e) + spec_ext_w(e)) * 2 * size.width
    }
}

/// Numerator of the box's south edge over [`spec_bb_den`].
pub open spec fn spec_bb_min_y_num(size: RasterSize, e: WorldExtent) -> int {
    if spec_x_rescaled(size, e) {
        spec_low_y(e) * 2 * size.width
    } else {
        (2 * spec_low_y(e) + spec_ext_h(e)) * size.width - spec_ext_h(e) * size.height
    }
}

/// Numerator of the box's north edge over [`spec_bb_den`].
pub open spec fn spec_bb_max_y_num(size: RasterSize, e: WorldExtent) -> int {
    if spec_x_rescaled(size, e) {
        (spec_low_y(e) + spec_ext_h(e)) * 2 * size.width
    } else {
        (2 * spec_low_y(e) + spec_ext_h(e)) * size.width + spec_ext_h(e) * size.height
    }
}

/// The box's west edge as a fraction.
pub open spec fn spec_bb_min_x(size: RasterSize, e: WorldExtent) -> FracV {
    FracV { num: spec_bb_min_x_num(size, e), den: spec_bb_den(size, e) }
}

/// The box's south edge as a fraction.
pub open spec fn spec_bb_min_y(size: RasterSize, e: WorldExtent) -> FracV {
    FracV { num: spec_bb_min_y_num(size, e), den: spec_bb_den(size, e) }
}

/// The box's east edge as a fraction.
pub open spec fn spec_bb_max_x(size: RasterSize, e: WorldExtent) -> FracV {
    FracV { num: spec_bb_max_x_num(size, e), den: spec_bb_den(size, e) }
}

/// The box's north edge as a fraction.
pub open spec fn spec_bb_max_y(size: RasterSize, e: WorldExtent) -> FracV {
    FracV { num: spec_bb_max_y_num(size, e), den: spec_bb_den(size, e) }
}

/// The first geotransform slot: the box width divided by the pixel width.
pub open spec fn spec_pixel_width(size: RasterSize, e: WorldExtent) -> FracV {
    FracV {
        num: abs(spec_bb_max_x_num(size, e) - spec_bb_min_x_num(size, e)) as int,
        den: spec_bb_den(size, e) * size.width,
    }
}

/// The fourth geotransform slot: the negated box height divided by the
/// pixel height.
pub open spec fn spec_pixel_height(size: RasterSize, e: WorldExtent) -> FracV {
    FracV {
        num: -(abs(spec_bb_max_y_num(size, e) - spec_bb_min_y_num(size, e)) as int),
        den: spec_bb_den(size, e) * size.height,
    }
}

/// The six world-file slots as fractions, in their fixed order: pixel
/// width, y rotation, x rotation, negative pixel height, then x and y of
/// the center of the upper-left pixel.
pub open spec fn spec_world_file_slots(size: RasterSize, e: WorldExtent) -> Seq<FracV> {
    seq![
        spec_pixel_width(size, e),
        FracV { num: 0, den: 1 },
        FracV { num: 0, den: 1 },
        spec_pixel_height(size, e),
        spec_bb_min_x(size, e),
        spec_bb_max_y(size, e),
    ]
}

/// The derivation is deterministic and pure: it depends on nothing but the
/// raster size and the world extent, so equal inputs give an equal bounding
/// box and equal world-file slots.
pub proof fn lemma_compute_reference_deterministic(
    s1: RasterSize,
    e1: WorldExtent,
    s2: RasterSize,
    e2: WorldExtent,
)
    requires
        s1 == s2,
        e1 == e2,
    ensures
        spec_bb_min_x(s1, e1) == spec_bb_min_x(s2, e2),
        spec_bb_min_y(s1, e1) == spec_bb_min_y(s2, e2),
        spec_bb_max_x(s1, e1) == spec_bb_max_x(s2, e2),
        spec_bb_max_y(s1, e1) == spec_bb_max_y(s2, e2),
        spec_world_file_slots(s1, e1) == spec_world_file_slots(s2, e2),
{
}

/// The bounding box is always centered on the world extent's own midpoint,
/// whatever order the extent's corner fields are in: on each axis, the sum
/// of the two box edges equals twice the extent's center.
pub proof fn lemma_centered(size: RasterSize, e: WorldExtent)
    requires
        size.wf(),
        e.wf(),
    ensures
        spec_bb_min_x(size, e).plus(spec_bb_max_x(size, e)).eqv(
            FracV { num: 2 * spec_low_x(e) + spec_ext_w(e), den: e.den as int },
        ),
        spec_bb_min_y(size, e).plus(spec_bb_max_y(size, e)).eqv(
            FracV { num: 2 * spec_low_y(e) + spec_ext_h(e), den: e.den as int },
        ),
{
    let dn = spec_bb_den(size, e);
    let ax = spec_bb_min_x_num(size, e);
    let bx = spec_bb_max_x_num(size, e);
    let ay = spec_bb_min_y_num(size, e);
    let by = spec_bb_max_y_num(size, e);
    let lx = spec_low_x(e);
    let ly = spec_low_y(e);
    let ew = spec_ext_w(e);
    let eh = spec_ext_h(e);
    let w = size.width as int;
    let h = size.height as int;
    if spec_x_rescaled(size, e) {
        assert((ax * dn + bx * dn) * e.den == (2 * lx + ew) * (dn * dn)) by (nonlinear_arith)
            requires
                dn == 2 * e.den * w,
                ax == (2 * lx + ew) * w - ew * h,
                bx == (2 * lx + ew) * w + ew * h,
        ;
        assert((ay * dn + by * dn) * e.den == (2 * ly + eh) * (dn * dn)) by (nonlinear_arith)
            requires
                dn == 2 * e.den * w,
                ay == ly * 2 * w,
                by == (ly + eh) * 2 * w,
        ;
    } else {
        assert((ax * dn + bx * dn) * e.den == (2 * lx + ew) * (dn * dn)) by (nonlinear_arith)
            requires
                dn == 2 * e.den * w,
                ax == lx * 2 * w,
                bx == (lx + ew) * 2 * w,
        ;
        assert((ay * dn + by * dn) * e.den == (2 * ly + eh) * (dn * dn)) by (nonlinear_arith)
            requires
                dn == 2 * e.den * w,
                ay == (2 * ly + eh) * w - eh * h,
                by == (2 * ly + eh) * w + eh * h,
        ;
    }
}

/// For a square world extent and a landscape or square image, the box keeps
/// the image's aspect ratio exactly: box width to box height is pixel width
/// to pixel height. (A non-square extent stretches the box instead: the
/// rescaling divides one fixed world span by the image ratio, so the box
/// ratio keeps the extent's own ratio as a factor. With the geographic
/// extent, twice as wide as high, a 2048 by 1024 image gets a box four
/// times as wide as high.)
pub proof fn lemma_aspect_ratio_preserved(size: RasterSize, e: WorldExtent)
    requires
        size.wf(),
        e.wf(),
        spec_ext_w(e) == spec_ext_h(e),
        spec_ext_w(e) > 0,
        size.height <= size.width,
    ensures
        spec_bb_max_x_num(size, e) - spec_bb_min_x_num(size, e) > 0,
        spec_bb_max_y_num(size, e) - spec_bb_min_y_num(size, e) > 0,
        (FracV {
            num: spec_bb_max_x_num(size, e) - spec_bb_min_x_num(size, e),
            den: spec_bb_max_y_num(size, e) - spec_bb_min_y_num(size, e),
        }).eqv(FracV { num: size.width as int, den: size.height as int }),
{
    let lx = spec_low_x(e);
    let ly = spec_low_y(e);
    let ew = spec_ext_w(e);
    let eh = spec_ext_h(e);
    let w = size.width as int;
    let h = size.height as int;
    assert(!(ew * h > eh * w)) by (nonlinear_arith)
        requires
            ew == eh,
            ew > 0,
            0 < h <= w,
    ;
    assert(!spec_x_rescaled(size, e));
    let ax = spec_bb_min_x_num(size, e);
    let bx = spec_bb_max_x_num(size, e);
    let ay = spec_bb_min_y_num(size, e);
    let by = spec_bb_max_y_num(size, e);
    assert(ax == lx * 2 * w && bx == (lx + ew) * 2 * w);
    assert(ay == (2 * ly + eh) * w - eh * h && by == (2 * ly + eh) * w + eh * h);
    let wx = bx - ax;
    let wy = by - ay;
    assert(wx == ew * (2 * w)) by (nonlinear_arith)
        requires
            wx == (lx + ew) * 2 * w - lx * 2 * w,
    ;
    assert(wy == 2 * (eh * h)) by (nonlinear_arith)
        requires
            wy == ((2 * ly + eh) * w + eh * h) - ((2 * ly + eh) * w - eh * h),
    ;
    assert(wx > 0 && wy > 0 && wx * h == w * wy) by (nonlinear_arith)
        requires
            wx == ew * (2 * w),
            wy == 2 * (eh * h),
            ew == eh,
            ew > 0,
            0 < h <= w,
    ;
}

/// The rotation slots of the world file are always exactly zero.
pub proof fn lemma_rotations_zero(size: RasterSize, e: WorldExtent)
    ensures
        spec_world_file_slots(size, e)[1].is_zero(),
        spec_world_file_slots(size, e)[2].is_zero(),
        spec_world_file_slots(size, e)[1] == (FracV { num: 0, den: 1 }),
        spec_world_file_slots(size, e)[2] == (FracV { num: 0, den: 1 }),
{
}

/// The pixel-height slot never denotes a positive number, and every slot of
/// the world file is a well-formed fraction: no slot divides by zero, so
/// none denotes an undefined value.
pub proof fn lemma_pixel_height_nonpositive(size: RasterSize, e: WorldExtent)
    requires
        size.wf(),
        e.wf(),
    ensures
        spec_pixel_height(size, e).is_nonpositive(),
        forall|i: int| 0 <= i < 6 ==> #[trigger] spec_world_file_slots(size, e)[i].wf(),
{
    let w = size.width as int;
    let h = size.height as int;
    let dn = spec_bb_den(size, e);
    lemma_mul_pos(2 * e.den, w);
    lemma_mul_pos(dn, w);
    lemma_mul_pos(dn, h);
    assert(spec_world_file_slots(size, e)[0].wf());
    assert(spec_world_file_slots(size, e)[1].wf());
    assert(spec_world_file_slots(size, e)[2].wf());
    assert(spec_world_file_slots(size, e)[3].wf());
    assert(spec_world_file_slots(size, e)[4].wf());
    assert(spec_world_file_slots(size, e)[5].wf());
}

/// Bounds `|a * b|` by the product of the factor bounds.
pub(crate) proof fn lemma_mul_bound(a: int, b: int, am: int, bm: int)
    by (nonlinear_arith)
    requires
        0 <= am,
        -am <= a <= am,
        0 <= b <= bm,
    ensures
        -(am * bm) <= a * b <= am * bm,
{
}

/// A product of two positive factors is positive.
pub(crate) proof fn lemma_mul_pos(a: int, b: int)
    by (nonlinear_arith)
    requires
        0 < a,
        0 < b,
    ensures
        0 < a * b,
{
}

/// Fits the image's pixel grid into the world extent and derives both the
/// resulting bounding box and the six-coefficient geotransform.
///
/// The derivation: take the extent's absolute spans, compare the world and
/// image aspect ratios, divide the overflowing span by the image ratio,
/// center the rescaled spans on the extent's midpoint, and read the
/// transform off the box. A zero dimension is rejected up front: the
/// derivation would otherwise divide by it, and no corner would denote a
/// number.
pub fn compute_reference(size: RasterSize, extent: &WorldExtent) -> (r: Result<
    (BoundingBox, Geotransform),
    GeoRefError,
>)
    requires
        extent.wf(),
    ensures
        r is Ok <==> size.wf(),
        r matches Err(e) ==> e == GeoRefError::InvalidDimensions,
        r matches Ok(p) ==> ({
            &&& p.0.wf()
            &&& p.1.wf()
            &&& p.0.min_x@ == spec_bb_min_x(size, *extent)
            &&& p.0.min_y@ == spec_bb_min_y(size, *extent)
            &&& p.0.max_x@ == spec_bb_max_x(size, *extent)
            &&& p.0.max_y@ == spec_bb_max_y(size, *extent)
            &&& p.1.pixel_width@ == spec_pixel_width(size, *extent)
            &&& p.1.rot_y@ == (FracV { num: 0, den: 1 })
            &&& p.1.rot_x@ == (FracV { num: 0, den: 1 })
            &&& p.1.pixel_height@ == spec_pixel_height(size, *extent)
            &&& p.1.origin_x@ == spec_bb_min_x(size, *extent)
            &&& p.1.origin_y@ == spec_bb_max_y(size, *extent)
        }),
{
    if size.width == 0 || size.height == 0 {
        return Err(GeoRefError::InvalidDimensions);
    }
    let w: i128 = size.width as i128;
    let h: i128 = size.height as i128;
    let d: i128 = extent.den as i128;

    let dx: i128 = extent.max_x as i128 - extent.min_x as i128;
    let ew: i128 = if dx < 0 { -dx } else { dx };
    let dy: i128 = extent.max_y as i128 - extent.min_y as i128;
    let eh: i128 = if dy < 0 { -dy } else { dy };
    let lx: i128 = if extent.min_x <= extent.max_x {
        extent.min_x as i128
    } else {
        extent.max_x as i128
    };
    let ly: i128 = if extent.min_y <= extent.max_y {
        extent.min_y as i128
    } else {
        extent.max_y as i128
    };

    proof {
        lemma_mul_bound(ew as int, h as int, 0x2_0000_0000_0000_0000, 0x1_0000_0000);
        lemma_mul_bound(eh as int, w as int, 0x2_0000_0000_0000_0000, 0x1_0000_0000);
    }
    let x_rescaled: bool = ew * h > eh * w;

    proof {
        lemma_mul_bound(2 * d as int, w as int, 2_000_000_000, 0x1_0000_0000);
        lemma_mul_pos(2 * d as int, w as int);
    }
    let den: i128 = 2 * d * w;

    let min_x_num: i128;
    let max_x_num: i128;
    let min_y_num: i128;
    let max_y_num: i128;
    if x_rescaled {
        let cx2: i128 = 2 * lx + ew;
        proof {
            lemma_mul_bound(cx2 as int, w as int, 0x4_0000_0000_0000_0000, 0x1_0000_0000);
            lemma_mul_bound((2 * ly) as int, w as int, 0x2_0000_0000_0000_0000, 0x1_0000_0000);
            lemma_mul_bound(
                ((ly + eh) * 2) as int,
                w as int,
                0x8_0000_0000_0000_0000,
                0x1_0000_0000,
            );
        }
        let a: i128 = cx2 * w;
        let b: i128 = ew * h;
        min_x_num = a - b;
        max_x_num = a + b;
        min_y_num = ly * 2 * w;
        max_y_num = (ly + eh) * 2 * w;
    } else {
        let cy2: i128 = 2 * ly + eh;
        proof {
            lemma_mul_bound(cy2 as int, w as int, 0x4_0000_0000_0000_0000, 0x1_0000_0000);
            lemma_mul_bound(eh as int, h as int, 0x2_0000_0000_0000_0000, 0x1_0000_0000);
            lemma_mul_bound((2 * lx) as int, w as int, 0x2_0000_0000_0000_0000, 0x1_0000_0000);
            lemma_mul_bound(
                ((lx + ew) * 2) as int,
                w as int,
                0x8_0000_0000_0000_0000,
                0x1_0000_0000,
            );
        }
        let a: i128 = cy2 * w;
        let b: i128 = eh * h;
        min_y_num = a - b;
        max_y_num = a + b;
        min_x_num = lx * 2 * w;
        max_x_num = (lx + ew) * 2 * w;
    }

    let bbox = BoundingBox {
        min_x: Frac { num: min_x_num, den },
        min_y: Frac { num: min_y_num, den },
        max_x: Frac { num: max_x_num, den },
        max_y: Frac { num: max_y_num, den },
    };

    proof {
        lemma_mul_bound(den as int, w as int, MAX_BB_DEN as int, 0x1_0000_0000);
        lemma_mul_bound(den as int, h as int, MAX_BB_DEN as int, 0x1_0000_0000);
        lemma_mul_pos(den as int, w as int);
        lemma_mul_pos(den as int, h as int);
    }
    let width = bbox.width();
    let height = bbox.height();
    let gt = Geotransform {
        pixel_width: Frac { num: width.num, den: den * w },
        rot_y: Frac { num: 0, den: 1 },
        rot_x: Frac { num: 0, den: 1 },
        pixel_height: Frac { num: -height.num, den: den * h },
        origin_x: bbox.min_x,
        origin_y: bbox.max_y,
    };
    Ok((bbox, gt))
}

} // verus!
