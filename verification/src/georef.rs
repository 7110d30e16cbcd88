//! Per-image aggregation: the reference record of one image and the
//! complete derivation of its two sidecar contents.

use vstd::prelude::*;
use vstd::slice::slice_to_vec;
use vstd::string::StringSliceAdditionalSpecFns;

use crate::calculator::BoundingBox;
use crate::calculator::MAX_BB_DEN;
use crate::calculator::RasterSize;
use crate::calculator::compute_reference;
use crate::calculator::lemma_mul_bound;
use crate::calculator::lemma_mul_pos;
use crate::calculator::spec_bb_max_x;
use crate::calculator::spec_bb_max_y;
use crate::calculator::spec_bb_min_x;
use crate::calculator::spec_bb_min_y;
use crate::calculator::spec_world_file_slots;
use crate::dimensions::read_image_size;
use crate::dimensions::spec_read_image_size;
use crate::error::GeoRefError;
use crate::extent::WorldExtent;
use crate::extent::WorldPreset;
use crate::extent::spec_preset_extent;
use crate::extent::spec_wkt_geographic;
use crate::extent::spec_wkt_web_mercator;
use crate::frac::Frac;
use crate::frac::FracV;
use crate::worldfile::MAX_FORMAT_DEN;
use crate::worldfile::spec_world_file_bytes;
use crate::worldfile::world_file_contents;

verus! {

/// The per-image record: the synthetic footprint, the pixel size, and
/// optionally the image's base name and path for reporting. Built once per
/// processed image and never mutated afterwards.
#[derive(Debug)]
pub struct RefBox {
    pub bbox: BoundingBox,
    pub size: RasterSize,
    pub name: Option<String>,
    pub filename: Option<String>,
}

impl RefBox {
    /// A usable record holds a well-formed box and a positive size.
    pub open spec fn wf(self) -> bool {
        self.bbox.wf() && self.size.wf()
    }

    /// Builds the record for an image of the given pixel dimensions placed
    /// in the given extent; a zero dimension is rejected.
    pub fn new(width: u32, height: u32, extent: &WorldExtent) -> (r: Result<RefBox, GeoRefError>)
        requires
            extent.wf(),
        ensures
            r is Ok <==> (width > 0 && height > 0),
            r matches Err(e) ==> e == GeoRefError::InvalidDimensions,
            r matches Ok(rb) ==> ({
                &&& rb.wf()
                &&& rb.size == (RasterSize { width, height })
                &&& rb.bbox.min_x@ == spec_bb_min_x(RasterSize { width, height }, *extent)
                &&& rb.bbox.min_y@ == spec_bb_min_y(RasterSize { width, height }, *extent)
                &&& rb.bbox.max_x@ == spec_bb_max_x(RasterSize { width, height }, *extent)
                &&& rb.bbox.max_y@ == spec_bb_max_y(RasterSize { width, height }, *extent)
                &&& rb.name is None
                &&& rb.filename is None
            }),
    {
        let size = RasterSize { width, height };
        match compute_reference(size, extent) {
            Ok(p) => Ok(RefBox { bbox: p.0, size, name: None, filename: None }),
            Err(e) => Err(e),
        }
    }

    /// The six world-file values of the record, in slot order, read off
    /// the bounding box and the pixel size: span per pixel on each axis
    /// (the vertical one negated), zero rotations, and the upper-left
    /// corner.
    pub fn world_file_values(&self) -> (r: Vec<Frac>)
        requires
            self.wf(),
        ensures
            r@.len() == 6,
            r@[0]@ == (FracV {
                num: self.bbox.spec_width().num,
                den: self.bbox.min_x@.den * self.size.width,
            }),
            r@[1]@ == (FracV { num: 0, den: 1 }),
            r@[2]@ == (FracV { num: 0, den: 1 }),
            r@[3]@ == (FracV {
                num: -self.bbox.spec_height().num,
                den: self.bbox.min_x@.den * self.size.height,
            }),
            r@[4] == self.bbox.min_x,
            r@[5] == self.bbox.max_y,
            forall|i: int|
                0 <= i < 6 ==> (#[trigger] r@[i]).wf() && r@[i].num > i128::MIN && r@[i].den
                    <= MAX_FORMAT_DEN,
    {
        proof {
            lemma_mul_bound(
                self.bbox.min_x@.den,
                self.size.width as int,
                MAX_BB_DEN as int,
                0x1_0000_0000,
            );
            lemma_mul_bound(
                self.bbox.min_x@.den,
                self.size.height as int,
                MAX_BB_DEN as int,
                0x1_0000_0000,
            );
            lemma_mul_pos(self.bbox.min_x@.den, self.size.width as int);
            lemma_mul_pos(self.bbox.min_x@.den, self.size.height as int);
        }
        let den_w: i128 = self.bbox.min_x.den * (self.size.width as i128);
        let den_h: i128 = self.bbox.min_x.den * (self.size.height as i128);
        let width = self.bbox.width();
        let height = self.bbox.height();
        let neg_height_num: i128 = -height.num;
        let v: Vec<Frac> = vec![
            Frac { num: width.num, den: den_w },
            Frac { num: 0, den: 1 },
            Frac { num: 0, den: 1 },
            Frac { num: neg_height_num, den: den_h },
            self.bbox.min_x,
            self.bbox.max_y,
        ];
        proof {
            assert(v@[0].wf() && v@[0].num > i128::MIN && v@[0].den <= MAX_FORMAT_DEN);
            assert(v@[1].wf() && v@[1].num > i128::MIN && v@[1].den <= MAX_FORMAT_DEN);
            assert(v@[2].wf() && v@[2].num > i128::MIN && v@[2].den <= MAX_FORMAT_DEN);
            assert(v@[3].wf() && v@[3].num > i128::MIN && v@[3].den <= MAX_FORMAT_DEN);
            assert(v@[4].wf() && v@[4].num > i128::MIN && v@[4].den <= MAX_FORMAT_DEN);
            assert(v@[5].wf() && v@[5].num > i128::MIN && v@[5].den <= MAX_FORMAT_DEN);
        }
        v
    }
}

/// The projection sidecar's bytes for a preset: its well-known text as
/// UTF-8.
pub open spec fn spec_projection_bytes(p: WorldPreset) -> Seq<u8> {
    match p {
        WorldPreset::Geographic => vstd::utf8::encode_utf8(spec_wkt_geographic()),
        WorldPreset::WebMercator => vstd::utf8::encode_utf8(spec_wkt_web_mercator()),
    }
}

/// Everything derived for one image: its record for reporting and the
/// exact bytes of its two sidecar files.
#[derive(Debug)]
pub struct GeoRefOutput {
    pub refbox: RefBox,
    pub world_file: Vec<u8>,
    pub projection_file: Vec<u8>,
}

/// Derives the full synthetic reference for one image held in memory:
/// reads its dimensions (JPEG header probe first, generic decode as the
/// fallback), fits the image into the preset's world extent, and renders
/// both sidecar contents. The caller supplies the image's base name and
/// path for the record, and writes the two byte strings next to the image.
///
/// Fails exactly where the dimension reader fails: unrecognized content is
/// a decode error and a declared zero dimension is rejected, so no sidecar
/// content exists for such an image.
pub fn pseudo_georef(
    image_bytes: &[u8],
    preset: &WorldPreset,
    name: Option<String>,
    filename: Option<String>,
) -> (r: Result<GeoRefOutput, GeoRefError>)
    ensures
        r is Ok <==> spec_read_image_size(image_bytes@) is Ok,
        r matches Err(e) ==> spec_read_image_size(image_bytes@) == Err::<RasterSize, GeoRefError>(
            e,
        ),
        r matches Ok(o) ==> ({
            let size = spec_read_image_size(image_bytes@)->Ok_0;
            let extent = spec_preset_extent(*preset);
            &&& o.refbox.wf()
            &&& o.refbox.size == size
            &&& o.refbox.name == name
            &&& o.refbox.filename == filename
            &&& o.refbox.bbox.min_x@ == spec_bb_min_x(size, extent)
            &&& o.refbox.bbox.min_y@ == spec_bb_min_y(size, extent)
            &&& o.refbox.bbox.max_x@ == spec_bb_max_x(size, extent)
            &&& o.refbox.bbox.max_y@ == spec_bb_max_y(size, extent)
            &&& o.world_file@ == spec_world_file_bytes(spec_world_file_slots(size, extent))
            &&& o.projection_file@ == spec_projection_bytes(*preset)
        }),
{
    let size: RasterSize = match read_image_size(image_bytes) {
        Ok(s) => s,
        Err(e) => {
            return Err(e);
        },
    };
    let extent: WorldExtent = preset.extent();
    let mut refbox: RefBox = match RefBox::new(size.width, size.height, &extent) {
        Ok(rb) => rb,
        Err(e) => {
            return Err(e);
        },
    };
    refbox.name = name;
    refbox.filename = filename;
    let values: Vec<Frac> = refbox.world_file_values();
    proof {
        assert(values@.map_values(|f: Frac| f@) =~= spec_world_file_slots(
            size,
            spec_preset_extent(*preset),
        ));
    }
    let world_file: Vec<u8> = world_file_contents(&values);
    let wkt: &'static str = preset.crs_wkt();
    let projection_file: Vec<u8> = slice_to_vec(wkt.as_bytes());
    Ok(GeoRefOutput { refbox, world_file, projection_file })
}

} // verus!
