//! The fixed world extent that every image is placed into, and its
//! coordinate reference system.

use vstd::prelude::*;

verus! {

/// Largest denominator a [`WorldExtent`] may carry. A decimal scale of a
/// billion is far finer than any real coordinate needs; the cap keeps every
/// product in the geotransform derivation inside `i128`.
pub const MAX_EXTENT_DEN: i64 = 1_000_000_000;

/// A fixed rectangle in world coordinates, the synthetic placement target
/// for every image. The four corner coordinates are exact fractions with the
/// shared positive denominator `den`: the x span runs from `min_x / den` to
/// `max_x / den`, the y span from `min_y / den` to `max_y / den`.
///
/// The corners need not be ordered: every consumer takes the true minimum
/// and the absolute span, so swapping `min_x` with `max_x` (or `min_y` with
/// `max_y`) describes the same rectangle.
#[derive(Clone, Copy, Debug, PartialEq, Eq, Structural)]
pub struct WorldExtent {
    pub min_x: i64,
    pub min_y: i64,
    pub max_x: i64,
    pub max_y: i64,
    pub den: i64,
}

impl WorldExtent {
    /// A well-formed extent has a positive, bounded denominator. The corner
    /// numerators may use the full `i64` range.
    pub open spec fn wf(self) -> bool {
        0 < self.den <= MAX_EXTENT_DEN
    }

    /// Builds an extent from four corner numerators over one denominator.
    pub fn new(min_x: i64, min_y: i64, max_x: i64, max_y: i64, den: i64) -> (r: WorldExtent)
        requires
            0 < den <= MAX_EXTENT_DEN,
        ensures
            r == (WorldExtent { min_x, min_y, max_x, max_y, den }),
            r.wf(),
    {
        WorldExtent { min_x, min_y, max_x, max_y, den }
    }

    /// The global geographic extent: longitudes -180..180, latitudes
    /// -90..90, in degrees.
    pub fn geographic() -> (r: WorldExtent)
        ensures
            r == (WorldExtent { min_x: -180i64, min_y: -90i64, max_x: 180, max_y: 90, den: 1 }),
            r.wf(),
    {
        WorldExtent { min_x: -180, min_y: -90, max_x: 180, max_y: 90, den: 1 }
    }

    /// The global Web-Mercator-style projected extent, in meters:
    /// x spans -20026376.39..20026376.39, y spans -20048966.10..20048966.10,
    /// held exactly as hundredths.
    pub fn web_mercator() -> (r: WorldExtent)
        ensures
            r == (WorldExtent {
                min_x: -2002637639i64,
                min_y: -2004896610i64,
                max_x: 2002637639,
                max_y: 2004896610,
                den: 100,
            }),
            r.wf(),
    {
        WorldExtent {
            min_x: -2002637639,
            min_y: -2004896610,
            max_x: 2002637639,
            max_y: 2004896610,
            den: 100,
        }
    }
}

/// The two supported world extents. Exactly one is active per run; it picks
/// both the placement rectangle and the coordinate reference system written
/// to the projection sidecar.
#[derive(Clone, Copy, Debug, PartialEq, Eq, Structural)]
pub enum WorldPreset {
    /// Geographic coordinates (WGS 84 longitude/latitude).
    Geographic,
    /// A Web-Mercator-style projected coordinate system.
    WebMercator,
}

/// The world extent each preset places images into.
pub open spec fn spec_preset_extent(p: WorldPreset) -> WorldExtent {
    match p {
        WorldPreset::Geographic => WorldExtent {
            min_x: -180i64,
            min_y: -90i64,
            max_x: 180i64,
            max_y: 90i64,
            den: 1i64,
        },
        WorldPreset::WebMercator => WorldExtent {
            min_x: -2002637639i64,
            min_y: -2004896610i64,
            max_x: 2002637639i64,
            max_y: 2004896610i64,
            den: 100i64,
        },
    }
}

impl WorldPreset {
    /// The world extent of the preset.
    pub fn extent(&self) -> (r: WorldExtent)
        ensures
            r == spec_preset_extent(*self),
            r.wf(),
    {
        match self {
            WorldPreset::Geographic => WorldExtent::geographic(),
            WorldPreset::WebMercator => WorldExtent::web_mercator(),
        }
    }

    /// The well-known-text description of the preset's coordinate reference
    /// system, the full contents of the projection sidecar file.
    pub fn crs_wkt(&self) -> (r: &'static str)
        ensures
            *self is Geographic ==> r@ == spec_wkt_geographic(),
            *self is WebMercator ==> r@ == spec_wkt_web_mercator(),
    {
        match self {
            WorldPreset::Geographic => {
                "GEOGCS[\"GCS_WGS_1984\",DATUM[\"D_WGS_1984\",SPHEROID[\"WGS_1984\",6378137.0,298.257223563]],PRIMEM[\"Greenwich\",0.0],UNIT[\"Degree\",0.0174532925199433]]"
            },
            WorldPreset::WebMercator => {
                "PROJCS[\"WGS_1984_Web_Mercator_Auxiliary_Sphere\",GEOGCS[\"GCS_WGS_1984\",DATUM[\"D_WGS_1984\",SPHEROID[\"WGS_1984\",6378137.0,298.257223563]],PRIMEM[\"Greenwich\",0.0],UNIT[\"Degree\",0.0174532925199433]],PROJECTION[\"Mercator_Auxiliary_Sphere\"],PARAMETER[\"False_Easting\",0.0],PARAMETER[\"False_Northing\",0.0],PARAMETER[\"Central_Meridian\",0.0],PARAMETER[\"Standard_Parallel_1\",0.0],PARAMETER[\"Auxiliary_Sphere_Type\",0.0],UNIT[\"Meter\",1.0]]"
            },
        }
    }
}

/// The well-known text written for the geographic preset.
pub open spec fn spec_wkt_geographic() -> Seq<char> {
    "GEOGCS[\"GCS_WGS_1984\",DATUM[\"D_WGS_1984\",SPHEROID[\"WGS_1984\",6378137.0,298.257223563]],PRIMEM[\"Greenwich\",0.0],UNIT[\"Degree\",0.0174532925199433]]"@
}

/// The well-known text written for the Web-Mercator-style preset.
pub open spec fn spec_wkt_web_mercator() -> Seq<char> {
    "PROJCS[\"WGS_1984_Web_Mercator_Auxiliary_Sphere\",GEOGCS[\"GCS_WGS_1984\",DATUM[\"D_WGS_1984\",SPHEROID[\"WGS_1984\",6378137.0,298.257223563]],PRIMEM[\"Greenwich\",0.0],UNIT[\"Degree\",0.0174532925199433]],PROJECTION[\"Mercator_Auxiliary_Sphere\"],PARAMETER[\"False_Easting\",0.0],PARAMETER[\"False_Northing\",0.0],PARAMETER[\"Central_Meridian\",0.0],PARAMETER[\"Standard_Parallel_1\",0.0],PARAMETER[\"Auxiliary_Sphere_Type\",0.0],UNIT[\"Meter\",1.0]]"@
}

} // verus!
