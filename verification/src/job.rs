//! Jobs and their conversion configuration.

use vstd::prelude::*;

verus! {

/// Default geometry handed to the raster tool, `1000x1400^`: bounds width
/// and height while preserving aspect ratio.
pub open spec fn default_geometry() -> Seq<u8> {
    seq![49u8, 48, 48, 48, 120, 49, 52, 48, 48, 94]
}

/// Default quality handed to the raster tool, `80`.
pub open spec fn default_quality() -> Seq<u8> {
    seq![56u8, 48]
}

/// Default output extension for converted images, `jpg`.
pub open spec fn default_extension() -> Seq<u8> {
    seq![106u8, 112, 103]
}

/// The conversion parameters applied uniformly to every image of a job.
pub struct Conversion {
    /// Geometry specification interpreted by the external raster tool.
    pub geometry: Vec<u8>,
    /// Quality parameter for the external raster tool.
    pub quality: Vec<u8>,
    /// Optional codec-specific define argument.
    pub define: Option<Vec<u8>>,
    /// Extension given to every converted image.
    pub extension: Vec<u8>,
}

/// The optional codec define of a configuration, as a byte sequence.
pub open spec fn define_view(c: Conversion) -> Option<Seq<u8>> {
    match c.define {
        Some(d) => Some(d@),
        None => None,
    }
}

/// Field-wise equality of two configurations.
pub open spec fn conversion_eq(a: Conversion, b: Conversion) -> bool {
    &&& a.geometry@ == b.geometry@
    &&& a.quality@ == b.quality@
    &&& match (a.define, b.define) {
        (Some(x), Some(y)) => x@ == y@,
        (None, None) => true,
        _ => false,
    }
    &&& a.extension@ == b.extension@
}

impl Conversion {
    /// Builds a configuration, filling absent parameters with the defaults.
    pub fn new(
        geometry: Option<Vec<u8>>,
        quality: Option<Vec<u8>>,
        define: Option<Vec<u8>>,
        extension: Option<Vec<u8>>,
    ) -> (c: Conversion)
        ensures
            c.geometry@ == match geometry {
                Some(g) => g@,
                None => default_geometry(),
            },
            c.quality@ == match quality {
                Some(q) => q@,
                None => default_quality(),
            },
            c.define == define,
            c.extension@ == match extension {
                Some(e) => e@,
                None => default_extension(),
            },
    {
        let g = match geometry {
            Some(g) => g,
            None => {
                let v = vec![49u8, 48, 48, 48, 120, 49, 52, 48, 48, 94];
                proof {
                    assert(v@ =~= default_geometry());
                }
                v
            },
        };
        let q = match quality {
            Some(q) => q,
            None => {
                let v = vec![56u8, 48];
                proof {
                    assert(v@ =~= default_quality());
                }
                v
            },
        };
        let e = match extension {
            Some(e) => e,
            None => {
                let v = vec![106u8, 112, 103];
                proof {
                    assert(v@ =~= default_extension());
                }
                v
            },
        };
        Conversion { geometry: g, quality: q, define, extension: e }
    }

    /// Fresh copy of the configuration.
    pub fn duplicate(&self) -> (c: Conversion)
        ensures
            conversion_eq(c, *self),
    {
        let d = match &self.define {
            Some(d) => Some(crate::text::dup_bytes(d.as_slice())),
            None => None,
        };
        Conversion {
            geometry: crate::text::dup_bytes(self.geometry.as_slice()),
            quality: crate::text::dup_bytes(self.quality.as_slice()),
            define: d,
            extension: crate::text::dup_bytes(self.extension.as_slice()),
        }
    }
}

/// One source-archive-to-target-archive conversion task.
pub struct Job {
    /// Path of the source archive.
    pub source: Vec<u8>,
    /// Path of the target archive.
    pub target: Vec<u8>,
    /// Conversion parameters for every image in the archive.
    pub config: Conversion,
}

} // verus!
