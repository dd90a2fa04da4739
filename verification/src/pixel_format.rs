use vstd::prelude::*;

verus! {

/// Unified pixel format enum: one value per memory layout.
#[derive(Debug, Clone, Copy, PartialEq, Eq, Structural)]
pub enum PixelFormat {
    // RGB formats
    ARGB,
    BGRA,
    ABGR,
    RGBA,
    // YUV planar formats
    I420,
    I422,
    I444,
    // YUV biplanar
    NV12,
    // YUV 10-bit
    I010,
    P010,
}

impl PixelFormat {
    /// The four packed 8-bit RGB layouts with an alpha byte.
    pub open spec fn is_packed_rgb(self) -> bool {
        self is ARGB || self is BGRA || self is ABGR || self is RGBA
    }
}

} // verus!
