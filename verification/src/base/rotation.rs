use vstd::prelude::*;

verus! {

/// W3C-compatible video rotation angles, clockwise.
#[derive(Debug, Clone, Copy, PartialEq, Eq, Structural)]
pub enum VideoRotation {
    Rotation0,
    Rotation90,
    Rotation180,
    Rotation270,
}

impl VideoRotation {
    /// The angle in degrees.
    pub open spec fn degrees(self) -> int {
        match self {
            VideoRotation::Rotation0 => 0,
            VideoRotation::Rotation90 => 90,
            VideoRotation::Rotation180 => 180,
            VideoRotation::Rotation270 => 270,
        }
    }
}

impl Default for VideoRotation {
    fn default() -> (r: Self)
        ensures
            r == VideoRotation::Rotation0,
    {
        VideoRotation::Rotation0
    }
}

} // verus!
