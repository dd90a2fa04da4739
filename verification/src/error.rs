use vstd::prelude::*;

use crate::pixel_format::PixelFormat;

verus! {

/// Errors for media operations.
#[derive(Debug)]
pub enum MediaError {
    BufferSizeMismatch { expected: u32, actual: u32 },
    UnsupportedFormat(PixelFormat),
    InvalidDimensions { width: u32, height: u32 },
    InvalidRotation(crate::base::rotation::VideoRotation),
    BackendError(String),
    Internal(String),
}

/// Result type alias for media operations.
pub type MediaResult<T> = Result<T, MediaError>;

} // verus!
