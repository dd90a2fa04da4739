pub mod native;
pub mod laws;

pub use native::NativeTransform;
pub use native::NativeTransform as ActiveTransform;

use vstd::prelude::*;
use crate::transform::VideoTransform;

verus! {

/// Returns the compiled backend: the native one. Zero dynamic dispatch.
pub fn get_backend() -> impl VideoTransform {
    NativeTransform
}

} // verus!
