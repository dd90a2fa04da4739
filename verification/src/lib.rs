//! Video frame buffers, pixel transforms, test-pattern generators and the
//! small pieces of session logic (control signing, room bookkeeping) of the
//! OMSPBase media stack, with their behaviour stated and proved in Verus.

pub mod error;
pub mod pixel_format;
pub mod paint;
pub mod plane_ops;
pub mod base;
pub mod transform;
pub mod backends;
pub mod pipeline;
pub mod remote;
pub mod server;
pub mod signaling;
