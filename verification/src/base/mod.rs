pub mod rotation;
pub mod buffer;
pub mod frame;
