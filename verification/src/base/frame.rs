use vstd::prelude::*;

use crate::base::buffer::VideoBuffer;
use crate::base::rotation::VideoRotation;

verus! {

/// Per-frame metadata carried alongside pixel data.
#[derive(Debug, Clone, Copy, PartialEq, Eq, Structural)]
pub struct FrameMetadata {
    /// Application-assigned timestamp (e.g., capture time).
    pub user_timestamp: Option<u64>,
    /// Monotonically incrementing frame sequence number.
    pub frame_id: Option<u32>,
}

impl FrameMetadata {
    /// Metadata with neither a timestamp nor a frame number.
    pub fn new() -> (m: Self)
        ensures
            m.user_timestamp is None,
            m.frame_id is None,
    {
        FrameMetadata { user_timestamp: None, frame_id: None }
    }
}

impl Default for FrameMetadata {
    fn default() -> (m: Self)
        ensures
            m.user_timestamp is None,
            m.frame_id is None,
    {
        Self::new()
    }
}

/// A complete video frame with rotation, timestamp, metadata, and pixel data.
pub struct VideoFrame<T> {
    pub rotation: VideoRotation,
    pub timestamp_us: i64,
    pub metadata: Option<FrameMetadata>,
    pub buffer: T,
}

impl<T> VideoFrame<T> {
    /// A frame holding `buffer`, unrotated, at timestamp 0, without metadata.
    pub fn new(buffer: T) -> (f: Self)
        ensures
            f.rotation == VideoRotation::Rotation0,
            f.timestamp_us == 0,
            f.metadata is None,
            f.buffer == buffer,
    {
        VideoFrame { rotation: VideoRotation::Rotation0, timestamp_us: 0, metadata: None, buffer }
    }

    /// The same frame with its rotation replaced.
    pub fn with_rotation(self, rotation: VideoRotation) -> (f: Self)
        ensures
            f.rotation == rotation,
            f.timestamp_us == self.timestamp_us,
            f.metadata == self.metadata,
            f.buffer == self.buffer,
    {
        let mut s = self;
        s.rotation = rotation;
        s
    }

    /// The same frame with its timestamp replaced.
    pub fn with_timestamp(self, timestamp_us: i64) -> (f: Self)
        ensures
            f.rotation == self.rotation,
            f.timestamp_us == timestamp_us,
            f.metadata == self.metadata,
            f.buffer == self.buffer,
    {
        let mut s = self;
        s.timestamp_us = timestamp_us;
        s
    }

    /// The same frame with its metadata set.
    pub fn with_metadata(self, metadata: FrameMetadata) -> (f: Self)
        ensures
            f.rotation == self.rotation,
            f.timestamp_us == self.timestamp_us,
            f.metadata == Some(metadata),
            f.buffer == self.buffer,
    {
        let mut s = self;
        s.metadata = Some(metadata);
        s
    }
}

/// Type-erased video frame for pipeline use.
pub type BoxVideoFrame = VideoFrame<Box<dyn VideoBuffer>>;

} // verus!
