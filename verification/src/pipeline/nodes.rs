use vstd::prelude::*;

use std::sync::Arc;

use crate::pixel_format::PixelFormat;

verus! {

// ── 1. Public API Types (SDK layer) ──

/// Unique codec identifier (RFC 6381, e.g. "avc1.640028").
pub type CodecId = String;

#[derive(Debug, Clone, Copy, PartialEq, Eq, Structural)]
pub enum MediaType {
    Encoded,
    Raw,
    Both,
}

#[derive(Debug, Clone, Copy, PartialEq, Eq, Structural, Hash)]
pub enum NodeType {
    Source,
    Processor,
    Sink,
}

#[derive(Debug, Clone)]
pub struct Plane {
    pub data: Vec<u8>,
    pub stride: u32,
    pub width: u32,
    pub height: u32,
}

/// Opaque handle of a GPU texture.
#[derive(Debug, Clone)]
pub struct TextureHandle {
    _inner: Arc<()>,
}

impl TextureHandle {
    /// A handle that refers to no texture.
    pub fn dummy() -> Self {
        TextureHandle { _inner: Arc::new(()) }
    }
}

#[verifier::external_type_specification]
#[verifier::external_body]
pub struct ExInstant(std::time::Instant);

#[derive(Debug, Clone)]
pub struct FrameTiming {
    pub dts: u64,
    pub pts: u64,
    pub duration: u64,
    pub wall_clock: Option<std::time::Instant>,
}

#[derive(Debug, Clone)]
pub struct RawFrame {
    pub track_id: String,
    pub timing: FrameTiming,
    pub format: PixelFormat,
    pub planes: Vec<Plane>,
    pub texture: Option<TextureHandle>,
}

#[derive(Debug, Clone, Copy)]
pub struct FragmentFlags {
    pub keyframe: bool,
    pub independent: bool,
    pub discardable: bool,
}

#[derive(Debug, Clone)]
pub struct EncodedFragment {
    pub track_id: String,
    pub timing: FrameTiming,
    pub flags: FragmentFlags,
    pub codec: CodecId,
    pub init_data: Option<Vec<u8>>,
    pub payload: Vec<u8>,
}

// ── 2. Internal Pipeline Types ──

#[derive(Debug, Clone)]
pub enum InternalPacket {
    Encoded(EncodedFragment),
    Raw(RawFrame),
    Metadata(PacketMetadata),
}

#[derive(Debug, Clone)]
pub struct PacketMetadata {
    pub track_id: String,
    pub event: MetadataEvent,
}

#[derive(Debug, Clone)]
pub enum MetadataEvent {
    TrackStarted { codec: CodecId, timescale: u32 },
    TrackEnded,
    QualityChanged { target_bitrate: u32 },
}

// ── 3. Node Capability Types ──

#[derive(Debug, Clone)]
pub struct FormatSpec {
    pub media_type: MediaType,
    pub codecs: Option<Vec<CodecId>>,
    pub pixel_formats: Vec<PixelFormat>,
}

#[derive(Debug, Clone)]
pub struct NodeCapability {
    pub input: FormatSpec,
    pub output: FormatSpec,
}

/// Query used to find matching pipeline nodes.
#[derive(Debug, Clone)]
pub struct FormatQuery {
    pub node_type: NodeType,
    pub media_type: MediaType,
    pub codec: Option<CodecId>,
    pub pixel_format: Option<PixelFormat>,
}

// ── 4. Node Traits ──

/// Failure reported by a pipeline node.
#[derive(Debug, Clone)]
pub enum PipelineError {
    /// The node could not start.
    StartFailed(String),
    /// Any other failure, with a description.
    Unknown(String),
}

/// Base trait for all pipeline nodes.
pub trait NodeInfo {
    fn name(&self) -> &str;

    fn capabilities(&self) -> NodeCapability;
}

/// Lifecycle for runnable nodes — simplified 2-state model.
pub trait PipelineNode: NodeInfo {
    fn on_start(&mut self) -> Result<(), PipelineError>;

    fn on_stop(&mut self) -> Result<(), PipelineError>;
}

/// Producer: yields media data (camera, screen, network source).
pub trait MediaSource: PipelineNode {
    type Output;

    fn poll_fragment(&mut self) -> Result<Option<Self::Output>, PipelineError>;
}

/// Processor: transforms media data (encode, decode, color convert).
pub trait MediaProcessor: PipelineNode {
    type Input;

    type Output;

    fn process(&mut self, input: Self::Input) -> Result<Self::Output, PipelineError>;
}

/// Sink: consumes media data (render, push, record).
pub trait MediaSink: PipelineNode {
    type Input;

    fn on_fragment(&mut self, fragment: Self::Input) -> Result<(), PipelineError>;
}

} // verus!
