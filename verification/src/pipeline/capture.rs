//! The capture source of a host built without GStreamer: a pipeline node
//! that starts and stops at once and never yields a fragment.

use vstd::prelude::*;
use super::nodes::{
    FormatSpec, InternalPacket, MediaSource, MediaType, NodeCapability, NodeInfo, PipelineError,
    PipelineNode,
};

verus! {

/// Capture source without a capture pipeline behind it.
pub struct GstCaptureSource;

impl GstCaptureSource {
    pub fn new() -> (s: Self) {
        GstCaptureSource
    }
}

impl NodeInfo for GstCaptureSource {
    fn name(&self) -> (n: &str)
        ensures
            n@ == seq!['g', 's', 't', '-', 'c', 'a', 'p', 't', 'u', 'r', 'e'],
    {
        proof {
            reveal_strlit("gst-capture");
        }
        "gst-capture"
    }

    fn capabilities(&self) -> (c: NodeCapability)
        ensures
            c.input.media_type == MediaType::Both,
            c.input.codecs is None,
            c.input.pixel_formats@.len() == 0,
            c.output.media_type == MediaType::Encoded,
            c.output.codecs is None,
            c.output.pixel_formats@.len() == 0,
    {
        NodeCapability {
            input: FormatSpec { media_type: MediaType::Both, codecs: None, pixel_formats: Vec::new() },
            output: FormatSpec { media_type: MediaType::Encoded, codecs: None, pixel_formats: Vec::new() },
        }
    }
}

impl PipelineNode for GstCaptureSource {
    fn on_start(&mut self) -> (r: Result<(), PipelineError>)
        ensures
            r is Ok,
    {
        Ok(())
    }

    fn on_stop(&mut self) -> (r: Result<(), PipelineError>)
        ensures
            r is Ok,
    {
        Ok(())
    }
}

impl MediaSource for GstCaptureSource {
    type Output = InternalPacket;

    fn poll_fragment(&mut self) -> (r: Result<Option<InternalPacket>, PipelineError>)
        ensures
            r matches Ok(None),
    {
        Ok(None)
    }
}

} // verus!
