use vstd::prelude::*;

use crate::pipeline::sink::{SinkId, VideoSink, VideoSinkWants};

verus! {

/// Producer of video frames. Manages downstream sink registrations.
pub trait VideoSource<F> {
    /// Register a sink with its wants. Returns the assigned SinkId.
    fn add_or_update_sink(&mut self, sink: Box<dyn VideoSink<F>>, wants: VideoSinkWants) -> SinkId;

    /// Remove a previously registered sink.
    fn remove_sink(&mut self, id: SinkId);
}

} // verus!
