use std::sync::{Arc, Mutex};

use omspbase::error::MediaError;
use omspbase::pipeline::broadcaster::VideoBroadcaster;
use omspbase::pipeline::sink::{VideoSink, VideoSinkWants};
use omspbase::pipeline::source::VideoSource;

struct TestSink {
    received: Arc<Mutex<Vec<u32>>>,
    wants: VideoSinkWants,
}

impl VideoSink<u32> for TestSink {
    fn on_frame(&self, frame: &u32) -> Result<VideoSinkWants, MediaError> {
        self.received.lock().unwrap().push(*frame);
        Ok(self.wants)
    }
}

fn make_sink(wants: VideoSinkWants) -> (Box<TestSink>, Arc<Mutex<Vec<u32>>>) {
    let received = Arc::new(Mutex::new(Vec::new()));
    let sink = Box::new(TestSink { received: received.clone(), wants });
    (sink, received)
}

fn inactive() -> VideoSinkWants {
    VideoSinkWants { is_active: false, ..Default::default() }
}

#[test]
fn broadcaster_add_remove_sink() {
    let mut b: VideoBroadcaster<u32> = VideoBroadcaster::new();
    assert_eq!(b.sink_count(), 0);
    let (sink, _recv) = make_sink(VideoSinkWants::default());
    let id = b.add_or_update_sink(sink, VideoSinkWants::default());
    assert_eq!(b.sink_count(), 1);
    b.remove_sink(id);
    assert_eq!(b.sink_count(), 0);
}

#[test]
fn broadcaster_fans_out_to_all_sinks() {
    let mut b: VideoBroadcaster<u32> = VideoBroadcaster::new();
    let (s1, r1) = make_sink(VideoSinkWants::default());
    let (s2, r2) = make_sink(VideoSinkWants::default());
    let (s3, r3) = make_sink(VideoSinkWants::default());
    b.add_or_update_sink(s1, VideoSinkWants::default());
    b.add_or_update_sink(s2, VideoSinkWants::default());
    b.add_or_update_sink(s3, VideoSinkWants::default());
    b.send_frame(&Arc::new(42)).unwrap();
    assert_eq!(r1.lock().unwrap().len(), 1);
    assert_eq!(r2.lock().unwrap().len(), 1);
    assert_eq!(r3.lock().unwrap().len(), 1);
    assert_eq!(*r1.lock().unwrap().first().unwrap(), 42u32);
}

#[test]
fn broadcaster_aggregates_wants_correctly() {
    let mut b: VideoBroadcaster<u32> = VideoBroadcaster::new();
    let w1 = VideoSinkWants {
        is_active: true,
        max_pixel_count: 1920 * 1080,
        max_framerate_fps: 30,
        resolution_alignment: 2,
        rotation_applied: false,
    };
    let w2 = VideoSinkWants {
        is_active: true,
        max_pixel_count: 1280 * 720,
        max_framerate_fps: 15,
        resolution_alignment: 4,
        rotation_applied: true,
    };
    let (s1, _) = make_sink(w1);
    let (s2, _) = make_sink(w2);
    b.add_or_update_sink(s1, w1);
    b.add_or_update_sink(s2, w2);
    let agg = b.wants();
    assert!(agg.is_active);
    assert_eq!(agg.max_pixel_count, 1280 * 720);
    assert_eq!(agg.max_framerate_fps, 15);
    assert_eq!(agg.resolution_alignment, 4);
}

#[test]
fn broadcaster_aggregates_wants_empty() {
    let b: VideoBroadcaster<u32> = VideoBroadcaster::new();
    let agg = b.wants();
    assert!(agg.is_active);
    assert_eq!(agg.max_pixel_count, 0);
    assert_eq!(agg.max_framerate_fps, 0);
    assert_eq!(agg.resolution_alignment, 1);
}

#[test]
fn broadcaster_respects_inactive_sinks() {
    let mut b: VideoBroadcaster<u32> = VideoBroadcaster::new();
    let (s_active, r_active) = make_sink(VideoSinkWants::default());
    let (s_inactive, r_inactive) = make_sink(inactive());
    b.add_or_update_sink(s_active, VideoSinkWants::default());
    b.add_or_update_sink(s_inactive, inactive());
    b.send_frame(&Arc::new(99)).unwrap();
    assert_eq!(r_active.lock().unwrap().len(), 1);
    assert_eq!(r_inactive.lock().unwrap().len(), 0);
}

#[test]
fn broadcaster_all_inactive_returns_zero_wants() {
    let mut b: VideoBroadcaster<u32> = VideoBroadcaster::new();
    let (s, _) = make_sink(VideoSinkWants {
        is_active: false,
        max_pixel_count: 640 * 480,
        max_framerate_fps: 60,
        resolution_alignment: 1,
        rotation_applied: false,
    });
    b.add_or_update_sink(s, inactive());
    let agg = b.wants();
    assert!(!agg.is_active);
    assert_eq!(agg.max_pixel_count, 0);
    assert_eq!(agg.max_framerate_fps, 0);
}

#[test]
fn sink_ids_start_at_one_and_increase() {
    let mut b: VideoBroadcaster<u32> = VideoBroadcaster::new();
    let (s1, _) = make_sink(VideoSinkWants::default());
    let (s2, _) = make_sink(VideoSinkWants::default());
    let a = b.add_or_update_sink(s1, VideoSinkWants::default());
    let c = b.add_or_update_sink(s2, VideoSinkWants::default());
    assert_eq!(a, 1);
    assert_eq!(c, 2);
    b.remove_sink(42);
    assert_eq!(b.sink_count(), 2);
    b.remove_sink(a);
    assert_eq!(b.sink_count(), 1);
}

#[test]
fn aggregate_alignment_is_lcm_of_active_sinks() {
    let mut b: VideoBroadcaster<u32> = VideoBroadcaster::new();
    for align in [2u32, 3, 4] {
        let w = VideoSinkWants { resolution_alignment: align, ..Default::default() };
        let (s, _) = make_sink(w);
        b.add_or_update_sink(s, w);
    }
    let w = VideoSinkWants { resolution_alignment: 5, is_active: false, ..Default::default() };
    let (s, _) = make_sink(w);
    b.add_or_update_sink(s, w);
    assert_eq!(b.wants().resolution_alignment, 12);
    assert_eq!(b.wants().max_pixel_count, u32::MAX);
}

struct FailingSink;

impl VideoSink<u32> for FailingSink {
    fn on_frame(&self, _frame: &u32) -> Result<VideoSinkWants, MediaError> {
        Err(MediaError::Internal("sink full".to_string()))
    }
}

#[test]
fn broadcaster_inactive_failing_sink_does_not_fail_send() {
    let mut b: VideoBroadcaster<u32> = VideoBroadcaster::new();
    b.add_or_update_sink(Box::new(FailingSink), inactive());
    assert!(b.send_frame(&Arc::new(1)).is_ok());
}

#[test]
fn broadcaster_active_failing_sink_fails_send() {
    let mut b: VideoBroadcaster<u32> = VideoBroadcaster::new();
    b.add_or_update_sink(Box::new(FailingSink), VideoSinkWants::default());
    assert!(b.send_frame(&Arc::new(1)).is_err());
}

#[test]
fn inactive_sink_is_left_out_of_aggregation() {
    let mut b: VideoBroadcaster<u32> = VideoBroadcaster::new();
    let a = VideoSinkWants {
        is_active: true,
        max_pixel_count: 1000,
        max_framerate_fps: 30,
        resolution_alignment: 2,
        rotation_applied: false,
    };
    let i = VideoSinkWants {
        is_active: false,
        max_pixel_count: 500,
        max_framerate_fps: 10,
        resolution_alignment: 3,
        rotation_applied: false,
    };
    let (sa, _) = make_sink(a);
    let (si, _) = make_sink(i);
    b.add_or_update_sink(sa, a);
    b.add_or_update_sink(si, i);
    let agg = b.wants();
    assert!(agg.is_active);
    assert_eq!(agg.max_pixel_count, 1000);
    assert_eq!(agg.max_framerate_fps, 30);
    assert_eq!(agg.resolution_alignment, 2);
}

#[test]
fn delivery_targets_are_active_sinks_in_order() {
    let mut b: VideoBroadcaster<u32> = VideoBroadcaster::new();
    for active in [true, false, true, true] {
        let w = VideoSinkWants { is_active: active, ..Default::default() };
        let (s, _) = make_sink(w);
        b.add_or_update_sink(s, w);
    }
    assert_eq!(b.delivery_targets(), vec![0, 2, 3]);
}
