use std::sync::Arc;

use omspbase::pipeline::broadcast::{
    received_packet, retry_after, BroadcasterMeta, FragmentBroadcaster, PipelineRegistry, Received,
};
use omspbase::pipeline::nodes::{MediaSource, NodeInfo, PipelineNode};

fn meta(src: &str, track: &str, codec: &str) -> BroadcasterMeta {
    BroadcasterMeta { source_id: src.into(), track_id: track.into(), codec: codec.into() }
}

#[test]
fn test_broadcaster_emit_subscribe() {
    let bc = FragmentBroadcaster::<Vec<u8>>::new(16, meta("cam1", "video0", "h264"));
    let mut sub = bc.subscribe();
    assert_eq!(bc.emit(vec![1, 2, 3]), 1);
    let packet = sub.poll_fragment().unwrap();
    assert_eq!(packet, Some(vec![1, 2, 3]));
}

#[test]
fn test_registry_get_or_create() {
    let mut reg = PipelineRegistry::new();
    assert!(reg.is_empty());
    let bc1 = reg.get_or_create("src1", "track1", "h264");
    assert_eq!(reg.len(), 1);
    assert_eq!(bc1.meta().source_id, "src1");
    let bc2 = reg.get_or_create("src1", "track1", "h264");
    assert_eq!(reg.len(), 1);
    assert!(Arc::ptr_eq(&bc1, &bc2));
    let _bc3 = reg.get_or_create("src2", "track1", "vp8");
    assert_eq!(reg.len(), 2);
    reg.remove("src1", "track1");
    assert_eq!(reg.len(), 1);
}

#[test]
fn stream_without_packets_polls_none() {
    let bc = FragmentBroadcaster::<u32>::new(4, meta("a", "b", "c"));
    let mut sub = bc.subscribe();
    assert_eq!(sub.poll_fragment().unwrap(), None);
    assert_eq!(sub.name(), "broadcast-stream");
    assert!(sub.on_start().is_ok());
    assert!(sub.on_stop().is_ok());
    assert!(sub.capabilities().output.pixel_formats.is_empty());
}

#[test]
fn lagged_stream_skips_to_oldest_kept_packet() {
    let bc = FragmentBroadcaster::<u32>::new(2, meta("a", "b", "c"));
    let mut sub = bc.subscribe();
    for i in 0..5u32 {
        bc.emit(i);
    }
    // capacity 2: packets 0..3 were overwritten; after the lag the stream
    // resumes at packet 3.
    assert_eq!(sub.poll_fragment().unwrap(), Some(3));
    assert_eq!(sub.poll_fragment().unwrap(), Some(4));
    assert_eq!(sub.poll_fragment().unwrap(), None);
}

#[test]
fn emit_without_subscribers_counts_zero() {
    let bc = FragmentBroadcaster::<u8>::new(1, meta("x", "y", "z"));
    assert_eq!(bc.emit(7), 0);
    assert_eq!(bc.meta().codec, "z");
}

#[test]
fn receive_outcomes() {
    assert_eq!(received_packet(Received::Packet(5u8)), Some(5));
    assert_eq!(received_packet(Received::<u8>::Empty), None);
    assert_eq!(received_packet(Received::<u8>::Closed), None);
    assert!(retry_after(&Received::<u8>::Lagged(3)));
    assert!(!retry_after(&Received::<u8>::Empty));
}

#[test]
fn registry_remove_unknown_and_default() {
    let mut reg = PipelineRegistry::default();
    reg.get_or_create("s", "t", "h264");
    reg.remove("s", "other");
    assert_eq!(reg.len(), 1);
    reg.remove("s", "t");
    assert!(reg.is_empty());
}

#[test]
fn broadcaster_meta_clone_keeps_fields() {
    let m = meta("cam9", "audio1", "opus");
    let c = m.clone();
    assert_eq!(c.source_id, "cam9");
    assert_eq!(c.track_id, "audio1");
    assert_eq!(c.codec, "opus");
}
