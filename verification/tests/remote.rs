use hmac::{Hmac, Mac};
use sha2::Sha256;

use omspbase::remote::config::{
    default_format, default_height, default_hmac_key, default_psk, default_rate_hz, default_width,
};
use omspbase::remote::control::{compute_hmac_tag, ControlSender};

#[test]
fn hmac_deterministic() {
    let payload = b"{\"type\":\"steering\",\"value\":15.2}";
    let tag1 = compute_hmac_tag(payload, b"omspbase-control");
    let tag2 = compute_hmac_tag(payload, b"omspbase-control");
    assert_eq!(tag1, tag2);
}

#[test]
fn hmac_different_keys_different_tags() {
    let payload = b"{\"type\":\"steering\",\"value\":15.2}";
    let tag1 = compute_hmac_tag(payload, b"key-a");
    let tag2 = compute_hmac_tag(payload, b"key-b");
    assert_ne!(tag1, tag2);
}

#[test]
fn cross_compatible_with_host_validate() {
    let payload = br#"{"type":"steering","value":15.2}"#;
    let tag = compute_hmac_tag(payload, b"omspbase-control");
    let mut mac = Hmac::<Sha256>::new_from_slice(b"omspbase-control").unwrap();
    mac.update(payload);
    let result = mac.finalize();
    let code_bytes = result.into_bytes();
    assert_eq!(&tag[..], &code_bytes[..8]);
}

#[test]
fn hmac_tag_matches_rfc4231_case_two() {
    // RFC 4231 test case 2: key "Jefe", data "what do ya want for nothing?".
    let tag = compute_hmac_tag(b"what do ya want for nothing?", b"Jefe");
    assert_eq!(tag, [0x5b, 0xdc, 0xc1, 0x46, 0xbf, 0x60, 0x75, 0x4e]);
}

#[test]
fn sign_keeps_body_and_tags_it() {
    let sender = ControlSender::new("omspbase-control", 30);
    let body = r#"{"type":"steering","value":15.2}"#.to_string();
    let signed = sender.sign(body.clone());
    assert_eq!(signed.body, body);
    assert_eq!(signed.tag, compute_hmac_tag(body.as_bytes(), b"omspbase-control"));
    assert_eq!(sender.rate_hz(), 30);
    assert_eq!(sender.depth(), 0);
}

#[test]
fn buffer_drops_oldest() {
    let mut sender = ControlSender::new("test-key", 30);
    sender.enqueue(r#"{"type":"steering","value":1.0}"#.to_string());
    sender.enqueue(r#"{"type":"brake","value":0.5}"#.to_string());
    sender.enqueue(r#"{"type":"throttle","value":10.0}"#.to_string());
    assert_eq!(sender.depth(), 3);
    sender.enqueue(r#"{"type":"steering","value":2.0}"#.to_string());
    assert_eq!(sender.depth(), 3);
    let next = sender.dequeue().unwrap();
    assert!(next.body.contains("brake"));
}

#[test]
fn dequeue_is_fifo_and_empties() {
    let mut sender = ControlSender::new("k", 10);
    assert!(sender.dequeue().is_none());
    sender.enqueue("a".to_string());
    sender.enqueue("b".to_string());
    assert_eq!(sender.dequeue().unwrap().body, "a");
    let b = sender.dequeue().unwrap();
    assert_eq!(b.body, "b");
    assert_eq!(b.tag, compute_hmac_tag(b"b", b"k"));
    assert!(sender.dequeue().is_none());
    assert_eq!(sender.depth(), 0);
}

#[test]
fn remote_config_defaults() {
    assert_eq!(default_psk(), "omspbase-dev");
    assert_eq!(default_width(), 1280);
    assert_eq!(default_height(), 720);
    assert_eq!(default_format(), "BGRA");
    assert_eq!(default_hmac_key(), "omspbase-control");
    assert_eq!(default_rate_hz(), 30);
}
