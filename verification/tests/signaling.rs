use omspbase::server::room::{PeerRole, RoomManager};
use omspbase::signaling::client::{ws_url, client_start, client_step, ClientAction, ClientEvent, ClientState, HandshakeError};
use omspbase::signaling::server::{server_start, server_step, ConnState, Inbound, Outbound};
use omspbase::signaling::sfu::{
    producer_created, sfu_decide, sfu_failure, ProducerCreated, SfuDecision, SfuOperation, SfuRequest,
    TransportDirection,
};
use omspbase::signaling::SignalMessage;

fn text(t: &str, message: Option<SignalMessage>) -> Inbound {
    Inbound::Text { text: t.to_string(), message, raw_frame: false }
}

fn error_of(o: &Outbound) -> Option<(u32, String)> {
    match o {
        Outbound::Send(SignalMessage::Error { code, message }) => Some((*code, message.clone())),
        _ => None,
    }
}

fn join(room: &str, role: PeerRole) -> Inbound {
    text("join", Some(SignalMessage::RoomJoin { room_id: room.to_string(), peer_role: role }))
}

#[test]
fn wrong_psk_is_refused_and_closed() {
    let mut rooms = RoomManager::new();
    let (c, acts) = server_start("p1".to_string(), true);
    assert!(acts.is_empty());
    let (c, acts) = server_step(c, &mut rooms, text("nope", None), "secret");
    assert!(matches!(c, ConnState::Closed));
    assert_eq!(acts.len(), 2);
    assert_eq!(error_of(&acts[0]), Some((4003, "PSK authentication failed".to_string())));
    assert!(matches!(acts[1], Outbound::Close));
}

#[test]
fn non_text_before_auth_requires_authentication() {
    let mut rooms = RoomManager::new();
    let (c, _) = server_start("p1".to_string(), true);
    let (c, acts) = server_step(c, &mut rooms, Inbound::Other, "secret");
    assert!(matches!(c, ConnState::Closed));
    assert_eq!(error_of(&acts[0]), Some((4003, "Authentication required".to_string())));
}

#[test]
fn psk_then_join_relays_only_sdp_ice_and_frames() {
    let mut rooms = RoomManager::new();
    let (c, _) = server_start("p1".to_string(), true);
    let (c, acts) = server_step(c, &mut rooms, text("secret", None), "secret");
    assert_eq!(error_of(&acts[0]), Some((0, "authenticated".to_string())));
    let (c, acts) = server_step(c, &mut rooms, join("r", PeerRole::Host), "secret");
    match &acts[0] {
        Outbound::Send(SignalMessage::RoomJoined { room_id, peer_id }) => {
            assert_eq!(room_id, "r");
            assert_eq!(peer_id, "p1");
        }
        _ => panic!("expected RoomJoined"),
    }
    assert!(matches!(&acts[1], Outbound::Subscribe(r) if r == "r"));
    assert_eq!(rooms.active_rooms(), 1);
    let sdp = SignalMessage::Sdp { room_id: "r".to_string(), target: None, sdp: "v=0".to_string() };
    let (c, acts) = server_step(c, &mut rooms, text("{sdp}", Some(sdp)), "secret");
    assert!(matches!(&acts[..], [Outbound::Broadcast(t)] if t == "{sdp}"));
    let leave = SignalMessage::RoomLeave { room_id: "r".to_string(), peer_id: "x".to_string() };
    let (c, acts) = server_step(c, &mut rooms, text("{leave}", Some(leave)), "secret");
    assert!(acts.is_empty());
    let raw = Inbound::Text { text: "{raw}".to_string(), message: None, raw_frame: true };
    let (c, acts) = server_step(c, &mut rooms, raw, "secret");
    assert!(matches!(&acts[..], [Outbound::Broadcast(t)] if t == "{raw}"));
    let (c, acts) = server_step(c, &mut rooms, Inbound::Close, "secret");
    assert!(matches!(c, ConnState::Closed));
    assert!(matches!(&acts[..], [Outbound::BroadcastLeave { room_id, peer_id }] if room_id == "r" && peer_id == "p1"));
    assert_eq!(rooms.active_rooms(), 0);
}

#[test]
fn join_into_taken_slot_is_room_full() {
    let mut rooms = RoomManager::new();
    rooms.join_room("r", "h", &PeerRole::Host).unwrap();
    let (c, _) = server_start("p2".to_string(), false);
    let (c, acts) = server_step(c, &mut rooms, join("r", PeerRole::Host), "");
    assert!(matches!(c, ConnState::Closed));
    assert_eq!(acts.len(), 2);
    assert_eq!(error_of(&acts[0]), Some((4002, "Room is full".to_string())));
    assert_eq!(rooms.get_other_peer("r", "h"), None);
    assert_eq!(rooms.active_rooms(), 1);
}

#[test]
fn client_handshake_then_frame_delivery() {
    let (s, acts) = client_start("ws://server.local:9800", "secret", "room-1".to_string(), PeerRole::Remote);
    assert!(matches!(&acts[..], [ClientAction::Dial(u), ClientAction::SendText(t)]
        if u == "ws://server.local:9800/ws" && t == "secret"));
    let ack = SignalMessage::Error { code: 0, message: "authenticated".to_string() };
    let (s, acts) = client_step(s, ClientEvent::Message(ack));
    match &acts[..] {
        [ClientAction::Send(SignalMessage::RoomJoin { room_id, peer_role })] => {
            assert_eq!(room_id, "room-1");
            assert_eq!(*peer_role, PeerRole::Remote);
        }
        _ => panic!("expected RoomJoin"),
    }
    let joined = SignalMessage::RoomJoined { room_id: "room-1".to_string(), peer_id: "me".to_string() };
    let (s, acts) = client_step(s, ClientEvent::Message(joined));
    assert!(matches!(&acts[..], [ClientAction::Joined(p)] if p == "me"));
    let frame = SignalMessage::Frame { data_base64: "AQID".to_string() };
    let (s, acts) = client_step(s, ClientEvent::Message(frame));
    assert!(matches!(&acts[..], [ClientAction::DeliverFrame(b)] if b == &vec![1u8, 2, 3]));
    let bad = SignalMessage::Frame { data_base64: "!!".to_string() };
    let (s, acts) = client_step(s, ClientEvent::Message(bad));
    assert!(acts.is_empty());
    let (s, acts) = client_step(s, ClientEvent::Closed);
    assert!(matches!(s, ClientState::Done));
    assert!(matches!(&acts[..], [ClientAction::Finish]));
}

#[test]
fn client_auth_rejection_fails() {
    let (s, _) = client_start("ws://h:1/", "k", "r".to_string(), PeerRole::Host);
    let err = SignalMessage::Error { code: 4003, message: "PSK authentication failed".to_string() };
    let (s, acts) = client_step(s, ClientEvent::Message(err));
    assert!(matches!(s, ClientState::Failed));
    assert!(matches!(&acts[..], [ClientAction::Fail(HandshakeError::AuthRejected(4003))]));
}

#[test]
fn client_room_full_fails_the_join() {
    let (s, _) = client_start("ws://h:1/", "k", "r".to_string(), PeerRole::Host);
    let ack = SignalMessage::Error { code: 0, message: "authenticated".to_string() };
    let (s, _) = client_step(s, ClientEvent::Message(ack));
    let full = SignalMessage::Error { code: 4002, message: "Room is full".to_string() };
    let (_, acts) = client_step(s, ClientEvent::Message(full));
    assert!(matches!(&acts[..], [ClientAction::Fail(HandshakeError::JoinRejected(4002))]));
}

#[test]
fn produce_on_receive_transport_is_refused() {
    let d = sfu_decide(
        SfuRequest::Produce {
            room_id: "r".to_string(),
            direction: TransportDirection::Recv,
            kind: "video".to_string(),
            rtp_parameters: "{}".to_string(),
        },
        "p1".to_string(),
    );
    match d {
        SfuDecision::Reply(SignalMessage::Error { code, message }) => {
            assert_eq!(code, 4000);
            assert_eq!(message, "Produce requires send transport");
        }
        _ => panic!("expected a refusal"),
    }
    let d = sfu_decide(
        SfuRequest::Produce {
            room_id: "r".to_string(),
            direction: TransportDirection::Send,
            kind: "video".to_string(),
            rtp_parameters: "{\"codecs\":[]}".to_string(),
        },
        "p1".to_string(),
    );
    assert!(matches!(d, SfuDecision::CreateProducer { room_id, peer_id, kind, rtp_parameters }
        if room_id == "r" && peer_id == "p1" && kind == "video" && rtp_parameters == "{\"codecs\":[]}"));
}

#[test]
fn sfu_failure_reports_code_5000() {
    match sfu_failure(SfuOperation::Consumer, "no producer") {
        SignalMessage::Error { code, message } => {
            assert_eq!(code, 5000);
            assert_eq!(message, "Consumer creation failed: no producer");
        }
        _ => panic!("expected an error report"),
    }
}

#[test]
fn host_address_drops_trailing_slashes() {
    let (_, acts) = client_start("ws://192.168.1.1:9800/", "k", "r".to_string(), PeerRole::Host);
    assert!(matches!(&acts[0], ClientAction::Dial(u) if u == "ws://192.168.1.1:9800/ws"));
    assert_eq!(ws_url("ws://a//"), "ws://a/ws");
    assert_eq!(ws_url(""), "/ws");
}

#[test]
fn producer_created_answers_peer_and_announces_to_room() {
    let (reply, announce) = producer_created(
        "r".to_string(),
        "p1".to_string(),
        ProducerCreated { producer_id: "prod-7".to_string(), kind: "video".to_string() },
    );
    assert!(matches!(reply, SignalMessage::Produced { room_id, producer_id } if room_id == "r" && producer_id == "prod-7"));
    assert!(matches!(announce, SignalMessage::NewProducer { room_id, producer_id, peer_id, kind }
        if room_id == "r" && producer_id == "prod-7" && peer_id == "p1" && kind == "video"));
}

#[test]
fn text_matching_the_peer_id_tag_authenticates() {
    let mut rooms = RoomManager::new();
    let (c, _) = server_start("peer-42".to_string(), true);
    let (c, acts) = server_step(c, &mut rooms, text("peer-42", None), "secret");
    assert!(matches!(c, ConnState::AwaitingJoin { .. }));
    assert_eq!(error_of(&acts[0]), Some((0, "authenticated".to_string())));
}
