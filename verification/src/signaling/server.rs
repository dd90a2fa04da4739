//! The server's side of one peer connection: authenticate the peer with
//! the PSK, let it join a room, then relay its SDP, ICE and frame messages
//! to the room and announce its leaving when the connection ends.

use vstd::prelude::*;
use vstd::string::StringExecFns;
use crate::server::room::{join_refused, joined, left, PeerRole, RoomError, RoomManager};
use super::{is_relayed, SignalMessage};
use crate::remote::control::{compute_hmac_tag, hmac_tag};
use vstd::utf8::encode_utf8;

verus! {

/// Where one peer connection stands.
pub enum ConnState {
    /// Waiting for the PSK as the first text message.
    AwaitingAuth { peer_id: String },
    /// Authenticated; waiting for a `RoomJoin`.
    AwaitingJoin { peer_id: String },
    /// In a room, relaying.
    Relaying { peer_id: String, room_id: String },
    /// The connection is over.
    Closed,
}

/// What arrives on the connection.
pub enum Inbound {
    /// A text message: its text, the signaling message it parses to (none
    /// when it is not one), and whether its raw JSON has type `"frame"`.
    Text { text: String, message: Option<SignalMessage>, raw_frame: bool },
    /// A close frame, the end of the stream, or a read error.
    Close,
    /// Any other frame (binary, ping, pong).
    Other,
}

/// What the connection handler is to do.
pub enum Outbound {
    /// Send a message to this peer.
    Send(SignalMessage),
    /// Close this peer's connection.
    Close,
    /// Start relaying the room's channel to this peer.
    Subscribe(String),
    /// Hand this text to the room's channel, for the other peer.
    Broadcast(String),
    /// Announce on the room's channel that the peer left the room.
    BroadcastLeave { room_id: String, peer_id: String },
}

/// An `Error` message with this code whose text is `msg`.
pub open spec fn is_error(o: Outbound, code: u32, msg: Seq<char>) -> bool {
    o matches Outbound::Send(SignalMessage::Error { code: c, message: m }) && c == code && m@ == msg
}

/// The acknowledgement of a successful authentication.
pub open spec fn is_auth_ack(o: Outbound) -> bool {
    is_error(o, 0, "authenticated"@)
}

/// Whether the first text of a connection authenticates it: the text is
/// the PSK, or its 8-byte HMAC-SHA256 tag keyed by the PSK equals that of
/// the connection's peer id.
pub open spec fn authenticates(text: Seq<char>, psk: Seq<char>, peer_id: Seq<char>) -> bool {
    ||| text == psk
    ||| hmac_tag(encode_utf8(peer_id), encode_utf8(psk)) == hmac_tag(encode_utf8(text), encode_utf8(psk))
}

fn same_tag(a: &[u8; 8], b: &[u8; 8]) -> (r: bool)
    ensures
        r == (a@ == b@),
{
    let mut i: usize = 0;
    while i < 8
        invariant
            i <= 8,
            a@.len() == 8,
            b@.len() == 8,
            forall|j: int| 0 <= j < i ==> a@[j] == b@[j],
        decreases 8 - i,
    {
        if a[i] != b[i] {
            return false;
        }
        i = i + 1;
    }
    assert(a@ =~= b@);
    true
}

/// Whether an inbound message is relayed while in a room: a session
/// description, an ICE candidate or a frame, or text that is no signaling
/// message but whose JSON has type `"frame"`.
pub open spec fn relays(msg: Inbound) -> bool {
    msg matches Inbound::Text { message, raw_frame, .. } && match message {
        Some(m) => is_relayed(m),
        None => raw_frame,
    }
}

/// The text of an inbound text message; empty for other frames.
pub open spec fn text_of(msg: Inbound) -> Seq<char> {
    match msg {
        Inbound::Text { text, .. } => text@,
        _ => Seq::empty(),
    }
}

/// The action hands exactly the text `t` to the room's channel.
pub open spec fn broadcasts(o: Outbound, t: Seq<char>) -> bool {
    o matches Outbound::Broadcast(b) && b@ == t
}

fn error_msg(code: u32, text: &str) -> (o: Outbound)
    ensures
        is_error(o, code, text@),
{
    Outbound::Send(SignalMessage::Error { code, message: String::from_str(text) })
}

/// Opens a connection whose peer got the id `peer_id`. With a PSK the peer
/// must authenticate first; without one it is acknowledged at once.
pub fn server_start(peer_id: String, psk_set: bool) -> (r: (ConnState, Vec<Outbound>))
    ensures
        psk_set ==> r.0 == (ConnState::AwaitingAuth { peer_id }) && r.1@.len() == 0,
        !psk_set ==> r.0 == (ConnState::AwaitingJoin { peer_id }) && r.1@.len() == 1 && is_auth_ack(r.1@[0]),
{
    if psk_set {
        (ConnState::AwaitingAuth { peer_id }, Vec::new())
    } else {
        let mut acts: Vec<Outbound> = Vec::new();
        acts.push(error_msg(0, "authenticated"));
        (ConnState::AwaitingJoin { peer_id }, acts)
    }
}

/// One step of a peer connection: the state after `msg`, and what to do.
///
/// - Waiting for the PSK: text that authenticates (the PSK, or text whose
///   PSK-keyed tag equals that of the peer id) is acknowledged; other text
///   gets error 4003 "PSK authentication failed" and the connection closes;
///   anything else gets error 4003 "Authentication required" and closes.
/// - Waiting for a join: a `RoomJoin` joins the room; when the role's slot
///   is taken the peer gets error 4002 "Room is full" and the connection
///   closes, and the rooms are unchanged; otherwise it gets `RoomJoined`
///   with the room and its id, and is subscribed to the room. Other
///   messages are ignored; a close ends the connection.
/// - In a room: session descriptions, ICE candidates and frames are handed
///   to the room's channel as they came; other messages are ignored. A
///   close makes the peer leave the room, and the leaving is announced.
pub fn server_step(c: ConnState, rooms: &mut RoomManager, msg: Inbound, psk: &str) -> (r: (ConnState, Vec<Outbound>))
    ensures
        // rooms change only by a join or a leave
        (match c {
            ConnState::AwaitingJoin { peer_id } => match msg {
                Inbound::Text { message: Some(SignalMessage::RoomJoin { room_id, peer_role }), .. } => {
                    if join_refused(old(rooms).table(), room_id@, peer_role) {
                        &&& final(rooms).table() == old(rooms).table()
                        &&& r.0 == ConnState::Closed
                        &&& r.1@.len() == 2
                        &&& is_error(r.1@[0], 4002, "Room is full"@)
                        &&& r.1@[1] is Close
                    } else {
                        &&& final(rooms).table() == joined(old(rooms).table(), room_id@, peer_id@, peer_role)
                        &&& r.0 == (ConnState::Relaying { peer_id, room_id })
                        &&& r.1@.len() == 2
                        &&& r.1@[0] matches Outbound::Send(SignalMessage::RoomJoined { room_id: j, peer_id: p })
                            && j@ == room_id@ && p@ == peer_id@
                        &&& r.1@[1] matches Outbound::Subscribe(s) && s@ == room_id@
                    }
                },
                Inbound::Close => {
                    &&& final(rooms).table() == old(rooms).table()
                    &&& r.0 == ConnState::Closed
                    &&& r.1@.len() == 1
                    &&& r.1@[0] is Close
                },
                _ => {
                    &&& final(rooms).table() == old(rooms).table()
                    &&& r.0 == (ConnState::AwaitingJoin { peer_id })
                    &&& r.1@.len() == 0
                },
            },
            ConnState::AwaitingAuth { peer_id } => {
                &&& final(rooms).table() == old(rooms).table()
                &&& match msg {
                    Inbound::Text { text, .. } => if authenticates(text@, psk@, peer_id@) {
                        &&& r.0 == (ConnState::AwaitingJoin { peer_id })
                        &&& r.1@.len() == 1
                        &&& is_auth_ack(r.1@[0])
                    } else {
                        &&& r.0 == ConnState::Closed
                        &&& r.1@.len() == 2
                        &&& is_error(r.1@[0], 4003, "PSK authentication failed"@)
                        &&& r.1@[1] is Close
                    },
                    _ => {
                        &&& r.0 == ConnState::Closed
                        &&& r.1@.len() == 2
                        &&& is_error(r.1@[0], 4003, "Authentication required"@)
                        &&& r.1@[1] is Close
                    },
                }
            },
            ConnState::Relaying { peer_id, room_id } => match msg {
                Inbound::Close => {
                    &&& final(rooms).table() == left(old(rooms).table(), room_id@, peer_id@)
                    &&& r.0 == ConnState::Closed
                    &&& r.1@.len() == 1
                    &&& r.1@[0] matches Outbound::BroadcastLeave { room_id: j, peer_id: p }
                        && j@ == room_id@ && p@ == peer_id@
                },
                _ => {
                    &&& final(rooms).table() == old(rooms).table()
                    &&& r.0 == (ConnState::Relaying { peer_id, room_id })
                    &&& relays(msg) ==> r.1@.len() == 1 && (r.1@[0] matches Outbound::Broadcast(t)
                        && msg matches Inbound::Text { text, .. } && t@ == text@)
                    &&& !relays(msg) ==> r.1@.len() == 0
                    // session descriptions, ICE candidates and frames reach the room
                    &&& (msg matches Inbound::Text { message: Some(SignalMessage::Sdp { .. }), .. })
                        ==> r.1@.len() == 1 && broadcasts(r.1@[0], text_of(msg))
                    &&& (msg matches Inbound::Text { message: Some(SignalMessage::IceCandidate { .. }), .. })
                        ==> r.1@.len() == 1 && broadcasts(r.1@[0], text_of(msg))
                    &&& (msg matches Inbound::Text { message: Some(SignalMessage::Frame { .. }), .. })
                        ==> r.1@.len() == 1 && broadcasts(r.1@[0], text_of(msg))
                },
            },
            ConnState::Closed => {
                &&& final(rooms).table() == old(rooms).table()
                &&& r.0 == ConnState::Closed
                &&& r.1@.len() == 0
            },
        }),
{
    let mut acts: Vec<Outbound> = Vec::new();
    match c {
        ConnState::AwaitingAuth { peer_id } => {
            match msg {
                Inbound::Text { text, .. } => {
                    let key = String::from_str(psk);
                    let peer_tag = compute_hmac_tag(peer_id.as_str().as_bytes(), psk.as_bytes());
                    let text_tag = compute_hmac_tag(text.as_str().as_bytes(), psk.as_bytes());
                    if text == key || same_tag(&peer_tag, &text_tag) {
                        acts.push(error_msg(0, "authenticated"));
                        (ConnState::AwaitingJoin { peer_id }, acts)
                    } else {
                        acts.push(error_msg(4003, "PSK authentication failed"));
                        acts.push(Outbound::Close);
                        (ConnState::Closed, acts)
                    }
                },
                _ => {
                    acts.push(error_msg(4003, "Authentication required"));
                    acts.push(Outbound::Close);
                    (ConnState::Closed, acts)
                },
            }
        },
        ConnState::AwaitingJoin { peer_id } => {
            match msg {
                Inbound::Text { message: Some(SignalMessage::RoomJoin { room_id, peer_role }), .. } => {
                    match rooms.join_room(room_id.as_str(), peer_id.as_str(), &peer_role) {
                        Ok(()) => {
                            acts.push(
                                Outbound::Send(
                                    SignalMessage::RoomJoined { room_id: room_id.clone(), peer_id: peer_id.clone() },
                                ),
                            );
                            acts.push(Outbound::Subscribe(room_id.clone()));
                            (ConnState::Relaying { peer_id, room_id }, acts)
                        },
                        Err(RoomError::RoomFull) => {
                            acts.push(error_msg(4002, "Room is full"));
                            acts.push(Outbound::Close);
                            (ConnState::Closed, acts)
                        },
                    }
                },
                Inbound::Close => {
                    acts.push(Outbound::Close);
                    (ConnState::Closed, acts)
                },
                _ => (ConnState::AwaitingJoin { peer_id }, acts),
            }
        },
        ConnState::Relaying { peer_id, room_id } => {
            match msg {
                Inbound::Close => {
                    rooms.leave_room(room_id.as_str(), peer_id.as_str());
                    acts.push(Outbound::BroadcastLeave { room_id, peer_id });
                    (ConnState::Closed, acts)
                },
                Inbound::Text { text, message, raw_frame } => {
                    let relay = match &message {
                        Some(SignalMessage::Sdp { .. }) => true,
                        Some(SignalMessage::IceCandidate { .. }) => true,
                        Some(SignalMessage::Frame { .. }) => true,
                        Some(_) => false,
                        None => raw_frame,
                    };
                    if relay {
                        acts.push(Outbound::Broadcast(text));
                    }
                    (ConnState::Relaying { peer_id, room_id }, acts)
                },
                Inbound::Other => (ConnState::Relaying { peer_id, room_id }, acts),
            }
        },
        ConnState::Closed => (ConnState::Closed, acts),
    }
}

/// Which messages a peer in a room has relayed to the room: session
/// descriptions, ICE candidates and frames, and text that is no signaling
/// message but a JSON frame; no other kind of message.
pub proof fn law_relayed_messages(text: String, m: SignalMessage, raw_frame: bool)
    ensures
        m is Sdp ==> relays(Inbound::Text { text, message: Some(m), raw_frame }),
        m is IceCandidate ==> relays(Inbound::Text { text, message: Some(m), raw_frame }),
        m is Frame ==> relays(Inbound::Text { text, message: Some(m), raw_frame }),
        m is Error || m is RoomJoin || m is RoomJoined || m is RoomLeave || m is WebRtcTransportCreated
            || m is Produced || m is NewProducer || m is Consumed || m is Other ==> !relays(
            Inbound::Text { text, message: Some(m), raw_frame },
        ),
        relays(Inbound::Text { text, message: None, raw_frame }) == raw_frame,
        !relays(Inbound::Close),
        !relays(Inbound::Other),
{
}

} // verus!
