//! A peer's side of the signaling connection: send the PSK, wait for the
//! acknowledgement, join the room in the peer's role, wait for
//! `RoomJoined`, then act on relayed session descriptions, ICE candidates
//! and frames.

use vstd::prelude::*;
use vstd::string::{StrSliceExecFns, StringExecFns};
use crate::server::room::PeerRole;
use super::SignalMessage;

verus! {

/// What standard base64 decoding of `text` gives, none where `text` is not
/// valid base64.
pub uninterp spec fn base64_decoded(text: Seq<char>) -> Option<Seq<u8>>;

/// `base64::engine::general_purpose::STANDARD.decode(text)`: the decoded
/// bytes, or none where the text is not valid standard base64. The result is
/// named by `base64_decoded`.
#[verifier::external_body]
fn base64_decode(text: &str) -> (r: Option<Vec<u8>>)
    ensures
        r matches Some(v) ==> base64_decoded(text@) == Some(v@),
        r is None ==> base64_decoded(text@) is None,
{
    base64::Engine::decode(&base64::engine::general_purpose::STANDARD, text).ok()
}

/// `s` without its trailing `'/'` characters.
pub open spec fn trim_trailing_slashes(s: Seq<char>) -> Seq<char>
    decreases s.len(),
{
    if s.len() > 0 && s.last() == '/' {
        trim_trailing_slashes(s.drop_last())
    } else {
        s
    }
}

/// The address of the signaling endpoint of a server: the server's URL
/// without trailing `'/'`, followed by `/ws`.
pub fn ws_url(server_url: &str) -> (u: String)
    ensures
        u@ == trim_trailing_slashes(server_url@) + "/ws"@,
{
    let len = server_url.unicode_len();
    let mut n: usize = len;
    proof {
        assert(server_url@.take(len as int) =~= server_url@);
    }
    while n > 0 && server_url.get_char(n - 1) == '/'
        invariant
            n <= len,
            len == server_url@.len(),
            trim_trailing_slashes(server_url@) == trim_trailing_slashes(server_url@.take(n as int)),
        decreases n,
    {
        proof {
            assert(server_url@.take(n as int).drop_last() =~= server_url@.take(n - 1));
        }
        n = n - 1;
    }
    proof {
        if n > 0 {
            assert(server_url@.take(n as int).last() == server_url@[n - 1]);
        }
        assert(trim_trailing_slashes(server_url@.take(n as int)) == server_url@.take(n as int));
    }
    let mut u = String::from_str(server_url.substring_char(0, n));
    u.append("/ws");
    proof {
        assert(server_url@.subrange(0, n as int) =~= server_url@.take(n as int));
    }
    u
}

/// Where a peer's signaling connection stands.
pub enum ClientState {
    /// The PSK was sent; waiting for the acknowledgement.
    AwaitingAuth { room_id: String, role: PeerRole },
    /// `RoomJoin` was sent; waiting for `RoomJoined`.
    AwaitingJoined { room_id: String },
    /// In the room, as `peer_id`.
    Relaying { room_id: String, peer_id: String },
    /// The connection ended normally.
    Done,
    /// The handshake failed.
    Failed,
}

/// What happens on a peer's connection.
pub enum ClientEvent {
    /// A text message that parses to a signaling message. A raw JSON frame
    /// object counts as `Frame`.
    Message(SignalMessage),
    /// A text message that is no signaling message.
    Unparsed,
    /// A ping with its payload.
    Ping(Vec<u8>),
    /// Any other non-text frame.
    NonText,
    /// A close frame or the end of the stream.
    Closed,
    /// A read error.
    ReadError,
    /// The local WebRTC end answered an offer of room `room_id`.
    Answer { room_id: String, sdp: String },
    /// The local WebRTC end found an ICE candidate.
    LocalCandidate { candidate: String, sdp_mid: Option<String>, sdp_mline_index: Option<u16> },
}

/// Why a handshake failed.
#[derive(Debug, Clone, Copy, PartialEq, Eq, Structural)]
pub enum HandshakeError {
    /// The server answered the PSK with this nonzero error code.
    AuthRejected(u32),
    /// The server answered the PSK with something other than an error report.
    UnexpectedAuthResponse,
    /// The server refused the join with this error code.
    JoinRejected(u32),
    /// The server answered the join with something other than `RoomJoined`.
    UnexpectedJoinResponse,
    /// A reply was not a signaling message.
    Malformed,
    /// The connection closed or failed during the handshake.
    Disconnected,
}

/// What the peer is to do.
pub enum ClientAction {
    /// Open the WebSocket connection to this address.
    Dial(String),
    /// Send this raw text.
    SendText(String),
    /// Send this message.
    Send(SignalMessage),
    /// Answer a ping with this payload.
    Pong(Vec<u8>),
    /// The room was joined under this peer id.
    Joined(String),
    /// Hand this offer of room `room_id` to the WebRTC end.
    HandleOffer { room_id: String, sdp: String },
    /// Hand this remote ICE candidate to the WebRTC end.
    HandleIce { candidate: String, sdp_mid: Option<String>, sdp_mline_index: Option<u16> },
    /// Deliver these frame bytes.
    DeliverFrame(Vec<u8>),
    /// The handshake failed.
    Fail(HandshakeError),
    /// The connection is over.
    Finish,
}

/// Opens the handshake: dial the server's signaling endpoint
/// (`{server_url}/ws`, trailing `'/'` of the URL dropped), then send the
/// PSK as the first text message.
pub fn client_start(server_url: &str, psk: &str, room_id: String, role: PeerRole) -> (r: (
    ClientState,
    Vec<ClientAction>,
))
    ensures
        r.0 == (ClientState::AwaitingAuth { room_id, role }),
        r.1@.len() == 2,
        r.1@[0] matches ClientAction::Dial(u) && u@ == trim_trailing_slashes(server_url@) + "/ws"@,
        r.1@[1] matches ClientAction::SendText(t) && t@ == psk@,
{
    let mut acts: Vec<ClientAction> = Vec::new();
    acts.push(ClientAction::Dial(ws_url(server_url)));
    acts.push(ClientAction::SendText(String::from_str(psk)));
    (ClientState::AwaitingAuth { room_id, role }, acts)
}

/// A single failure action.
pub open spec fn fails_with(r: (ClientState, Vec<ClientAction>), e: HandshakeError) -> bool {
    &&& r.0 == ClientState::Failed
    &&& r.1@.len() == 1
    &&& r.1@[0] == ClientAction::Fail(e)
}

fn fail(e: HandshakeError) -> (r: (ClientState, Vec<ClientAction>))
    ensures
        fails_with(r, e),
{
    let mut acts: Vec<ClientAction> = Vec::new();
    acts.push(ClientAction::Fail(e));
    (ClientState::Failed, acts)
}

/// One step of a peer's connection: the state after `ev`, and what to do.
///
/// - Waiting for the acknowledgement: `Error` with code 0 sends the
///   `RoomJoin` for the room and role; another error code fails with that
///   code; any other message, text that is no message, or a non-text frame
///   fails as an unexpected or malformed answer; a close or read error
///   fails as a disconnection.
/// - Waiting for `RoomJoined`: it reports the peer id and starts relaying;
///   an error fails with its code; the rest fails as in the step before.
/// - Relaying: an offer goes to the WebRTC end, as does a remote ICE
///   candidate; a frame's base64 payload is decoded and delivered (an
///   invalid payload is dropped); a ping is answered; the WebRTC end's
///   answer and local candidates are sent for the room; a close or read
///   error ends the connection; everything else is ignored.
/// - After the end or a failure nothing more happens.
pub fn client_step(s: ClientState, ev: ClientEvent) -> (r: (ClientState, Vec<ClientAction>))
    ensures
        (match s {
            ClientState::AwaitingAuth { room_id, role } => match ev {
                ClientEvent::Message(SignalMessage::Error { code, .. }) => if code == 0 {
                    &&& r.0 == (ClientState::AwaitingJoined { room_id })
                    &&& r.1@.len() == 1
                    &&& r.1@[0] matches ClientAction::Send(SignalMessage::RoomJoin { room_id: j, peer_role })
                        && j@ == room_id@ && peer_role == role
                } else {
                    fails_with(r, HandshakeError::AuthRejected(code))
                },
                ClientEvent::Message(_) => fails_with(r, HandshakeError::UnexpectedAuthResponse),
                ClientEvent::Unparsed => fails_with(r, HandshakeError::Malformed),
                ClientEvent::Ping(_) => fails_with(r, HandshakeError::UnexpectedAuthResponse),
                ClientEvent::NonText => fails_with(r, HandshakeError::UnexpectedAuthResponse),
                ClientEvent::Closed => fails_with(r, HandshakeError::Disconnected),
                ClientEvent::ReadError => fails_with(r, HandshakeError::Disconnected),
                _ => r.0 == (ClientState::AwaitingAuth { room_id, role }) && r.1@.len() == 0,
            },
            ClientState::AwaitingJoined { room_id } => match ev {
                ClientEvent::Message(SignalMessage::RoomJoined { peer_id, .. }) => {
                    &&& r.0 == (ClientState::Relaying { room_id, peer_id })
                    &&& r.1@.len() == 1
                    &&& r.1@[0] matches ClientAction::Joined(p) && p@ == peer_id@
                },
                ClientEvent::Message(SignalMessage::Error { code, .. }) => fails_with(
                    r,
                    HandshakeError::JoinRejected(code),
                ),
                ClientEvent::Message(_) => fails_with(r, HandshakeError::UnexpectedJoinResponse),
                ClientEvent::Unparsed => fails_with(r, HandshakeError::Malformed),
                ClientEvent::Ping(_) => fails_with(r, HandshakeError::UnexpectedJoinResponse),
                ClientEvent::NonText => fails_with(r, HandshakeError::UnexpectedJoinResponse),
                ClientEvent::Closed => fails_with(r, HandshakeError::Disconnected),
                ClientEvent::ReadError => fails_with(r, HandshakeError::Disconnected),
                _ => r.0 == (ClientState::AwaitingJoined { room_id }) && r.1@.len() == 0,
            },
            ClientState::Relaying { room_id, peer_id } => match ev {
                ClientEvent::Closed => r.0 == ClientState::Done && r.1@.len() == 1 && r.1@[0] is Finish,
                ClientEvent::ReadError => r.0 == ClientState::Done && r.1@.len() == 1 && r.1@[0] is Finish,
                _ => {
                    &&& r.0 == (ClientState::Relaying { room_id, peer_id })
                    &&& match ev {
                        ClientEvent::Message(SignalMessage::Sdp { room_id: rid, sdp, .. }) => {
                            &&& r.1@.len() == 1
                            &&& r.1@[0] matches ClientAction::HandleOffer { room_id: a, sdp: b }
                                && a@ == rid@ && b@ == sdp@
                        },
                        ClientEvent::Message(
                            SignalMessage::IceCandidate { candidate, sdp_mid, sdp_mline_index, .. },
                        ) => {
                            &&& r.1@.len() == 1
                            &&& r.1@[0] == (ClientAction::HandleIce { candidate, sdp_mid, sdp_mline_index })
                        },
                        ClientEvent::Message(SignalMessage::Frame { data_base64 }) => match base64_decoded(
                            data_base64@,
                        ) {
                            Some(bytes) => r.1@.len() == 1 && (r.1@[0] matches ClientAction::DeliverFrame(d)
                                && d@ == bytes),
                            None => r.1@.len() == 0,
                        },
                        ClientEvent::Ping(data) => r.1@.len() == 1 && r.1@[0] == ClientAction::Pong(data),
                        ClientEvent::Answer { room_id: rid, sdp } => {
                            &&& r.1@.len() == 1
                            &&& r.1@[0] matches ClientAction::Send(SignalMessage::Sdp { room_id: a, target, sdp: b })
                                && a@ == rid@ && target is None && b@ == sdp@
                        },
                        ClientEvent::LocalCandidate { candidate, sdp_mid, sdp_mline_index } => {
                            &&& r.1@.len() == 1
                            &&& r.1@[0] matches ClientAction::Send(
                                SignalMessage::IceCandidate { room_id: a, target, candidate: c, sdp_mid: m, sdp_mline_index: i },
                            ) && a@ == room_id@ && target is None && c == candidate && m == sdp_mid
                                && i == sdp_mline_index
                        },
                        _ => r.1@.len() == 0,
                    }
                },
            },
            ClientState::Done => r.0 == ClientState::Done && r.1@.len() == 0,
            ClientState::Failed => r.0 == ClientState::Failed && r.1@.len() == 0,
        }),
{
    let mut acts: Vec<ClientAction> = Vec::new();
    match s {
        ClientState::AwaitingAuth { room_id, role } => match ev {
            ClientEvent::Message(SignalMessage::Error { code, .. }) => {
                if code == 0 {
                    acts.push(ClientAction::Send(SignalMessage::RoomJoin { room_id: room_id.clone(), peer_role: role }));
                    (ClientState::AwaitingJoined { room_id }, acts)
                } else {
                    fail(HandshakeError::AuthRejected(code))
                }
            },
            ClientEvent::Message(_) => fail(HandshakeError::UnexpectedAuthResponse),
            ClientEvent::Unparsed => fail(HandshakeError::Malformed),
            ClientEvent::Ping(_) => fail(HandshakeError::UnexpectedAuthResponse),
            ClientEvent::NonText => fail(HandshakeError::UnexpectedAuthResponse),
            ClientEvent::Closed => fail(HandshakeError::Disconnected),
            ClientEvent::ReadError => fail(HandshakeError::Disconnected),
            _ => (ClientState::AwaitingAuth { room_id, role }, acts),
        },
        ClientState::AwaitingJoined { room_id } => match ev {
            ClientEvent::Message(SignalMessage::RoomJoined { peer_id, .. }) => {
                acts.push(ClientAction::Joined(peer_id.clone()));
                (ClientState::Relaying { room_id, peer_id }, acts)
            },
            ClientEvent::Message(SignalMessage::Error { code, .. }) => fail(HandshakeError::JoinRejected(code)),
            ClientEvent::Message(_) => fail(HandshakeError::UnexpectedJoinResponse),
            ClientEvent::Unparsed => fail(HandshakeError::Malformed),
            ClientEvent::Ping(_) => fail(HandshakeError::UnexpectedJoinResponse),
            ClientEvent::NonText => fail(HandshakeError::UnexpectedJoinResponse),
            ClientEvent::Closed => fail(HandshakeError::Disconnected),
            ClientEvent::ReadError => fail(HandshakeError::Disconnected),
            _ => (ClientState::AwaitingJoined { room_id }, acts),
        },
        ClientState::Relaying { room_id, peer_id } => match ev {
            ClientEvent::Closed => {
                acts.push(ClientAction::Finish);
                (ClientState::Done, acts)
            },
            ClientEvent::ReadError => {
                acts.push(ClientAction::Finish);
                (ClientState::Done, acts)
            },
            ClientEvent::Message(SignalMessage::Sdp { room_id: rid, sdp, .. }) => {
                acts.push(ClientAction::HandleOffer { room_id: rid, sdp });
                (ClientState::Relaying { room_id, peer_id }, acts)
            },
            ClientEvent::Message(SignalMessage::IceCandidate { candidate, sdp_mid, sdp_mline_index, .. }) => {
                acts.push(ClientAction::HandleIce { candidate, sdp_mid, sdp_mline_index });
                (ClientState::Relaying { room_id, peer_id }, acts)
            },
            ClientEvent::Message(SignalMessage::Frame { data_base64 }) => {
                match base64_decode(data_base64.as_str()) {
                    Some(bytes) => acts.push(ClientAction::DeliverFrame(bytes)),
                    None => {},
                }
                (ClientState::Relaying { room_id, peer_id }, acts)
            },
            ClientEvent::Ping(data) => {
                acts.push(ClientAction::Pong(data));
                (ClientState::Relaying { room_id, peer_id }, acts)
            },
            ClientEvent::Answer { room_id: rid, sdp } => {
                acts.push(ClientAction::Send(SignalMessage::Sdp { room_id: rid, target: None, sdp }));
                (ClientState::Relaying { room_id, peer_id }, acts)
            },
            ClientEvent::LocalCandidate { candidate, sdp_mid, sdp_mline_index } => {
                acts.push(
                    ClientAction::Send(
                        SignalMessage::IceCandidate {
                            room_id: room_id.clone(),
                            target: None,
                            candidate,
                            sdp_mid,
                            sdp_mline_index,
                        },
                    ),
                );
                (ClientState::Relaying { room_id, peer_id }, acts)
            },
            _ => (ClientState::Relaying { room_id, peer_id }, acts),
        },
        ClientState::Done => (ClientState::Done, acts),
        ClientState::Failed => (ClientState::Failed, acts),
    }
}

} // verus!
