//! The signaling protocol between the peers and the server: PSK
//! authentication, joining a room, then relaying SDP, ICE and frames to the
//! other peer of the room. The decisions of both ends stand here as
//! functions from a state and an event to the next state and the actions to
//! perform; the sockets that carry them are driven by the caller.

pub mod client;
pub mod server;
pub mod sfu;

use vstd::prelude::*;
use crate::server::room::PeerRole;

verus! {

/// A signaling message, as the peers and the server exchange them.
#[derive(Debug, Clone)]
pub enum SignalMessage {
    /// An error report; code 0 acknowledges a successful step.
    Error { code: u32, message: String },
    /// Ask to join a room in a role.
    RoomJoin { room_id: String, peer_role: PeerRole },
    /// The join succeeded; `peer_id` is the id the server gave the peer.
    RoomJoined { room_id: String, peer_id: String },
    /// A peer left a room.
    RoomLeave { room_id: String, peer_id: String },
    /// A session description.
    Sdp { room_id: String, target: Option<String>, sdp: String },
    /// An ICE candidate.
    IceCandidate {
        room_id: String,
        target: Option<String>,
        candidate: String,
        sdp_mid: Option<String>,
        sdp_mline_index: Option<u16>,
    },
    /// A video frame relayed over the signaling socket, base64-encoded.
    Frame { data_base64: String },
    /// An SFU transport was created for a peer; the parameters are JSON.
    WebRtcTransportCreated {
        room_id: String,
        peer_id: String,
        transport_id: String,
        ice_parameters: String,
        dtls_parameters: String,
    },
    /// The SFU created the sender's producer.
    Produced { room_id: String, producer_id: String },
    /// A peer of the room started producing.
    NewProducer { room_id: String, producer_id: String, peer_id: String, kind: String },
    /// The SFU created a consumer of a producer; the parameters are JSON.
    Consumed { room_id: String, consumer_id: String, producer_id: String, kind: String, rtp_parameters: String },
    /// A message of a kind this end does not act on.
    Other,
}

/// Whether the server relays a message to the other peer of the room:
/// session descriptions, ICE candidates and frames.
pub open spec fn is_relayed(m: SignalMessage) -> bool {
    m is Sdp || m is IceCandidate || m is Frame
}

} // verus!
