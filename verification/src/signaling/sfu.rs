//! The server's decisions on SFU transport messages: which SFU operation a
//! message asks for, which it refuses before any SFU call, and the error
//! report for an operation that failed. The SFU itself is driven by the
//! caller.

use vstd::prelude::*;
use vstd::string::StringExecFns;
use super::SignalMessage;

verus! {

/// The direction of an SFU transport.
#[derive(Debug, Clone, Copy, PartialEq, Eq, Structural)]
pub enum TransportDirection {
    Send,
    Recv,
}

/// An SFU message from a peer; parameters and capabilities are JSON.
pub enum SfuRequest {
    CreateTransport { room_id: String, peer_id: String, direction: TransportDirection },
    ConnectTransport { room_id: String, peer_id: String, transport_id: String },
    Produce { room_id: String, direction: TransportDirection, kind: String, rtp_parameters: String },
    Consume { room_id: String, producer_id: String, rtp_capabilities: String },
}

/// What the server does with an SFU message.
pub enum SfuDecision {
    /// Create a WebRTC transport in this direction for the peer.
    CreateTransport { room_id: String, peer_id: String, direction: TransportDirection },
    /// Answer the peer with this message; no SFU call is made.
    Reply(SignalMessage),
    /// Create a producer of this kind with these parameters for the peer.
    CreateProducer { room_id: String, peer_id: String, kind: String, rtp_parameters: String },
    /// Create a consumer of this producer for the peer, with its capabilities.
    CreateConsumer { room_id: String, peer_id: String, producer_id: String, rtp_capabilities: String },
}

/// What the SFU gives back for a created transport; the parameters are JSON.
pub struct TransportCreated {
    pub transport_id: String,
    pub ice_parameters: String,
    pub dtls_parameters: String,
}

/// What the SFU gives back for a created producer.
pub struct ProducerCreated {
    pub producer_id: String,
    pub kind: String,
}

/// What the SFU gives back for a created consumer; the parameters are JSON.
pub struct ConsumerCreated {
    pub consumer_id: String,
    pub producer_id: String,
    pub kind: String,
    pub rtp_parameters: String,
}

/// The SFU operations that can fail.
#[derive(Debug, Clone, Copy, PartialEq, Eq, Structural)]
pub enum SfuOperation {
    Transport,
    Producer,
    Consumer,
}

/// The text that opens the error report of a failed operation.
pub open spec fn failure_prefix(op: SfuOperation) -> Seq<char> {
    match op {
        SfuOperation::Transport => "Transport creation failed: "@,
        SfuOperation::Producer => "Producer creation failed: "@,
        SfuOperation::Consumer => "Consumer creation failed: "@,
    }
}

/// What the server does with an SFU message from the connection of peer
/// `peer_id`: a transport connect is accepted at once with the
/// acknowledgement (code 0, "transport_connected"), a produce on a receive
/// transport is refused with error 4000 "Produce requires send transport",
/// and the rest go to the SFU with what they carry, producers and consumers
/// for the connection's peer.
pub fn sfu_decide(req: SfuRequest, peer_id: String) -> (d: SfuDecision)
    ensures
        (match req {
            SfuRequest::CreateTransport { room_id, peer_id: p, direction } => d == (SfuDecision::CreateTransport {
                room_id,
                peer_id: p,
                direction,
            }),
            SfuRequest::ConnectTransport { .. } => d matches SfuDecision::Reply(SignalMessage::Error { code, message })
                && code == 0 && message@ == "transport_connected"@,
            SfuRequest::Produce { room_id, direction, kind, rtp_parameters } => if direction
                == TransportDirection::Send {
                d == (SfuDecision::CreateProducer { room_id, peer_id, kind, rtp_parameters })
            } else {
                d matches SfuDecision::Reply(SignalMessage::Error { code, message }) && code == 4000
                    && message@ == "Produce requires send transport"@
            },
            SfuRequest::Consume { room_id, producer_id, rtp_capabilities } => d == (SfuDecision::CreateConsumer {
                room_id,
                peer_id,
                producer_id,
                rtp_capabilities,
            }),
        }),
{
    match req {
        SfuRequest::CreateTransport { room_id, peer_id: p, direction } => SfuDecision::CreateTransport {
            room_id,
            peer_id: p,
            direction,
        },
        SfuRequest::ConnectTransport { .. } => SfuDecision::Reply(
            SignalMessage::Error { code: 0, message: String::from_str("transport_connected") },
        ),
        SfuRequest::Produce { room_id, direction, kind, rtp_parameters } => {
            match direction {
                TransportDirection::Send => SfuDecision::CreateProducer { room_id, peer_id, kind, rtp_parameters },
                TransportDirection::Recv => SfuDecision::Reply(
                    SignalMessage::Error { code: 4000, message: String::from_str("Produce requires send transport") },
                ),
            }
        },
        SfuRequest::Consume { room_id, producer_id, rtp_capabilities } => SfuDecision::CreateConsumer {
            room_id,
            peer_id,
            producer_id,
            rtp_capabilities,
        },
    }
}

/// The answer to a created transport: its id and parameters, for the room
/// and peer it was created for.
pub fn transport_created(room_id: String, peer_id: String, created: TransportCreated) -> (m: SignalMessage)
    ensures
        m == (SignalMessage::WebRtcTransportCreated {
            room_id,
            peer_id,
            transport_id: created.transport_id,
            ice_parameters: created.ice_parameters,
            dtls_parameters: created.dtls_parameters,
        }),
{
    SignalMessage::WebRtcTransportCreated {
        room_id,
        peer_id,
        transport_id: created.transport_id,
        ice_parameters: created.ice_parameters,
        dtls_parameters: created.dtls_parameters,
    }
}

/// The answers to a created producer: `Produced` to the producing peer,
/// and `NewProducer` with the peer and the kind for the whole room.
pub fn producer_created(room_id: String, peer_id: String, created: ProducerCreated) -> (r: (SignalMessage, SignalMessage))
    ensures
        r.0 matches SignalMessage::Produced { room_id: a, producer_id: b } && a == room_id && b
            == created.producer_id,
        r.1 == (SignalMessage::NewProducer {
            room_id,
            producer_id: created.producer_id,
            peer_id,
            kind: created.kind,
        }),
{
    let reply = SignalMessage::Produced { room_id: room_id.clone(), producer_id: created.producer_id.clone() };
    let announce = SignalMessage::NewProducer {
        room_id,
        producer_id: created.producer_id,
        peer_id,
        kind: created.kind,
    };
    (reply, announce)
}

/// The answer to a created consumer: its id, producer, kind and parameters.
pub fn consumer_created(room_id: String, created: ConsumerCreated) -> (m: SignalMessage)
    ensures
        m == (SignalMessage::Consumed {
            room_id,
            consumer_id: created.consumer_id,
            producer_id: created.producer_id,
            kind: created.kind,
            rtp_parameters: created.rtp_parameters,
        }),
{
    SignalMessage::Consumed {
        room_id,
        consumer_id: created.consumer_id,
        producer_id: created.producer_id,
        kind: created.kind,
        rtp_parameters: created.rtp_parameters,
    }
}

/// The error report of a failed SFU operation: code 5000, the operation's
/// prefix followed by the SFU's error text.
pub fn sfu_failure(op: SfuOperation, error: &str) -> (m: SignalMessage)
    ensures
        m matches SignalMessage::Error { code, message } && code == 5000 && message@ == failure_prefix(op)
            + error@,
{
    let mut message = match op {
        SfuOperation::Transport => String::from_str("Transport creation failed: "),
        SfuOperation::Producer => String::from_str("Producer creation failed: "),
        SfuOperation::Consumer => String::from_str("Consumer creation failed: "),
    };
    message.append(error);
    SignalMessage::Error { code: 5000, message }
}

} // verus!
