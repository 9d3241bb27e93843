//! Framing of application payloads and the wire form of control messages.
use vstd::prelude::*;

verus! {

/// Byte put in front of every application payload, so that a payload of length
/// zero never travels as the socket's own empty datagram.
pub const PAYLOAD_MARKER: u8 = 0;

/// The messages of the control protocol, sent on the reserved channel only.
#[derive(Clone, Copy, Debug, PartialEq, Eq, Structural)]
pub enum SystemChannelMessage {
    /// Host to client: the host has registered the client.
    ConnectedToHost,
    /// Host to client: the host is dropping the client.
    HostRequestsDisconnect,
    /// Client to host: the client is leaving.
    ClientDisconnects,
}

/// Why a control datagram could not be read.
#[derive(Clone, Copy, Debug, PartialEq, Eq, Structural)]
pub enum DecodeError {
    /// The datagram held no byte.
    Empty,
    /// The first byte is no known message kind.
    UnknownKind(u8),
    /// Bytes follow the message kind.
    TrailingBytes,
}

/// The byte that stands for a message on the wire.
pub open spec fn message_byte(m: SystemChannelMessage) -> u8 {
    match m {
        SystemChannelMessage::ConnectedToHost => 0,
        SystemChannelMessage::HostRequestsDisconnect => 1,
        SystemChannelMessage::ClientDisconnects => 2,
    }
}

/// The wire form of a control message.
pub open spec fn encoded(m: SystemChannelMessage) -> Seq<u8> {
    seq![message_byte(m)]
}

/// What a control datagram reads as.
pub open spec fn decoded(bytes: Seq<u8>) -> Result<SystemChannelMessage, DecodeError> {
    if bytes.len() == 0 {
        Err(DecodeError::Empty)
    } else if bytes[0] > 2 {
        Err(DecodeError::UnknownKind(bytes[0]))
    } else if bytes.len() > 1 {
        Err(DecodeError::TrailingBytes)
    } else if bytes[0] == 0 {
        Ok(SystemChannelMessage::ConnectedToHost)
    } else if bytes[0] == 1 {
        Ok(SystemChannelMessage::HostRequestsDisconnect)
    } else {
        Ok(SystemChannelMessage::ClientDisconnects)
    }
}

/// A payload as it travels on a data channel.
pub open spec fn framed(payload: Seq<u8>) -> Seq<u8> {
    seq![PAYLOAD_MARKER] + payload
}

/// The payload that a data-channel datagram carries.
pub open spec fn unframed(packet: Seq<u8>) -> Seq<u8> {
    packet.subrange(1, packet.len() as int)
}

/// Wire form of a control message: one byte naming its kind.
pub fn encode_control(message: SystemChannelMessage) -> (r: Vec<u8>)
    ensures
        r@ == encoded(message),
{
    let b: u8 = match message {
        SystemChannelMessage::ConnectedToHost => 0,
        SystemChannelMessage::HostRequestsDisconnect => 1,
        SystemChannelMessage::ClientDisconnects => 2,
    };
    let mut r: Vec<u8> = Vec::new();
    r.push(b);
    proof {
        assert(r@ =~= encoded(message));
    }
    r
}

/// Reads a control datagram.
pub fn decode_control(bytes: &[u8]) -> (r: Result<SystemChannelMessage, DecodeError>)
    ensures
        r == decoded(bytes@),
{
    if bytes.len() == 0 {
        return Err(DecodeError::Empty);
    }
    let b = bytes[0];
    if b > 2 {
        Err(DecodeError::UnknownKind(b))
    } else if bytes.len() > 1 {
        Err(DecodeError::TrailingBytes)
    } else if b == 0 {
        Ok(SystemChannelMessage::ConnectedToHost)
    } else if b == 1 {
        Ok(SystemChannelMessage::HostRequestsDisconnect)
    } else {
        Ok(SystemChannelMessage::ClientDisconnects)
    }
}

/// Puts the marker byte in front of an application payload.
pub fn frame_payload(payload: &[u8]) -> (r: Vec<u8>)
    ensures
        r@ == framed(payload@),
{
    let mut r: Vec<u8> = Vec::with_capacity(payload.len());
    r.push(PAYLOAD_MARKER);
    let mut i: usize = 0;
    while i < payload.len()
        invariant
            i <= payload@.len(),
            r@ == seq![PAYLOAD_MARKER] + payload@.subrange(0, i as int),
        decreases payload@.len() - i,
    {
        r.push(payload[i]);
        i = i + 1;
        proof {
            assert(r@ =~= seq![PAYLOAD_MARKER] + payload@.subrange(0, i as int));
        }
    }
    proof {
        assert(payload@.subrange(0, i as int) =~= payload@);
    }
    r
}

/// Takes the payload out of a data-channel datagram: every byte but the first.
pub fn unframe_payload(packet: &[u8]) -> (r: Vec<u8>)
    requires
        packet@.len() >= 1,
    ensures
        r@ == unframed(packet@),
{
    let mut r: Vec<u8> = Vec::with_capacity(packet.len() - 1);
    let mut i: usize = 1;
    while i < packet.len()
        invariant
            1 <= i <= packet@.len(),
            r@ == packet@.subrange(1, i as int),
        decreases packet@.len() - i,
    {
        r.push(packet[i]);
        i = i + 1;
        proof {
            assert(r@ =~= packet@.subrange(1, i as int));
        }
    }
    r
}

/// Every control message reads back as itself.
pub proof fn lemma_control_round_trip(m: SystemChannelMessage)
    ensures
        decoded(encoded(m)) == Ok::<SystemChannelMessage, DecodeError>(m),
{
}

/// Framing and then unframing gives the payload back, the empty one included.
pub proof fn lemma_frame_round_trip(payload: Seq<u8>)
    ensures
        framed(payload).len() >= 1,
        unframed(framed(payload)) == payload,
{
    assert(unframed(framed(payload)) =~= payload);
}

} // verus!
