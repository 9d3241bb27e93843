//! What the session layer exchanges with the peer-to-peer socket: peer-state
//! reports, received datagrams and datagrams to send.
use vstd::prelude::*;
use crate::registry::PeerId;

verus! {

/// The state the socket reports for a peer.
#[derive(Clone, Copy, Debug, PartialEq, Eq, Structural)]
pub enum PeerState {
    Connected,
    Disconnected,
}

/// One change of a peer's state, as the socket reports it.
#[derive(Clone, Copy, Debug, PartialEq, Eq, Structural)]
pub struct PeerUpdate {
    pub peer: PeerId,
    pub state: PeerState,
}

/// The socket can no longer report its peers: every channel of it is closed.
#[derive(Clone, Copy, Debug, PartialEq, Eq, Structural)]
pub struct SocketClosed;

/// A datagram received on one socket channel.
#[derive(Debug)]
pub struct Datagram {
    pub peer: PeerId,
    pub bytes: Vec<u8>,
}

/// A datagram to send: on socket channel `channel`, to `peer`.
#[derive(Debug)]
pub struct Outgoing {
    pub channel: usize,
    pub peer: PeerId,
    pub bytes: Vec<u8>,
}

impl View for Datagram {
    type V = (PeerId, Seq<u8>);

    open spec fn view(&self) -> (PeerId, Seq<u8>) {
        (self.peer, self.bytes@)
    }
}

impl View for Outgoing {
    type V = (usize, PeerId, Seq<u8>);

    open spec fn view(&self) -> (usize, PeerId, Seq<u8>) {
        (self.channel, self.peer, self.bytes@)
    }
}

pub open spec fn datagram_views(s: Seq<Datagram>) -> Seq<(PeerId, Seq<u8>)> {
    s.map_values(|d: Datagram| d@)
}

pub open spec fn outgoing_views(s: Seq<Outgoing>) -> Seq<(usize, PeerId, Seq<u8>)> {
    s.map_values(|o: Outgoing| o@)
}

} // verus!
