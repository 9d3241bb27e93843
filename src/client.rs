//! The client's per-tick session logic.
//!
//! A client has one peer that matters, the host. It learns which peer that is
//! from the host's `ConnectedToHost`, and sends nothing before.
use vstd::prelude::*;
use crate::channels::{ChannelLayout, LogicalChannel, CONTROL_CHANNEL};
use crate::codec::{
    decode_control,
    decoded,
    encode_control,
    encoded,
    frame_payload,
    framed,
    unframe_payload,
    unframed,
    DecodeError,
    SystemChannelMessage,
};
use crate::registry::PeerId;
use crate::transport::{
    datagram_views,
    outgoing_views,
    Datagram,
    Outgoing,
    PeerState,
    PeerUpdate,
    SocketClosed,
};

verus! {

/// Where the client's session stands.
#[derive(Clone, Copy, Debug, PartialEq, Eq, Structural)]
pub enum ClientState {
    Connecting,
    Connected,
    Disconnected,
}

/// A payload from the host, for the replication framework.
#[derive(Debug)]
pub struct ClientReceived {
    /// Host-to-client logical channel id.
    pub channel: usize,
    pub payload: Vec<u8>,
}

/// A payload the replication framework sends to the host.
#[derive(Debug)]
pub struct ClientSent {
    /// Client-to-host logical channel id.
    pub channel: usize,
    pub payload: Vec<u8>,
}

/// What the client's send step produced.
#[derive(Debug)]
pub struct ClientSends {
    pub sends: Vec<Outgoing>,
    /// The session ended on the host's request: the socket is to be closed.
    pub close_socket: bool,
}

impl View for ClientReceived {
    type V = (usize, Seq<u8>);

    open spec fn view(&self) -> (usize, Seq<u8>) {
        (self.channel, self.payload@)
    }
}

impl View for ClientSent {
    type V = (usize, Seq<u8>);

    open spec fn view(&self) -> (usize, Seq<u8>) {
        (self.channel, self.payload@)
    }
}

pub open spec fn client_received_views(s: Seq<ClientReceived>) -> Seq<(usize, Seq<u8>)> {
    s.map_values(|m: ClientReceived| m@)
}

pub open spec fn client_sent_views(s: Seq<ClientSent>) -> Seq<(usize, Seq<u8>)> {
    s.map_values(|m: ClientSent| m@)
}

/// Session state of the client.
pub struct MatchboxClient {
    /// The host's peer id, once the host has acknowledged the client.
    pub host_peer_id: Option<PeerId>,
    /// The host asked the client to leave; it does so at the next send step.
    pub should_disconnect: bool,
    pub layout: ChannelLayout,
    pub state: ClientState,
}

/// The session of `c` once it has ended.
pub open spec fn ended(c: MatchboxClient) -> MatchboxClient {
    MatchboxClient {
        host_peer_id: None,
        should_disconnect: false,
        layout: c.layout,
        state: ClientState::Disconnected,
    }
}

/// One control datagram applied to the client. The first `ConnectedToHost`
/// while connecting records its sender as the host; `HostRequestsDisconnect`
/// marks the session to end; anything else changes nothing.
pub open spec fn client_control_step(c: MatchboxClient, d: (PeerId, Seq<u8>)) -> MatchboxClient {
    if decoded(d.1) == Ok::<SystemChannelMessage, DecodeError>(
        SystemChannelMessage::ConnectedToHost,
    ) {
        if c.host_peer_id is None && c.state == ClientState::Connecting {
            MatchboxClient {
                host_peer_id: Some(d.0),
                should_disconnect: c.should_disconnect,
                layout: c.layout,
                state: ClientState::Connected,
            }
        } else {
            c
        }
    } else if decoded(d.1) == Ok::<SystemChannelMessage, DecodeError>(
        SystemChannelMessage::HostRequestsDisconnect,
    ) {
        MatchboxClient {
            host_peer_id: c.host_peer_id,
            should_disconnect: true,
            layout: c.layout,
            state: c.state,
        }
    } else {
        c
    }
}

/// A tick's control datagrams applied in order.
pub open spec fn client_control_run(c: MatchboxClient, ds: Seq<(PeerId, Seq<u8>)>) -> MatchboxClient
    decreases ds.len(),
{
    if ds.len() == 0 {
        c
    } else {
        client_control_step(client_control_run(c, ds.drop_last()), ds.last())
    }
}

/// What the datagrams of one host-to-client channel deliver: the payload of
/// each non-empty one.
pub open spec fn client_inbound(channel: usize, ds: Seq<(PeerId, Seq<u8>)>) -> Seq<(usize, Seq<u8>)>
    decreases ds.len(),
{
    if ds.len() == 0 {
        Seq::empty()
    } else {
        let prev = client_inbound(channel, ds.drop_last());
        if ds.last().1.len() >= 1 {
            prev.push((channel, unframed(ds.last().1)))
        } else {
            prev
        }
    }
}

/// The datagram that carries one outbound message to the host.
pub open spec fn client_datagram(layout: ChannelLayout, host: PeerId, m: (usize, Seq<u8>)) -> (
    usize,
    PeerId,
    Seq<u8>,
) {
    (layout.index_of(LogicalChannel::ClientToServer(m.0)) as usize, host, framed(m.1))
}

/// Whether the socket's reports say that `host` is gone.
pub open spec fn host_gone(us: Seq<PeerUpdate>, host: PeerId) -> bool {
    exists|k: int|
        0 <= k < us.len() && #[trigger] us[k] == (PeerUpdate {
            peer: host,
            state: PeerState::Disconnected,
        })
}

impl MatchboxClient {
    pub open spec fn wf(&self) -> bool {
        self.layout.wf()
    }

    /// A client that waits for the host's acknowledgement.
    pub fn new(layout: ChannelLayout) -> (r: MatchboxClient)
        requires
            layout.wf(),
        ensures
            r.wf(),
            r.host_peer_id is None,
            !r.should_disconnect,
            r.layout == layout,
            r.state == ClientState::Connecting,
    {
        MatchboxClient {
            host_peer_id: None,
            should_disconnect: false,
            layout,
            state: ClientState::Connecting,
        }
    }

    /// Whether the host has acknowledged the client.
    pub fn is_connected(&self) -> (r: bool)
        ensures
            r == (self.host_peer_id is Some),
    {
        self.host_peer_id.is_some()
    }

    /// Whether no host is known yet; sending waits until one is.
    pub fn no_host_defined(&self) -> (r: bool)
        ensures
            r == (self.host_peer_id is None),
    {
        self.host_peer_id.is_none()
    }

    /// Ends the session: the socket is gone.
    pub fn set_disconnected(&mut self)
        ensures
            *final(self) == ended(*old(self)),
    {
        self.host_peer_id = None;
        self.should_disconnect = false;
        self.state = ClientState::Disconnected;
    }

    /// Applies the socket's peer-state reports. Returns whether the socket is
    /// to be removed, which ends the session: when the socket can no longer
    /// report peers, or when it reports the known host gone. Reports on other
    /// peers are ignored.
    pub fn update_peers(&mut self, updates: &Result<Vec<PeerUpdate>, SocketClosed>) -> (r: bool)
        ensures
            r == match updates {
                Err(_) => true,
                Ok(us) => match old(self).host_peer_id {
                    Some(h) => host_gone(us@, h),
                    None => false,
                },
            },
            r ==> *final(self) == ended(*old(self)),
            !r ==> *final(self) == *old(self),
    {
        let gone = match updates {
            Err(_) => true,
            Ok(us) => match self.host_peer_id {
                None => false,
                Some(host) => {
                    let mut found = false;
                    let mut i: usize = 0;
                    while i < us.len()
                        invariant
                            i <= us@.len(),
                            found == exists|k: int|
                                0 <= k < i && #[trigger] us@[k] == (PeerUpdate {
                                    peer: host,
                                    state: PeerState::Disconnected,
                                }),
                        decreases us@.len() - i,
                    {
                        let u = us[i];
                        if u.peer == host && u.state == PeerState::Disconnected {
                            found = true;
                        }
                        i = i + 1;
                    }
                    found
                },
            },
        };
        if gone {
            self.set_disconnected();
        }
        gone
    }

    /// Applies the control datagrams of the tick, in order; see
    /// `client_control_step`.
    pub fn receive_system_packets(&mut self, packets: &Vec<Datagram>)
        ensures
            *final(self) == client_control_run(*old(self), datagram_views(packets@)),
    {
        let ghost c0 = *self;
        let ghost ds = datagram_views(packets@);
        let mut i: usize = 0;
        while i < packets.len()
            invariant
                i <= packets@.len(),
                ds == datagram_views(packets@),
                *self == client_control_run(c0, ds.subrange(0, i as int)),
            decreases packets@.len() - i,
        {
            let d = &packets[i];
            proof {
                assert(ds.subrange(0, i + 1).drop_last() =~= ds.subrange(0, i as int));
                assert(ds.subrange(0, i + 1).last() == d@);
            }
            match decode_control(d.bytes.as_slice()) {
                Ok(SystemChannelMessage::ConnectedToHost) => {
                    if self.host_peer_id.is_none() && self.state == ClientState::Connecting {
                        self.host_peer_id = Some(d.peer);
                        self.state = ClientState::Connected;
                    }
                },
                Ok(SystemChannelMessage::HostRequestsDisconnect) => {
                    self.should_disconnect = true;
                },
                _ => {},
            }
            i = i + 1;
        }
        proof {
            assert(ds.subrange(0, i as int) =~= ds);
        }
    }

    /// Delivers the datagrams of host-to-client logical channel `channel`:
    /// each non-empty one, unframed. Empty ones are dropped.
    pub fn receive_packets(&self, channel: usize, packets: &Vec<Datagram>) -> (r: Vec<
        ClientReceived,
    >)
        requires
            self.wf(),
            channel < self.layout.server_channels,
        ensures
            client_received_views(r@) == client_inbound(channel, datagram_views(packets@)),
    {
        let ghost ds = datagram_views(packets@);
        let mut r: Vec<ClientReceived> = Vec::new();
        let mut i: usize = 0;
        while i < packets.len()
            invariant
                i <= packets@.len(),
                ds == datagram_views(packets@),
                client_received_views(r@) == client_inbound(channel, ds.subrange(0, i as int)),
            decreases packets@.len() - i,
        {
            let d = &packets[i];
            proof {
                assert(ds.subrange(0, i + 1).drop_last() =~= ds.subrange(0, i as int));
                assert(ds.subrange(0, i + 1).last() == d@);
            }
            if d.bytes.len() >= 1 {
                let payload = unframe_payload(d.bytes.as_slice());
                r.push(ClientReceived { channel, payload });
            }
            i = i + 1;
            proof {
                assert(client_received_views(r@) =~= client_inbound(
                    channel,
                    ds.subrange(0, i as int),
                ));
            }
        }
        proof {
            assert(ds.subrange(0, i as int) =~= ds);
        }
        r
    }

    /// The send step of a tick. With no host known it does nothing and leaves
    /// the framework's queue as it is. Otherwise it drains the queue, framing
    /// each message for the host on the socket index of its client-to-host
    /// channel, and then ends the session if the host asked for that.
    pub fn send_packets(&mut self, outbound: &mut Vec<ClientSent>) -> (r: ClientSends)
        requires
            old(self).wf(),
            forall|k: int|
                0 <= k < old(outbound)@.len() ==> #[trigger] old(outbound)@[k].channel
                    < old(self).layout.client_channels,
        ensures
            final(self).wf(),
            match old(self).host_peer_id {
                None => {
                    &&& *final(self) == *old(self)
                    &&& final(outbound)@ == old(outbound)@
                    &&& r.sends@ == Seq::<Outgoing>::empty()
                    &&& !r.close_socket
                },
                Some(h) => {
                    &&& final(outbound)@ == Seq::<ClientSent>::empty()
                    &&& outgoing_views(r.sends@) == client_sent_views(old(outbound)@).map_values(
                        |m: (usize, Seq<u8>)| client_datagram(old(self).layout, h, m),
                    )
                    &&& r.close_socket == old(self).should_disconnect
                    &&& r.close_socket ==> *final(self) == ended(*old(self))
                    &&& !r.close_socket ==> *final(self) == *old(self)
                },
            },
    {
        let host = match self.host_peer_id {
            None => {
                return ClientSends { sends: Vec::new(), close_socket: false };
            },
            Some(h) => h,
        };
        let ghost ms = client_sent_views(outbound@);
        let mut sends: Vec<Outgoing> = Vec::new();
        let mut i: usize = 0;
        while i < outbound.len()
            invariant
                i <= outbound@.len(),
                ms == client_sent_views(outbound@),
                outbound@ == old(outbound)@,
                *self == *old(self),
                self.wf(),
                forall|k: int|
                    0 <= k < outbound@.len() ==> #[trigger] outbound@[k].channel
                        < self.layout.client_channels,
                outgoing_views(sends@) == ms.subrange(0, i as int).map_values(
                    |m: (usize, Seq<u8>)| client_datagram(self.layout, host, m),
                ),
            decreases outbound@.len() - i,
        {
            let m = &outbound[i];
            let channel = self.layout.client_channel_index(m.channel);
            let bytes = frame_payload(m.payload.as_slice());
            let o = Outgoing { channel, peer: host, bytes };
            let ghost sends0 = sends@;
            proof {
                assert(ms[i as int] == m@);
                assert(o@ == client_datagram(self.layout, host, ms[i as int]));
            }
            sends.push(o);
            proof {
                let f = |m: (usize, Seq<u8>)| client_datagram(self.layout, host, m);
                let prev = ms.subrange(0, i as int).map_values(f);
                let next = ms.subrange(0, i + 1).map_values(f);
                assert(outgoing_views(sends0).len() == sends0.len());
                assert(prev.len() == i);
                assert forall|k: int| 0 <= k < sends@.len() implies outgoing_views(sends@)[k]
                    == next[k] by {
                    if k < i {
                        assert(sends@[k] == sends0[k]);
                        assert(outgoing_views(sends0)[k] == prev[k]);
                    }
                }
                assert(outgoing_views(sends@) =~= next);
            }
            i = i + 1;
        }
        proof {
            assert(ms.subrange(0, i as int) =~= ms);
        }
        outbound.clear();
        let close_socket = self.should_disconnect;
        if close_socket {
            self.set_disconnected();
        }
        ClientSends { sends, close_socket }
    }

    /// Leaves the session of its own accord: with a host known, returns the
    /// `ClientDisconnects` datagram for it and marks the session to end at
    /// the next send step. With none known it does nothing.
    pub fn disconnect(&mut self) -> (r: Option<Outgoing>)
        ensures
            match old(self).host_peer_id {
                None => r is None && *final(self) == *old(self),
                Some(h) => {
                    &&& r matches Some(o) && o@ == (
                        CONTROL_CHANNEL,
                        h,
                        encoded(SystemChannelMessage::ClientDisconnects),
                    )
                    &&& final(self).should_disconnect
                    &&& final(self).host_peer_id == old(self).host_peer_id
                    &&& final(self).layout == old(self).layout
                    &&& final(self).state == old(self).state
                },
            },
    {
        match self.host_peer_id {
            None => None,
            Some(host) => {
                self.should_disconnect = true;
                Some(
                    Outgoing {
                        channel: CONTROL_CHANNEL,
                        peer: host,
                        bytes: encode_control(SystemChannelMessage::ClientDisconnects),
                    },
                )
            },
        }
    }
}

/// A connecting client becomes connected to the sender of the first
/// `ConnectedToHost`; a second one, from any peer, leaves it unchanged.
pub proof fn lemma_connects_once(c: MatchboxClient, host: PeerId, other: PeerId)
    requires
        c.state == ClientState::Connecting,
        c.host_peer_id is None,
    ensures
        ({
            let msg = encoded(SystemChannelMessage::ConnectedToHost);
            let c1 = client_control_step(c, (host, msg));
            &&& c1.state == ClientState::Connected
            &&& c1.host_peer_id == Some(host)
            &&& c1.should_disconnect == c.should_disconnect
            &&& c1.layout == c.layout
            &&& client_control_step(c1, (other, msg)) == c1
        }),
{
}

} // verus!
