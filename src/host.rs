//! The host's per-tick session logic.
//!
//! Each step takes what the socket or the replication framework handed over
//! this tick and returns what to send, deliver, spawn or despawn.
use vstd::prelude::*;
use crate::channels::{ChannelLayout, LogicalChannel, CONTROL_CHANNEL};
use crate::codec::{
    decode_control,
    decoded,
    encode_control,
    encoded,
    frame_payload,
    framed,
    unframe_payload,
    unframed,
    SystemChannelMessage,
};
use crate::registry::{
    connections_wf,
    handle_for,
    handle_index,
    handle_of,
    handles_of,
    has_handle,
    has_peer,
    lemma_remove_wf,
    lemma_unique,
    peer_index,
    peers_of,
    without_peer,
    ClientRegistry,
    Connection,
    ConnectionHandle,
    PeerId,
};
use crate::transport::{
    datagram_views,
    outgoing_views,
    Datagram,
    Outgoing,
    PeerState,
    PeerUpdate,
    SocketClosed,
};

verus! {

/// Whether the host serves.
#[derive(Clone, Copy, Debug, PartialEq, Eq, Structural)]
pub enum HostState {
    Stopped,
    Running,
}

/// A payload from a client, for the replication framework.
#[derive(Debug)]
pub struct ServerReceived {
    pub handle: ConnectionHandle,
    /// Client-to-host logical channel id.
    pub channel: usize,
    pub payload: Vec<u8>,
}

/// A payload the replication framework sends to a client.
#[derive(Debug)]
pub struct ServerSent {
    /// Id of the receiving connection's handle.
    pub client: u64,
    /// Host-to-client logical channel id.
    pub channel: usize,
    pub payload: Vec<u8>,
}

impl View for ServerReceived {
    type V = (ConnectionHandle, usize, Seq<u8>);

    open spec fn view(&self) -> (ConnectionHandle, usize, Seq<u8>) {
        (self.handle, self.channel, self.payload@)
    }
}

impl View for ServerSent {
    type V = (u64, usize, Seq<u8>);

    open spec fn view(&self) -> (u64, usize, Seq<u8>) {
        (self.client, self.channel, self.payload@)
    }
}

/// What a presence update changed.
#[derive(Debug)]
pub struct PresenceChanges {
    /// Peers registered this tick, in order.
    pub connected: Vec<Connection>,
    /// Handles torn down this tick, in order.
    pub disconnected: Vec<ConnectionHandle>,
    /// One `ConnectedToHost` for each newly registered peer.
    pub sends: Vec<Outgoing>,
    /// The socket failed: the host stopped and its socket is to be removed.
    pub shut_down: bool,
}

/// What flushing the outbound queue produced.
#[derive(Debug)]
pub struct HostSends {
    pub sends: Vec<Outgoing>,
    /// Handles of the clients disconnected on request, in order.
    pub disconnected: Vec<ConnectionHandle>,
}

pub open spec fn received_views(s: Seq<ServerReceived>) -> Seq<(ConnectionHandle, usize, Seq<u8>)> {
    s.map_values(|m: ServerReceived| m@)
}

pub open spec fn sent_views(s: Seq<ServerSent>) -> Seq<(u64, usize, Seq<u8>)> {
    s.map_values(|m: ServerSent| m@)
}

pub open spec fn opt_push<A>(s: Seq<A>, o: Option<A>) -> Seq<A> {
    match o {
        Some(a) => s.push(a),
        None => s,
    }
}

/// The datagram that greets a newly registered peer.
pub open spec fn welcome(c: Connection) -> (usize, PeerId, Seq<u8>) {
    (CONTROL_CHANNEL, c.peer, encoded(SystemChannelMessage::ConnectedToHost))
}

/// The datagram that tells a client the host drops it.
pub open spec fn farewell(peer: PeerId) -> (usize, PeerId, Seq<u8>) {
    (CONTROL_CHANNEL, peer, encoded(SystemChannelMessage::HostRequestsDisconnect))
}

/// One peer-state report applied to the table `conns` whose next free handle
/// id is `next_id`: the new table, the new next id, the connection registered
/// and the handle torn down, if any.
pub open spec fn presence_step(conns: Seq<Connection>, next_id: u64, u: PeerUpdate) -> (
    Seq<Connection>,
    u64,
    Option<Connection>,
    Option<ConnectionHandle>,
) {
    match u.state {
        PeerState::Connected => {
            if has_peer(conns, u.peer) || next_id == u64::MAX {
                (conns, next_id, None, None)
            } else {
                let c = Connection { peer: u.peer, handle: handle_for(u.peer, next_id) };
                (conns.push(c), (next_id + 1) as u64, Some(c), None)
            }
        },
        PeerState::Disconnected => {
            if has_peer(conns, u.peer) {
                (without_peer(conns, u.peer), next_id, None, Some(handle_of(conns, u.peer)))
            } else {
                (conns, next_id, None, None)
            }
        },
    }
}

/// A tick's peer-state reports applied in order: the table, the next id, the
/// connections registered and the handles torn down.
pub open spec fn presence_run(conns: Seq<Connection>, next_id: u64, us: Seq<PeerUpdate>) -> (
    Seq<Connection>,
    u64,
    Seq<Connection>,
    Seq<ConnectionHandle>,
)
    decreases us.len(),
{
    if us.len() == 0 {
        (conns, next_id, Seq::empty(), Seq::empty())
    } else {
        let prev = presence_run(conns, next_id, us.drop_last());
        let step = presence_step(prev.0, prev.1, us.last());
        (step.0, step.1, opt_push(prev.2, step.2), opt_push(prev.3, step.3))
    }
}

/// One control datagram from a client applied to the table: the new table and
/// the handle torn down, if any. Only `ClientDisconnects` from a registered
/// peer has an effect.
pub open spec fn host_control_step(conns: Seq<Connection>, d: (PeerId, Seq<u8>)) -> (
    Seq<Connection>,
    Option<ConnectionHandle>,
) {
    if decoded(d.1) == Ok::<SystemChannelMessage, crate::codec::DecodeError>(
        SystemChannelMessage::ClientDisconnects,
    ) && has_peer(conns, d.0) {
        (without_peer(conns, d.0), Some(handle_of(conns, d.0)))
    } else {
        (conns, None)
    }
}

/// A tick's control datagrams applied in order.
pub open spec fn host_control_run(conns: Seq<Connection>, ds: Seq<(PeerId, Seq<u8>)>) -> (
    Seq<Connection>,
    Seq<ConnectionHandle>,
)
    decreases ds.len(),
{
    if ds.len() == 0 {
        (conns, Seq::empty())
    } else {
        let prev = host_control_run(conns, ds.drop_last());
        let step = host_control_step(prev.0, ds.last());
        (step.0, opt_push(prev.1, step.1))
    }
}

/// What the datagrams of one client-to-host channel deliver: the payload of
/// each non-empty datagram from a registered peer, tagged with its handle.
pub open spec fn host_inbound(
    conns: Seq<Connection>,
    channel: usize,
    ds: Seq<(PeerId, Seq<u8>)>,
) -> Seq<(ConnectionHandle, usize, Seq<u8>)>
    decreases ds.len(),
{
    if ds.len() == 0 {
        Seq::empty()
    } else {
        let prev = host_inbound(conns, channel, ds.drop_last());
        let d = ds.last();
        if has_peer(conns, d.0) && d.1.len() >= 1 {
            prev.push((handle_of(conns, d.0), channel, unframed(d.1)))
        } else {
            prev
        }
    }
}

/// What the framework's outbound messages put on the wire: each message to a
/// registered handle, framed, on the socket index of its channel.
pub open spec fn host_outbound(
    conns: Seq<Connection>,
    layout: ChannelLayout,
    ms: Seq<(u64, usize, Seq<u8>)>,
) -> Seq<(usize, PeerId, Seq<u8>)>
    decreases ms.len(),
{
    if ms.len() == 0 {
        Seq::empty()
    } else {
        let prev = host_outbound(conns, layout, ms.drop_last());
        let m = ms.last();
        if has_handle(conns, m.0) {
            prev.push(
                (
                    layout.index_of(LogicalChannel::ServerToClient(m.1)) as usize,
                    conns[handle_index(conns, m.0)].peer,
                    framed(m.2),
                ),
            )
        } else {
            prev
        }
    }
}

/// The pending disconnections carried out in order: the table, the
/// `HostRequestsDisconnect` datagrams and the handles torn down.
pub open spec fn host_flush(conns: Seq<Connection>, pending: Seq<PeerId>) -> (
    Seq<Connection>,
    Seq<(usize, PeerId, Seq<u8>)>,
    Seq<ConnectionHandle>,
)
    decreases pending.len(),
{
    if pending.len() == 0 {
        (conns, Seq::empty(), Seq::empty())
    } else {
        let prev = host_flush(conns, pending.drop_last());
        let p = pending.last();
        if has_peer(prev.0, p) {
            (without_peer(prev.0, p), prev.1.push(farewell(p)), prev.2.push(handle_of(prev.0, p)))
        } else {
            prev
        }
    }
}

/// Session state of the host: who is connected and who is to be dropped.
pub struct MatchboxHost {
    pub registry: ClientRegistry,
    /// Peers to send `HostRequestsDisconnect` to and drop, at the next flush.
    pub clients_to_disconnect: Vec<PeerId>,
    pub layout: ChannelLayout,
    pub state: HostState,
}

impl MatchboxHost {
    pub open spec fn wf(&self) -> bool {
        self.registry.wf() && self.layout.wf()
    }

    /// A running host with no client, over the given channel layout.
    pub fn new(layout: ChannelLayout) -> (r: MatchboxHost)
        requires
            layout.wf(),
        ensures
            r.wf(),
            r.registry@ == Seq::<Connection>::empty(),
            r.registry.spec_next_id() == 0,
            r.clients_to_disconnect@ == Seq::<PeerId>::empty(),
            r.layout == layout,
            r.state == HostState::Running,
    {
        MatchboxHost {
            registry: ClientRegistry::new(),
            clients_to_disconnect: Vec::new(),
            layout,
            state: HostState::Running,
        }
    }

    /// Number of registered clients.
    pub fn connected_clients(&self) -> (r: usize)
        ensures
            r == self.registry@.len(),
    {
        self.registry.len()
    }

    pub fn is_running(&self) -> (r: bool)
        ensures
            r == (self.state == HostState::Running),
    {
        match self.state {
            HostState::Running => true,
            HostState::Stopped => false,
        }
    }

    /// Applies the socket's peer-state reports. On success each new peer is
    /// registered and greeted with `ConnectedToHost`, and each departed one is
    /// torn down. When the socket can no longer report peers, every handle is
    /// torn down and the host stops.
    pub fn update_client_presence(&mut self, updates: Result<Vec<PeerUpdate>, SocketClosed>) -> (r:
        PresenceChanges)
        requires
            old(self).wf(),
        ensures
            final(self).wf(),
            final(self).layout == old(self).layout,
            final(self).clients_to_disconnect == old(self).clients_to_disconnect,
            match updates {
                Err(_) => {
                    &&& final(self).registry@ == Seq::<Connection>::empty()
                    &&& final(self).registry.spec_next_id() == old(self).registry.spec_next_id()
                    &&& final(self).state == HostState::Stopped
                    &&& r.shut_down
                    &&& r.connected@ == Seq::<Connection>::empty()
                    &&& r.disconnected@ == handles_of(old(self).registry@)
                    &&& r.sends@ == Seq::<Outgoing>::empty()
                },
                Ok(us) => {
                    let run = presence_run(
                        old(self).registry@,
                        old(self).registry.spec_next_id(),
                        us@,
                    );
                    &&& final(self).registry@ == run.0
                    &&& final(self).registry.spec_next_id() == run.1
                    &&& final(self).state == old(self).state
                    &&& !r.shut_down
                    &&& r.connected@ == run.2
                    &&& r.disconnected@ == run.3
                    &&& outgoing_views(r.sends@) == run.2.map_values(|c: Connection| welcome(c))
                },
            },
    {
        match updates {
            Err(_) => {
                let disconnected = self.registry.clear();
                self.state = HostState::Stopped;
                PresenceChanges {
                    connected: Vec::new(),
                    disconnected,
                    sends: Vec::new(),
                    shut_down: true,
                }
            },
            Ok(us) => {
                let ghost conns0 = self.registry@;
                let ghost next0 = self.registry.spec_next_id();
                let mut connected: Vec<Connection> = Vec::new();
                let mut disconnected: Vec<ConnectionHandle> = Vec::new();
                let mut sends: Vec<Outgoing> = Vec::new();
                let mut i: usize = 0;
                while i < us.len()
                    invariant
                        i <= us@.len(),
                        self.wf(),
                        self.layout == old(self).layout,
                        self.state == old(self).state,
                        self.clients_to_disconnect == old(self).clients_to_disconnect,
                        ({
                            let run = presence_run(conns0, next0, us@.subrange(0, i as int));
                            &&& self.registry@ == run.0
                            &&& self.registry.spec_next_id() == run.1
                            &&& connected@ == run.2
                            &&& disconnected@ == run.3
                        }),
                        outgoing_views(sends@) == connected@.map_values(|c: Connection| welcome(c)),
                    decreases us@.len() - i,
                {
                    let u = us[i];
                    proof {
                        assert(us@.subrange(0, i + 1).drop_last() =~= us@.subrange(0, i as int));
                    }
                    let ghost sends0 = sends@;
                    let ghost connected0 = connected@;
                    match u.state {
                        PeerState::Connected => {
                            match self.registry.on_peer_connected(u.peer) {
                                Some(handle) => {
                                    let c = Connection { peer: u.peer, handle };
                                    connected.push(c);
                                    let bytes = encode_control(SystemChannelMessage::ConnectedToHost);
                                    let o = Outgoing { channel: CONTROL_CHANNEL, peer: u.peer, bytes };
                                    proof {
                                        assert(o@ == welcome(c));
                                    }
                                    sends.push(o);
                                    proof {
                                        assert(outgoing_views(sends0).len() == sends0.len());
                                        assert(connected0.map_values(|c: Connection| welcome(c)).len()
                                            == connected0.len());
                                        assert forall|k: int| 0 <= k < sends@.len() implies outgoing_views(sends@)[k]
                                            == connected@.map_values(|c: Connection| welcome(c))[k] by {
                                            if k < sends0.len() {
                                                assert(sends@[k] == sends0[k]);
                                                assert(connected@[k] == connected0[k]);
                                                assert(outgoing_views(sends0)[k] == connected0.map_values(|c: Connection| welcome(c))[k]);
                                            }
                                        }
                                        assert(outgoing_views(sends@) =~= connected@.map_values(
                                            |c: Connection| welcome(c),
                                        ));
                                    }
                                },
                                None => {},
                            }
                        },
                        PeerState::Disconnected => {
                            match self.registry.on_peer_disconnected(u.peer) {
                                Some(handle) => {
                                    disconnected.push(handle);
                                },
                                None => {},
                            }
                        },
                    }
                    i = i + 1;
                }
                proof {
                    assert(us@.subrange(0, i as int) =~= us@);
                }
                PresenceChanges { connected, disconnected, sends, shut_down: false }
            },
        }
    }

    /// Applies the control datagrams of the tick: `ClientDisconnects` from a
    /// registered peer tears its handle down at once; every other message, and
    /// every datagram that does not decode, is dropped. Returns the handles
    /// torn down.
    pub fn receive_system_packets(&mut self, packets: &Vec<Datagram>) -> (r: Vec<ConnectionHandle>)
        requires
            old(self).wf(),
        ensures
            final(self).wf(),
            final(self).layout == old(self).layout,
            final(self).state == old(self).state,
            final(self).clients_to_disconnect == old(self).clients_to_disconnect,
            final(self).registry.spec_next_id() == old(self).registry.spec_next_id(),
            final(self).registry@ == host_control_run(old(self).registry@, datagram_views(packets@)).0,
            r@ == host_control_run(old(self).registry@, datagram_views(packets@)).1,
    {
        let ghost conns0 = self.registry@;
        let ghost ds = datagram_views(packets@);
        let mut removed: Vec<ConnectionHandle> = Vec::new();
        let mut i: usize = 0;
        while i < packets.len()
            invariant
                i <= packets@.len(),
                ds == datagram_views(packets@),
                self.wf(),
                self.layout == old(self).layout,
                self.state == old(self).state,
                self.clients_to_disconnect == old(self).clients_to_disconnect,
                self.registry.spec_next_id() == old(self).registry.spec_next_id(),
                ({
                    let run = host_control_run(conns0, ds.subrange(0, i as int));
                    &&& self.registry@ == run.0
                    &&& removed@ == run.1
                }),
            decreases packets@.len() - i,
        {
            let d = &packets[i];
            proof {
                assert(ds.subrange(0, i + 1).drop_last() =~= ds.subrange(0, i as int));
                assert(ds.subrange(0, i + 1).last() == d@);
            }
            match decode_control(d.bytes.as_slice()) {
                Ok(SystemChannelMessage::ClientDisconnects) => {
                    match self.registry.on_peer_disconnected(d.peer) {
                        Some(handle) => {
                            removed.push(handle);
                        },
                        None => {},
                    }
                },
                _ => {},
            }
            i = i + 1;
        }
        proof {
            assert(ds.subrange(0, i as int) =~= ds);
        }
        removed
    }

    /// Delivers the datagrams of client-to-host logical channel `channel`:
    /// each non-empty one from a registered peer, unframed and tagged with
    /// the peer's handle. The rest are dropped.
    pub fn receive_packets(&self, channel: usize, packets: &Vec<Datagram>) -> (r: Vec<
        ServerReceived,
    >)
        requires
            self.wf(),
            channel < self.layout.client_channels,
        ensures
            received_views(r@) == host_inbound(self.registry@, channel, datagram_views(packets@)),
    {
        let ghost ds = datagram_views(packets@);
        let mut r: Vec<ServerReceived> = Vec::new();
        let mut i: usize = 0;
        while i < packets.len()
            invariant
                i <= packets@.len(),
                ds == datagram_views(packets@),
                self.wf(),
                received_views(r@) == host_inbound(self.registry@, channel, ds.subrange(0, i as int)),
            decreases packets@.len() - i,
        {
            let d = &packets[i];
            proof {
                assert(ds.subrange(0, i + 1).drop_last() =~= ds.subrange(0, i as int));
                assert(ds.subrange(0, i + 1).last() == d@);
            }
            if d.bytes.len() >= 1 {
                match self.registry.lookup(d.peer) {
                    Some(handle) => {
                        let payload = unframe_payload(d.bytes.as_slice());
                        r.push(ServerReceived { handle, channel, payload });
                    },
                    None => {},
                }
            }
            i = i + 1;
            proof {
                assert(received_views(r@) =~= host_inbound(
                    self.registry@,
                    channel,
                    ds.subrange(0, i as int),
                ));
            }
        }
        proof {
            assert(ds.subrange(0, i as int) =~= ds);
        }
        r
    }

    /// Puts the framework's outbound messages on the wire: each message to a
    /// registered handle is framed and sent on the socket index of its
    /// host-to-client channel; one to an unknown handle is dropped.
    pub fn route_outbound(&self, messages: &Vec<ServerSent>) -> (r: Vec<Outgoing>)
        requires
            self.wf(),
            forall|k: int|
                0 <= k < messages@.len() ==> #[trigger] messages@[k].channel
                    < self.layout.server_channels,
        ensures
            outgoing_views(r@) == host_outbound(self.registry@, self.layout, sent_views(messages@)),
    {
        let ghost ms = sent_views(messages@);
        let mut r: Vec<Outgoing> = Vec::new();
        let mut i: usize = 0;
        while i < messages.len()
            invariant
                i <= messages@.len(),
                ms == sent_views(messages@),
                self.wf(),
                forall|k: int|
                    0 <= k < messages@.len() ==> #[trigger] messages@[k].channel
                        < self.layout.server_channels,
                outgoing_views(r@) == host_outbound(self.registry@, self.layout, ms.subrange(0, i as int)),
            decreases messages@.len() - i,
        {
            let m = &messages[i];
            proof {
                assert(ms.subrange(0, i + 1).drop_last() =~= ms.subrange(0, i as int));
                assert(ms.subrange(0, i + 1).last() == m@);
            }
            match self.registry.lookup_peer(m.client) {
                Some(peer) => {
                    let channel = self.layout.server_channel_index(m.channel);
                    let bytes = frame_payload(m.payload.as_slice());
                    r.push(Outgoing { channel, peer, bytes });
                },
                None => {},
            }
            i = i + 1;
            proof {
                assert(outgoing_views(r@) =~= host_outbound(
                    self.registry@,
                    self.layout,
                    ms.subrange(0, i as int),
                ));
            }
        }
        proof {
            assert(ms.subrange(0, i as int) =~= ms);
        }
        r
    }

    /// Carries out the pending disconnections, in the order requested: each
    /// still-registered peer is sent `HostRequestsDisconnect` and torn down at
    /// once, without waiting for an answer.
    pub fn flush_disconnects(&mut self) -> (r: HostSends)
        requires
            old(self).wf(),
        ensures
            final(self).wf(),
            final(self).layout == old(self).layout,
            final(self).state == old(self).state,
            final(self).clients_to_disconnect@ == Seq::<PeerId>::empty(),
            final(self).registry.spec_next_id() == old(self).registry.spec_next_id(),
            ({
                let f = host_flush(old(self).registry@, old(self).clients_to_disconnect@);
                &&& final(self).registry@ == f.0
                &&& outgoing_views(r.sends@) == f.1
                &&& r.disconnected@ == f.2
            }),
    {
        let mut pending: Vec<PeerId> = Vec::new();
        std::mem::swap(&mut pending, &mut self.clients_to_disconnect);
        let ghost conns0 = self.registry@;
        let mut sends: Vec<Outgoing> = Vec::new();
        let mut disconnected: Vec<ConnectionHandle> = Vec::new();
        let mut i: usize = 0;
        while i < pending.len()
            invariant
                i <= pending@.len(),
                pending@ == old(self).clients_to_disconnect@,
                conns0 == old(self).registry@,
                self.wf(),
                self.layout == old(self).layout,
                self.state == old(self).state,
                self.clients_to_disconnect@ == Seq::<PeerId>::empty(),
                self.registry.spec_next_id() == old(self).registry.spec_next_id(),
                ({
                    let f = host_flush(conns0, pending@.subrange(0, i as int));
                    &&& self.registry@ == f.0
                    &&& outgoing_views(sends@) == f.1
                    &&& disconnected@ == f.2
                }),
            decreases pending@.len() - i,
        {
            let peer = pending[i];
            proof {
                assert(pending@.subrange(0, i + 1).drop_last() =~= pending@.subrange(0, i as int));
            }
            match self.registry.on_peer_disconnected(peer) {
                Some(handle) => {
                    sends.push(
                        Outgoing {
                            channel: CONTROL_CHANNEL,
                            peer,
                            bytes: encode_control(SystemChannelMessage::HostRequestsDisconnect),
                        },
                    );
                    disconnected.push(handle);
                },
                None => {},
            }
            i = i + 1;
            proof {
                let f = host_flush(conns0, pending@.subrange(0, i as int));
                assert(outgoing_views(sends@) =~= f.1);
            }
        }
        proof {
            assert(pending@.subrange(0, i as int) =~= pending@);
        }
        HostSends { sends, disconnected }
    }

    /// The send step of a tick: routes the framework's outbound messages,
    /// then carries out the pending disconnections. The datagrams come in
    /// that order.
    pub fn send_packets(&mut self, messages: &Vec<ServerSent>) -> (r: HostSends)
        requires
            old(self).wf(),
            forall|k: int|
                0 <= k < messages@.len() ==> #[trigger] messages@[k].channel
                    < old(self).layout.server_channels,
        ensures
            final(self).wf(),
            final(self).layout == old(self).layout,
            final(self).state == old(self).state,
            final(self).clients_to_disconnect@ == Seq::<PeerId>::empty(),
            final(self).registry.spec_next_id() == old(self).registry.spec_next_id(),
            ({
                let data = host_outbound(old(self).registry@, old(self).layout, sent_views(messages@));
                let f = host_flush(old(self).registry@, old(self).clients_to_disconnect@);
                &&& final(self).registry@ == f.0
                &&& outgoing_views(r.sends@) == data + f.1
                &&& r.disconnected@ == f.2
            }),
    {
        let mut sends = self.route_outbound(messages);
        let mut flushed = self.flush_disconnects();
        let ghost data = sends@;
        let ghost tail = flushed.sends@;
        sends.append(&mut flushed.sends);
        proof {
            assert(outgoing_views(sends@) =~= outgoing_views(data) + outgoing_views(tail));
        }
        HostSends { sends, disconnected: flushed.disconnected }
    }

    /// Queues the disconnection of the client whose handle has id `client`;
    /// an unknown id is ignored.
    pub fn request_disconnect(&mut self, client: u64)
        requires
            old(self).wf(),
        ensures
            final(self).registry == old(self).registry,
            final(self).layout == old(self).layout,
            final(self).state == old(self).state,
            final(self).clients_to_disconnect@ == (if has_handle(old(self).registry@, client) {
                old(self).clients_to_disconnect@.push(
                    old(self).registry@[handle_index(old(self).registry@, client)].peer,
                )
            } else {
                old(self).clients_to_disconnect@
            }),
    {
        match self.registry.lookup_peer(client) {
            Some(peer) => {
                self.clients_to_disconnect.push(peer);
            },
            None => {},
        }
    }

    /// Queues the disconnection of every registered client.
    pub fn disconnect_all(&mut self)
        requires
            old(self).wf(),
        ensures
            final(self).registry == old(self).registry,
            final(self).layout == old(self).layout,
            final(self).state == old(self).state,
            final(self).clients_to_disconnect@ == old(self).clients_to_disconnect@ + peers_of(
                old(self).registry@,
            ),
    {
        let mut peers = self.registry.peers();
        self.clients_to_disconnect.append(&mut peers);
    }
}

/// Every entry of `s` is an entry of `t`.
pub open spec fn entries_within(s: Seq<Connection>, t: Seq<Connection>) -> bool {
    forall|a: int| 0 <= a < s.len() ==> t.contains(#[trigger] s[a])
}

/// Dropping a peer keeps a table well formed, takes that peer out, and adds
/// no entry.
pub proof fn lemma_without_peer(s: Seq<Connection>, next_id: u64, q: PeerId)
    requires
        connections_wf(s, next_id),
    ensures
        connections_wf(without_peer(s, q), next_id),
        !has_peer(without_peer(s, q), q),
        entries_within(without_peer(s, q), s),
{
    if has_peer(s, q) {
        let i = peer_index(s, q);
        lemma_remove_wf(s, next_id, i);
        let r = s.remove(i);
        assert forall|a: int| 0 <= a < r.len() implies s.contains(#[trigger] r[a]) by {
            let b = if a < i { a } else { a + 1 };
            assert(r[a] == s[b]);
        }
    } else {
        lemma_entries_within_self(s);
    }
}

pub proof fn lemma_entries_within_self(s: Seq<Connection>)
    ensures
        entries_within(s, s),
{
    assert forall|a: int| 0 <= a < s.len() implies s.contains(#[trigger] s[a]) by {
        assert(s[a] == s[a]);
    }
}

pub proof fn lemma_entries_within_trans(r: Seq<Connection>, s: Seq<Connection>, t: Seq<Connection>)
    requires
        entries_within(r, s),
        entries_within(s, t),
    ensures
        entries_within(r, t),
{
    assert forall|a: int| 0 <= a < r.len() implies t.contains(#[trigger] r[a]) by {
        assert(s.contains(r[a]));
        let b = choose|b: int| 0 <= b < s.len() && s[b] == r[a];
        assert(t.contains(s[b]));
    }
}

/// A peer absent from `t` is absent from every table within it.
pub proof fn lemma_absent_within(s: Seq<Connection>, t: Seq<Connection>, p: PeerId)
    requires
        entries_within(s, t),
        !has_peer(t, p),
    ensures
        !has_peer(s, p),
{
    assert forall|a: int| 0 <= a < s.len() implies #[trigger] s[a].peer != p by {
        assert(t.contains(s[a]));
        let b = choose|b: int| 0 <= b < t.len() && t[b] == s[a];
        assert(t[b].peer != p);
    }
}

/// The control datagrams of a tick keep the table well formed and add no
/// entry to it.
pub proof fn lemma_host_control_run(conns: Seq<Connection>, next_id: u64, ds: Seq<(PeerId, Seq<u8>)>)
    requires
        connections_wf(conns, next_id),
    ensures
        connections_wf(host_control_run(conns, ds).0, next_id),
        entries_within(host_control_run(conns, ds).0, conns),
    decreases ds.len(),
{
    if ds.len() == 0 {
        lemma_entries_within_self(conns);
    } else {
        let prev = host_control_run(conns, ds.drop_last());
        lemma_host_control_run(conns, next_id, ds.drop_last());
        lemma_without_peer(prev.0, next_id, ds.last().0);
        lemma_entries_within_trans(without_peer(prev.0, ds.last().0), prev.0, conns);
    }
}

/// A client that announces its leaving with `ClientDisconnects` is no longer
/// registered once the host has read the tick's control datagrams.
pub proof fn lemma_client_leave_unregisters(
    conns: Seq<Connection>,
    next_id: u64,
    ds: Seq<(PeerId, Seq<u8>)>,
    k: int,
)
    requires
        connections_wf(conns, next_id),
        0 <= k < ds.len(),
        ds[k].1 == encoded(SystemChannelMessage::ClientDisconnects),
    ensures
        !has_peer(host_control_run(conns, ds).0, ds[k].0),
    decreases ds.len(),
{
    let p = ds[k].0;
    let prev = host_control_run(conns, ds.drop_last());
    lemma_host_control_run(conns, next_id, ds.drop_last());
    lemma_without_peer(prev.0, next_id, ds.last().0);
    if k == ds.len() - 1 {
        assert(decoded(ds.last().1) == Ok::<SystemChannelMessage, crate::codec::DecodeError>(
            SystemChannelMessage::ClientDisconnects,
        ));
    } else {
        assert(ds.drop_last()[k] == ds[k]);
        lemma_client_leave_unregisters(conns, next_id, ds.drop_last(), k);
        lemma_absent_within(without_peer(prev.0, ds.last().0), prev.0, p);
    }
}

/// Carrying out pending disconnections keeps the table well formed and adds
/// no entry to it.
pub proof fn lemma_host_flush(conns: Seq<Connection>, next_id: u64, pending: Seq<PeerId>)
    requires
        connections_wf(conns, next_id),
    ensures
        connections_wf(host_flush(conns, pending).0, next_id),
        entries_within(host_flush(conns, pending).0, conns),
    decreases pending.len(),
{
    if pending.len() == 0 {
        lemma_entries_within_self(conns);
    } else {
        let prev = host_flush(conns, pending.drop_last());
        lemma_host_flush(conns, next_id, pending.drop_last());
        lemma_without_peer(prev.0, next_id, pending.last());
        lemma_entries_within_trans(without_peer(prev.0, pending.last()), prev.0, conns);
    }
}

/// A disconnection the host requests for a registered handle takes that
/// handle and its peer out of the table at the flush of the same tick,
/// whatever else is pending and whether or not the client hears of it.
pub proof fn lemma_requested_disconnect_unregisters(
    conns: Seq<Connection>,
    next_id: u64,
    pending: Seq<PeerId>,
    id: u64,
)
    requires
        connections_wf(conns, next_id),
        has_handle(conns, id),
    ensures
        ({
            let p = conns[handle_index(conns, id)].peer;
            let f = host_flush(conns, pending.push(p));
            &&& !has_peer(f.0, p)
            &&& !has_handle(f.0, id)
        }),
{
    let p = conns[handle_index(conns, id)].peer;
    let all = pending.push(p);
    assert(all.drop_last() =~= pending);
    let prev = host_flush(conns, pending);
    let f = host_flush(conns, all);
    lemma_host_flush(conns, next_id, pending);
    lemma_without_peer(prev.0, next_id, p);
    lemma_host_flush(conns, next_id, all);
    assert(!has_peer(f.0, p));
    assert forall|a: int| 0 <= a < f.0.len() implies #[trigger] f.0[a].handle.id != id by {
        assert(conns.contains(f.0[a]));
        let b = choose|b: int| 0 <= b < conns.len() && conns[b] == f.0[a];
        if f.0[a].handle.id == id {
            lemma_unique(conns, next_id, b, handle_index(conns, id));
            assert(f.0[a].peer == p);
        }
    }
}

/// A peer reported connected for the first time is registered once and
/// greeted once; a second report for it in the same run registers no one and
/// greets no one.
pub proof fn lemma_connect_registers_once(conns: Seq<Connection>, next_id: u64, peer: PeerId)
    requires
        connections_wf(conns, next_id),
        !has_peer(conns, peer),
        next_id < u64::MAX,
    ensures
        ({
            let u = PeerUpdate { peer, state: PeerState::Connected };
            let c = Connection { peer, handle: handle_for(peer, next_id) };
            let once = presence_run(conns, next_id, seq![u]);
            let twice = presence_run(conns, next_id, seq![u, u]);
            &&& once.0 == conns.push(c)
            &&& once.2 == seq![c]
            &&& once.2.map_values(|c: Connection| welcome(c)) == seq![welcome(c)]
            &&& twice.0 == once.0
            &&& twice.1 == once.1
            &&& twice.2 == once.2
        }),
{
    let u = PeerUpdate { peer, state: PeerState::Connected };
    let c = Connection { peer, handle: handle_for(peer, next_id) };
    let once = presence_run(conns, next_id, seq![u]);
    reveal_with_fuel(presence_run, 3);
    assert(seq![u].drop_last() =~= Seq::<PeerUpdate>::empty());
    assert(seq![u, u].drop_last() =~= seq![u]);
    assert(once.2 =~= seq![c]);
    assert(once.0[conns.len() as int] == c);
    assert(has_peer(once.0, peer));
    assert(once.2.map_values(|c: Connection| welcome(c)) =~= seq![welcome(c)]);
}

} // verus!
