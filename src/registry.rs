//! The host's table of connected peers.
//!
//! Each registered peer has one connection handle; the table is the host's only
//! record of who is connected.
use vstd::prelude::*;

verus! {

/// Identifier the socket gives a remote endpoint (a UUID, as its 128 bits).
pub type PeerId = u128;

/// Largest message, in bytes, that a connection accepts in one send.
pub const MAX_MESSAGE_SIZE: usize = 1200;

/// The application's view of one connected client.
#[derive(Clone, Copy, Debug, PartialEq, Eq, Structural)]
pub struct ConnectionHandle {
    /// Unique among the handles one registry has ever given out.
    pub id: u64,
    /// The peer id cut to 64 bits, to correlate the client across sessions.
    pub network_id: u64,
    /// Outbound size limit of the connection.
    pub max_size: usize,
}

/// A registered peer and its handle.
#[derive(Clone, Copy, Debug, PartialEq, Eq, Structural)]
pub struct Connection {
    pub peer: PeerId,
    pub handle: ConnectionHandle,
}

/// The low 64 bits of a peer id.
pub open spec fn network_id_of(peer: PeerId) -> u64 {
    (peer as int % 0x1_0000_0000_0000_0000) as u64
}

/// The handle the registry gives `peer` when `id` is the next free id.
pub open spec fn handle_for(peer: PeerId, id: u64) -> ConnectionHandle {
    ConnectionHandle { id, network_id: network_id_of(peer), max_size: MAX_MESSAGE_SIZE }
}

pub open spec fn has_peer(s: Seq<Connection>, peer: PeerId) -> bool {
    exists|i: int| 0 <= i < s.len() && s[i].peer == peer
}

pub open spec fn has_handle(s: Seq<Connection>, id: u64) -> bool {
    exists|i: int| 0 <= i < s.len() && s[i].handle.id == id
}

/// Where `peer` stands in `s`, when it is there.
pub open spec fn peer_index(s: Seq<Connection>, peer: PeerId) -> int {
    choose|i: int| 0 <= i < s.len() && s[i].peer == peer
}

/// Where the handle with id `id` stands in `s`, when it is there.
pub open spec fn handle_index(s: Seq<Connection>, id: u64) -> int {
    choose|i: int| 0 <= i < s.len() && s[i].handle.id == id
}

/// The handle of a registered peer.
pub open spec fn handle_of(s: Seq<Connection>, peer: PeerId) -> ConnectionHandle {
    s[peer_index(s, peer)].handle
}

/// `s` without the entry of `peer`.
pub open spec fn without_peer(s: Seq<Connection>, peer: PeerId) -> Seq<Connection> {
    if has_peer(s, peer) {
        s.remove(peer_index(s, peer))
    } else {
        s
    }
}

/// Peers and handle ids are unique, and every handle id lies below `next_id`.
pub open spec fn connections_wf(s: Seq<Connection>, next_id: u64) -> bool {
    &&& forall|i: int, j: int| 0 <= i < j < s.len() ==> #[trigger] s[i].peer != #[trigger] s[j].peer
    &&& forall|i: int, j: int|
        0 <= i < j < s.len() ==> #[trigger] s[i].handle.id != #[trigger] s[j].handle.id
    &&& forall|i: int| 0 <= i < s.len() ==> #[trigger] s[i].handle.id < next_id
}

/// In a well-formed table one index holds each peer and each handle id.
pub proof fn lemma_unique(s: Seq<Connection>, next_id: u64, i: int, j: int)
    requires
        connections_wf(s, next_id),
        0 <= i < s.len(),
        0 <= j < s.len(),
    ensures
        s[i].peer == s[j].peer ==> i == j,
        s[i].handle.id == s[j].handle.id ==> i == j,
{
    if i < j {
        assert(s[i].peer != s[j].peer);
        assert(s[i].handle.id != s[j].handle.id);
    } else if j < i {
        assert(s[j].peer != s[i].peer);
        assert(s[j].handle.id != s[i].handle.id);
    }
}

/// The entry found for a peer is the one `peer_index` names.
pub proof fn lemma_peer_index(s: Seq<Connection>, next_id: u64, i: int)
    requires
        connections_wf(s, next_id),
        0 <= i < s.len(),
    ensures
        has_peer(s, s[i].peer),
        peer_index(s, s[i].peer) == i,
        handle_of(s, s[i].peer) == s[i].handle,
{
    let j = peer_index(s, s[i].peer);
    lemma_unique(s, next_id, i, j);
}

/// The entry found for a handle id is the one `handle_index` names.
pub proof fn lemma_handle_index(s: Seq<Connection>, next_id: u64, i: int)
    requires
        connections_wf(s, next_id),
        0 <= i < s.len(),
    ensures
        has_handle(s, s[i].handle.id),
        handle_index(s, s[i].handle.id) == i,
{
    let j = handle_index(s, s[i].handle.id);
    lemma_unique(s, next_id, i, j);
}

/// Removing one entry keeps a table well formed.
pub proof fn lemma_remove_wf(s: Seq<Connection>, next_id: u64, i: int)
    requires
        connections_wf(s, next_id),
        0 <= i < s.len(),
    ensures
        connections_wf(s.remove(i), next_id),
        !has_peer(s.remove(i), s[i].peer),
{
    let r = s.remove(i);
    assert forall|a: int, b: int| 0 <= a < b < r.len() implies #[trigger] r[a].peer
        != #[trigger] r[b].peer && r[a].handle.id != r[b].handle.id by {
        lemma_unique(s, next_id, if a < i { a } else { a + 1 }, if b < i { b } else { b + 1 });
    }
    assert forall|a: int| 0 <= a < r.len() implies #[trigger] r[a].handle.id < next_id by {
        assert(r[a] == s[if a < i { a } else { a + 1 }]);
    }
    assert forall|a: int| 0 <= a < r.len() implies #[trigger] r[a].peer != s[i].peer by {
        lemma_unique(s, next_id, if a < i { a } else { a + 1 }, i);
    }
}

/// Adding a new peer under the next free id keeps a table well formed.
pub proof fn lemma_push_wf(s: Seq<Connection>, next_id: u64, peer: PeerId)
    requires
        connections_wf(s, next_id),
        !has_peer(s, peer),
        next_id < u64::MAX,
    ensures
        connections_wf(s.push(Connection { peer, handle: handle_for(peer, next_id) }), (next_id + 1) as u64),
{
    let r = s.push(Connection { peer, handle: handle_for(peer, next_id) });
    let n = s.len() as int;
    assert forall|i: int, j: int| 0 <= i < j < r.len() implies #[trigger] r[i].peer
        != #[trigger] r[j].peer by {
        assert(r[i] == s[i]);
        if j < n {
            assert(r[j] == s[j]);
        }
    }
    assert forall|i: int, j: int| 0 <= i < j < r.len() implies #[trigger] r[i].handle.id
        != #[trigger] r[j].handle.id by {
        assert(r[i] == s[i]);
        if j < n {
            assert(r[j] == s[j]);
        }
    }
    assert forall|i: int| 0 <= i < r.len() implies #[trigger] r[i].handle.id < next_id + 1 by {
        if i < n {
            assert(r[i] == s[i]);
        }
    }
}

/// The handles of a sequence of connections, in order.
pub open spec fn handles_of(s: Seq<Connection>) -> Seq<ConnectionHandle> {
    s.map_values(|c: Connection| c.handle)
}

/// The peers of a sequence of connections, in order.
pub open spec fn peers_of(s: Seq<Connection>) -> Seq<PeerId> {
    s.map_values(|c: Connection| c.peer)
}

/// Cuts a peer id to the 64 bits of its network id.
pub fn network_id(peer: PeerId) -> (r: u64)
    ensures
        r == network_id_of(peer),
{
    (peer % 0x1_0000_0000_0000_0000u128) as u64
}

/// Peer-to-handle table of the host.
pub struct ClientRegistry {
    connections: Vec<Connection>,
    next_id: u64,
}

impl View for ClientRegistry {
    type V = Seq<Connection>;

    closed spec fn view(&self) -> Seq<Connection> {
        self.connections@
    }
}

impl ClientRegistry {
    /// The id that the next registered peer gets.
    pub closed spec fn spec_next_id(&self) -> u64 {
        self.next_id
    }

    pub open spec fn wf(&self) -> bool {
        connections_wf(self@, self.spec_next_id())
    }

    /// An empty registry.
    pub fn new() -> (r: ClientRegistry)
        ensures
            r.wf(),
            r@ == Seq::<Connection>::empty(),
            r.spec_next_id() == 0,
    {
        ClientRegistry { connections: Vec::new(), next_id: 0 }
    }

    /// Number of registered peers.
    pub fn len(&self) -> (r: usize)
        ensures
            r == self@.len(),
    {
        self.connections.len()
    }

    fn find_peer(&self, peer: PeerId) -> (r: Option<usize>)
        ensures
            r matches Some(i) ==> i < self@.len() && self@[i as int].peer == peer,
            r is None <==> !has_peer(self@, peer),
    {
        let mut i: usize = 0;
        while i < self.connections.len()
            invariant
                i <= self.connections@.len(),
                forall|k: int| 0 <= k < i ==> self.connections@[k].peer != peer,
            decreases self.connections@.len() - i,
        {
            if self.connections[i].peer == peer {
                return Some(i);
            }
            i = i + 1;
        }
        None
    }

    fn find_handle(&self, id: u64) -> (r: Option<usize>)
        ensures
            r matches Some(i) ==> i < self@.len() && self@[i as int].handle.id == id,
            r is None <==> !has_handle(self@, id),
    {
        let mut i: usize = 0;
        while i < self.connections.len()
            invariant
                i <= self.connections@.len(),
                forall|k: int| 0 <= k < i ==> self.connections@[k].handle.id != id,
            decreases self.connections@.len() - i,
        {
            if self.connections[i].handle.id == id {
                return Some(i);
            }
            i = i + 1;
        }
        None
    }

    /// The handle of `peer`, if it is registered.
    pub fn lookup(&self, peer: PeerId) -> (r: Option<ConnectionHandle>)
        requires
            self.wf(),
        ensures
            r == (if has_peer(self@, peer) {
                Some(handle_of(self@, peer))
            } else {
                None
            }),
    {
        match self.find_peer(peer) {
            Some(i) => {
                proof {
                    lemma_peer_index(self@, self.next_id, i as int);
                }
                Some(self.connections[i].handle)
            },
            None => None,
        }
    }

    /// The peer that holds the handle with id `id`, if any does.
    pub fn lookup_peer(&self, id: u64) -> (r: Option<PeerId>)
        requires
            self.wf(),
        ensures
            r == (if has_handle(self@, id) {
                Some(self@[handle_index(self@, id)].peer)
            } else {
                None
            }),
    {
        match self.find_handle(id) {
            Some(i) => {
                proof {
                    lemma_handle_index(self@, self.next_id, i as int);
                }
                Some(self.connections[i].peer)
            },
            None => None,
        }
    }

    /// Registers a peer the socket reports connected. Returns the new handle;
    /// `None` when the peer is registered already (nothing changes then) or
    /// when every handle id has been given out.
    pub fn on_peer_connected(&mut self, peer: PeerId) -> (r: Option<ConnectionHandle>)
        requires
            old(self).wf(),
        ensures
            final(self).wf(),
            has_peer(old(self)@, peer) || old(self).spec_next_id() == u64::MAX ==> r is None
                && *final(self) == *old(self),
            !has_peer(old(self)@, peer) && old(self).spec_next_id() < u64::MAX ==> {
                let h = handle_for(peer, old(self).spec_next_id());
                &&& r == Some(h)
                &&& final(self)@ == old(self)@.push(Connection { peer, handle: h })
                &&& final(self).spec_next_id() == old(self).spec_next_id() + 1
            },
    {
        if self.find_peer(peer).is_some() {
            return None;
        }
        if self.next_id == u64::MAX {
            return None;
        }
        let handle = ConnectionHandle {
            id: self.next_id,
            network_id: network_id(peer),
            max_size: MAX_MESSAGE_SIZE,
        };
        proof {
            lemma_push_wf(self@, self.next_id, peer);
        }
        self.connections.push(Connection { peer, handle });
        self.next_id = self.next_id + 1;
        Some(handle)
    }

    /// Unregisters a peer the socket reports gone, or that left on its own.
    /// Returns its handle; `None` when it was not registered (nothing changes).
    pub fn on_peer_disconnected(&mut self, peer: PeerId) -> (r: Option<ConnectionHandle>)
        requires
            old(self).wf(),
        ensures
            final(self).wf(),
            final(self).spec_next_id() == old(self).spec_next_id(),
            final(self)@ == without_peer(old(self)@, peer),
            !has_peer(final(self)@, peer),
            r == (if has_peer(old(self)@, peer) {
                Some(handle_of(old(self)@, peer))
            } else {
                None
            }),
    {
        match self.find_peer(peer) {
            None => None,
            Some(i) => {
                proof {
                    lemma_peer_index(self@, self.next_id, i as int);
                    lemma_remove_wf(self@, self.next_id, i as int);
                }
                let c = self.connections.remove(i);
                Some(c.handle)
            },
        }
    }

    /// Unregisters every peer. Returns their handles in registration order.
    pub fn clear(&mut self) -> (r: Vec<ConnectionHandle>)
        requires
            old(self).wf(),
        ensures
            final(self).wf(),
            final(self)@ == Seq::<Connection>::empty(),
            final(self).spec_next_id() == old(self).spec_next_id(),
            r@ == handles_of(old(self)@),
    {
        let r = self.handles();
        self.connections = Vec::new();
        r
    }

    /// The handles of all registered peers, in registration order.
    pub fn handles(&self) -> (r: Vec<ConnectionHandle>)
        ensures
            r@ == handles_of(self@),
    {
        let mut r: Vec<ConnectionHandle> = Vec::new();
        let mut i: usize = 0;
        while i < self.connections.len()
            invariant
                i <= self.connections@.len(),
                r@ == handles_of(self.connections@.subrange(0, i as int)),
            decreases self.connections@.len() - i,
        {
            r.push(self.connections[i].handle);
            i = i + 1;
            proof {
                assert(handles_of(self.connections@.subrange(0, i as int)) =~= r@);
            }
        }
        proof {
            assert(self.connections@.subrange(0, i as int) =~= self.connections@);
        }
        r
    }

    /// The ids of all registered peers, in registration order.
    pub fn peers(&self) -> (r: Vec<PeerId>)
        ensures
            r@ == peers_of(self@),
    {
        let mut r: Vec<PeerId> = Vec::new();
        let mut i: usize = 0;
        while i < self.connections.len()
            invariant
                i <= self.connections@.len(),
                r@ == peers_of(self.connections@.subrange(0, i as int)),
            decreases self.connections@.len() - i,
        {
            r.push(self.connections[i].peer);
            i = i + 1;
            proof {
                assert(peers_of(self.connections@.subrange(0, i as int)) =~= r@);
            }
        }
        proof {
            assert(self.connections@.subrange(0, i as int) =~= self.connections@);
        }
        r
    }
}

} // verus!
