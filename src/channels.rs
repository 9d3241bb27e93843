//! Fixed mapping from logical channels to the socket's data-channel indices.
//!
//! Index 0 carries the control protocol; the host-to-client logical channels
//! follow it, then the client-to-host ones. Both roles derive the mapping from
//! the two channel counts alone.
use vstd::prelude::*;

verus! {

/// Index of the reserved control channel on the socket.
pub const CONTROL_CHANNEL: usize = 0;

/// One channel of the session, as both roles name it.
#[derive(Clone, Copy, Debug, PartialEq, Eq, Structural)]
pub enum LogicalChannel {
    /// The reserved channel of the control protocol.
    Control,
    /// A host-to-client logical channel, by its 0-based id.
    ServerToClient(usize),
    /// A client-to-host logical channel, by its 0-based id.
    ClientToServer(usize),
}

/// The number of logical channels in each direction, agreed by both ends
/// before the socket is opened.
#[derive(Clone, Copy, Debug, PartialEq, Eq, Structural)]
pub struct ChannelLayout {
    pub server_channels: usize,
    pub client_channels: usize,
}

/// Whether `ch` names a channel that exists under `s` host-to-client and `c`
/// client-to-host logical channels.
pub open spec fn channel_exists(s: nat, c: nat, ch: LogicalChannel) -> bool {
    match ch {
        LogicalChannel::Control => true,
        LogicalChannel::ServerToClient(i) => i < s,
        LogicalChannel::ClientToServer(j) => j < c,
    }
}

/// The socket index of `ch` when there are `s` host-to-client channels.
pub open spec fn socket_index_of(s: nat, ch: LogicalChannel) -> nat {
    match ch {
        LogicalChannel::Control => 0,
        LogicalChannel::ServerToClient(i) => (1 + i) as nat,
        LogicalChannel::ClientToServer(j) => (1 + s + j) as nat,
    }
}

impl ChannelLayout {
    pub open spec fn wf(self) -> bool {
        1 + self.server_channels + self.client_channels <= usize::MAX
    }

    /// Number of socket channels the layout needs, control channel included.
    pub open spec fn spec_channel_count(self) -> nat {
        (1 + self.server_channels + self.client_channels) as nat
    }

    pub open spec fn contains(self, ch: LogicalChannel) -> bool {
        channel_exists(self.server_channels as nat, self.client_channels as nat, ch)
    }

    pub open spec fn index_of(self, ch: LogicalChannel) -> nat {
        socket_index_of(self.server_channels as nat, ch)
    }

    /// A layout, or `None` when the socket could not number that many channels.
    pub fn new(server_channels: usize, client_channels: usize) -> (r: Option<ChannelLayout>)
        ensures
            r is Some <==> 1 + server_channels + client_channels <= usize::MAX,
            r matches Some(l) ==> l.wf() && l.server_channels == server_channels
                && l.client_channels == client_channels,
    {
        if server_channels < usize::MAX && client_channels < usize::MAX - server_channels {
            Some(ChannelLayout { server_channels, client_channels })
        } else {
            None
        }
    }

    /// Number of socket channels the layout needs, control channel included.
    pub fn channel_count(&self) -> (r: usize)
        requires
            self.wf(),
        ensures
            r == self.spec_channel_count(),
    {
        1 + self.server_channels + self.client_channels
    }

    /// Socket index of host-to-client logical channel `i`.
    pub fn server_channel_index(&self, i: usize) -> (r: usize)
        requires
            self.wf(),
            i < self.server_channels,
        ensures
            r == self.index_of(LogicalChannel::ServerToClient(i)),
    {
        1 + i
    }

    /// Socket index of client-to-host logical channel `j`.
    pub fn client_channel_index(&self, j: usize) -> (r: usize)
        requires
            self.wf(),
            j < self.client_channels,
        ensures
            r == self.index_of(LogicalChannel::ClientToServer(j)),
    {
        1 + self.server_channels + j
    }

    /// Socket index of any channel of the layout.
    pub fn socket_index(&self, ch: LogicalChannel) -> (r: usize)
        requires
            self.wf(),
            self.contains(ch),
        ensures
            r == self.index_of(ch),
            r < self.spec_channel_count(),
    {
        match ch {
            LogicalChannel::Control => CONTROL_CHANNEL,
            LogicalChannel::ServerToClient(i) => self.server_channel_index(i),
            LogicalChannel::ClientToServer(j) => self.client_channel_index(j),
        }
    }

    /// The channel that a socket index carries, or `None` past the last one.
    pub fn channel_at(&self, index: usize) -> (r: Option<LogicalChannel>)
        requires
            self.wf(),
        ensures
            r is Some <==> index < self.spec_channel_count(),
            r matches Some(ch) ==> self.contains(ch) && self.index_of(ch) == index,
    {
        if index == 0 {
            Some(LogicalChannel::Control)
        } else if index - 1 < self.server_channels {
            Some(LogicalChannel::ServerToClient(index - 1))
        } else if index - 1 - self.server_channels < self.client_channels {
            Some(LogicalChannel::ClientToServer(index - 1 - self.server_channels))
        } else {
            None
        }
    }
}

/// No two channels of a layout share a socket index, and every index lies in
/// `[0, 1 + s + c)`. Host and client compute it by the same function of the
/// two counts, so a channel has the same index at both ends.
pub proof fn lemma_channel_index_injective(
    s: nat,
    c: nat,
    a: LogicalChannel,
    b: LogicalChannel,
)
    requires
        channel_exists(s, c, a),
        channel_exists(s, c, b),
    ensures
        socket_index_of(s, a) < 1 + s + c,
        socket_index_of(s, a) == socket_index_of(s, b) ==> a == b,
{
}

} // verus!
