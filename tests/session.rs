use bevy_replicon_matchbox::channels::{ChannelLayout, LogicalChannel, CONTROL_CHANNEL};
use bevy_replicon_matchbox::client::{ClientSent, ClientState, MatchboxClient};
use bevy_replicon_matchbox::codec::{
    decode_control, encode_control, frame_payload, unframe_payload, DecodeError,
    SystemChannelMessage,
};
use bevy_replicon_matchbox::host::{HostState, MatchboxHost, ServerSent};
use bevy_replicon_matchbox::registry::{network_id, ClientRegistry, MAX_MESSAGE_SIZE};
use bevy_replicon_matchbox::transport::{Datagram, PeerState, PeerUpdate, SocketClosed};

fn layout(s: usize, c: usize) -> ChannelLayout {
    ChannelLayout::new(s, c).unwrap()
}

fn connected(peer: u128) -> PeerUpdate {
    PeerUpdate { peer, state: PeerState::Connected }
}

fn gone(peer: u128) -> PeerUpdate {
    PeerUpdate { peer, state: PeerState::Disconnected }
}

fn control(peer: u128, m: SystemChannelMessage) -> Datagram {
    Datagram { peer, bytes: encode_control(m) }
}

fn host_with(peers: &[u128]) -> MatchboxHost {
    let mut host = MatchboxHost::new(layout(2, 3));
    let updates: Vec<PeerUpdate> = peers.iter().map(|p| connected(*p)).collect();
    host.update_client_presence(Ok(updates));
    host
}

#[test]
fn channel_indices_of_two_and_three_channels() {
    let l = layout(2, 3);
    assert_eq!(CONTROL_CHANNEL, 0);
    assert_eq!(l.socket_index(LogicalChannel::Control), 0);
    assert_eq!(l.server_channel_index(0), 1);
    assert_eq!(l.server_channel_index(1), 2);
    assert_eq!(l.client_channel_index(0), 3);
    assert_eq!(l.client_channel_index(1), 4);
    assert_eq!(l.client_channel_index(2), 5);
    assert_eq!(l.channel_count(), 6);
}

#[test]
fn channel_indices_are_distinct_and_invertible() {
    let l = layout(2, 3);
    let mut seen = Vec::new();
    for index in 0..l.channel_count() {
        let ch = l.channel_at(index).unwrap();
        assert_eq!(l.socket_index(ch), index);
        assert!(!seen.contains(&ch));
        seen.push(ch);
    }
    assert_eq!(l.channel_at(6), None);
    assert_eq!(l.channel_at(3), Some(LogicalChannel::ClientToServer(0)));
}

#[test]
fn layout_too_large_is_refused() {
    assert!(ChannelLayout::new(usize::MAX, 0).is_none());
    assert!(ChannelLayout::new(1, usize::MAX - 1).is_none());
    assert!(ChannelLayout::new(1, usize::MAX - 2).is_some());
}

#[test]
fn frame_round_trip() {
    for payload in [vec![], vec![0x41, 0x42], vec![0, 0, 0]] {
        let framed = frame_payload(&payload);
        assert_eq!(framed.len(), payload.len() + 1);
        assert_eq!(framed[0], 0);
        assert_eq!(unframe_payload(&framed), payload);
    }
}

#[test]
fn unframe_drops_first_byte_only() {
    assert_eq!(unframe_payload(&[9, 1, 2]), vec![1, 2]);
    assert_eq!(unframe_payload(&[9]), Vec::<u8>::new());
}

#[test]
fn control_messages_encode_to_one_byte() {
    assert_eq!(encode_control(SystemChannelMessage::ConnectedToHost), vec![0]);
    assert_eq!(encode_control(SystemChannelMessage::HostRequestsDisconnect), vec![1]);
    assert_eq!(encode_control(SystemChannelMessage::ClientDisconnects), vec![2]);
    for m in [
        SystemChannelMessage::ConnectedToHost,
        SystemChannelMessage::HostRequestsDisconnect,
        SystemChannelMessage::ClientDisconnects,
    ] {
        assert_eq!(decode_control(&encode_control(m)), Ok(m));
    }
}

#[test]
fn control_decode_errors() {
    assert_eq!(decode_control(&[]), Err(DecodeError::Empty));
    assert_eq!(decode_control(&[7]), Err(DecodeError::UnknownKind(7)));
    assert_eq!(decode_control(&[7, 1]), Err(DecodeError::UnknownKind(7)));
    assert_eq!(decode_control(&[1, 0]), Err(DecodeError::TrailingBytes));
}

#[test]
fn network_id_keeps_low_bits() {
    assert_eq!(network_id((1u128 << 64) + 5), 5);
    assert_eq!(network_id(u128::MAX), u64::MAX);
}

#[test]
fn registry_connect_is_idempotent() {
    let mut r = ClientRegistry::new();
    let h = r.on_peer_connected(10).unwrap();
    assert_eq!(h.id, 0);
    assert_eq!(h.network_id, 10);
    assert_eq!(h.max_size, MAX_MESSAGE_SIZE);
    assert_eq!(r.on_peer_connected(10), None);
    assert_eq!(r.len(), 1);
    let h2 = r.on_peer_connected(11).unwrap();
    assert_eq!(h2.id, 1);
    assert_eq!(r.lookup(11), Some(h2));
    assert_eq!(r.lookup_peer(0), Some(10));
    assert_eq!(r.lookup_peer(5), None);
}

#[test]
fn registry_disconnect_twice() {
    let mut r = ClientRegistry::new();
    let h = r.on_peer_connected(10).unwrap();
    assert_eq!(r.on_peer_disconnected(10), Some(h));
    assert_eq!(r.on_peer_disconnected(10), None);
    assert_eq!(r.lookup(10), None);
    assert_eq!(r.len(), 0);
    let again = r.on_peer_connected(10).unwrap();
    assert_eq!(again.id, 1);
}

#[test]
fn host_greets_new_peer_once() {
    let mut host = MatchboxHost::new(layout(2, 3));
    let first = host.update_client_presence(Ok(vec![connected(7)]));
    assert_eq!(first.connected.len(), 1);
    assert_eq!(first.connected[0].peer, 7);
    assert_eq!(first.sends.len(), 1);
    assert_eq!(first.sends[0].channel, 0);
    assert_eq!(first.sends[0].peer, 7);
    assert_eq!(first.sends[0].bytes, vec![0]);
    let second = host.update_client_presence(Ok(vec![connected(7)]));
    assert!(second.connected.is_empty());
    assert!(second.sends.is_empty());
    assert_eq!(host.connected_clients(), 1);
}

#[test]
fn host_duplicate_report_in_one_tick() {
    let mut host = MatchboxHost::new(layout(1, 1));
    let changes = host.update_client_presence(Ok(vec![connected(7), connected(7), gone(8)]));
    assert_eq!(changes.connected.len(), 1);
    assert_eq!(changes.sends.len(), 1);
    assert!(changes.disconnected.is_empty());
    assert!(!changes.shut_down);
    assert_eq!(host.connected_clients(), 1);
}

#[test]
fn host_peer_reported_gone() {
    let mut host = host_with(&[1, 2]);
    let handle = host.registry.lookup(1).unwrap();
    let changes = host.update_client_presence(Ok(vec![gone(1)]));
    assert_eq!(changes.disconnected, vec![handle]);
    assert_eq!(host.connected_clients(), 1);
    assert_eq!(host.registry.lookup(1), None);
}

#[test]
fn host_socket_failure_with_three_peers() {
    let mut host = host_with(&[1, 2, 3]);
    assert_eq!(host.connected_clients(), 3);
    assert!(host.is_running());
    let changes = host.update_client_presence(Err(SocketClosed));
    assert!(changes.shut_down);
    assert_eq!(changes.disconnected.len(), 3);
    assert_eq!(host.connected_clients(), 0);
    assert_eq!(host.state, HostState::Stopped);
    assert!(!host.is_running());
}

#[test]
fn host_drops_client_that_leaves() {
    let mut host = host_with(&[5, 6]);
    let mut client = MatchboxClient::new(layout(2, 3));
    client.receive_system_packets(&vec![control(99, SystemChannelMessage::ConnectedToHost)]);
    let leave = client.disconnect().unwrap();
    assert_eq!(leave.channel, 0);
    assert_eq!(leave.peer, 99);
    let removed = host.receive_system_packets(&vec![Datagram { peer: 5, bytes: leave.bytes }]);
    assert_eq!(removed.len(), 1);
    assert_eq!(host.registry.lookup(5), None);
    assert_eq!(host.connected_clients(), 1);
}

#[test]
fn host_ignores_unexpected_control() {
    let mut host = host_with(&[5]);
    let removed = host.receive_system_packets(&vec![
        control(5, SystemChannelMessage::ConnectedToHost),
        control(5, SystemChannelMessage::HostRequestsDisconnect),
        Datagram { peer: 5, bytes: vec![] },
        Datagram { peer: 5, bytes: vec![9] },
        control(6, SystemChannelMessage::ClientDisconnects),
    ]);
    assert!(removed.is_empty());
    assert_eq!(host.connected_clients(), 1);
}

#[test]
fn host_disconnect_request_same_tick() {
    let mut host = host_with(&[5, 6]);
    let handle = host.registry.lookup(6).unwrap();
    host.request_disconnect(handle.id);
    host.request_disconnect(1000);
    assert_eq!(host.clients_to_disconnect, vec![6]);
    let out = host.send_packets(&vec![]);
    assert_eq!(out.disconnected, vec![handle]);
    assert_eq!(out.sends.len(), 1);
    assert_eq!(out.sends[0].channel, 0);
    assert_eq!(out.sends[0].peer, 6);
    assert_eq!(out.sends[0].bytes, vec![1]);
    assert_eq!(host.registry.lookup(6), None);
    assert_eq!(host.connected_clients(), 1);
    assert!(host.clients_to_disconnect.is_empty());
}

#[test]
fn host_disconnect_all() {
    let mut host = host_with(&[5, 6, 7]);
    host.disconnect_all();
    assert_eq!(host.clients_to_disconnect, vec![5, 6, 7]);
    let out = host.flush_disconnects();
    assert_eq!(out.disconnected.len(), 3);
    assert_eq!(out.sends.len(), 3);
    assert_eq!(host.connected_clients(), 0);
}

#[test]
fn host_receives_from_known_peers() {
    let host = host_with(&[5]);
    let handle = host.registry.lookup(5).unwrap();
    let got = host.receive_packets(
        2,
        &vec![
            Datagram { peer: 5, bytes: vec![0, 0x41, 0x42] },
            Datagram { peer: 6, bytes: vec![0, 1] },
            Datagram { peer: 5, bytes: vec![] },
            Datagram { peer: 5, bytes: vec![0] },
        ],
    );
    assert_eq!(got.len(), 2);
    assert_eq!(got[0].handle, handle);
    assert_eq!(got[0].channel, 2);
    assert_eq!(got[0].payload, vec![0x41, 0x42]);
    assert_eq!(got[1].payload, Vec::<u8>::new());
}

#[test]
fn host_routes_to_registered_handles() {
    let host = host_with(&[5, 6]);
    let h6 = host.registry.lookup(6).unwrap();
    let sends = host.route_outbound(&vec![
        ServerSent { client: h6.id, channel: 1, payload: vec![3, 4] },
        ServerSent { client: 77, channel: 0, payload: vec![1] },
    ]);
    assert_eq!(sends.len(), 1);
    assert_eq!(sends[0].channel, 2);
    assert_eq!(sends[0].peer, 6);
    assert_eq!(sends[0].bytes, vec![0, 3, 4]);
}

#[test]
fn client_connects_once() {
    let mut client = MatchboxClient::new(layout(2, 3));
    assert_eq!(client.state, ClientState::Connecting);
    assert!(!client.is_connected());
    client.receive_system_packets(&vec![control(42, SystemChannelMessage::ConnectedToHost)]);
    assert_eq!(client.state, ClientState::Connected);
    assert_eq!(client.host_peer_id, Some(42));
    client.receive_system_packets(&vec![control(43, SystemChannelMessage::ConnectedToHost)]);
    assert_eq!(client.state, ClientState::Connected);
    assert_eq!(client.host_peer_id, Some(42));
}

#[test]
fn client_ignores_bad_control() {
    let mut client = MatchboxClient::new(layout(2, 3));
    client.receive_system_packets(&vec![
        control(42, SystemChannelMessage::ClientDisconnects),
        Datagram { peer: 42, bytes: vec![] },
        Datagram { peer: 42, bytes: vec![0, 0] },
    ]);
    assert_eq!(client.state, ClientState::Connecting);
    assert!(client.no_host_defined());
    assert!(!client.should_disconnect);
}

#[test]
fn client_buffers_until_connected() {
    let mut client = MatchboxClient::new(layout(2, 3));
    let mut queue = vec![ClientSent { channel: 0, payload: vec![0x41, 0x42] }];
    let out = client.send_packets(&mut queue);
    assert!(out.sends.is_empty());
    assert!(!out.close_socket);
    assert_eq!(queue.len(), 1);
    assert_eq!(queue[0].payload, vec![0x41, 0x42]);

    client.receive_system_packets(&vec![control(42, SystemChannelMessage::ConnectedToHost)]);
    assert!(client.is_connected());
    let out = client.send_packets(&mut queue);
    assert!(queue.is_empty());
    assert_eq!(out.sends.len(), 1);
    assert_eq!(out.sends[0].channel, 3);
    assert_eq!(out.sends[0].peer, 42);
    assert_eq!(out.sends[0].bytes, vec![0, 0x41, 0x42]);
}

#[test]
fn client_leaves_on_host_request() {
    let mut client = MatchboxClient::new(layout(1, 1));
    client.receive_system_packets(&vec![
        control(42, SystemChannelMessage::ConnectedToHost),
        control(42, SystemChannelMessage::HostRequestsDisconnect),
    ]);
    assert!(client.should_disconnect);
    let mut queue = vec![ClientSent { channel: 0, payload: vec![1] }];
    let out = client.send_packets(&mut queue);
    assert!(out.close_socket);
    assert_eq!(out.sends.len(), 1);
    assert_eq!(out.sends[0].channel, 2);
    assert_eq!(client.state, ClientState::Disconnected);
    assert!(!client.is_connected());
    assert!(!client.should_disconnect);
}

#[test]
fn client_disconnect_without_host() {
    let mut client = MatchboxClient::new(layout(1, 1));
    assert!(client.disconnect().is_none());
    assert!(!client.should_disconnect);
}

#[test]
fn client_watches_only_host_peer() {
    let mut client = MatchboxClient::new(layout(1, 1));
    assert!(!client.update_peers(&Ok(vec![gone(42)])));
    client.receive_system_packets(&vec![control(42, SystemChannelMessage::ConnectedToHost)]);
    assert!(!client.update_peers(&Ok(vec![gone(7), connected(8)])));
    assert_eq!(client.state, ClientState::Connected);
    assert!(client.update_peers(&Ok(vec![gone(7), gone(42)])));
    assert_eq!(client.state, ClientState::Disconnected);
}

#[test]
fn client_socket_failure() {
    let mut client = MatchboxClient::new(layout(1, 1));
    assert!(client.update_peers(&Err(SocketClosed)));
    assert_eq!(client.state, ClientState::Disconnected);
}

#[test]
fn client_removed_socket_disconnects() {
    let mut client = MatchboxClient::new(layout(1, 1));
    client.receive_system_packets(&vec![control(42, SystemChannelMessage::ConnectedToHost)]);
    client.set_disconnected();
    assert_eq!(client.state, ClientState::Disconnected);
    assert!(!client.is_connected());
}

#[test]
fn client_receives_payloads() {
    let client = MatchboxClient::new(layout(2, 1));
    let got = client.receive_packets(
        1,
        &vec![
            Datagram { peer: 1, bytes: vec![0, 9] },
            Datagram { peer: 1, bytes: vec![] },
        ],
    );
    assert_eq!(got.len(), 1);
    assert_eq!(got[0].channel, 1);
    assert_eq!(got[0].payload, vec![9]);
}
