//! Session and channel multiplexing between one authoritative host and its
//! clients over a multi-channel peer-to-peer datagram socket.
//!
//! The socket's channel 0 carries a small control protocol; the replication
//! framework's logical channels are laid out after it. Host and client keep
//! their session state in [`host::MatchboxHost`] and [`client::MatchboxClient`],
//! whose per-tick steps take what the socket reported and return what to send.
pub mod channels;
pub mod codec;
pub mod registry;
pub mod transport;
pub mod host;
pub mod client;
