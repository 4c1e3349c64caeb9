//! Building blocks for NAT traversal: a fixed-width codec for peer address
//! descriptors, the decision logic of a NAT type classifier, and the state
//! of a rendezvous registry together with its datagram framing.

pub mod address;
pub mod clock;
pub mod error;
pub mod nat_utils;
pub mod peer;
pub mod registry;
pub mod server;
pub mod stun;
pub mod wire;
