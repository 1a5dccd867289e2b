//! A minimal layer-2 VPN core: a rendezvous server bridges an Ethernet
//! broadcast domain across UDP-connected peers.
//!
//! This crate holds the verified logic of the system: the wire codec for the
//! six-variant message union, Ethernet frame parsing, the server's
//! registration/session manager with its IPv4 lease pool, the layer-2
//! forwarding plane, and the client's session state machine. Socket and TAP
//! I/O live outside the library and hand it plain values.

pub mod client;
pub mod codec;
pub mod message;
pub mod net;
pub mod search;
pub mod server;

pub use client::clear_receiver;
pub use client::classify_tap_frame;
pub use client::keepalive_step;
pub use client::phase_step;
pub use client::register_step;
pub use client::ClientEvent;
pub use client::ClientEventView;
pub use client::ClientPhase;
pub use client::ClientPhaseEvent;
pub use client::KeepaliveStep;
pub use client::RegisterResult;
pub use client::RegisterResultView;
pub use client::RegisterStep;
pub use client::TapFrameAction;
pub use codec::decode;
pub use codec::encode;
pub use message::DecodeError;
pub use message::Message;
pub use message::MessageView;
pub use message::ReceiveMessage;
pub use net::cidr_suffix;
pub use net::get_mac_addresses;
pub use net::Endpoint;
pub use net::Ipv4Address;
pub use net::MacAddress;
pub use server::generate_ip_pool;
pub use server::Connection;
pub use server::ServerState;
pub use server::ServerStateView;
