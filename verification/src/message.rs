//! The tagged message union exchanged between client and server, and its
//! mathematical image used by contracts.

use vstd::prelude::*;

use crate::net::Ipv4Address;
use crate::net::MacAddress;

verus! {

/// One UDP datagram's payload: the closed union of the six protocol messages.
///
/// `Register` travels client-to-server; `RegisterSuccess`, `RegisterFail` and
/// `Pong` travel server-to-client; `Ping` travels client-to-server; `Data`
/// travels in both directions and relays one Ethernet frame unchanged.
pub enum Message {
    Register { mac_address: MacAddress },
    RegisterSuccess { ip: Ipv4Address, subnet_mask: Ipv4Address },
    RegisterFail { reason: String },
    Ping,
    Pong,
    Data { ethernet_frame: Vec<u8> },
}

/// The mathematical image of a [`Message`]: the same union with the heap
/// payloads replaced by their sequences.
pub enum MessageView {
    Register { mac_address: MacAddress },
    RegisterSuccess { ip: Ipv4Address, subnet_mask: Ipv4Address },
    RegisterFail { reason: Seq<char> },
    Ping,
    Pong,
    Data { ethernet_frame: Seq<u8> },
}

impl View for Message {
    type V = MessageView;

    open spec fn view(&self) -> MessageView {
        match self {
            Message::Register { mac_address } => MessageView::Register {
                mac_address: *mac_address,
            },
            Message::RegisterSuccess { ip, subnet_mask } => MessageView::RegisterSuccess {
                ip: *ip,
                subnet_mask: *subnet_mask,
            },
            Message::RegisterFail { reason } => MessageView::RegisterFail { reason: reason@ },
            Message::Ping => MessageView::Ping,
            Message::Pong => MessageView::Pong,
            Message::Data { ethernet_frame } => MessageView::Data {
                ethernet_frame: ethernet_frame@,
            },
        }
    }
}

/// Decoding failure: the bytes match no message variant. Datagrams that fail
/// to decode are discarded silently by both sides.
#[derive(Clone, Copy, PartialEq, Eq, Structural, Debug)]
pub struct DecodeError;

/// A decoded datagram together with the UDP endpoint it came from. The
/// server routes by the endpoint; the client's socket is connected and
/// ignores it.
pub struct ReceiveMessage {
    pub message: Message,
    pub source_address: crate::net::Endpoint,
}

} // verus!
