//! The wire codec: a stable binary encoding of [`Message`] with no version
//! byte.
//!
//! Layout, all integers little-endian:
//! - 4-byte variant tag (`0` = Register, `1` = RegisterSuccess,
//!   `2` = RegisterFail, `3` = Ping, `4` = Pong, `5` = Data);
//! - `Register`: the six MAC octets;
//! - `RegisterSuccess`: the four IP octets, then the four mask octets;
//! - `RegisterFail`: an 8-byte byte count, then that many UTF-8 bytes;
//! - `Data`: an 8-byte byte count, then the raw frame bytes.
//!
//! One message travels per UDP datagram. Bytes after a complete message are
//! ignored, so a decoder accepts any datagram that begins with a well-formed
//! message; bytes that match no variant yield [`DecodeError`].

use vstd::prelude::*;

use vstd::bytes::lemma_auto_spec_u32_to_from_le_bytes;
use vstd::bytes::lemma_auto_spec_u64_to_from_le_bytes;
use vstd::bytes::spec_u32_from_le_bytes;
use vstd::bytes::spec_u32_to_le_bytes;
use vstd::bytes::spec_u64_from_le_bytes;
use vstd::bytes::spec_u64_to_le_bytes;
use vstd::bytes::u32_from_le_bytes;
use vstd::bytes::u32_to_le_bytes;
use vstd::bytes::u64_from_le_bytes;
use vstd::bytes::u64_to_le_bytes;
use vstd::slice::slice_subrange;
use vstd::slice::slice_to_vec;
use vstd::string::StrSliceExecFns;
use vstd::utf8::decode_utf8;
use vstd::utf8::encode_utf8;
use vstd::utf8::encode_utf8_decode_utf8;
use vstd::utf8::encode_utf8_valid_utf8;
use vstd::utf8::valid_utf8;

use crate::message::DecodeError;
use crate::message::Message;
use crate::message::MessageView;
use crate::net::Ipv4Address;
use crate::net::MacAddress;

verus! {

/// Upper bound on one datagram. Receivers read into a buffer of this size;
/// a message that does not fit is malformed and never decodes.
pub const MAX_DATAGRAM_BYTES: usize = 10000;

impl MessageView {
    /// A message the codec can reproduce exactly: its variable-length payload,
    /// plus the 12 header bytes, fits in a byte vector.
    pub open spec fn wf(self) -> bool {
        match self {
            MessageView::RegisterFail { reason } => encode_utf8(reason).len() + 12 <= usize::MAX,
            MessageView::Data { ethernet_frame } => ethernet_frame.len() + 12 <= usize::MAX,
            _ => true,
        }
    }
}

/// The bytes that encode `m`: the variant tag followed by the variant's
/// payload.
pub open spec fn spec_encode(m: MessageView) -> Seq<u8> {
    match m {
        MessageView::Register { mac_address } => spec_u32_to_le_bytes(0)
            + mac_address.octets(),
        MessageView::RegisterSuccess { ip, subnet_mask } => spec_u32_to_le_bytes(1)
            + ip.octets() + subnet_mask.octets(),
        MessageView::RegisterFail { reason } => spec_u32_to_le_bytes(2) + spec_u64_to_le_bytes(
            encode_utf8(reason).len() as u64,
        ) + encode_utf8(reason),
        MessageView::Ping => spec_u32_to_le_bytes(3),
        MessageView::Pong => spec_u32_to_le_bytes(4),
        MessageView::Data { ethernet_frame } => spec_u32_to_le_bytes(5) + spec_u64_to_le_bytes(
            ethernet_frame.len() as u64,
        ) + ethernet_frame,
    }
}

/// The message that a datagram beginning with `b` carries, or `None` when the
/// bytes match no variant. Bytes after the complete message are ignored.
pub open spec fn spec_decode(b: Seq<u8>) -> Option<MessageView> {
    if b.len() < 4 {
        None
    } else {
        let tag = spec_u32_from_le_bytes(b.subrange(0, 4));
        if tag == 0 {
            if b.len() >= 10 {
                Some(
                    MessageView::Register {
                        mac_address: MacAddress {
                            b0: b[4],
                            b1: b[5],
                            b2: b[6],
                            b3: b[7],
                            b4: b[8],
                            b5: b[9],
                        },
                    },
                )
            } else {
                None
            }
        } else if tag == 1 {
            if b.len() >= 12 {
                Some(
                    MessageView::RegisterSuccess {
                        ip: Ipv4Address { a: b[4], b: b[5], c: b[6], d: b[7] },
                        subnet_mask: Ipv4Address { a: b[8], b: b[9], c: b[10], d: b[11] },
                    },
                )
            } else {
                None
            }
        } else if tag == 2 {
            if b.len() >= 12 {
                let count = spec_u64_from_le_bytes(b.subrange(4, 12));
                if count <= b.len() - 12 {
                    let payload = b.subrange(12, 12 + count);
                    if valid_utf8(payload) {
                        Some(MessageView::RegisterFail { reason: decode_utf8(payload) })
                    } else {
                        None
                    }
                } else {
                    None
                }
            } else {
                None
            }
        } else if tag == 3 {
            Some(MessageView::Ping)
        } else if tag == 4 {
            Some(MessageView::Pong)
        } else if tag == 5 {
            if b.len() >= 12 {
                let count = spec_u64_from_le_bytes(b.subrange(4, 12));
                if count <= b.len() - 12 {
                    Some(MessageView::Data { ethernet_frame: b.subrange(12, 12 + count) })
                } else {
                    None
                }
            } else {
                None
            }
        } else {
            None
        }
    }
}

/// Encodes one message for transmission. Total: every message encodes.
pub fn encode(message: &Message) -> (r: Vec<u8>)
    ensures
        r@ == spec_encode(message@),
{
    match message {
        Message::Register { mac_address } => {
            let mut out = u32_to_le_bytes(0);
            out.push(mac_address.b0);
            out.push(mac_address.b1);
            out.push(mac_address.b2);
            out.push(mac_address.b3);
            out.push(mac_address.b4);
            out.push(mac_address.b5);
            proof {
                assert(out@ =~= spec_encode(message@));
            }
            out
        },
        Message::RegisterSuccess { ip, subnet_mask } => {
            let mut out = u32_to_le_bytes(1);
            out.push(ip.a);
            out.push(ip.b);
            out.push(ip.c);
            out.push(ip.d);
            out.push(subnet_mask.a);
            out.push(subnet_mask.b);
            out.push(subnet_mask.c);
            out.push(subnet_mask.d);
            proof {
                assert(out@ =~= spec_encode(message@));
            }
            out
        },
        Message::RegisterFail { reason } => {
            let payload: Vec<u8> = reason.as_str().as_bytes_vec();
            let mut out = u32_to_le_bytes(2);
            let count_bytes = u64_to_le_bytes(payload.len() as u64);
            out.extend_from_slice(count_bytes.as_slice());
            out.extend_from_slice(payload.as_slice());
            proof {
                assert(out@ =~= spec_encode(message@));
            }
            out
        },
        Message::Ping => u32_to_le_bytes(3),
        Message::Pong => u32_to_le_bytes(4),
        Message::Data { ethernet_frame } => {
            let mut out = u32_to_le_bytes(5);
            let count_bytes = u64_to_le_bytes(ethernet_frame.len() as u64);
            out.extend_from_slice(count_bytes.as_slice());
            out.extend_from_slice(ethernet_frame.as_slice());
            proof {
                assert(out@ =~= spec_encode(message@));
            }
            out
        },
    }
}

/// Relies on `String::from_utf8`: it succeeds exactly on byte sequences that
/// are valid UTF-8, and the returned string holds the characters those bytes
/// encode.
#[verifier::external_body]
fn string_from_utf8(bytes: Vec<u8>) -> (r: Option<String>)
    ensures
        r is Some <==> valid_utf8(bytes@),
        r matches Some(s) ==> s@ == decode_utf8(bytes@),
{
    match String::from_utf8(bytes) {
        Ok(s) => Some(s),
        Err(_) => None,
    }
}

/// Decodes the message at the front of a received datagram, or reports that
/// the bytes match no variant.
pub fn decode(bytes: &[u8]) -> (r: Result<Message, DecodeError>)
    ensures
        match spec_decode(bytes@) {
            Some(v) => r matches Ok(m) && m@ == v,
            None => r is Err,
        },
{
    let n = bytes.len();
    if n < 4 {
        return Err(DecodeError);
    }
    let tag = u32_from_le_bytes(slice_subrange(bytes, 0, 4));
    if tag == 0 {
        if n < 10 {
            return Err(DecodeError);
        }
        Ok(
            Message::Register {
                mac_address: MacAddress {
                    b0: bytes[4],
                    b1: bytes[5],
                    b2: bytes[6],
                    b3: bytes[7],
                    b4: bytes[8],
                    b5: bytes[9],
                },
            },
        )
    } else if tag == 1 {
        if n < 12 {
            return Err(DecodeError);
        }
        Ok(
            Message::RegisterSuccess {
                ip: Ipv4Address { a: bytes[4], b: bytes[5], c: bytes[6], d: bytes[7] },
                subnet_mask: Ipv4Address { a: bytes[8], b: bytes[9], c: bytes[10], d: bytes[11] },
            },
        )
    } else if tag == 2 {
        if n < 12 {
            return Err(DecodeError);
        }
        let count = u64_from_le_bytes(slice_subrange(bytes, 4, 12));
        if count > (n - 12) as u64 {
            return Err(DecodeError);
        }
        let payload = slice_to_vec(slice_subrange(bytes, 12, 12 + count as usize));
        match string_from_utf8(payload) {
            Some(reason) => Ok(Message::RegisterFail { reason }),
            None => Err(DecodeError),
        }
    } else if tag == 3 {
        Ok(Message::Ping)
    } else if tag == 4 {
        Ok(Message::Pong)
    } else if tag == 5 {
        if n < 12 {
            return Err(DecodeError);
        }
        let count = u64_from_le_bytes(slice_subrange(bytes, 4, 12));
        if count > (n - 12) as u64 {
            return Err(DecodeError);
        }
        let frame = slice_to_vec(slice_subrange(bytes, 12, 12 + count as usize));
        Ok(Message::Data { ethernet_frame: frame })
    } else {
        Err(DecodeError)
    }
}

/// Law: the codec round-trips. Decoding the encoding of any well-formed
/// message yields that message back.
pub proof fn lemma_decode_encode(m: MessageView)
    requires
        m.wf(),
    ensures
        spec_decode(spec_encode(m)) == Some(m),
{
    lemma_auto_spec_u32_to_from_le_bytes();
    lemma_auto_spec_u64_to_from_le_bytes();
    let b = spec_encode(m);
    match m {
        MessageView::Register { mac_address } => {
            assert(b.subrange(0, 4) =~= spec_u32_to_le_bytes(0));
            assert(spec_decode(b) == Some(m));
        },
        MessageView::RegisterSuccess { ip, subnet_mask } => {
            assert(b.subrange(0, 4) =~= spec_u32_to_le_bytes(1));
            assert(spec_decode(b) == Some(m));
        },
        MessageView::RegisterFail { reason } => {
            let payload = encode_utf8(reason);
            assert(b.subrange(0, 4) =~= spec_u32_to_le_bytes(2));
            assert(b.subrange(4, 12) =~= spec_u64_to_le_bytes(payload.len() as u64));
            assert(b.subrange(12, 12 + payload.len() as int) =~= payload);
            encode_utf8_valid_utf8(reason);
            encode_utf8_decode_utf8(reason);
            assert(spec_decode(b) == Some(m));
        },
        MessageView::Ping => {
            assert(b.subrange(0, 4) =~= spec_u32_to_le_bytes(3));
            assert(spec_decode(b) == Some(m));
        },
        MessageView::Pong => {
            assert(b.subrange(0, 4) =~= spec_u32_to_le_bytes(4));
            assert(spec_decode(b) == Some(m));
        },
        MessageView::Data { ethernet_frame } => {
            assert(b.subrange(0, 4) =~= spec_u32_to_le_bytes(5));
            assert(b.subrange(4, 12) =~= spec_u64_to_le_bytes(ethernet_frame.len() as u64));
            assert(b.subrange(12, 12 + ethernet_frame.len() as int) =~= ethernet_frame);
            assert(spec_decode(b) == Some(m));
        },
    }
}

} // verus!
