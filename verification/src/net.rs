//! Network-layer value types: MAC addresses, IPv4 addresses, UDP endpoints,
//! and Ethernet header parsing.

use vstd::prelude::*;

verus! {

/// A 48-bit Ethernet hardware address, stored as six octets.
///
/// Equality and hashing are byte-wise. The address is multicast iff the
/// least-significant bit of the first octet is set; the broadcast address
/// `FF:FF:FF:FF:FF:FF` is a special case of multicast.
#[derive(Clone, Copy, PartialEq, Eq, Structural, Hash, Debug)]
pub struct MacAddress {
    pub b0: u8,
    pub b1: u8,
    pub b2: u8,
    pub b3: u8,
    pub b4: u8,
    pub b5: u8,
}

impl MacAddress {
    /// The six octets in transmission order.
    pub open spec fn octets(self) -> Seq<u8> {
        seq![self.b0, self.b1, self.b2, self.b3, self.b4, self.b5]
    }

    /// Whether the address is multicast (least-significant bit of the first
    /// octet set). Broadcast is a special case of multicast.
    pub open spec fn spec_is_multicast(self) -> bool {
        self.b0 & 1 == 1
    }

    /// Builds an address from six octets in transmission order.
    pub fn new(b0: u8, b1: u8, b2: u8, b3: u8, b4: u8, b5: u8) -> (r: MacAddress)
        ensures
            r == (MacAddress { b0, b1, b2, b3, b4, b5 }),
    {
        MacAddress { b0, b1, b2, b3, b4, b5 }
    }

    /// Whether the address is multicast.
    pub fn is_multicast(&self) -> (r: bool)
        ensures
            r == self.spec_is_multicast(),
    {
        self.b0 & 1 == 1
    }
}

/// An IPv4 address as four dotted-quad octets.
#[derive(Clone, Copy, PartialEq, Eq, Structural, Hash, Debug)]
pub struct Ipv4Address {
    pub a: u8,
    pub b: u8,
    pub c: u8,
    pub d: u8,
}

impl Ipv4Address {
    /// The four octets in dotted-quad order.
    pub open spec fn octets(self) -> Seq<u8> {
        seq![self.a, self.b, self.c, self.d]
    }

    /// Builds an address from four octets in dotted-quad order.
    pub fn new(a: u8, b: u8, c: u8, d: u8) -> (r: Ipv4Address)
        ensures
            r == (Ipv4Address { a, b, c, d }),
    {
        Ipv4Address { a, b, c, d }
    }
}

/// The destination MAC address of an Ethernet frame: bytes 0 through 5.
pub open spec fn spec_frame_dst(frame: Seq<u8>) -> MacAddress {
    MacAddress {
        b0: frame[0],
        b1: frame[1],
        b2: frame[2],
        b3: frame[3],
        b4: frame[4],
        b5: frame[5],
    }
}

/// The source MAC address of an Ethernet frame: bytes 6 through 11.
pub open spec fn spec_frame_src(frame: Seq<u8>) -> MacAddress {
    MacAddress {
        b0: frame[6],
        b1: frame[7],
        b2: frame[8],
        b3: frame[9],
        b4: frame[10],
        b5: frame[11],
    }
}

/// Reads the source and destination MAC addresses out of an Ethernet header.
/// Frames shorter than 12 bytes carry no complete header and are invalid.
pub fn get_mac_addresses(ethernet_frame: &[u8]) -> (r: Result<(MacAddress, MacAddress), ()>)
    ensures
        match r {
            Ok(p) => ethernet_frame@.len() >= 12 && p.0 == spec_frame_src(ethernet_frame@) && p.1
                == spec_frame_dst(ethernet_frame@),
            Err(_) => ethernet_frame@.len() < 12,
        },
{
    if ethernet_frame.len() < 12 {
        return Err(());
    }
    let destination_mac_address = MacAddress {
        b0: ethernet_frame[0],
        b1: ethernet_frame[1],
        b2: ethernet_frame[2],
        b3: ethernet_frame[3],
        b4: ethernet_frame[4],
        b5: ethernet_frame[5],
    };
    let source_mac_address = MacAddress {
        b0: ethernet_frame[6],
        b1: ethernet_frame[7],
        b2: ethernet_frame[8],
        b3: ethernet_frame[9],
        b4: ethernet_frame[10],
        b5: ethernet_frame[11],
    };
    Ok((source_mac_address, destination_mac_address))
}

/// How many leading one bits a mask octet has.
pub open spec fn spec_leading_ones(b: u8) -> u32 {
    if b < 128 {
        0
    } else if b < 192 {
        1
    } else if b < 224 {
        2
    } else if b < 240 {
        3
    } else if b < 248 {
        4
    } else if b < 252 {
        5
    } else if b < 254 {
        6
    } else if b == 254 {
        7
    } else {
        8
    }
}

/// The CIDR prefix length of a dotted subnet mask: leading one bits are
/// counted octet by octet, stopping at the first octet below 255.
pub open spec fn spec_cidr_suffix(mask: Ipv4Address) -> u32 {
    if mask.a < 255 {
        spec_leading_ones(mask.a)
    } else if mask.b < 255 {
        (8 + spec_leading_ones(mask.b)) as u32
    } else if mask.c < 255 {
        (16 + spec_leading_ones(mask.c)) as u32
    } else {
        (24 + spec_leading_ones(mask.d)) as u32
    }
}

/// How many leading one bits a mask octet has.
fn leading_ones(b: u8) -> (r: u32)
    ensures
        r == spec_leading_ones(b),
{
    if b < 128 {
        0
    } else if b < 192 {
        1
    } else if b < 224 {
        2
    } else if b < 240 {
        3
    } else if b < 248 {
        4
    } else if b < 252 {
        5
    } else if b < 254 {
        6
    } else if b == 254 {
        7
    } else {
        8
    }
}

/// Converts a dotted subnet mask to its CIDR prefix length, as the TAP
/// configuration path does before handing the address to the host.
pub fn cidr_suffix(mask: Ipv4Address) -> (r: u32)
    ensures
        r == spec_cidr_suffix(mask),
{
    if mask.a < 255 {
        leading_ones(mask.a)
    } else if mask.b < 255 {
        8 + leading_ones(mask.b)
    } else if mask.c < 255 {
        16 + leading_ones(mask.c)
    } else {
        24 + leading_ones(mask.d)
    }
}

/// A peer's UDP endpoint as the server observes it.
///
/// The server listens on a dual-stack socket, so every peer appears under a
/// 128-bit host address (IPv4 peers as IPv4-mapped IPv6 addresses) and a
/// port. Equality is by host and port.
#[derive(Clone, Copy, PartialEq, Eq, Structural, Hash, Debug)]
pub struct Endpoint {
    pub host: u128,
    pub port: u16,
}

} // verus!
