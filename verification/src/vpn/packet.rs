//! Version 1 of the VPN wire protocol: UDP datagrams between IPv4 peers.

use vstd::prelude::*;

use crate::addr::{IpAddress, Ipv4Address, SocketAddress};
use crate::codec::{be_bytes, be_value, get_be, put_be, lemma_be_bytes_len, lemma_be_value_bound,
    lemma_be_value_of_bytes, lemma_be_bytes_of_value, lemma_pow256_values};
use crate::text::copy_range;

verus! {

/// The four bytes every version 1 packet starts with.
pub const VPN_MAGIC1: u32 = 0x778B4CF3;

/// Length of a version 1 header: magic (4), address (4), port (2), payload
/// length (2).
pub const VPN_HEADER_LEN: usize = 12;

/// A UDP datagram inside a VPN.
pub struct VpnPacketUdp {
    pub from: SocketAddress,
    pub to: SocketAddress,
    pub data: Vec<u8>,
}

/// What travels to a VPN's routing task.
pub enum VpnPacket {
    /// Stop the VPN.
    VpnStop,
    /// The client at this address left.
    VpnDisconnect(SocketAddress),
    /// A datagram to route.
    Udp(VpnPacketUdp),
}

/// Why bytes are not a version 1 packet.
#[derive(Clone, Copy, Debug, PartialEq, Eq, Structural)]
pub enum VpnPacketError {
    /// Fewer bytes than a header.
    TooSmall,
    /// The first four bytes are not the magic number.
    BadMagic,
    /// The length field does not match the bytes after the header.
    SizeMismatch,
}

/// The bytes of a version 1 packet from `[ip]:port` carrying `data`; the
/// length field holds the payload's length modulo 65536.
pub open spec fn packet1_bytes(ip: u32, port: u16, data: Seq<u8>) -> Seq<u8> {
    be_bytes(VPN_MAGIC1 as nat, 4) + be_bytes(ip as nat, 4) + be_bytes(port as nat, 2) + be_bytes(
        data.len() % 0x1_0000,
        2,
    ) + data
}

/// What reading `raw` as a version 1 packet gives: the destination's
/// address and port and the payload, or the first check it fails.
pub open spec fn parse_packet1(raw: Seq<u8>) -> Result<(u32, u16, Seq<u8>), VpnPacketError> {
    if raw.len() < VPN_HEADER_LEN {
        Err(VpnPacketError::TooSmall)
    } else if be_value(raw.subrange(0, 4)) != VPN_MAGIC1 {
        Err(VpnPacketError::BadMagic)
    } else if be_value(raw.subrange(10, 12)) != raw.len() - VPN_HEADER_LEN {
        Err(VpnPacketError::SizeMismatch)
    } else {
        Ok(
            (
                be_value(raw.subrange(4, 8)) as u32,
                be_value(raw.subrange(8, 10)) as u16,
                raw.subrange(12, raw.len() as int),
            ),
        )
    }
}

impl VpnPacketUdp {
    /// Encodes version 1 of the wire protocol, which carries the sender's
    /// address: an IPv4 one, as the protocol has no room for IPv6.
    pub fn encode1(&self) -> (r: Vec<u8>)
        requires
            self.from.ip is V4,
        ensures
            r@ == packet1_bytes(self.from.ip->V4_0.bits, self.from.port, self.data@),
    {
        let ip: u32 = match self.from.ip {
            IpAddress::V4(v4) => v4.bits,
            IpAddress::V6(_) => vstd::pervasive::unreached(),
        };
        let len: usize = self.data.len();
        let mut buffer: Vec<u8> = Vec::new();
        put_be(&mut buffer, VPN_MAGIC1 as u128, 4);
        put_be(&mut buffer, ip as u128, 4);
        put_be(&mut buffer, self.from.port as u128, 2);
        put_be(&mut buffer, (len % 0x1_0000) as u128, 2);
        let ghost header = buffer@;
        let mut i: usize = 0;
        while i < len
            invariant
                i <= len == self.data@.len(),
                buffer@ == header + self.data@.take(i as int),
            decreases len - i,
        {
            buffer.push(self.data[i]);
            i = i + 1;
            assert(buffer@ =~= header + self.data@.take(i as int));
        }
        assert(self.data@.take(len as int) =~= self.data@);
        buffer
    }

    /// Decodes version 1 of the wire protocol. The packet names where it is
    /// going; where it came from is the lease's to fill in, so it reads as
    /// `0.0.0.0:0`.
    pub fn decode1(raw: &[u8]) -> (r: Result<Self, VpnPacketError>)
        ensures
            match r {
                Ok(p) => {
                    &&& p.from == SocketAddress { ip: IpAddress::V4(Ipv4Address { bits: 0 }), port: 0 }
                    &&& p.to.ip is V4
                    &&& parse_packet1(raw@) == Ok::<(u32, u16, Seq<u8>), VpnPacketError>(
                        (p.to.ip->V4_0.bits, p.to.port, p.data@),
                    )
                },
                Err(e) => parse_packet1(raw@) == Err::<(u32, u16, Seq<u8>), VpnPacketError>(e),
            },
    {
        let len: usize = raw.len();
        if len < VPN_HEADER_LEN {
            return Err(VpnPacketError::TooSmall);
        }
        if get_be(raw, 0, 4) != VPN_MAGIC1 as u128 {
            return Err(VpnPacketError::BadMagic);
        }
        let ip: u128 = get_be(raw, 4, 4);
        let port: u128 = get_be(raw, 8, 2);
        let size: u128 = get_be(raw, 10, 2);
        if size != (len - VPN_HEADER_LEN) as u128 {
            return Err(VpnPacketError::SizeMismatch);
        }
        proof {
            lemma_be_value_bound(raw@.subrange(4, 8));
            lemma_be_value_bound(raw@.subrange(8, 10));
            lemma_pow256_values();
        }
        let data = copy_range(raw, VPN_HEADER_LEN, len);
        Ok(
            VpnPacketUdp {
                from: SocketAddress { ip: IpAddress::V4(Ipv4Address { bits: 0 }), port: 0 },
                to: SocketAddress { ip: IpAddress::V4(Ipv4Address { bits: ip as u32 }), port: port as u16 },
                data,
            },
        )
    }
}

/// A packet read back from its bytes names, as its destination, the
/// sender that was written, and carries the same payload, when the payload
/// fits the length field.
pub proof fn lemma_packet1_roundtrip(ip: u32, port: u16, data: Seq<u8>)
    requires
        data.len() < 0x1_0000,
    ensures
        parse_packet1(packet1_bytes(ip, port, data)) == Ok::<(u32, u16, Seq<u8>), VpnPacketError>(
            (ip, port, data),
        ),
{
    let raw = packet1_bytes(ip, port, data);
    lemma_be_bytes_len(VPN_MAGIC1 as nat, 4);
    lemma_be_bytes_len(ip as nat, 4);
    lemma_be_bytes_len(port as nat, 2);
    lemma_be_bytes_len(data.len() % 0x1_0000, 2);
    lemma_pow256_values();
    lemma_be_value_of_bytes(VPN_MAGIC1 as nat, 4);
    lemma_be_value_of_bytes(ip as nat, 4);
    lemma_be_value_of_bytes(port as nat, 2);
    lemma_be_value_of_bytes(data.len() % 0x1_0000, 2);
    assert(raw.subrange(0, 4) =~= be_bytes(VPN_MAGIC1 as nat, 4));
    assert(raw.subrange(4, 8) =~= be_bytes(ip as nat, 4));
    assert(raw.subrange(8, 10) =~= be_bytes(port as nat, 2));
    assert(raw.subrange(10, 12) =~= be_bytes(data.len() % 0x1_0000, 2));
    assert(raw.subrange(12, raw.len() as int) =~= data);
}

/// Bytes that read as a packet are exactly that packet's bytes.
pub proof fn lemma_packet1_bytes_exact(raw: Seq<u8>)
    requires
        parse_packet1(raw) is Ok,
    ensures
        ({
            let (ip, port, data) = parse_packet1(raw)->Ok_0;
            packet1_bytes(ip, port, data) == raw
        }),
{
    let (ip, port, data) = parse_packet1(raw)->Ok_0;
    lemma_be_value_bound(raw.subrange(4, 8));
    lemma_be_value_bound(raw.subrange(8, 10));
    lemma_be_value_bound(raw.subrange(10, 12));
    lemma_pow256_values();
    lemma_be_bytes_of_value(raw.subrange(0, 4));
    lemma_be_bytes_of_value(raw.subrange(4, 8));
    lemma_be_bytes_of_value(raw.subrange(8, 10));
    lemma_be_bytes_of_value(raw.subrange(10, 12));
    assert(data.len() % 0x1_0000 == data.len());
    assert(packet1_bytes(ip, port, data) =~= raw);
}

} // verus!
