//! Frames: datagrams on a bound link, tagged with the address of the other
//! end.

use vstd::prelude::*;

use crate::addr::{IpAddress, Ipv4Address, Ipv6Address, SocketAddress, mapped_prefix};
use crate::codec::{be_bytes, be_value, get_be, put_be, lemma_be_bytes_len, lemma_be_value_bound,
    lemma_be_value_of_bytes, lemma_be_bytes_of_value, lemma_pow256_values};
use crate::text::copy_range;

verus! {

/// The four bytes every frame starts with.
pub const FRAME_MAGIC: u32 = 0x778B4CF6;

/// Length of a frame's header: magic (4), address (16), port (2), payload
/// length (2).
pub const FRAME_HEADER_LEN: usize = 24;

/// Largest payload a frame can carry: its length must fit the 2-byte field.
pub const MAX_FRAME_PAYLOAD: usize = 0xFFFF;

/// Why bytes are not a frame, or a frame cannot be written.
#[derive(Clone, Copy, Debug, PartialEq, Eq, Structural)]
pub enum FrameError {
    /// The payload is longer than the length field can say.
    TooLarge,
    /// Fewer bytes than a header.
    TooSmall,
    /// The first four bytes are not the magic number.
    BadMagic,
    /// The length field does not match the bytes that follow the header.
    SizeMismatch,
}

/// The bytes of a frame for `data` to or from `[ip]:port`:
///
///   magic (4) | address (16) | port (2) | payload length (2) | payload
///
/// every number big-endian.
pub open spec fn frame_bytes(ip: u128, port: u16, data: Seq<u8>) -> Seq<u8> {
    be_bytes(FRAME_MAGIC as nat, 4) + be_bytes(ip as nat, 16) + be_bytes(port as nat, 2) + be_bytes(
        data.len(),
        2,
    ) + data
}

/// What reading `raw` as a frame gives: its address, port and payload, or
/// the first check it fails (size, then magic, then length).
pub open spec fn parse_frame(raw: Seq<u8>) -> Result<(u128, u16, Seq<u8>), FrameError> {
    if raw.len() < FRAME_HEADER_LEN {
        Err(FrameError::TooSmall)
    } else if be_value(raw.subrange(0, 4)) != FRAME_MAGIC {
        Err(FrameError::BadMagic)
    } else if be_value(raw.subrange(22, 24)) != raw.len() - FRAME_HEADER_LEN {
        Err(FrameError::SizeMismatch)
    } else {
        Ok(
            (
                be_value(raw.subrange(4, 20)) as u128,
                be_value(raw.subrange(20, 22)) as u16,
                raw.subrange(24, raw.len() as int),
            ),
        )
    }
}

/// One datagram on a bound link, carrying the address of the other end.
///
/// Sent by a client, the address is where the datagram is going. Sent to a
/// client, it is where the datagram came from. The address field is always
/// 16 bytes. A peer out on the IPv4 internet is carried as an IPv4-mapped
/// address, ::ffff:1.2.3.4, and both ends unmap it before handing it to
/// anything else.
pub struct Frame {
    pub peer_ip: Ipv6Address,
    pub peer_port: u16,
    pub data: Vec<u8>,
}

/// The address a frame for `peer` carries: IPv4 mapped into IPv6.
pub open spec fn carried_ip(peer: SocketAddress) -> u128 {
    match peer.ip {
        IpAddress::V4(v4) => (mapped_prefix() + v4.bits) as u128,
        IpAddress::V6(v6) => v6.bits,
    }
}

/// The peer that a frame's address and port stand for: an IPv4-mapped
/// address is unmapped.
pub open spec fn peer_of(ip: Ipv6Address, port: u16) -> SocketAddress {
    if ip.is_ipv4_mapped() {
        SocketAddress {
            ip: IpAddress::V4(Ipv4Address { bits: (ip.bits % 0x1_0000_0000) as u32 }),
            port,
        }
    } else {
        SocketAddress { ip: IpAddress::V6(ip), port }
    }
}

impl Frame {
    pub fn new(peer_ip: Ipv6Address, peer_port: u16, data: Vec<u8>) -> (f: Self)
        ensures
            f.peer_ip == peer_ip,
            f.peer_port == peer_port,
            f.data@ == data@,
    {
        Frame { peer_ip, peer_port, data }
    }

    /// A frame for a datagram to or from `peer`, mapping IPv4 into the
    /// address field.
    pub fn to_peer(peer: SocketAddress, data: Vec<u8>) -> (f: Self)
        ensures
            f.peer_ip.bits == carried_ip(peer),
            f.peer_port == peer.port,
            f.data@ == data@,
    {
        let peer_ip = match peer.ip {
            IpAddress::V4(v4) => v4.to_ipv6_mapped(),
            IpAddress::V6(v6) => v6,
        };
        Self::new(peer_ip, peer.port, data)
    }

    /// Where this frame is going, or where it came from, unmapping an
    /// IPv4-mapped address back to the IPv4 address it stands for.
    pub fn peer(&self) -> (p: SocketAddress)
        ensures
            p == peer_of(self.peer_ip, self.peer_port),
    {
        match self.peer_ip.to_ipv4_mapped() {
            Some(v4) => SocketAddress::new(IpAddress::V4(v4), self.peer_port),
            None => SocketAddress::new(IpAddress::V6(self.peer_ip), self.peer_port),
        }
    }

    /// The frame's bytes. Fails only when the payload is too long for the
    /// length field.
    pub fn encode(&self) -> (r: Result<Vec<u8>, FrameError>)
        ensures
            self.data@.len() > MAX_FRAME_PAYLOAD ==> r == Err::<Vec<u8>, FrameError>(
                FrameError::TooLarge,
            ),
            self.data@.len() <= MAX_FRAME_PAYLOAD ==> (r matches Ok(bytes) && bytes@ == frame_bytes(
                self.peer_ip.bits,
                self.peer_port,
                self.data@,
            )),
    {
        let len: usize = self.data.len();
        if len > MAX_FRAME_PAYLOAD {
            return Err(FrameError::TooLarge);
        }
        let mut buffer: Vec<u8> = Vec::new();
        put_be(&mut buffer, FRAME_MAGIC as u128, 4);
        put_be(&mut buffer, self.peer_ip.bits, 16);
        put_be(&mut buffer, self.peer_port as u128, 2);
        put_be(&mut buffer, len as u128, 2);
        let ghost header = buffer@;
        let mut i: usize = 0;
        while i < len
            invariant
                i <= len == self.data@.len(),
                buffer@ == header + self.data@.take(i as int),
            decreases len - i,
        {
            buffer.push(self.data[i]);
            i = i + 1;
            assert(buffer@ =~= header + self.data@.take(i as int));
        }
        assert(self.data@.take(len as int) =~= self.data@);
        Ok(buffer)
    }

    /// Reads a frame from `raw`.
    pub fn decode(raw: &[u8]) -> (r: Result<Frame, FrameError>)
        ensures
            match r {
                Ok(f) => parse_frame(raw@) == Ok::<(u128, u16, Seq<u8>), FrameError>(
                    (f.peer_ip.bits, f.peer_port, f.data@),
                ),
                Err(e) => parse_frame(raw@) == Err::<(u128, u16, Seq<u8>), FrameError>(e),
            },
    {
        let len: usize = raw.len();
        if len < FRAME_HEADER_LEN {
            return Err(FrameError::TooSmall);
        }
        if get_be(raw, 0, 4) != FRAME_MAGIC as u128 {
            return Err(FrameError::BadMagic);
        }
        let ip: u128 = get_be(raw, 4, 16);
        let port: u128 = get_be(raw, 20, 2);
        let size: u128 = get_be(raw, 22, 2);
        if size != (len - FRAME_HEADER_LEN) as u128 {
            return Err(FrameError::SizeMismatch);
        }
        proof {
            lemma_be_value_bound(raw@.subrange(20, 22));
            lemma_pow256_values();
        }
        let data = copy_range(raw, FRAME_HEADER_LEN, len);
        Ok(Frame { peer_ip: Ipv6Address { bits: ip }, peer_port: port as u16, data })
    }
}

/// A frame read back from its bytes is the frame that was written.
pub proof fn lemma_frame_roundtrip(ip: u128, port: u16, data: Seq<u8>)
    requires
        data.len() <= MAX_FRAME_PAYLOAD,
    ensures
        parse_frame(frame_bytes(ip, port, data)) == Ok::<(u128, u16, Seq<u8>), FrameError>(
            (ip, port, data),
        ),
{
    let raw = frame_bytes(ip, port, data);
    let m = be_bytes(FRAME_MAGIC as nat, 4);
    let a = be_bytes(ip as nat, 16);
    let p = be_bytes(port as nat, 2);
    let n = be_bytes(data.len(), 2);
    lemma_be_bytes_len(FRAME_MAGIC as nat, 4);
    lemma_be_bytes_len(ip as nat, 16);
    lemma_be_bytes_len(port as nat, 2);
    lemma_be_bytes_len(data.len(), 2);
    lemma_pow256_values();
    lemma_be_value_of_bytes(FRAME_MAGIC as nat, 4);
    lemma_be_value_of_bytes(ip as nat, 16);
    lemma_be_value_of_bytes(port as nat, 2);
    lemma_be_value_of_bytes(data.len(), 2);
    assert(raw.subrange(0, 4) =~= m);
    assert(raw.subrange(4, 20) =~= a);
    assert(raw.subrange(20, 22) =~= p);
    assert(raw.subrange(22, 24) =~= n);
    assert(raw.subrange(24, raw.len() as int) =~= data);
}

/// Bytes that read as a frame are exactly that frame's bytes: nothing is
/// dropped or changed on the way through.
pub proof fn lemma_frame_bytes_exact(raw: Seq<u8>)
    requires
        parse_frame(raw) is Ok,
    ensures
        ({
            let (ip, port, data) = parse_frame(raw)->Ok_0;
            frame_bytes(ip, port, data) == raw
        }),
{
    let (ip, port, data) = parse_frame(raw)->Ok_0;
    lemma_be_value_bound(raw.subrange(4, 20));
    lemma_be_value_bound(raw.subrange(20, 22));
    lemma_pow256_values();
    lemma_be_bytes_of_value(raw.subrange(0, 4));
    lemma_be_bytes_of_value(raw.subrange(4, 20));
    lemma_be_bytes_of_value(raw.subrange(20, 22));
    lemma_be_bytes_of_value(raw.subrange(22, 24));
    assert(frame_bytes(ip, port, data) =~= raw);
}

} // verus!
