use luanti_proxy::addr::{IpAddress, Ipv4Address, Ipv6Address, SocketAddress};
use luanti_proxy::net::packet::{Frame, FrameError, FRAME_HEADER_LEN};

fn v6(bits: u128) -> Ipv6Address {
    Ipv6Address { bits }
}

#[test]
fn frame_encode_exact_bytes() {
    let frame = Frame::new(v6(0xfd00_0000_0000_0000_0000_0000_0000_0102), 0x1234, vec![9, 8, 7]);
    let bytes = frame.encode().unwrap();
    let mut expected = vec![0x77, 0x8B, 0x4C, 0xF6, 0xfd, 0x00];
    expected.extend_from_slice(&[0; 12]);
    expected.extend_from_slice(&[0x01, 0x02, 0x12, 0x34, 0x00, 0x03, 9, 8, 7]);
    assert_eq!(bytes, expected);
    assert_eq!(bytes.len(), FRAME_HEADER_LEN + 3);
}

#[test]
fn frame_roundtrip() {
    let frame = Frame::new(v6(0x2001_0db8_0000_0000_0000_0000_0000_0001), 30000, b"hello".to_vec());
    let bytes = frame.encode().unwrap();
    let back = Frame::decode(&bytes).unwrap();
    assert_eq!(back.peer_ip, frame.peer_ip);
    assert_eq!(back.peer_port, 30000);
    assert_eq!(back.data, b"hello".to_vec());
    assert_eq!(back.encode().unwrap(), bytes);
}

#[test]
fn frame_empty_payload() {
    let frame = Frame::new(v6(1), 1, Vec::new());
    let bytes = frame.encode().unwrap();
    assert_eq!(bytes.len(), FRAME_HEADER_LEN);
    let back = Frame::decode(&bytes).unwrap();
    assert!(back.data.is_empty());
}

#[test]
fn frame_too_large() {
    let frame = Frame::new(v6(1), 1, vec![0; 65536]);
    assert_eq!(frame.encode().err(), Some(FrameError::TooLarge));
    let frame = Frame::new(v6(1), 1, vec![0; 65535]);
    assert_eq!(frame.encode().unwrap().len(), FRAME_HEADER_LEN + 65535);
}

#[test]
fn frame_decode_errors() {
    assert_eq!(Frame::decode(&[0; 23]).err(), Some(FrameError::TooSmall));
    assert_eq!(Frame::decode(&[0; 24]).err(), Some(FrameError::BadMagic));
    let mut bytes = Frame::new(v6(1), 1, vec![1, 2]).encode().unwrap();
    bytes.push(3);
    assert_eq!(Frame::decode(&bytes).err(), Some(FrameError::SizeMismatch));
    bytes.truncate(FRAME_HEADER_LEN + 1);
    assert_eq!(Frame::decode(&bytes).err(), Some(FrameError::SizeMismatch));
}

#[test]
fn frame_maps_ipv4_peers() {
    let peer = SocketAddress::new(IpAddress::V4(Ipv4Address::new(1, 2, 3, 4)), 5000);
    let frame = Frame::to_peer(peer, vec![1]);
    assert_eq!(frame.peer_ip.bits, 0xffff_0102_0304);
    assert_eq!(frame.peer(), peer);
    let bytes = frame.encode().unwrap();
    assert_eq!(&bytes[4..20], &[0, 0, 0, 0, 0, 0, 0, 0, 0, 0, 0xff, 0xff, 1, 2, 3, 4]);
}

#[test]
fn frame_keeps_ipv6_peers() {
    let peer = SocketAddress::new(IpAddress::V6(v6(0xfd00_0000_0000_0000_0000_0000_0000_0001)), 53);
    let frame = Frame::to_peer(peer, vec![]);
    assert_eq!(frame.peer(), peer);
    let other = Frame::new(v6(0x0000_0000_0000_0000_0000_fffe_0102_0304), 7, vec![]);
    assert_eq!(other.peer().ip, IpAddress::V6(v6(0x0000_0000_0000_0000_0000_fffe_0102_0304)));
}
