use luanti_proxy::addr::{IpAddress, Ipv4Address, SocketAddress};
use luanti_proxy::vpn::packet::{VpnPacket, VpnPacketError, VpnPacketUdp};
use luanti_proxy::vpn::router::{lease_packet, new_vpn_config, VPNRouter, VpnRoutes, VpnStep};
use luanti_proxy::vpn::vpn::{HexError, VpnCode};

fn sa(a: u8, b: u8, c: u8, d: u8, port: u16) -> SocketAddress {
    SocketAddress::new(IpAddress::V4(Ipv4Address::new(a, b, c, d)), port)
}

#[test]
fn packet_encode_exact() {
    let p = VpnPacketUdp { from: sa(172, 16, 0, 1, 30000), to: sa(0, 0, 0, 0, 0), data: vec![1, 2] };
    assert_eq!(
        p.encode1(),
        vec![0x77, 0x8B, 0x4C, 0xF3, 172, 16, 0, 1, 0x75, 0x30, 0, 2, 1, 2]
    );
}

#[test]
fn packet_roundtrip_swaps_to_destination() {
    let p = VpnPacketUdp { from: sa(172, 20, 3, 4, 1234), to: sa(1, 1, 1, 1, 1), data: b"abc".to_vec() };
    let back = VpnPacketUdp::decode1(&p.encode1()).unwrap();
    assert_eq!(back.to, sa(172, 20, 3, 4, 1234));
    assert_eq!(back.from, sa(0, 0, 0, 0, 0));
    assert_eq!(back.data, b"abc".to_vec());
}

#[test]
fn packet_decode_errors() {
    assert_eq!(VpnPacketUdp::decode1(&[0; 11]).err(), Some(VpnPacketError::TooSmall));
    assert_eq!(VpnPacketUdp::decode1(&[0; 12]).err(), Some(VpnPacketError::BadMagic));
    let mut bytes = VpnPacketUdp { from: sa(1, 2, 3, 4, 5), to: sa(1, 2, 3, 4, 5), data: vec![] }.encode1();
    bytes.push(0);
    assert_eq!(VpnPacketUdp::decode1(&bytes).err(), Some(VpnPacketError::SizeMismatch));
}

#[test]
fn packet_length_field_wraps() {
    let p = VpnPacketUdp { from: sa(1, 2, 3, 4, 5), to: sa(1, 2, 3, 4, 5), data: vec![0; 65537] };
    let bytes = p.encode1();
    assert_eq!(&bytes[10..12], &[0, 1]);
    assert_eq!(VpnPacketUdp::decode1(&bytes).err(), Some(VpnPacketError::SizeMismatch));
}

#[test]
fn codes_in_hex() {
    let code = VpnCode::from("0a1B2c3D4e5F").unwrap();
    assert_eq!(code.bytes(), vec![0x0a, 0x1b, 0x2c, 0x3d, 0x4e, 0x5f]);
    assert_eq!(code.to_hex(), "0a1b2c3d4e5f");
    assert_eq!(VpnCode::from(&code.to_hex()).unwrap(), code);
    assert_eq!(code.key(), 0x0a1b2c3d4e5f);
    assert_eq!(VpnCode::from("abc").err(), Some(HexError::OddLength));
    assert_eq!(VpnCode::from("abcd").err(), Some(HexError::InvalidStringLength));
    assert_eq!(
        VpnCode::from("0a1b2c3d4e5g").err(),
        Some(HexError::InvalidHexCharacter { c: 'g', index: 11 })
    );
    let fresh = VpnCode::new();
    assert_eq!(VpnCode::from(&fresh.to_hex()).unwrap(), fresh);
}

#[test]
fn addresses_inside_a_vpn() {
    let config = new_vpn_config("minetest_game");
    assert_eq!(config.game, "minetest_game");
    assert_eq!(config.assign_ip(&config.server_code), IpAddress::V4(Ipv4Address::new(172, 16, 0, 1)));
    if config.client_code != config.server_code {
        for _ in 0..50 {
            match config.assign_ip(&config.client_code) {
                IpAddress::V4(v4) => {
                    let [a, b, c, d] = v4.bits.to_be_bytes();
                    assert_eq!(a, 172);
                    assert!((16..=32).contains(&b));
                    assert!((1..=254).contains(&c) && (1..=254).contains(&d));
                }
                IpAddress::V6(_) => panic!("expected IPv4"),
            }
        }
    }
}

#[test]
fn router_finds_vpns_by_either_code() {
    let config = new_vpn_config("g");
    let mut router: VPNRouter<&str> = VPNRouter::new();
    assert!(router.get(&config.server_code).is_none());
    router.add_vpn(&config, "server", "client");
    assert_eq!(router.get(&config.client_code), Some(&"client"));
    if config.client_code != config.server_code {
        assert_eq!(router.get(&config.server_code), Some(&"server"));
    }
}

#[test]
fn routes_deliver_to_holders() {
    let mut routes: VpnRoutes<u8> = VpnRoutes::new();
    routes.add_route(sa(172, 16, 0, 1, 30000), 1);
    routes.add_route(sa(172, 17, 0, 1, 30000), 2);
    routes.add_route(sa(172, 16, 0, 1, 30000), 3);
    assert_eq!(routes.get(&sa(172, 16, 0, 1, 30000)), Some(&3));
    let raw = VpnPacketUdp { from: sa(0, 0, 0, 0, 0), to: sa(0, 0, 0, 0, 0), data: vec![7] };
    let mut packet_bytes = raw.encode1();
    packet_bytes[4..8].copy_from_slice(&[172, 17, 0, 1]);
    packet_bytes[8..10].copy_from_slice(&30000u16.to_be_bytes());
    let packet = lease_packet(sa(172, 16, 0, 1, 30000), &packet_bytes).unwrap();
    match routes.step(packet) {
        VpnStep::Deliver { to, bytes } => {
            assert_eq!(to, sa(172, 17, 0, 1, 30000));
            let back = VpnPacketUdp::decode1(&bytes).unwrap();
            assert_eq!(back.to, sa(172, 16, 0, 1, 30000));
            assert_eq!(back.data, vec![7]);
        }
        _ => panic!("expected delivery"),
    }
    assert!(matches!(routes.step(VpnPacket::VpnDisconnect(sa(172, 17, 0, 1, 30000))), VpnStep::Done));
    assert!(routes.get(&sa(172, 17, 0, 1, 30000)).is_none());
    let packet = lease_packet(sa(172, 16, 0, 1, 30000), &packet_bytes).unwrap();
    assert!(matches!(routes.step(packet), VpnStep::Done));
    assert!(matches!(routes.step(VpnPacket::VpnStop), VpnStep::Stop));
    assert_eq!(lease_packet(sa(1, 1, 1, 1, 1), &[0; 3]).err(), Some(VpnPacketError::TooSmall));
}

#[test]
fn failed_delivery_drops_the_route() {
    let mut routes: VpnRoutes<u8> = VpnRoutes::new();
    let a = sa(172, 20, 1, 1, 30000);
    let b = SocketAddress::new(IpAddress::V6(luanti_proxy::addr::Ipv6Address { bits: 5 }), 30000);
    routes.add_route(a, 1);
    routes.add_route(b, 2);
    routes.delivered(&a, true);
    assert_eq!(routes.get(&a), Some(&1));
    routes.delivered(&a, false);
    assert_eq!(routes.get(&a), None);
    assert_eq!(routes.get(&b), Some(&2));
    routes.add_route(b, 3);
    assert_eq!(routes.get(&b), Some(&3));
    routes.remove(&b);
    assert_eq!(routes.get(&b), None);
}
