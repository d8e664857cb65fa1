use luanti_proxy::addr::{IpAddress, Ipv4Address, Ipv6Address, SocketAddress};
use luanti_proxy::net::code::{is_network_address, proxy_address, random_address, Passcode};
use luanti_proxy::net::network::{outgoing, BindError, Network, Outgoing, ASSIGNMENT_TTL_NANOS};
use luanti_proxy::net::packet::{Frame, FrameError};

const ADDR: u128 = 0xfd00_0000_0000_0000_1234_5678_9abc_def0;

fn passcode(text: &str) -> Passcode {
    Passcode::parse(text).unwrap()
}

#[test]
fn assign_then_bind() {
    let mut net: Network<u32> = Network::new();
    let a = Ipv6Address { bits: ADDR };
    assert!(net.try_assign(a, passcode("AAAAAAAAAAAAAAAA"), 10));
    assert!(net.has_address(&a));
    assert!(net.has_passcode(&passcode("AAAAAAAAAAAAAAAA")));
    // The same address or passcode cannot be handed out twice.
    assert!(!net.try_assign(a, passcode("BBBBBBBBBBBBBBBB"), 10));
    assert!(!net.try_assign(Ipv6Address { bits: ADDR + 1 }, passcode("AAAAAAAAAAAAAAAA"), 10));
    let key = net.bind(&passcode("AAAAAAAAAAAAAAAA"), 30000, 7, 20).unwrap();
    assert_eq!(key, (a, 30000));
    assert_eq!(net.relay_for(&key), Some(&7));
}

#[test]
fn bind_errors() {
    let mut net: Network<u32> = Network::new();
    let a = Ipv6Address { bits: ADDR };
    assert!(net.try_assign(a, passcode("AAAAAAAAAAAAAAAA"), 0));
    assert_eq!(net.bind(&passcode("AAAAAAAAAAAAAAAA"), 0, 1, 0), Err(BindError::PortZero));
    assert_eq!(net.bind(&passcode("BBBBBBBBBBBBBBBB"), 5, 1, 0), Err(BindError::UnknownPasscode));
    assert!(net.bind(&passcode("AAAAAAAAAAAAAAAA"), 5, 1, 0).is_ok());
    assert_eq!(net.bind(&passcode("AAAAAAAAAAAAAAAA"), 5, 2, 0), Err(BindError::AlreadyBound));
    assert_eq!(net.relay_for(&(a, 5)), Some(&1));
}

#[test]
fn unbind_releases_port() {
    let mut net: Network<u32> = Network::new();
    let a = Ipv6Address { bits: ADDR };
    assert!(net.try_assign(a, passcode("AAAAAAAAAAAAAAAA"), 0));
    let key = net.bind(&passcode("AAAAAAAAAAAAAAAA"), 5, 1, 0).unwrap();
    assert!(net.unbind(&key, 1));
    assert!(!net.unbind(&key, 2));
    assert_eq!(net.relay_for(&key), None);
    // The port can be bound again.
    assert!(net.bind(&passcode("AAAAAAAAAAAAAAAA"), 5, 3, 3).is_ok());
}

#[test]
fn expire_forgets_idle_assignments() {
    let mut net: Network<u32> = Network::new();
    let a = Ipv6Address { bits: ADDR };
    let b = Ipv6Address { bits: ADDR + 1 };
    assert!(net.try_assign(a, passcode("AAAAAAAAAAAAAAAA"), 0));
    assert!(net.try_assign(b, passcode("BBBBBBBBBBBBBBBB"), 0));
    net.bind(&passcode("BBBBBBBBBBBBBBBB"), 9, 1, 0).unwrap();
    net.expire(ASSIGNMENT_TTL_NANOS - 1);
    assert!(net.has_address(&a));
    net.expire(ASSIGNMENT_TTL_NANOS);
    assert!(!net.has_address(&a));
    assert!(!net.has_passcode(&passcode("AAAAAAAAAAAAAAAA")));
    // An address with a bound port is kept however long it has been.
    assert!(net.has_address(&b));
    assert_eq!(net.bind(&passcode("AAAAAAAAAAAAAAAA"), 9, 1, 0), Err(BindError::UnknownPasscode));
    // Time before the last touch counts as none.
    let mut net: Network<u32> = Network::new();
    assert!(net.try_assign(a, passcode("AAAAAAAAAAAAAAAA"), 100));
    net.expire(5);
    assert!(net.has_address(&a));
}

#[test]
fn assign_hands_out_network_addresses() {
    let mut net: Network<u32> = Network::new();
    let (address, code) = loop {
        if let Some(found) = net.assign(0) {
            break found;
        }
    };
    assert!(is_network_address(&address));
    assert!(address.bits & 0xffff_ffff_ffff_ffff >= 256);
    assert!(net.has_address(&address));
    assert!(net.bind(&code, 1, 0, 0).is_ok());
}

#[test]
fn random_addresses_are_private() {
    for _ in 0..100 {
        let a = random_address();
        assert!(is_network_address(&a));
        assert_eq!(a.bits >> 64, 0xfd00_0000_0000_0000);
        assert!((a.bits as u64) >= 256);
        assert_ne!(a, proxy_address());
    }
    assert!(is_network_address(&proxy_address()));
    assert!(!is_network_address(&Ipv6Address { bits: 1 }));
}

#[test]
fn deliver_frames_datagrams() {
    let mut net: Network<u32> = Network::new();
    let a = Ipv6Address { bits: ADDR };
    assert!(net.try_assign(a, passcode("AAAAAAAAAAAAAAAA"), 0));
    let to = net.bind(&passcode("AAAAAAAAAAAAAAAA"), 30000, 42, 0).unwrap();
    let from = (Ipv6Address { bits: ADDR + 5 }, 4000);
    let (relay, bytes) = net.deliver(&from, &to, vec![1, 2, 3]).unwrap().unwrap();
    assert_eq!(*relay, 42);
    let frame = Frame::decode(&bytes).unwrap();
    assert_eq!(frame.peer_ip, from.0);
    assert_eq!(frame.peer_port, 4000);
    assert_eq!(frame.data, vec![1, 2, 3]);
    assert!(net.deliver(&from, &(a, 1), vec![1]).unwrap().is_none());
    assert_eq!(net.deliver(&from, &to, vec![0; 70000]).err(), Some(FrameError::TooLarge));
}

#[test]
fn outgoing_datagrams() {
    let local = Frame::new(Ipv6Address { bits: ADDR }, 30000, vec![5]).encode().unwrap();
    match outgoing(&local).unwrap() {
        Outgoing::Local { to, data } => {
            assert_eq!(to, (Ipv6Address { bits: ADDR }, 30000));
            assert_eq!(data, vec![5]);
        }
        _ => panic!("expected a local datagram"),
    }
    let v4 = SocketAddress::new(IpAddress::V4(Ipv4Address::new(8, 8, 8, 8)), 53);
    let remote = Frame::to_peer(v4, vec![6]).encode().unwrap();
    match outgoing(&remote).unwrap() {
        Outgoing::Internet { peer, data } => {
            assert_eq!(peer, v4);
            assert_eq!(data, vec![6]);
        }
        _ => panic!("expected an internet datagram"),
    }
    assert_eq!(outgoing(&[1, 2, 3]).err(), Some(FrameError::TooSmall));
}

#[test]
fn assign_on_an_empty_network_succeeds() {
    for _ in 0..20 {
        let mut net: Network<u32> = Network::new();
        let (address, code) = net.assign(5).expect("no assignment can collide");
        assert!(is_network_address(&address));
        assert!((address.bits as u64) >= 256);
        assert_ne!(address, proxy_address());
        assert!(net.has_passcode(&code));
        assert_eq!(net.bind(&code, 7, 1, 6), Ok((address, 7)));
    }
}
