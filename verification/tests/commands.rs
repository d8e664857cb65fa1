use luanti_proxy::addr::{IpAddress, Ipv4Address, Ipv6Address};
use luanti_proxy::commands::{addr_reply, bind_answer, parse_command, proxy_takes_relay, proxy_target, reply_text, Command,
    CommandError, Reply};
use luanti_proxy::net::code::Passcode;
use luanti_proxy::net::code::PasscodeError;
use luanti_proxy::service::OwnService;

const PROXY_V6: u128 = 0xfd00_0000_0000_0000_0000_0000_0000_0001;

#[test]
fn ping_echoes_payload() {
    match parse_command(b"PING hello there", false) {
        Ok(Command::Ping { payload }) => {
            assert_eq!(payload, b" hello there".to_vec());
            assert_eq!(reply_text(Reply::Pong { payload }), "PONG hello there");
        }
        _ => panic!("expected PING"),
    }
    match parse_command(b"PING", true) {
        Ok(Command::Ping { payload }) => assert!(payload.is_empty()),
        _ => panic!("expected PING"),
    }
    // The prefix is matched before words are split.
    match parse_command(b"PINGPONG", false) {
        Ok(Command::Ping { payload }) => assert_eq!(payload, b"PONG".to_vec()),
        _ => panic!("expected PING"),
    }
}

#[test]
fn command_text_errors() {
    assert_eq!(parse_command(&[0x80], true).err(), Some(CommandError::NonAscii));
    assert_eq!(parse_command(&[b'A'; 256], true).err(), Some(CommandError::TooLong));
    assert_eq!(parse_command(b"   \t ", true).err(), Some(CommandError::Empty));
    assert_eq!(parse_command(b"", true).err(), Some(CommandError::Empty));
    assert_eq!(parse_command(b"HELLO", true).err(), Some(CommandError::Unrecognized));
    assert_eq!(parse_command(b"ping", true).err(), Some(CommandError::Unrecognized));
}

#[test]
fn newaddr_command() {
    assert!(matches!(parse_command(b"NEWADDR", false), Ok(Command::NewAddr)));
    assert!(matches!(parse_command(b"  NEWADDR \x0b", false), Ok(Command::NewAddr)));
    assert_eq!(parse_command(b"NEWADDR now", false).err(), Some(CommandError::BadNewAddrArgs));
}

#[test]
fn bind_command() {
    match parse_command(b"BIND ABCDEFGHabcdefgh UDP 30000", true) {
        Ok(Command::Bind { passcode, port }) => {
            assert_eq!(passcode.as_str(), "ABCDEFGHabcdefgh");
            assert_eq!(port, 30000);
        }
        _ => panic!("expected BIND"),
    }
    assert_eq!(
        parse_command(b"BIND ABCDEFGHabcdefgh UDP 30000", false).err(),
        Some(CommandError::BindRelayMissing)
    );
    assert_eq!(parse_command(b"BIND x", false).err(), Some(CommandError::BindRelayMissing));
    assert_eq!(parse_command(b"BIND ABCDEFGHabcdefgh UDP", true).err(), Some(CommandError::BadBindArgs));
    assert_eq!(
        parse_command(b"BIND short UDP 1", true).err(),
        Some(CommandError::BadPasscode(PasscodeError::WrongLength))
    );
    assert_eq!(
        parse_command(b"BIND ABCDEFGH-bcdefgh UDP 1", true).err(),
        Some(CommandError::BadPasscode(PasscodeError::InvalidCharacters))
    );
    assert_eq!(parse_command(b"BIND ABCDEFGHabcdefgh TCP 1", true).err(), Some(CommandError::OnlyUdp));
    assert_eq!(parse_command(b"BIND ABCDEFGHabcdefgh UDP 65536", true).err(), Some(CommandError::BadBindPort));
    assert_eq!(parse_command(b"BIND ABCDEFGHabcdefgh UDP -1", true).err(), Some(CommandError::BadBindPort));
    match parse_command(b"BIND ABCDEFGHabcdefgh UDP +0080", true) {
        Ok(Command::Bind { port, .. }) => assert_eq!(port, 80),
        _ => panic!("expected BIND"),
    }
}

#[test]
fn proxy_command_words() {
    match parse_command(b"PROXY IPV6 TCP fd00::1 8080", false) {
        Ok(Command::Proxy { want_ipv6, address, port_text }) => {
            assert!(want_ipv6);
            assert_eq!(address, b"fd00::1".to_vec());
            assert_eq!(port_text, b"8080".to_vec());
        }
        _ => panic!("expected PROXY"),
    }
    assert_eq!(parse_command(b"PROXY IPV6 TCP fd00::1", true).err(), Some(CommandError::BadProxyArgs));
    assert_eq!(parse_command(b"PROXY IPV5 TCP a 1", true).err(), Some(CommandError::BadProtocol));
    assert_eq!(parse_command(b"PROXY IPV4 UDP a 1", true).err(), Some(CommandError::UdpNotProxied));
    assert_eq!(parse_command(b"PROXY IPV4 SCTP a 1", true).err(), Some(CommandError::BadTransport));
}

#[test]
fn proxy_targets() {
    let own = Some(IpAddress::V6(Ipv6Address { bits: PROXY_V6 }));
    assert_eq!(proxy_target(true, own, b"8080", true), Ok(OwnService::Connect));
    assert_eq!(proxy_target(true, own, b"53", true), Ok(OwnService::Dns));
    assert_eq!(proxy_target(true, own, b"80", true), Err(CommandError::NotOwnService));
    assert_eq!(proxy_target(true, None, b"80", true), Err(CommandError::BadAddress));
    assert_eq!(proxy_target(false, own, b"8080", true), Err(CommandError::FamilyMismatch));
    assert_eq!(proxy_target(true, own, b"80x", true), Err(CommandError::BadProxyPort));
    assert_eq!(proxy_target(true, own, b"8080", false), Err(CommandError::ProxyRelayMissing));
    let v4 = Some(IpAddress::V4(Ipv4Address::new(127, 0, 0, 1)));
    assert_eq!(proxy_target(false, v4, b"8080", true), Err(CommandError::NotOwnService));
}

#[test]
fn fixed_replies() {
    assert_eq!(reply_text(Reply::ProxyOk), "PROXY OK");
    assert_eq!(reply_text(Reply::BindOk), "BIND OK");
    assert_eq!(reply_text(Reply::BindFailed), "BIND FAILED");
}

#[test]
fn addr_and_bind_answers() {
    let code = Passcode::parse("abcDEF0123456789").unwrap();
    assert_eq!(addr_reply("fd00::1234", &code), "ADDR fd00::1234 abcDEF0123456789");
    let ok = bind_answer(true);
    assert_eq!(reply_text(ok.reply), "BIND OK");
    assert!(ok.take_relay && ok.relay_udp);
    let failed = bind_answer(false);
    assert_eq!(reply_text(failed.reply), "BIND FAILED");
    assert!(!failed.take_relay && !failed.relay_udp);
}

#[test]
fn proxy_relay_goes_with_routing() {
    assert!(proxy_takes_relay(&Ok(OwnService::Dns)));
    assert!(proxy_takes_relay(&Err(CommandError::NotOwnService)));
    assert!(!proxy_takes_relay(&Err(CommandError::BadAddress)));
    assert!(!proxy_takes_relay(&Err(CommandError::ProxyRelayMissing)));
    let v4 = Some(IpAddress::V4(Ipv4Address::new(1, 2, 3, 4)));
    let target = proxy_target(false, v4, b"80", true);
    assert_eq!(target, Err(CommandError::NotOwnService));
    assert!(proxy_takes_relay(&target));
}
