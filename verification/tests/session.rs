use luanti_proxy::commands::MAX_COMMAND_SIZE;
use luanti_proxy::session::{accept_stream, message_action, IncomingMessage, IncomingStream, MessageAction, command_allowed, datagram_target, message_relay_step, MessageRelayStep,
    RelayStep, SessionError, StreamData, StreamSession};

#[test]
fn commands_are_lines() {
    let mut s = StreamSession::new();
    s.push_command_bytes(b"PING a\nNEW");
    assert_eq!(s.next_command().unwrap(), Some(b"PING a".to_vec()));
    assert_eq!(s.next_command().unwrap(), None);
    s.push_command_bytes(b"ADDR\n");
    assert_eq!(s.next_command().unwrap(), Some(b"NEWADDR".to_vec()));
    assert_eq!(s.next_command().unwrap(), None);
}

#[test]
fn long_partial_command_ends_session() {
    let mut s = StreamSession::new();
    s.push_command_bytes(&vec![b'A'; MAX_COMMAND_SIZE - 1]);
    assert_eq!(s.next_command().unwrap(), None);
    s.push_command_bytes(b"A");
    assert_eq!(s.next_command().err(), Some(SessionError::CommandTooLarge));
}

#[test]
fn data_after_lease_is_stream_data() {
    let mut s = StreamSession::new();
    s.push_command_bytes(b"BIND x UDP 1\nrest");
    assert_eq!(s.next_command().unwrap(), Some(b"BIND x UDP 1".to_vec()));
    s.lease_granted(false);
    assert!(s.has_lease());
    assert_eq!(s.take_remainder(), b"rest".to_vec());
    assert!(matches!(s.stream_data(b""), Ok(StreamData::Nothing)));
    match s.stream_data(b"abc") {
        Ok(StreamData::Send(bytes)) => assert_eq!(bytes, b"abc".to_vec()),
        _ => panic!("expected data"),
    }
    assert_eq!(s.datagram(), Err(SessionError::DatagramOnStreamSession));
    assert_eq!(s.relay(Some(3), true), Ok(RelayStep::Stream));
}

#[test]
fn datagram_sessions() {
    let mut s = StreamSession::new();
    assert_eq!(s.datagram(), Ok(false));
    s.lease_granted(true);
    assert!(s.relay_udp());
    assert_eq!(s.datagram(), Ok(true));
    assert!(matches!(s.stream_data(b"x"), Err(SessionError::DataOnDatagramSession)));
    assert_eq!(s.relay(Some(3), true), Ok(RelayStep::Datagram));
    assert_eq!(s.relay(Some(0), true), Ok(RelayStep::Ignore));
    assert_eq!(s.relay(Some(0), false), Err(SessionError::LeaseEnded));
    assert_eq!(s.relay(None, true), Err(SessionError::RelayClosed));
    let fresh = StreamSession::new();
    assert_eq!(fresh.relay(Some(0), false), Ok(RelayStep::Ignore));
}

#[test]
fn message_sessions() {
    assert_eq!(message_relay_step(None, None), MessageRelayStep::Close);
    assert_eq!(message_relay_step(Some(0), Some(false)), MessageRelayStep::Close);
    assert_eq!(message_relay_step(Some(0), Some(true)), MessageRelayStep::Send);
    assert_eq!(message_relay_step(Some(0), None), MessageRelayStep::Send);
    assert_eq!(message_relay_step(Some(5), Some(false)), MessageRelayStep::Send);
    assert_eq!(command_allowed(false), Ok(()));
    assert_eq!(command_allowed(true), Err(SessionError::CommandAtImproperTime));
    assert_eq!(datagram_target(true), Ok(()));
    assert_eq!(datagram_target(false), Err(SessionError::DatagramWithoutTarget));
}

#[test]
fn one_bidirectional_stream() {
    assert_eq!(accept_stream(IncomingStream::Bidirectional, false), Ok(()));
    assert_eq!(accept_stream(IncomingStream::Bidirectional, true), Err(SessionError::MultipleStreams));
    assert_eq!(accept_stream(IncomingStream::Unidirectional, false), Err(SessionError::UnidirectionalStream));
    assert_eq!(accept_stream(IncomingStream::Unidirectional, true), Err(SessionError::UnidirectionalStream));
}

#[test]
fn websocket_message_actions() {
    assert_eq!(message_action(IncomingMessage::Text, false), Ok(MessageAction::Command));
    assert_eq!(message_action(IncomingMessage::Text, true), Err(SessionError::CommandAtImproperTime));
    assert_eq!(message_action(IncomingMessage::Binary, true), Ok(MessageAction::Datagram));
    assert_eq!(message_action(IncomingMessage::Binary, false), Err(SessionError::DatagramWithoutTarget));
    assert_eq!(message_action(IncomingMessage::Ping, true), Ok(MessageAction::Pong));
    assert_eq!(message_action(IncomingMessage::Pong, false), Ok(MessageAction::Ignore));
    assert_eq!(message_action(IncomingMessage::Close { has_frame: true }, false), Ok(MessageAction::EchoClose));
    assert_eq!(message_action(IncomingMessage::Close { has_frame: false }, true), Ok(MessageAction::NormalClose));
}
