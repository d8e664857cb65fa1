use luanti_proxy::connectproxy::{header_complete, parse_header, success_reply_bytes, ConnectError,
    ConnectState, ConnectStep};
use luanti_proxy::settings::HttpProxyConfig;

fn config() -> HttpProxyConfig {
    HttpProxyConfig { allowed_hosts: vec!["example.com".to_string(), "servers.luanti.org".to_string()] }
}

#[test]
fn header_completion() {
    assert!(!header_complete(b"CONNECT a:1 HTTP/1.1\r\n"));
    assert!(header_complete(b"CONNECT a:1 HTTP/1.1\r\n\r\n"));
    assert!(header_complete(b"x\r\n\r\nmore"));
    assert!(!header_complete(b""));
}

#[test]
fn header_parse() {
    let (header, remainder) =
        parse_header(b"CONNECT example.com:443 HTTP/1.1\r\nHost: example.com\r\n\r\nhello").unwrap();
    assert_eq!(header.host, "example.com");
    assert_eq!(header.port, 443);
    assert_eq!(remainder, b"hello".to_vec());
    let (header, remainder) = parse_header(b"CONNECT a:1 HTTP/1.1\r\n\r\n").unwrap();
    assert_eq!((header.host.as_str(), header.port), ("a", 1));
    assert!(remainder.is_empty());
}

#[test]
fn header_errors() {
    assert_eq!(parse_header(b"CONNECT a:1 HTTP/1.1\r\n").err(), Some(ConnectError::InvalidHeader));
    assert_eq!(parse_header(b"\r\n\r\n").err(), Some(ConnectError::MissingLine));
    assert_eq!(
        parse_header("CONNECT ä:1 HTTP/1.1\r\n\r\n".as_bytes()).err(),
        Some(ConnectError::NonAscii)
    );
    assert_eq!(parse_header(b"GET a:1 HTTP/1.1\r\n\r\n").err(), Some(ConnectError::InvalidConnectLine));
    assert_eq!(parse_header(b"CONNECT a:1 HTTP/1.0\r\n\r\n").err(), Some(ConnectError::InvalidConnectLine));
    assert_eq!(parse_header(b"CONNECT a:1\r\n\r\n").err(), Some(ConnectError::InvalidConnectLine));
    assert_eq!(parse_header(b"CONNECT a HTTP/1.1\r\n\r\n").err(), Some(ConnectError::InvalidHostPort));
    assert_eq!(parse_header(b"CONNECT a:1:2 HTTP/1.1\r\n\r\n").err(), Some(ConnectError::InvalidHostPort));
    assert_eq!(parse_header(b"CONNECT a:x HTTP/1.1\r\n\r\n").err(), Some(ConnectError::InvalidPort));
}

#[test]
fn header_first_line_endings() {
    // A line ends at \n, dropping one \r before it.
    let (header, _) = parse_header(b"CONNECT a:1 HTTP/1.1\nx\r\n\r\n").unwrap();
    assert_eq!(header.port, 1);
    // The vertical tab is not ASCII whitespace.
    assert_eq!(parse_header(b"CONNECT\x0ba:1 HTTP/1.1\r\n\r\n").err(), Some(ConnectError::InvalidConnectLine));
}

#[test]
fn tunnel_reads_header_then_relays() {
    let cfg = config();
    let mut state = ConnectState::new();
    assert!(matches!(state.on_client_data(b"CONNECT example.com:", &cfg), Ok(ConnectStep::Wait)));
    match state.on_client_data(b"443 HTTP/1.1\r\n\r\nhi", &cfg) {
        Ok(ConnectStep::Connect { header, remainder }) => {
            assert_eq!(header.host, "example.com");
            assert_eq!(header.port, 443);
            assert_eq!(remainder, b"hi".to_vec());
        }
        _ => panic!("expected to connect"),
    }
    // Bytes that arrive while the connection is being made are held for it.
    assert!(matches!(state.on_client_data(b"held", &cfg), Ok(ConnectStep::Wait)));
    assert!(matches!(state.on_client_data(b" too", &cfg), Ok(ConnectStep::Wait)));
    assert_eq!(state.connected(), b"held too".to_vec());
    match state.on_client_data(b"data", &cfg) {
        Ok(ConnectStep::Forward(bytes)) => assert_eq!(bytes, b"data".to_vec()),
        _ => panic!("expected to forward"),
    }
}

#[test]
fn tunnel_refuses_other_hosts() {
    let cfg = config();
    let mut state = ConnectState::new();
    assert_eq!(
        state.on_client_data(b"CONNECT evil.com:443 HTTP/1.1\r\n\r\n", &cfg).err(),
        Some(ConnectError::HostNotAllowed)
    );
    let mut state = ConnectState::new();
    assert_eq!(
        state.on_client_data(b"CONNECT example.co:443 HTTP/1.1\r\n\r\n", &cfg).err(),
        Some(ConnectError::HostNotAllowed)
    );
    assert!(cfg.allows(&"servers.luanti.org".to_string()));
    assert!(!cfg.allows(&"luanti.org".to_string()));
}

#[test]
fn success_reply_text() {
    assert_eq!(
        success_reply_bytes(),
        b"HTTP/1.0 200 Connection Established\r\nProxy-agent: Apache/2.4.41 (Ubuntu)\r\n\r\n".to_vec()
    );
}
