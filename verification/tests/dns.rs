use luanti_proxy::addr::{IpAddress, Ipv4Address, Ipv6Address};
use luanti_proxy::dnsproxy::{dedup_addresses, empty_reply, encode, parse_query, Filter, QueryError};

fn v4(a: u8, b: u8, c: u8, d: u8) -> IpAddress {
    IpAddress::V4(Ipv4Address::new(a, b, c, d))
}

fn v6(bits: u128) -> IpAddress {
    IpAddress::V6(Ipv6Address { bits })
}

#[test]
fn query_parse() {
    let (host, filter) = parse_query(b"example.com A").unwrap();
    assert_eq!(host, "example.com");
    assert_eq!(filter, Filter::V4);
    assert_eq!(parse_query(b" example.com\tAAAA\n").unwrap().1, Filter::V6);
    assert_eq!(parse_query(b"example.com ANY").unwrap().1, Filter::Any);
    assert_eq!(parse_query(b"").err(), Some(QueryError::Empty));
    assert_eq!(parse_query(b"example.com").err(), Some(QueryError::NoType));
    assert_eq!(parse_query(b"example.com MX").err(), Some(QueryError::UnknownType));
    assert_eq!(parse_query(b"example.com a").err(), Some(QueryError::UnknownType));
    assert_eq!(parse_query(b"example.com A more").err(), Some(QueryError::TrailingData));
    assert_eq!(parse_query("exämple.com A".as_bytes()).err(), Some(QueryError::NonAscii));
}

#[test]
fn filters() {
    assert!(Filter::V4.accepts(&v4(1, 2, 3, 4)));
    assert!(!Filter::V4.accepts(&v6(1)));
    assert!(Filter::V6.accepts(&v6(1)));
    assert!(!Filter::V6.accepts(&v4(1, 2, 3, 4)));
    assert!(Filter::Any.accepts(&v4(1, 2, 3, 4)) && Filter::Any.accepts(&v6(1)));
}

#[test]
fn reply_puts_ipv6_first() {
    let addrs = vec![v4(1, 2, 3, 4), v6(0x2001_0db8 << 96 | 1), v4(5, 6, 7, 8)];
    let reply = encode(Filter::Any, &addrs);
    let mut expected = vec![3, 6, 0x20, 0x01, 0x0d, 0xb8];
    expected.extend_from_slice(&[0; 11]);
    expected.push(1);
    expected.extend_from_slice(&[4, 1, 2, 3, 4, 4, 5, 6, 7, 8]);
    assert_eq!(reply, expected);
    assert_eq!(encode(Filter::V4, &addrs), vec![2, 4, 1, 2, 3, 4, 4, 5, 6, 7, 8]);
    assert_eq!(encode(Filter::V6, &[v4(1, 1, 1, 1)]), vec![0]);
}

#[test]
fn reply_holds_at_most_four_records() {
    let addrs: Vec<IpAddress> = (1..=6).map(|i| v4(10, 0, 0, i)).collect();
    let reply = encode(Filter::Any, &addrs);
    assert_eq!(reply[0], 4);
    assert_eq!(reply.len(), 1 + 4 * 5);
    assert_eq!(&reply[1..6], &[4, 10, 0, 0, 1]);
}

#[test]
fn bad_query_gets_empty_reply() {
    assert_eq!(empty_reply(), vec![0]);
}

#[test]
fn lookup_results_without_duplicates() {
    let found = vec![v4(1, 1, 1, 1), v6(2), v4(1, 1, 1, 1), v6(2), v4(3, 3, 3, 3)];
    assert_eq!(dedup_addresses(&found), vec![v4(1, 1, 1, 1), v6(2), v4(3, 3, 3, 3)]);
    assert!(dedup_addresses(&[]).is_empty());
}
