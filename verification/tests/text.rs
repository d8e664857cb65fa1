use luanti_proxy::text::{parse_u16_text, split_words, bytes_eq};

#[test]
fn words_split_on_whitespace() {
    let w = split_words(b"  a bc\tdef\n", false);
    assert_eq!(w, vec![b"a".to_vec(), b"bc".to_vec(), b"def".to_vec()]);
    // The vertical tab separates words unless only ASCII whitespace counts.
    assert_eq!(split_words(b"a\x0bb", false), vec![b"a".to_vec(), b"b".to_vec()]);
    assert_eq!(split_words(b"a\x0bb", true), vec![b"a\x0bb".to_vec()]);
    assert!(split_words(b"", true).is_empty());
}

#[test]
fn u16_text() {
    assert_eq!(parse_u16_text(b"0"), Some(0));
    assert_eq!(parse_u16_text(b"65535"), Some(65535));
    assert_eq!(parse_u16_text(b"065535"), Some(65535));
    assert_eq!(parse_u16_text(b"+7"), Some(7));
    assert_eq!(parse_u16_text(b"65536"), None);
    assert_eq!(parse_u16_text(b"99999999999999999999"), None);
    assert_eq!(parse_u16_text(b""), None);
    assert_eq!(parse_u16_text(b"+"), None);
    assert_eq!(parse_u16_text(b"-1"), None);
    assert_eq!(parse_u16_text(b"1 "), None);
    assert_eq!(parse_u16_text(b"++1"), None);
}

#[test]
fn byte_equality() {
    assert!(bytes_eq(b"abc", b"abc"));
    assert!(!bytes_eq(b"abc", b"abd"));
    assert!(!bytes_eq(b"abc", b"ab"));
}
