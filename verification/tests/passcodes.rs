use luanti_proxy::net::code::{Passcode, PasscodeError, PASSCODE_LEN};

#[test]
fn passcode_parse() {
    let p = Passcode::parse("abcdefghABCDEFGH").unwrap();
    assert_eq!(p.as_str(), "abcdefghABCDEFGH");
    assert_eq!(Passcode::parse("0123456789abcdef").unwrap().as_str(), "0123456789abcdef");
    assert_eq!(Passcode::parse("abc").err(), Some(PasscodeError::WrongLength));
    assert_eq!(Passcode::parse("abcdefghABCDEFGHI").err(), Some(PasscodeError::WrongLength));
    assert_eq!(Passcode::parse("abcdefgh ABCDEFG").err(), Some(PasscodeError::InvalidCharacters));
    // Length is in bytes: sixteen bytes of which some are not ASCII.
    assert_eq!(Passcode::parse("ééééééééé").err(), Some(PasscodeError::WrongLength));
    assert_eq!(Passcode::parse("éééééééé").err(), Some(PasscodeError::InvalidCharacters));
}

#[test]
fn fresh_passcodes_parse_back() {
    for _ in 0..50 {
        let p = Passcode::new();
        assert_eq!(p.as_str().len(), PASSCODE_LEN);
        let back = Passcode::parse(p.as_str()).unwrap();
        assert_eq!(back, p);
        assert_eq!(back.key(), p.key());
        assert_eq!(p.clone(), p);
    }
}

#[test]
fn passcode_keys_differ() {
    let a = Passcode::parse("AAAAAAAAAAAAAAAA").unwrap();
    let b = Passcode::parse("AAAAAAAAAAAAAAAB").unwrap();
    assert_ne!(a.key(), b.key());
    assert_eq!(a.key(), u128::from_be_bytes([b'A'; 16]));
}
