//! The codes that name a VPN, and the addresses handed out inside one.

use vstd::prelude::*;
use vstd::string::StringSliceAdditionalSpecFns;

use crate::addr::{IpAddress, Ipv4Address};
use crate::codec::{be_bytes, be_value, get_be, put_be, lemma_be_bytes_len, lemma_be_bytes_of_value,
    lemma_be_value_bound, lemma_be_value_of_bytes, lemma_pow256_values};
use crate::random::{random_six_bytes, random_u8_between};

verus! {

/// The value of an ASCII hex digit, either case.
pub open spec fn hex_value(c: u8) -> Option<u8> {
    if 0x30 <= c <= 0x39 {
        Some((c - 0x30) as u8)
    } else if 0x61 <= c <= 0x66 {
        Some((c - 0x61 + 10) as u8)
    } else if 0x41 <= c <= 0x46 {
        Some((c - 0x41 + 10) as u8)
    } else {
        None
    }
}

/// The lowercase hex digit for `n` below 16.
pub open spec fn hex_digit(n: nat) -> u8 {
    if n < 10 {
        (0x30 + n) as u8
    } else {
        (0x61 + n - 10) as u8
    }
}

/// `data` in lowercase hex, two digits a byte, high digit first.
pub open spec fn hex_text(data: Seq<u8>) -> Seq<u8>
    decreases data.len(),
{
    if data.len() == 0 {
        Seq::empty()
    } else {
        hex_text(data.drop_last()) + seq![hex_digit(data.last() as nat / 16), hex_digit(data.last() as nat % 16)]
    }
}

/// The first index at or after `i` that is not a hex digit.
pub open spec fn first_non_hex(s: Seq<u8>, i: int) -> Option<int>
    decreases s.len() - i,
{
    if i < 0 || i >= s.len() {
        None
    } else if hex_value(s[i]) is None {
        Some(i)
    } else {
        first_non_hex(s, i + 1)
    }
}

/// Why text is not the hex of a code.
#[derive(Clone, Copy, Debug, PartialEq, Eq, Structural)]
pub enum HexError {
    /// The byte `c` at `index` is not a hex digit.
    InvalidHexCharacter { c: char, index: usize },
    /// The text has an odd number of digits.
    OddLength,
    /// The text does not hold exactly the digits of six bytes.
    InvalidStringLength,
}

/// What decoding `text` into six bytes gives, as `hex::decode_to_slice`
/// does: the length is checked first (odd, then wrong), then each digit in
/// order.
pub open spec fn hex_decode_six(text: Seq<u8>) -> Result<Seq<u8>, HexError> {
    if text.len() % 2 != 0 {
        Err(HexError::OddLength)
    } else if text.len() / 2 != 6 {
        Err(HexError::InvalidStringLength)
    } else {
        match first_non_hex(text, 0) {
            Some(i) => Err(HexError::InvalidHexCharacter { c: text[i] as char, index: i as usize }),
            None => Ok(
                Seq::new(
                    6,
                    |k: int| (hex_value(text[2 * k])->Some_0 * 16 + hex_value(text[2 * k + 1])->Some_0) as u8,
                ),
            ),
        }
    }
}

/// Calls `hex::decode_to_slice` on `text` into six bytes. Its source
/// checks for an odd length, then for a length other than twelve digits,
/// then decodes each pair of digits in order, upper or lower case, and
/// stops at the first byte that is not a digit, naming it and its index.
/// The outside error is told apart here, one variant to one variant.
#[verifier::external_body]
fn decode_hex_six(text: &str) -> (r: Result<[u8; 6], HexError>)
    ensures
        match r {
            Ok(bytes) => hex_decode_six(text.spec_bytes()) == Ok::<Seq<u8>, HexError>(bytes@),
            Err(e) => hex_decode_six(text.spec_bytes()) == Err::<Seq<u8>, HexError>(e),
        },
{
    let mut code = [0u8; 6];
    match hex::decode_to_slice(text, &mut code) {
        Ok(()) => Ok(code),
        Err(hex::FromHexError::InvalidHexCharacter { c, index }) => Err(
            HexError::InvalidHexCharacter { c, index },
        ),
        Err(hex::FromHexError::OddLength) => Err(HexError::OddLength),
        Err(hex::FromHexError::InvalidStringLength) => Err(HexError::InvalidStringLength),
    }
}

/// Calls `hex::encode` on `data`. Its source writes each byte as two
/// lowercase digits, high digit first, from the table `0123456789abcdef`.
#[verifier::external_body]
fn encode_hex(data: &[u8]) -> (s: String)
    ensures
        vstd::utf8::encode_utf8(s@) == hex_text(data@),
{
    hex::encode(data)
}

/// The code that joins a client to a VPN: six bytes, written in hex.
#[derive(Clone, Copy, Debug, PartialEq, Eq, Hash, Structural)]
pub struct VpnCode {
    /// The number the six bytes spell, big-endian.
    code: u64,
}

impl View for VpnCode {
    type V = Seq<u8>;

    closed spec fn view(&self) -> Seq<u8> {
        be_bytes(self.code as nat, 6)
    }
}

impl VpnCode {
    /// A code is six bytes.
    #[verifier::type_invariant]
    pub closed spec fn is_valid(self) -> bool {
        self.code < 0x1_0000_0000_0000
    }

    /// Six bytes make a code.
    fn from_bytes(bytes: [u8; 6]) -> (c: Self)
        ensures
            c@ == bytes@,
    {
        proof {
            lemma_be_value_bound(bytes@);
            lemma_pow256_values();
            assert(bytes@.subrange(0, 6) =~= bytes@);
            lemma_be_bytes_of_value(bytes@);
        }
        VpnCode { code: get_be(&bytes, 0, 6) as u64 }
    }

    /// A fresh code of six random bytes.
    pub fn new() -> (c: Self)
        ensures
            c@.len() == 6,
    {
        let c = Self::from_bytes(random_six_bytes());
        proof {
            lemma_be_bytes_len(c.code as nat, 6);
        }
        c
    }

    /// The code that `hexcode` writes.
    pub fn from(hexcode: &str) -> (r: Result<Self, HexError>)
        ensures
            match r {
                Ok(c) => hex_decode_six(hexcode.spec_bytes()) == Ok::<Seq<u8>, HexError>(c@),
                Err(e) => hex_decode_six(hexcode.spec_bytes()) == Err::<Seq<u8>, HexError>(e),
            },
    {
        match decode_hex_six(hexcode) {
            Ok(code) => Ok(Self::from_bytes(code)),
            Err(e) => Err(e),
        }
    }

    /// The six bytes.
    pub fn bytes(&self) -> (b: Vec<u8>)
        ensures
            b@ == self@,
    {
        let mut b: Vec<u8> = Vec::new();
        put_be(&mut b, self.code as u128, 6);
        assert(b@ =~= self@);
        b
    }

    /// The code in lowercase hex.
    pub fn to_hex(&self) -> (s: String)
        ensures
            vstd::utf8::encode_utf8(s@) == hex_text(self@),
    {
        let b = self.bytes();
        encode_hex(b.as_slice())
    }

    /// The number the six bytes spell, big-endian: a key that tells codes
    /// apart.
    pub fn key(&self) -> (k: u64)
        ensures
            k as nat == be_value(self@),
            self@.len() == 6,
    {
        proof {
            use_type_invariant(self);
            lemma_pow256_values();
            lemma_be_value_of_bytes(self.code as nat, 6);
            lemma_be_bytes_len(self.code as nat, 6);
        }
        self.code
    }

    /// A code other than this one: this one with its lowest bit flipped.
    pub(crate) fn other(&self) -> (c: Self)
        ensures
            c@ != self@,
            c@.len() == 6,
    {
        proof {
            use_type_invariant(self);
        }
        let code: u64 = self.code ^ 1;
        let ghost mine = self.code;
        assert(code != mine && code < 0x1_0000_0000_0000) by (bit_vector)
            requires
                code == mine ^ 1,
                mine < 0x1_0000_0000_0000u64,
        ;
        let c = VpnCode { code };
        proof {
            lemma_pow256_values();
            lemma_be_value_of_bytes(self.code as nat, 6);
            lemma_be_value_of_bytes(c.code as nat, 6);
            lemma_be_bytes_len(c.code as nat, 6);
        }
        c
    }
}

/// A VPN: the code for its server, the code for its clients, and the game
/// it is for.
pub struct VpnConfig {
    pub server_code: VpnCode,
    pub client_code: VpnCode,
    pub game: String,
}

/// The server's address inside a VPN, 172.16.0.1.
pub open spec fn server_ip() -> IpAddress {
    IpAddress::V4(Ipv4Address { bits: 0xAC10_0001 })
}

/// A client address inside a VPN: 172.b.c.d with b from 16 to 32 and c, d
/// from 1 to 254.
pub open spec fn is_client_ip(ip: IpAddress) -> bool {
    ip matches IpAddress::V4(v4) && exists|b: u8, c: u8, d: u8|
        16 <= b <= 32 && 1 <= c <= 254 && 1 <= d <= 254 && v4.bits == #[trigger] dotted(172, b, c, d)
}

/// The address `a.b.c.d` as a number.
pub open spec fn dotted(a: u8, b: u8, c: u8, d: u8) -> nat {
    (a * 0x100_0000 + b * 0x1_0000 + c * 0x100 + d) as nat
}

impl VpnConfig {
    /// The address for whoever joins with `code`: the server always gets
    /// 172.16.0.1, a client a random 172.b.c.d. There is a microscopic
    /// chance that two clients get the same address.
    pub fn assign_ip(&self, code: &VpnCode) -> (ip: IpAddress)
        requires
            *code == self.server_code || *code == self.client_code,
        ensures
            *code == self.server_code ==> ip == server_ip(),
            *code != self.server_code ==> is_client_ip(ip),
    {
        if *code == self.server_code {
            IpAddress::V4(Ipv4Address::new(172, 16, 0, 1))
        } else {
            let b: u8 = random_u8_between(16, 32);
            let c: u8 = random_u8_between(1, 254);
            let d: u8 = random_u8_between(1, 254);
            let ip = IpAddress::V4(Ipv4Address::new(172, b, c, d));
            assert(ip->V4_0.bits == dotted(172, b, c, d));
            ip
        }
    }
}

proof fn lemma_hex_text_shape(data: Seq<u8>)
    ensures
        hex_text(data).len() == 2 * data.len(),
        forall|k: int|
            0 <= k < data.len() ==> hex_text(data)[2 * k] == hex_digit(#[trigger] data[k] as nat / 16)
                && hex_text(data)[2 * k + 1] == hex_digit(data[k] as nat % 16),
    decreases data.len(),
{
    if data.len() > 0 {
        lemma_hex_text_shape(data.drop_last());
        let t = hex_text(data);
        let r = hex_text(data.drop_last());
        assert forall|k: int| 0 <= k < data.len() implies t[2 * k] == hex_digit(
            #[trigger] data[k] as nat / 16,
        ) && t[2 * k + 1] == hex_digit(data[k] as nat % 16) by {
            if k < data.len() - 1 {
                assert(t[2 * k] == r[2 * k]);
                assert(t[2 * k + 1] == r[2 * k + 1]);
                assert(data.drop_last()[k] == data[k]);
            } else {
                assert(2 * k == r.len());
                assert(data.last() == data[k]);
            }
        }
    }
}

proof fn lemma_no_non_hex(s: Seq<u8>, i: int)
    requires
        0 <= i,
        forall|j: int| i <= j < s.len() ==> #[trigger] hex_value(s[j]) is Some,
    ensures
        first_non_hex(s, i) is None,
    decreases s.len() - i,
{
    if i < s.len() {
        lemma_no_non_hex(s, i + 1);
    }
}

/// Writing a code in hex and reading it back gives the code.
pub proof fn lemma_hex_roundtrip(data: Seq<u8>)
    requires
        data.len() == 6,
    ensures
        hex_decode_six(hex_text(data)) == Ok::<Seq<u8>, HexError>(data),
{
    let t = hex_text(data);
    lemma_hex_text_shape(data);
    assert forall|j: int| 0 <= j < t.len() implies #[trigger] hex_value(t[j]) is Some by {
        let k = j / 2;
        assert(j == 2 * k || j == 2 * k + 1);
        if j == 2 * k {
            assert(t[2 * k] == hex_digit(data[k] as nat / 16));
        } else {
            assert(t[2 * k + 1] == hex_digit(data[k] as nat % 16));
        }
    }
    lemma_no_non_hex(t, 0);
    let decoded = Seq::new(
        6,
        |k: int| (hex_value(t[2 * k])->Some_0 * 16 + hex_value(t[2 * k + 1])->Some_0) as u8,
    );
    assert forall|k: int| 0 <= k < 6 implies #[trigger] decoded[k] == data[k] by {
        assert(t[2 * k] == hex_digit(data[k] as nat / 16));
        assert(t[2 * k + 1] == hex_digit(data[k] as nat % 16));
    }
    assert(decoded =~= data);
}

} // verus!
