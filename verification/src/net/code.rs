//! Addresses on the private network and the passcodes that go with them.

use vstd::prelude::*;
use vstd::string::StringSliceAdditionalSpecFns;

use crate::addr::Ipv6Address;
use crate::codec::{be_value, get_be};
use crate::random::{random_index, random_u64_between};
use crate::text::{is_ascii_bytes, string_from_ascii};

verus! {

/// Length of a passcode, in characters.
pub const PASSCODE_LEN: usize = 16;

/// Number of characters a passcode is made of.
pub const PASSCODE_ALPHABET_LEN: usize = 62;

/// The first group of every address on the private network.
pub const PREFIX: u16 = 0xfd00;

/// Addresses below this are reserved for the proxy's own services, so that a
/// client is never assigned one of them.
pub const RESERVED: u64 = 256;

/// The characters a passcode is made of: `A`-`Z`, then `a`-`z`, then `0`-`9`.
pub open spec fn passcode_alphabet() -> Seq<u8> {
    Seq::new(
        62,
        |i: int|
            if i < 26 {
                (0x41 + i) as u8
            } else if i < 52 {
                (0x61 + (i - 26)) as u8
            } else {
                (0x30 + (i - 52)) as u8
            },
    )
}

/// True for a byte of the passcode alphabet.
pub open spec fn is_passcode_char(b: u8) -> bool {
    (0x41 <= b <= 0x5A) || (0x61 <= b <= 0x7A) || (0x30 <= b <= 0x39)
}

/// Text that is a passcode: sixteen characters of the alphabet.
pub open spec fn is_passcode_text(s: Seq<u8>) -> bool {
    &&& s.len() == PASSCODE_LEN
    &&& forall|i: int| 0 <= i < s.len() ==> is_passcode_char(#[trigger] s[i])
}

/// The alphabet holds exactly the passcode characters.
pub proof fn lemma_alphabet_contents()
    ensures
        passcode_alphabet().len() == PASSCODE_ALPHABET_LEN,
        forall|b: u8| #[trigger] passcode_alphabet().contains(b) <==> is_passcode_char(b),
{
    assert forall|b: u8| #[trigger] passcode_alphabet().contains(b) <==> is_passcode_char(b) by {
        if is_passcode_char(b) {
            let i: int = if b <= 0x39 {
                b - 0x30 + 52
            } else if b <= 0x5A {
                b - 0x41
            } else {
                b - 0x61 + 26
            };
            assert(passcode_alphabet()[i] == b);
        }
    }
}

/// The `i`th character of the alphabet.
pub fn alphabet_char(i: usize) -> (b: u8)
    requires
        i < PASSCODE_ALPHABET_LEN,
    ensures
        b == passcode_alphabet()[i as int],
        is_passcode_char(b),
{
    if i < 26 {
        0x41 + i as u8
    } else if i < 52 {
        0x61 + (i - 26) as u8
    } else {
        0x30 + (i - 52) as u8
    }
}

/// The top 16 bits of an address, its first group.
pub open spec fn first_group(addr: Ipv6Address) -> nat {
    addr.bits as nat / 0x1_0000_0000_0000_0000_0000_0000_0000
}

/// The address `fd00::` plus `low`: what `random_address` draws from.
pub open spec fn network_address(low: u64) -> u128 {
    (0xfd00_0000_0000_0000_0000_0000_0000_0000 + low) as u128
}

/// The proxy's own address on the private network, `fd00::1`. Its services
/// (the resolver, the HTTP CONNECT proxy) answer here.
pub fn proxy_address() -> (a: Ipv6Address)
    ensures
        a.bits == network_address(1),
{
    Ipv6Address { bits: 0xfd00_0000_0000_0000_0000_0000_0000_0001 }
}

/// True for an address on the private network. Such an address means
/// something only inside this proxy.
pub fn is_network_address(addr: &Ipv6Address) -> (r: bool)
    ensures
        r == (first_group(*addr) == PREFIX),
{
    addr.bits / 0x1_0000_0000_0000_0000_0000_0000_0000 == 0xfd00
}

/// A fresh address for a client, with 64 random bits.
///
/// Addresses sit in fd00::/16, which is private (unique local) space. The
/// address is what a player shares to invite others, so it is also the only
/// thing keeping one game's traffic away from another's. The low 64 bits
/// are drawn uniformly from those not below `RESERVED`.
pub fn random_address() -> (a: Ipv6Address)
    ensures
        exists|low: u64| low >= RESERVED && a.bits == network_address(low),
        first_group(a) == PREFIX,
{
    let low: u64 = random_u64_between(RESERVED, u64::MAX);
    let a = Ipv6Address { bits: 0xfd00_0000_0000_0000_0000_0000_0000_0000u128 + low as u128 };
    assert(a.bits == network_address(low));
    a
}

/// Why text is not a passcode.
#[derive(Clone, Copy, Debug, PartialEq, Eq, Structural)]
pub enum PasscodeError {
    /// The text is not sixteen bytes long.
    WrongLength,
    /// The text holds a byte outside the alphabet.
    InvalidCharacters,
}

/// What parsing `text` gives: the length is checked first, then the
/// characters.
pub open spec fn parse_passcode(text: Seq<u8>) -> Result<Seq<u8>, PasscodeError> {
    if text.len() != PASSCODE_LEN {
        Err(PasscodeError::WrongLength)
    } else if !is_passcode_text(text) {
        Err(PasscodeError::InvalidCharacters)
    } else {
        Ok(text)
    }
}

/// The secret that lets a client bind ports on the address it was given.
///
/// It is handed out once, with the address, and never leaves the Luanti
/// instance that received it. The address is public; this is not.
#[derive(Debug, PartialEq, Eq, Hash)]
pub struct Passcode {
    code: String,
}

impl View for Passcode {
    type V = Seq<u8>;

    /// The passcode's text, as bytes.
    closed spec fn view(&self) -> Seq<u8> {
        vstd::utf8::encode_utf8(self.code@)
    }
}

impl Clone for Passcode {
    fn clone(&self) -> (r: Self)
        ensures
            r@ == self@,
    {
        proof {
            use_type_invariant(self);
        }
        Passcode { code: self.code.clone() }
    }
}

impl Passcode {
    /// Every passcode is sixteen characters of the alphabet.
    #[verifier::type_invariant]
    pub open spec fn is_valid(self) -> bool {
        is_passcode_text(self@)
    }

    /// A fresh passcode: sixteen characters, each drawn uniformly from the
    /// alphabet.
    pub fn new() -> (p: Self)
        ensures
            is_passcode_text(p@),
    {
        let mut bytes: Vec<u8> = Vec::new();
        let mut i: usize = 0;
        while i < PASSCODE_LEN
            invariant
                i <= PASSCODE_LEN,
                bytes@.len() == i,
                forall|k: int| 0 <= k < i ==> is_passcode_char(#[trigger] bytes@[k]),
            decreases PASSCODE_LEN - i,
        {
            let c: u8 = alphabet_char(random_index(PASSCODE_ALPHABET_LEN));
            bytes.push(c);
            i = i + 1;
        }
        let ghost b = bytes@;
        assert(is_ascii_bytes(b)) by {
            assert forall|k: int| 0 <= k < b.len() implies #[trigger] b[k] < 128 by {
                assert(is_passcode_char(b[k]));
            }
        }
        let code = string_from_ascii(bytes);
        Passcode { code }
    }

    /// The passcode numbered `i`: its sixteen characters spell the sixteen
    /// hex digits of `i`, high digit first, each as the alphabet's letter
    /// of that number (`A` for 0 to `P` for 15). Different numbers give
    /// different passcodes (`lemma_counter_passcode_injective`).
    pub(crate) fn from_counter(i: u64) -> (p: Self)
        ensures
            p@ == counter_passcode(i),
            is_passcode_text(p@),
    {
        let mut bytes: Vec<u8> = Vec::new();
        let mut k: u64 = 0;
        while k < 16
            invariant
                k <= 16,
                bytes@.len() == k,
                forall|m: int| 0 <= m < k ==> #[trigger] bytes@[m] == counter_passcode(i)[m],
            decreases 16 - k,
        {
            let shift: u64 = 60 - 4 * k;
            let nib: u64 = (i >> shift) & 15;
            assert(nib < 16) by (bit_vector)
                requires
                    nib == (i >> shift) & 15u64,
            ;
            let c: u8 = alphabet_char(nib as usize);
            bytes.push(c);
            k = k + 1;
        }
        let ghost b = bytes@;
        proof {
            assert(b =~= counter_passcode(i));
            lemma_counter_passcode_text(i);
        }
        assert(is_ascii_bytes(b)) by {
            assert forall|m: int| 0 <= m < b.len() implies #[trigger] b[m] < 128 by {
                assert(is_passcode_char(b[m]));
            }
        }
        let code = string_from_ascii(bytes);
        Passcode { code }
    }

    /// Parses the text of a passcode given as bytes.
    pub fn parse_bytes(text: &[u8]) -> (r: Result<Self, PasscodeError>)
        ensures
            match r {
                Ok(p) => parse_passcode(text@) == Ok::<Seq<u8>, PasscodeError>(p@),
                Err(e) => parse_passcode(text@) == Err::<Seq<u8>, PasscodeError>(e),
            },
    {
        if text.len() != PASSCODE_LEN {
            return Err(PasscodeError::WrongLength);
        }
        let mut i: usize = 0;
        while i < PASSCODE_LEN
            invariant
                i <= PASSCODE_LEN == text@.len(),
                forall|k: int| 0 <= k < i ==> is_passcode_char(#[trigger] text@[k]),
            decreases PASSCODE_LEN - i,
        {
            let b: u8 = text[i];
            if !((0x41 <= b && b <= 0x5A) || (0x61 <= b && b <= 0x7A) || (0x30 <= b && b <= 0x39)) {
                assert(!is_passcode_text(text@)) by {
                    assert(!is_passcode_char(text@[i as int]));
                }
                return Err(PasscodeError::InvalidCharacters);
            }
            i = i + 1;
        }
        let ghost t = text@;
        assert(is_ascii_bytes(t)) by {
            assert forall|k: int| 0 <= k < t.len() implies #[trigger] t[k] < 128 by {
                assert(is_passcode_char(t[k]));
            }
        }
        let code = string_from_ascii(vstd::slice::slice_to_vec(text));
        Ok(Passcode { code })
    }

    /// Parses the text of a passcode: sixteen characters of the alphabet.
    pub fn parse(text: &str) -> (r: Result<Self, PasscodeError>)
        ensures
            match r {
                Ok(p) => parse_passcode(text.spec_bytes()) == Ok::<Seq<u8>, PasscodeError>(p@),
                Err(e) => parse_passcode(text.spec_bytes()) == Err::<Seq<u8>, PasscodeError>(e),
            },
    {
        Self::parse_bytes(text.as_bytes())
    }

    /// The passcode's text.
    pub fn as_str(&self) -> (s: &str)
        ensures
            s.spec_bytes() == self@,
    {
        self.code.as_str()
    }

    /// The number that the passcode's sixteen bytes spell, big-endian: a
    /// key that tells passcodes apart.
    pub fn key(&self) -> (k: u128)
        ensures
            k as nat == be_value(self@),
            is_passcode_text(self@),
    {
        proof {
            use_type_invariant(self);
        }
        let bytes = self.code.as_str().as_bytes();
        assert(bytes@.subrange(0, PASSCODE_LEN as int) =~= bytes@);
        get_be(bytes, 0, PASSCODE_LEN)
    }
}

/// Every passcode text parses back to itself: what `Passcode::new` hands
/// out, a client can give back.
pub proof fn lemma_passcode_text_parses(s: Seq<u8>)
    requires
        is_passcode_text(s),
    ensures
        parse_passcode(s) == Ok::<Seq<u8>, PasscodeError>(s),
{
}

/// No client is ever handed the proxy's own address, nor any other below
/// `RESERVED`, and every client address is on the private network.
pub proof fn lemma_client_address_not_reserved(low: u64)
    requires
        low >= RESERVED,
    ensures
        network_address(low) != network_address(1),
        first_group(Ipv6Address { bits: network_address(low) }) == PREFIX,
{
}

/// The hex digit of `i` at position `k`, counting from the high end.
pub open spec fn counter_digit(i: u64, k: int) -> u64 {
    (i >> ((60 - 4 * k) as u64)) & 15u64
}

/// The passcode numbered `i`: its characters are the alphabet's letters for
/// the hex digits of `i`, high digit first.
pub open spec fn counter_passcode(i: u64) -> Seq<u8> {
    Seq::new(16, |k: int| passcode_alphabet()[counter_digit(i, k) as int])
}

/// A hex digit is below 16, so its letter is one of the first sixteen of
/// the alphabet, `A` to `P`.
proof fn lemma_counter_digit(i: u64, k: int)
    requires
        0 <= k < 16,
    ensures
        counter_digit(i, k) < 16,
        passcode_alphabet()[counter_digit(i, k) as int] == 0x41 + counter_digit(i, k),
{
    let s: u64 = (60 - 4 * k) as u64;
    assert((i >> s) & 15u64 < 16) by (bit_vector);
}

/// Every numbered passcode is passcode text.
proof fn lemma_counter_passcode_text(i: u64)
    ensures
        is_passcode_text(counter_passcode(i)),
{
    assert forall|k: int| 0 <= k < 16 implies is_passcode_char(#[trigger] counter_passcode(i)[k]) by {
        lemma_counter_digit(i, k);
    }
}

/// Sixteen hex digits make a 64-bit number.
proof fn lemma_digits_determine(i: u64, j: u64)
    by (bit_vector)
    requires
        (i >> 60u64) & 15u64 == (j >> 60u64) & 15u64,
        (i >> 56u64) & 15u64 == (j >> 56u64) & 15u64,
        (i >> 52u64) & 15u64 == (j >> 52u64) & 15u64,
        (i >> 48u64) & 15u64 == (j >> 48u64) & 15u64,
        (i >> 44u64) & 15u64 == (j >> 44u64) & 15u64,
        (i >> 40u64) & 15u64 == (j >> 40u64) & 15u64,
        (i >> 36u64) & 15u64 == (j >> 36u64) & 15u64,
        (i >> 32u64) & 15u64 == (j >> 32u64) & 15u64,
        (i >> 28u64) & 15u64 == (j >> 28u64) & 15u64,
        (i >> 24u64) & 15u64 == (j >> 24u64) & 15u64,
        (i >> 20u64) & 15u64 == (j >> 20u64) & 15u64,
        (i >> 16u64) & 15u64 == (j >> 16u64) & 15u64,
        (i >> 12u64) & 15u64 == (j >> 12u64) & 15u64,
        (i >> 8u64) & 15u64 == (j >> 8u64) & 15u64,
        (i >> 4u64) & 15u64 == (j >> 4u64) & 15u64,
        (i >> 0u64) & 15u64 == (j >> 0u64) & 15u64,
    ensures
        i == j,
{
}

/// Different numbers give different passcodes.
pub proof fn lemma_counter_passcode_injective(i: u64, j: u64)
    ensures
        counter_passcode(i) == counter_passcode(j) <==> i == j,
{
    if counter_passcode(i) == counter_passcode(j) {
        assert forall|k: int| 0 <= k < 16 implies counter_digit(i, k) == counter_digit(j, k) by {
            lemma_counter_digit(i, k);
            lemma_counter_digit(j, k);
            assert(counter_passcode(i)[k] == counter_passcode(j)[k]);
        }
        assert(counter_digit(i, 0) == counter_digit(j, 0));
        assert(counter_digit(i, 1) == counter_digit(j, 1));
        assert(counter_digit(i, 2) == counter_digit(j, 2));
        assert(counter_digit(i, 3) == counter_digit(j, 3));
        assert(counter_digit(i, 4) == counter_digit(j, 4));
        assert(counter_digit(i, 5) == counter_digit(j, 5));
        assert(counter_digit(i, 6) == counter_digit(j, 6));
        assert(counter_digit(i, 7) == counter_digit(j, 7));
        assert(counter_digit(i, 8) == counter_digit(j, 8));
        assert(counter_digit(i, 9) == counter_digit(j, 9));
        assert(counter_digit(i, 10) == counter_digit(j, 10));
        assert(counter_digit(i, 11) == counter_digit(j, 11));
        assert(counter_digit(i, 12) == counter_digit(j, 12));
        assert(counter_digit(i, 13) == counter_digit(j, 13));
        assert(counter_digit(i, 14) == counter_digit(j, 14));
        assert(counter_digit(i, 15) == counter_digit(j, 15));
        lemma_digits_determine(i, j);
    }
}

} // verus!
