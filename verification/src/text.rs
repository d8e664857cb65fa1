//! ASCII text: whitespace, words, decimal numbers, and turning checked
//! bytes into a `String`.

use vstd::prelude::*;

verus! {

/// True for bytes below 128.
pub open spec fn is_ascii_bytes(s: Seq<u8>) -> bool {
    forall|i: int| 0 <= i < s.len() ==> #[trigger] s[i] < 128
}

/// Whitespace among ASCII bytes. With `ascii_only`, the vertical tab
/// (0x0B) is not whitespace: that is `u8::is_ascii_whitespace`; without it,
/// this is `char::is_whitespace` restricted to ASCII.
pub open spec fn is_space(b: u8, ascii_only: bool) -> bool {
    b == 0x20 || b == 0x09 || b == 0x0A || b == 0x0C || b == 0x0D || (!ascii_only && b == 0x0B)
}

/// Length of the run of non-space bytes that `s` starts with.
pub open spec fn word_len(s: Seq<u8>, ascii_only: bool) -> nat
    decreases s.len(),
{
    if s.len() == 0 || is_space(s[0], ascii_only) {
        0
    } else {
        1 + word_len(s.drop_first(), ascii_only)
    }
}

/// The words of `s`: its maximal runs of non-space bytes, in order.
pub open spec fn words(s: Seq<u8>, ascii_only: bool) -> Seq<Seq<u8>>
    decreases s.len(),
{
    if s.len() == 0 {
        Seq::empty()
    } else if is_space(s[0], ascii_only) {
        words(s.drop_first(), ascii_only)
    } else {
        let n = word_len(s, ascii_only);
        if n == 0 || n > s.len() {
            Seq::empty()
        } else {
            seq![s.take(n as int)] + words(s.skip(n as int), ascii_only)
        }
    }
}

pub proof fn lemma_word_len_bound(s: Seq<u8>, ascii_only: bool)
    ensures
        word_len(s, ascii_only) <= s.len(),
        s.len() > 0 && !is_space(s[0], ascii_only) ==> word_len(s, ascii_only) > 0,
    decreases s.len(),
{
    if s.len() > 0 && !is_space(s[0], ascii_only) {
        lemma_word_len_bound(s.drop_first(), ascii_only);
    }
}

/// `word_len` of a suffix counts the non-space bytes up to the first space.
proof fn lemma_word_len_scan(s: Seq<u8>, i: int, j: int, ascii_only: bool)
    requires
        0 <= i <= j <= s.len(),
        forall|k: int| i <= k < j ==> !is_space(#[trigger] s[k], ascii_only),
        j == s.len() || is_space(s[j], ascii_only),
    ensures
        word_len(s.skip(i), ascii_only) == j - i,
    decreases j - i,
{
    if i < j {
        lemma_word_len_scan(s, i + 1, j, ascii_only);
        assert(s.skip(i).drop_first() =~= s.skip(i + 1));
    } else {
        if j < s.len() {
            assert(s.skip(i)[0] == s[j]);
        }
    }
}

/// True when the two byte strings are the same.
pub fn bytes_eq(a: &[u8], b: &[u8]) -> (r: bool)
    ensures
        r == (a@ == b@),
{
    if a.len() != b.len() {
        return false;
    }
    let mut i: usize = 0;
    while i < a.len()
        invariant
            i <= a@.len() == b@.len(),
            forall|k: int| 0 <= k < i ==> a@[k] == b@[k],
        decreases a@.len() - i,
    {
        if a[i] != b[i] {
            return false;
        }
        i = i + 1;
    }
    assert(a@ =~= b@);
    true
}

/// True when every byte is below 128.
pub fn all_ascii(data: &[u8]) -> (r: bool)
    ensures
        r == is_ascii_bytes(data@),
{
    let mut i: usize = 0;
    while i < data.len()
        invariant
            i <= data@.len(),
            forall|k: int| 0 <= k < i ==> #[trigger] data@[k] < 128,
        decreases data@.len() - i,
    {
        if data[i] >= 128 {
            return false;
        }
        i = i + 1;
    }
    true
}

/// The words of ASCII text are ASCII.
pub proof fn lemma_words_ascii(raw: Seq<u8>, ascii_only: bool)
    requires
        is_ascii_bytes(raw),
    ensures
        forall|i: int|
            0 <= i < words(raw, ascii_only).len() ==> is_ascii_bytes(
                #[trigger] words(raw, ascii_only)[i],
            ),
    decreases raw.len(),
{
    if raw.len() > 0 {
        if is_space(raw[0], ascii_only) {
            lemma_words_ascii(raw.drop_first(), ascii_only);
            assert(words(raw, ascii_only) == words(raw.drop_first(), ascii_only));
        } else {
            let n = word_len(raw, ascii_only);
            lemma_word_len_bound(raw, ascii_only);
            if n > 0 && n <= raw.len() {
                lemma_words_ascii(raw.skip(n as int), ascii_only);
                let w = words(raw, ascii_only);
                let rest = words(raw.skip(n as int), ascii_only);
                assert(w == seq![raw.take(n as int)] + rest);
                assert forall|i: int| 0 <= i < w.len() implies is_ascii_bytes(#[trigger] w[i]) by {
                    if i > 0 {
                        assert(w[i] == rest[i - 1]);
                    } else {
                        let head = raw.take(n as int);
                        assert(w[0] == head);
                        assert forall|k: int| 0 <= k < head.len() implies #[trigger] head[k]
                            < 128 by {
                            assert(head[k] == raw[k]);
                        }
                    }
                }
            }
        }
    }
}

/// The bytes of `data` from `start` up to `end`.
pub fn copy_range(data: &[u8], start: usize, end: usize) -> (r: Vec<u8>)
    requires
        start <= end <= data@.len(),
    ensures
        r@ == data@.subrange(start as int, end as int),
{
    vstd::slice::slice_to_vec(vstd::slice::slice_subrange(data, start, end))
}

/// The words of `data`, split at whitespace as `is_space` says.
pub fn split_words(data: &[u8], ascii_only: bool) -> (r: Vec<Vec<u8>>)
    ensures
        r@.len() == words(data@, ascii_only).len(),
        forall|k: int| 0 <= k < r@.len() ==> #[trigger] r@[k]@ == words(data@, ascii_only)[k],
{
    let len: usize = data.len();
    let mut out: Vec<Vec<u8>> = Vec::new();
    let ghost mut found: Seq<Seq<u8>> = Seq::empty();
    let mut i: usize = 0;
    proof {
        assert(data@.skip(0) =~= data@);
    }
    while i < len
        invariant
            i <= len == data@.len(),
            out@.len() == found.len(),
            forall|k: int| 0 <= k < out@.len() ==> #[trigger] out@[k]@ == found[k],
            words(data@, ascii_only) == found + words(data@.skip(i as int), ascii_only),
        decreases len - i,
    {
        let b: u8 = data[i];
        let ghost rest = data@.skip(i as int);
        if b == 0x20 || b == 0x09 || b == 0x0A || b == 0x0C || b == 0x0D || (!ascii_only && b
            == 0x0B) {
            proof {
                assert(rest.drop_first() =~= data@.skip(i + 1));
            }
            i = i + 1;
        } else {
            let mut j: usize = i + 1;
            while j < len
                invariant
                    i < j <= len == data@.len(),
                    forall|k: int| i <= k < j ==> !is_space(#[trigger] data@[k], ascii_only),
                ensures
                    i < j <= len == data@.len(),
                    forall|k: int| i <= k < j ==> !is_space(#[trigger] data@[k], ascii_only),
                    j == len || is_space(data@[j as int], ascii_only),
                decreases len - j,
            {
                let c: u8 = data[j];
                if c == 0x20 || c == 0x09 || c == 0x0A || c == 0x0C || c == 0x0D || (!ascii_only
                    && c == 0x0B) {
                    break;
                }
                j = j + 1;
            }
            proof {
                lemma_word_len_scan(data@, i as int, j as int, ascii_only);
                let n = (j - i) as nat;
                assert(rest.take(n as int) =~= data@.subrange(i as int, j as int));
                assert(rest.skip(n as int) =~= data@.skip(j as int));
                assert(words(rest, ascii_only) == seq![rest.take(n as int)] + words(
                    rest.skip(n as int),
                    ascii_only,
                ));
                let w = data@.subrange(i as int, j as int);
                assert(found + words(rest, ascii_only) =~= found.push(w) + words(
                    data@.skip(j as int),
                    ascii_only,
                ));
                found = found.push(w);
            }
            let word = copy_range(data, i, j);
            out.push(word);
            i = j;
        }
    }
    proof {
        assert(data@.skip(len as int) =~= Seq::<u8>::empty());
        assert(found + Seq::<Seq<u8>>::empty() =~= found);
    }
    out
}

/// True for an ASCII decimal digit.
pub open spec fn is_digit(b: u8) -> bool {
    0x30 <= b <= 0x39
}

/// The number that the decimal digits `s` spell.
pub open spec fn decimal_value(s: Seq<u8>) -> nat
    decreases s.len(),
{
    if s.len() == 0 {
        0
    } else {
        decimal_value(s.drop_last()) * 10 + (s.last() - 0x30) as nat
    }
}

/// True when every byte of `s` is a decimal digit.
pub open spec fn all_digits(s: Seq<u8>) -> bool {
    forall|i: int| 0 <= i < s.len() ==> is_digit(#[trigger] s[i])
}

/// `s` without the one `+` it may start with.
pub open spec fn unsigned_digits(s: Seq<u8>) -> Seq<u8> {
    if s.len() > 0 && s[0] == 0x2B {
        s.drop_first()
    } else {
        s
    }
}

/// What `u16::from_str` makes of the text `s`: an optional `+`, then one or
/// more decimal digits whose value fits in 16 bits.
pub open spec fn parse_u16(s: Seq<u8>) -> Option<u16> {
    let digits = unsigned_digits(s);
    if digits.len() == 0 || !all_digits(digits) {
        None
    } else if decimal_value(digits) > 0xFFFF {
        None
    } else {
        Some(decimal_value(digits) as u16)
    }
}

/// Parses a port number, or any other `u16`, as `u16::from_str` does.
pub fn parse_u16_text(s: &[u8]) -> (r: Option<u16>)
    ensures
        r == parse_u16(s@),
{
    let len: usize = s.len();
    let mut start: usize = 0;
    if len > 0 && s[0] == 0x2B {
        start = 1;
    }
    let ghost digits = unsigned_digits(s@);
    proof {
        assert(digits =~= s@.skip(start as int));
    }
    if start == len {
        return None;
    }
    let mut acc: u32 = 0;
    let mut i: usize = start;
    proof {
        assert(digits.take(0) =~= Seq::<u8>::empty());
    }
    while i < len
        invariant
            start <= i <= len == s@.len(),
            digits == s@.skip(start as int),
            digits == unsigned_digits(s@),
            forall|k: int| 0 <= k < i - start ==> is_digit(#[trigger] digits[k]),
            acc as nat == if decimal_value(digits.take(i - start)) > 0x10000 {
                0x10000
            } else {
                decimal_value(digits.take(i - start))
            },
        decreases len - i,
    {
        let b: u8 = s[i];
        if b < 0x30 || b > 0x39 {
            proof {
                assert(digits[i - start] == b);
                assert(!all_digits(digits));
            }
            return None;
        }
        proof {
            assert(digits.take(i - start + 1).drop_last() =~= digits.take(i - start));
        }
        let d: u32 = (b - 0x30) as u32;
        acc = acc * 10 + d;
        if acc > 0x10000 {
            acc = 0x10000;
        }
        i = i + 1;
    }
    proof {
        assert(digits.take(len - start) =~= digits);
    }
    if acc > 0xFFFF {
        None
    } else {
        Some(acc as u16)
    }
}

/// Calls `String::from_utf8` on bytes that are ASCII, so valid UTF-8: the
/// documentation promises a `String` holding exactly these bytes.
#[verifier::external_body]
pub(crate) fn string_from_ascii(bytes: Vec<u8>) -> (s: String)
    requires
        is_ascii_bytes(bytes@),
    ensures
        vstd::utf8::encode_utf8(s@) == bytes@,
{
    String::from_utf8(bytes).expect("ASCII is valid UTF-8")
}

} // verus!
