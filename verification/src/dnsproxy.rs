//! The proxy's resolver: a query is a hostname and the families a client
//! will accept, and the reply is a 1 byte record count followed by that
//! many records of a 1 byte family tag and 4 or 16 bytes of address.

use vstd::prelude::*;

use crate::addr::IpAddress;
use crate::codec::{be_bytes, put_be};
use crate::text::{all_ascii, bytes_eq, is_ascii_bytes, split_words, string_from_ascii, words};

verus! {

/// Most addresses a client is given for one name. A client uses the first
/// and keeps the next as a fallback, so a long list is of no use to anyone.
pub const MAX_RECORDS: usize = 4;

/// Record tag of an IPv4 address.
pub const TAG_IPV4: u8 = 4;

/// Record tag of an IPv6 address.
pub const TAG_IPV6: u8 = 6;

/// Which families a client will accept.
#[derive(Clone, Copy, Debug, PartialEq, Eq, Structural)]
pub enum Filter {
    V4,
    V6,
    Any,
}

/// True when a client asking with `filter` will accept `addr`.
pub open spec fn spec_accepts(filter: Filter, addr: IpAddress) -> bool {
    match filter {
        Filter::V4 => addr is V4,
        Filter::V6 => addr is V6,
        Filter::Any => true,
    }
}

impl Filter {
    pub fn accepts(&self, addr: &IpAddress) -> (r: bool)
        ensures
            r == spec_accepts(*self, *addr),
    {
        match self {
            Filter::V4 => addr.is_ipv4(),
            Filter::V6 => addr.is_ipv6(),
            Filter::Any => true,
        }
    }
}

/// Why a query was not understood. A bad query is still answered, with an
/// empty record list.
#[derive(Clone, Copy, Debug, PartialEq, Eq, Structural)]
pub enum QueryError {
    NonAscii,
    /// The query has no words.
    Empty,
    /// The query has a hostname but no type.
    NoType,
    /// The type is not `A`, `AAAA` or `ANY`.
    UnknownType,
    /// Something follows the type.
    TrailingData,
}

/// `A`
pub open spec fn word_a() -> Seq<u8> {
    seq![0x41u8]
}

/// `AAAA`
pub open spec fn word_aaaa() -> Seq<u8> {
    seq![0x41u8, 0x41u8, 0x41u8, 0x41u8]
}

/// `ANY`
pub open spec fn word_any() -> Seq<u8> {
    seq![0x41u8, 0x4Eu8, 0x59u8]
}

/// What a query asks: a hostname and a filter, or why it is not a query.
/// Words are separated by whitespace, the vertical tab included.
pub open spec fn query_spec(raw: Seq<u8>) -> Result<(Seq<u8>, Filter), QueryError> {
    let t = words(raw, false);
    if !is_ascii_bytes(raw) {
        Err(QueryError::NonAscii)
    } else if t.len() == 0 {
        Err(QueryError::Empty)
    } else if t.len() == 1 {
        Err(QueryError::NoType)
    } else if t[1] != word_a() && t[1] != word_aaaa() && t[1] != word_any() {
        Err(QueryError::UnknownType)
    } else if t.len() > 2 {
        Err(QueryError::TrailingData)
    } else {
        Ok(
            (
                t[0],
                if t[1] == word_a() {
                    Filter::V4
                } else if t[1] == word_aaaa() {
                    Filter::V6
                } else {
                    Filter::Any
                },
            ),
        )
    }
}

/// Reads a query: a hostname and its type, `A`, `AAAA` or `ANY`.
pub fn parse_query(raw: &[u8]) -> (r: Result<(String, Filter), QueryError>)
    ensures
        match r {
            Ok((host, filter)) => query_spec(raw@) == Ok::<(Seq<u8>, Filter), QueryError>(
                (vstd::utf8::encode_utf8(host@), filter),
            ),
            Err(e) => query_spec(raw@) == Err::<(Seq<u8>, Filter), QueryError>(e),
        },
{
    if !all_ascii(raw) {
        return Err(QueryError::NonAscii);
    }
    let t = split_words(raw, false);
    let ghost w = words(raw@, false);
    if t.len() == 0 {
        return Err(QueryError::Empty);
    }
    if t.len() == 1 {
        return Err(QueryError::NoType);
    }
    assert(t@[0]@ == w[0] && t@[1]@ == w[1]);
    let a: [u8; 1] = [0x41u8];
    let aaaa: [u8; 4] = [0x41u8, 0x41u8, 0x41u8, 0x41u8];
    let any: [u8; 3] = [0x41u8, 0x4Eu8, 0x59u8];
    assert(a@ =~= word_a());
    assert(aaaa@ =~= word_aaaa());
    assert(any@ =~= word_any());
    let filter = if bytes_eq(t[1].as_slice(), &a) {
        Filter::V4
    } else if bytes_eq(t[1].as_slice(), &aaaa) {
        Filter::V6
    } else if bytes_eq(t[1].as_slice(), &any) {
        Filter::Any
    } else {
        return Err(QueryError::UnknownType);
    };
    if t.len() > 2 {
        return Err(QueryError::TrailingData);
    }
    let host_bytes = vstd::slice::slice_to_vec(t[0].as_slice());
    proof {
        assert forall|k: int| 0 <= k < host_bytes@.len() implies #[trigger] host_bytes@[k] < 128 by {
            crate::text::lemma_words_ascii(raw@, false);
        }
    }
    let host = string_from_ascii(host_bytes);
    Ok((host, filter))
}

/// `s` without repeats, each address where it first appears.
pub open spec fn dedup(s: Seq<IpAddress>) -> Seq<IpAddress>
    decreases s.len(),
{
    if s.len() == 0 {
        Seq::empty()
    } else {
        let d = dedup(s.drop_last());
        if d.contains(s.last()) {
            d
        } else {
            d.push(s.last())
        }
    }
}

/// Every address a lookup found, without duplicates, in the order found.
pub fn dedup_addresses(found: &[IpAddress]) -> (r: Vec<IpAddress>)
    ensures
        r@ == dedup(found@),
{
    let mut addrs: Vec<IpAddress> = Vec::new();
    let mut i: usize = 0;
    while i < found.len()
        invariant
            i <= found@.len(),
            addrs@ == dedup(found@.take(i as int)),
        decreases found@.len() - i,
    {
        let ip = found[i];
        assert(found@.take(i + 1).drop_last() =~= found@.take(i as int));
        let mut seen = false;
        let mut j: usize = 0;
        while j < addrs.len()
            invariant
                j <= addrs@.len(),
                seen == (exists|k: int| 0 <= k < j && addrs@[k] == ip),
            decreases addrs@.len() - j,
        {
            if addrs[j] == ip {
                seen = true;
            }
            j = j + 1;
        }
        if !seen {
            addrs.push(ip);
        }
        i = i + 1;
    }
    assert(found@.take(found@.len() as int) =~= found@);
    addrs
}

/// The addresses of `s` of one family (IPv6 when `v6`) that `filter`
/// accepts, in order.
pub open spec fn of_family(s: Seq<IpAddress>, v6: bool, filter: Filter) -> Seq<IpAddress>
    decreases s.len(),
{
    if s.len() == 0 {
        Seq::empty()
    } else {
        let r = of_family(s.drop_last(), v6, filter);
        if (s.last() is V6) == v6 && spec_accepts(filter, s.last()) {
            r.push(s.last())
        } else {
            r
        }
    }
}

/// The addresses a reply carries: IPv6 first, which is what a client
/// should try first when it can use either, then IPv4, at most
/// `MAX_RECORDS` in all.
pub open spec fn selected(filter: Filter, addrs: Seq<IpAddress>) -> Seq<IpAddress> {
    let all = of_family(addrs, true, filter) + of_family(addrs, false, filter);
    if all.len() > MAX_RECORDS {
        all.take(MAX_RECORDS as int)
    } else {
        all
    }
}

/// One record: the family tag, then the address.
pub open spec fn record(a: IpAddress) -> Seq<u8> {
    match a {
        IpAddress::V4(v4) => seq![TAG_IPV4] + be_bytes(v4.bits as nat, 4),
        IpAddress::V6(v6) => seq![TAG_IPV6] + be_bytes(v6.bits as nat, 16),
    }
}

/// The records of `s`, one after another.
pub open spec fn records(s: Seq<IpAddress>) -> Seq<u8>
    decreases s.len(),
{
    if s.len() == 0 {
        Seq::empty()
    } else {
        records(s.drop_last()) + record(s.last())
    }
}

/// The reply to a query with `filter` whose lookup found `addrs`.
pub open spec fn reply_spec(filter: Filter, addrs: Seq<IpAddress>) -> Seq<u8> {
    seq![selected(filter, addrs).len() as u8] + records(selected(filter, addrs))
}

fn collect_family(addrs: &[IpAddress], v6: bool, filter: Filter, out: &mut Vec<IpAddress>)
    ensures
        final(out)@ == old(out)@ + of_family(addrs@, v6, filter),
{
    let ghost start = out@;
    let mut i: usize = 0;
    while i < addrs.len()
        invariant
            i <= addrs@.len(),
            out@ == start + of_family(addrs@.take(i as int), v6, filter),
        decreases addrs@.len() - i,
    {
        let a = addrs[i];
        assert(addrs@.take(i + 1).drop_last() =~= addrs@.take(i as int));
        if a.is_ipv6() == v6 && filter.accepts(&a) {
            out.push(a);
            assert(out@ =~= start + of_family(addrs@.take(i + 1), v6, filter));
        }
        i = i + 1;
    }
    assert(addrs@.take(addrs@.len() as int) =~= addrs@);
}

/// Encodes the reply to a query with `filter` whose lookup found `addrs`.
pub fn encode(filter: Filter, addrs: &[IpAddress]) -> (r: Vec<u8>)
    ensures
        r@ == reply_spec(filter, addrs@),
{
    let mut chosen: Vec<IpAddress> = Vec::new();
    collect_family(addrs, true, filter, &mut chosen);
    collect_family(addrs, false, filter, &mut chosen);
    assert(chosen@ =~= of_family(addrs@, true, filter) + of_family(addrs@, false, filter));
    chosen.truncate(MAX_RECORDS);
    let ghost sel = chosen@;
    assert(sel =~= selected(filter, addrs@));
    let count: usize = chosen.len();
    let mut buffer: Vec<u8> = Vec::new();
    buffer.push(count as u8);
    let mut i: usize = 0;
    while i < count
        invariant
            i <= count == sel.len() <= MAX_RECORDS,
            chosen@ == sel,
            buffer@ == seq![count as u8] + records(sel.take(i as int)),
        decreases count - i,
    {
        let ghost before = buffer@;
        match chosen[i] {
            IpAddress::V4(v4) => {
                buffer.push(TAG_IPV4);
                put_be(&mut buffer, v4.bits as u128, 4);
            },
            IpAddress::V6(v6) => {
                buffer.push(TAG_IPV6);
                put_be(&mut buffer, v6.bits, 16);
            },
        }
        assert(sel.take(i + 1).drop_last() =~= sel.take(i as int));
        assert(buffer@ =~= before + record(sel[i as int]));
        i = i + 1;
    }
    assert(sel.take(count as int) =~= sel);
    buffer
}

/// The reply to a query that could not be read: no records.
pub fn empty_reply() -> (r: Vec<u8>)
    ensures
        r@ == reply_spec(Filter::Any, Seq::empty()),
{
    let none: Vec<IpAddress> = Vec::new();
    encode(Filter::Any, none.as_slice())
}

/// Each address picked for one family is of that family, accepted by the
/// filter, and found by the lookup.
proof fn lemma_of_family(s: Seq<IpAddress>, v6: bool, filter: Filter)
    ensures
        forall|i: int|
            0 <= i < of_family(s, v6, filter).len() ==> {
                let a = #[trigger] of_family(s, v6, filter)[i];
                &&& (a is V6) == v6
                &&& spec_accepts(filter, a)
                &&& s.contains(a)
            },
        of_family(s, v6, filter).len() <= s.len(),
    decreases s.len(),
{
    if s.len() > 0 {
        lemma_of_family(s.drop_last(), v6, filter);
        let r = of_family(s.drop_last(), v6, filter);
        assert forall|i: int| 0 <= i < of_family(s, v6, filter).len() implies {
            let a = #[trigger] of_family(s, v6, filter)[i];
            &&& (a is V6) == v6
            &&& spec_accepts(filter, a)
            &&& s.contains(a)
        } by {
            if i < r.len() {
                let a = r[i];
                let j = choose|j: int| 0 <= j < s.drop_last().len() && s.drop_last()[j] == a;
                assert(s[j] == a);
            } else {
                assert(s[s.len() - 1] == s.last());
            }
        }
    }
}

/// A reply carries at most `MAX_RECORDS` addresses, each found by the
/// lookup and accepted by the filter, and every IPv6 address comes before
/// every IPv4 one.
pub proof fn lemma_reply_shape(filter: Filter, addrs: Seq<IpAddress>)
    ensures
        selected(filter, addrs).len() <= MAX_RECORDS,
        forall|i: int|
            0 <= i < selected(filter, addrs).len() ==> spec_accepts(
                filter,
                #[trigger] selected(filter, addrs)[i],
            ) && addrs.contains(selected(filter, addrs)[i]),
        forall|i: int, j: int|
            0 <= i < j < selected(filter, addrs).len() && (#[trigger] selected(filter, addrs)[j] is V6)
                ==> (#[trigger] selected(filter, addrs)[i] is V6),
{
    let v6s = of_family(addrs, true, filter);
    let v4s = of_family(addrs, false, filter);
    lemma_of_family(addrs, true, filter);
    lemma_of_family(addrs, false, filter);
    let all = v6s + v4s;
    let sel = selected(filter, addrs);
    assert forall|i: int| 0 <= i < sel.len() implies spec_accepts(filter, #[trigger] sel[i])
        && addrs.contains(sel[i]) && (sel[i] is V6 <==> i < v6s.len()) by {
        assert(sel[i] == all[i]);
        if i < v6s.len() {
            assert(all[i] == v6s[i]);
        } else {
            assert(all[i] == v4s[i - v6s.len()]);
        }
    }
}

/// Without repeats, the addresses are exactly those the lookup found, each
/// once.
pub proof fn lemma_dedup(s: Seq<IpAddress>)
    ensures
        dedup(s).no_duplicates(),
        forall|a: IpAddress| #[trigger] dedup(s).contains(a) <==> s.contains(a),
    decreases s.len(),
{
    broadcast use vstd::seq_lib::group_seq_properties;

    if s.len() > 0 {
        lemma_dedup(s.drop_last());
        let d = dedup(s.drop_last());
        let x = s.last();
        assert(s =~= s.drop_last().push(x));
        if !d.contains(x) {
            assert(dedup(s) == d.push(x));
            assert forall|i: int, j: int|
                0 <= i < dedup(s).len() && 0 <= j < dedup(s).len() && i != j implies dedup(s)[i]
                != dedup(s)[j] by {
                if i == d.len() as int {
                    assert(dedup(s)[j] == d[j]);
                    assert(d.contains(d[j]));
                } else if j == d.len() as int {
                    assert(dedup(s)[i] == d[i]);
                    assert(d.contains(d[i]));
                }
            }
        }
    }
}

} // verus!
