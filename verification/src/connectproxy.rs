//! The proxy's HTTP CONNECT service: it reads a `CONNECT host:port
//! HTTP/1.1` request, and once the host is allowed and reached, relays
//! bytes both ways.

use vstd::prelude::*;

use crate::settings::HttpProxyConfig;
use crate::text::{all_ascii, bytes_eq, copy_range, is_ascii_bytes, parse_u16, parse_u16_text,
    split_words, string_from_ascii, words};

verus! {

/// `\r\n\r\n`, the end of an HTTP header.
pub open spec fn header_terminator() -> Seq<u8> {
    seq![0x0Du8, 0x0Au8, 0x0Du8, 0x0Au8]
}

/// True when the header terminator starts at index `i` of `s`.
pub open spec fn terminator_at(s: Seq<u8>, i: int) -> bool {
    0 <= i && i + 4 <= s.len() && s.subrange(i, i + 4) == header_terminator()
}

/// The first index at or after `i` where the header terminator starts.
pub open spec fn terminator_from(s: Seq<u8>, i: int) -> Option<int>
    decreases s.len() - i,
{
    if i < 0 || i + 4 > s.len() {
        None
    } else if terminator_at(s, i) {
        Some(i)
    } else {
        terminator_from(s, i + 1)
    }
}

/// Where the header ends in `s`: the first index of `\r\n\r\n`.
pub open spec fn header_end(s: Seq<u8>) -> Option<int> {
    terminator_from(s, 0)
}

/// The first index at or after `i` holding the byte `b`.
pub open spec fn index_from(s: Seq<u8>, b: u8, i: int) -> Option<int>
    decreases s.len() - i,
{
    if i < 0 || i >= s.len() {
        None
    } else if s[i] == b {
        Some(i)
    } else {
        index_from(s, b, i + 1)
    }
}

/// The first line of `text`, as `str::lines` gives it: up to the first
/// `\n`, without a `\r` just before it; the whole text when it has no `\n`;
/// nothing when the text is empty.
pub open spec fn first_line(text: Seq<u8>) -> Option<Seq<u8>> {
    if text.len() == 0 {
        None
    } else {
        match index_from(text, 0x0A, 0) {
            None => Some(text),
            Some(i) => {
                let line = text.take(i);
                if line.len() > 0 && line.last() == 0x0D {
                    Some(line.drop_last())
                } else {
                    Some(line)
                }
            },
        }
    }
}

/// `CONNECT`
pub open spec fn word_connect() -> Seq<u8> {
    seq![0x43u8, 0x4Fu8, 0x4Eu8, 0x4Eu8, 0x45u8, 0x43u8, 0x54u8]
}

/// `HTTP/1.1`
pub open spec fn word_http11() -> Seq<u8> {
    seq![0x48u8, 0x54u8, 0x54u8, 0x50u8, 0x2Fu8, 0x31u8, 0x2Eu8, 0x31u8]
}

/// The pieces of `s` between its `:` separators.
pub open spec fn colon_parts(s: Seq<u8>) -> Seq<Seq<u8>>
    decreases s.len(),
{
    match index_from(s, 0x3A, 0) {
        None => seq![s],
        Some(i) => {
            proof {
                lemma_index_from_bound(s, 0x3A, 0);
            }
            seq![s.take(i)] + colon_parts(s.skip(i + 1))
        },
    }
}

/// The reply that tells a client its tunnel is up.
pub open spec fn success_reply() -> Seq<u8> {
    // "HTTP/1.0 200 Connection Established\r\nProxy-agent: Apache/2.4.41 (Ubuntu)\r\n\r\n"
    seq![
        0x48u8, 0x54u8, 0x54u8, 0x50u8, 0x2Fu8, 0x31u8, 0x2Eu8, 0x30u8, 0x20u8, 0x32u8, 0x30u8,
        0x30u8, 0x20u8, 0x43u8, 0x6Fu8, 0x6Eu8, 0x6Eu8, 0x65u8, 0x63u8, 0x74u8, 0x69u8, 0x6Fu8,
        0x6Eu8, 0x20u8, 0x45u8, 0x73u8, 0x74u8, 0x61u8, 0x62u8, 0x6Cu8, 0x69u8, 0x73u8, 0x68u8,
        0x65u8, 0x64u8, 0x0Du8, 0x0Au8, 0x50u8, 0x72u8, 0x6Fu8, 0x78u8, 0x79u8, 0x2Du8, 0x61u8,
        0x67u8, 0x65u8, 0x6Eu8, 0x74u8, 0x3Au8, 0x20u8, 0x41u8, 0x70u8, 0x61u8, 0x63u8, 0x68u8,
        0x65u8, 0x2Fu8, 0x32u8, 0x2Eu8, 0x34u8, 0x2Eu8, 0x34u8, 0x31u8, 0x20u8, 0x28u8, 0x55u8,
        0x62u8, 0x75u8, 0x6Eu8, 0x74u8, 0x75u8, 0x29u8, 0x0Du8, 0x0Au8, 0x0Du8, 0x0Au8,
    ]
}

/// Why a CONNECT request was refused; each ends the tunnel.
#[derive(Clone, Copy, Debug, PartialEq, Eq, Structural)]
pub enum ConnectError {
    /// The header has no end.
    InvalidHeader,
    /// The header has non-ASCII bytes.
    NonAscii,
    /// The header has no first line.
    MissingLine,
    /// The first line is not `CONNECT <host>:<port> HTTP/1.1`.
    InvalidConnectLine,
    /// The target is not one host and one port around a single `:`.
    InvalidHostPort,
    /// The port is not a number from 0 to 65535.
    InvalidPort,
    /// The host is not among the allowed ones.
    HostNotAllowed,
}

/// What a CONNECT request asks for: the host, the port, and the bytes the
/// client sent after the header, which belong to the tunnel.
pub open spec fn connect_request(buf: Seq<u8>) -> Result<(Seq<u8>, u16, Seq<u8>), ConnectError> {
    match header_end(buf) {
        None => Err(ConnectError::InvalidHeader),
        Some(end) => {
            let header = buf.take(end);
            let remainder = buf.skip(end + 4);
            if !is_ascii_bytes(header) {
                Err(ConnectError::NonAscii)
            } else {
                match first_line(header) {
                    None => Err(ConnectError::MissingLine),
                    Some(line) => {
                        let t = words(line, true);
                        if t.len() != 3 || t[0] != word_connect() || t[2] != word_http11() {
                            Err(ConnectError::InvalidConnectLine)
                        } else {
                            let parts = colon_parts(t[1]);
                            if parts.len() != 2 {
                                Err(ConnectError::InvalidHostPort)
                            } else {
                                match parse_u16(parts[1]) {
                                    None => Err(ConnectError::InvalidPort),
                                    Some(port) => Ok((parts[0], port, remainder)),
                                }
                            }
                        }
                    },
                }
            }
        },
    }
}

/// The first index at or after `from` where the header terminator starts.
fn find_terminator(buf: &[u8], from: usize) -> (r: Option<usize>)
    requires
        from <= buf@.len(),
    ensures
        match terminator_from(buf@, from as int) {
            Some(i) => r == Some(i as usize) && from <= i && i + 4 <= buf@.len(),
            None => r is None,
        },
    decreases buf@.len() - from,
{
    let len: usize = buf.len();
    proof {
        lemma_terminator_from_bound(buf@, from as int);
    }
    if len < 4 || from > len - 4 {
        return None;
    }
    let t: [u8; 4] = [0x0Du8, 0x0Au8, 0x0Du8, 0x0Au8];
    assert(t@ =~= header_terminator());
    if bytes_eq(vstd::slice::slice_subrange(buf, from, from + 4), &t) {
        Some(from)
    } else {
        find_terminator(buf, from + 1)
    }
}

/// True once `buf` holds a whole header, that is `\r\n\r\n`. The header is
/// not parsed before then.
pub fn header_complete(buf: &[u8]) -> (r: bool)
    ensures
        r == (header_end(buf@) is Some),
{
    find_terminator(buf, 0).is_some()
}

/// The first index at or after `from` holding `b`.
fn find_byte(s: &[u8], b: u8, from: usize) -> (r: Option<usize>)
    requires
        from <= s@.len(),
    ensures
        match index_from(s@, b, from as int) {
            Some(i) => r == Some(i as usize) && from <= i < s@.len(),
            None => r is None,
        },
    decreases s@.len() - from,
{
    proof {
        lemma_index_from_bound(s@, b, from as int);
    }
    if from >= s.len() {
        None
    } else if s[from] == b {
        Some(from)
    } else {
        find_byte(s, b, from + 1)
    }
}

/// The pieces of `s` between its `:` separators.
fn split_colons(s: &[u8]) -> (r: Vec<Vec<u8>>)
    ensures
        r@.len() == colon_parts(s@).len(),
        forall|k: int| 0 <= k < r@.len() ==> #[trigger] r@[k]@ == colon_parts(s@)[k],
    decreases s@.len(),
{
    let len: usize = s.len();
    match find_byte(s, 0x3A, 0) {
        None => {
            let mut r: Vec<Vec<u8>> = Vec::new();
            r.push(vstd::slice::slice_to_vec(s));
            r
        },
        Some(i) => {
            let head = copy_range(s, 0, i);
            let rest_slice = vstd::slice::slice_subrange(s, i + 1, s.len());
            assert(rest_slice@ =~= s@.skip(i + 1));
            assert(head@ =~= s@.take(i as int));
            let rest = split_colons(rest_slice);
            let mut r: Vec<Vec<u8>> = Vec::new();
            r.push(head);
            let mut k: usize = 0;
            while k < rest.len()
                invariant
                    k <= rest@.len(),
                    r@.len() == k + 1,
                    r@[0]@ == s@.take(i as int),
                    forall|j: int| 0 <= j < k ==> #[trigger] r@[j + 1]@ == rest@[j]@,
                decreases rest@.len() - k,
            {
                r.push(copy_range(rest[k].as_slice(), 0, rest[k].len()));
                proof {
                    assert(rest@[k as int]@.subrange(0, rest@[k as int]@.len() as int) =~= rest@[k as int]@);
                }
                k = k + 1;
            }
            proof {
                assert(index_from(s@, 0x3A, 0) == Some(i as int));
                let parts = colon_parts(s@);
                assert(parts == seq![s@.take(i as int)] + colon_parts(s@.skip(i + 1)));
                assert forall|j: int| 0 <= j < r@.len() implies #[trigger] r@[j]@ == parts[j] by {
                    if j > 0 {
                        assert(r@[(j - 1) + 1]@ == rest@[j - 1]@);
                    }
                }
            }
            r
        },
    }
}

/// The host and port that a CONNECT request names.
pub struct ConnectHeader {
    pub host: String,
    pub port: u16,
}

/// Reads a CONNECT request from `buf`. In HTTP the client may send data
/// beyond the header before it hears back; whatever followed the header
/// comes back as the remainder.
pub fn parse_header(buf: &[u8]) -> (r: Result<(ConnectHeader, Vec<u8>), ConnectError>)
    ensures
        match r {
            Ok((header, remainder)) => connect_request(buf@) == Ok::<
                (Seq<u8>, u16, Seq<u8>),
                ConnectError,
            >((vstd::utf8::encode_utf8(header.host@), header.port, remainder@)),
            Err(e) => connect_request(buf@) == Err::<(Seq<u8>, u16, Seq<u8>), ConnectError>(e),
        },
{
    let len: usize = buf.len();
    let end: usize = match find_terminator(buf, 0) {
        None => {
            return Err(ConnectError::InvalidHeader);
        },
        Some(end) => end,
    };
    let header = vstd::slice::slice_subrange(buf, 0, end);
    let remainder = copy_range(buf, end + 4, buf.len());
    assert(header@ =~= buf@.take(end as int));
    assert(remainder@ =~= buf@.skip(end + 4));
    if !all_ascii(header) {
        return Err(ConnectError::NonAscii);
    }
    if header.len() == 0 {
        return Err(ConnectError::MissingLine);
    }
    let line: Vec<u8> = match find_byte(header, 0x0A, 0) {
        None => vstd::slice::slice_to_vec(header),
        Some(i) => {
            if i > 0 && header[i - 1] == 0x0D {
                let l = copy_range(header, 0, i - 1);
                assert(l@ =~= header@.take(i as int).drop_last());
                l
            } else {
                let l = copy_range(header, 0, i);
                assert(l@ =~= header@.take(i as int));
                l
            }
        },
    };
    let t = split_words(line.as_slice(), true);
    let ghost tw = words(line@, true);
    let connect: [u8; 7] = [0x43u8, 0x4Fu8, 0x4Eu8, 0x4Eu8, 0x45u8, 0x43u8, 0x54u8];
    let http11: [u8; 8] = [0x48u8, 0x54u8, 0x54u8, 0x50u8, 0x2Fu8, 0x31u8, 0x2Eu8, 0x31u8];
    assert(connect@ =~= word_connect());
    assert(http11@ =~= word_http11());
    if t.len() != 3 {
        return Err(ConnectError::InvalidConnectLine);
    }
    assert(t@[0]@ == tw[0] && t@[1]@ == tw[1] && t@[2]@ == tw[2]);
    if !bytes_eq(t[0].as_slice(), &connect) || !bytes_eq(t[2].as_slice(), &http11) {
        return Err(ConnectError::InvalidConnectLine);
    }
    let parts = split_colons(t[1].as_slice());
    if parts.len() != 2 {
        return Err(ConnectError::InvalidHostPort);
    }
    let port: u16 = match parse_u16_text(parts[1].as_slice()) {
        None => {
            return Err(ConnectError::InvalidPort);
        },
        Some(p) => p,
    };
    let host_bytes = vstd::slice::slice_to_vec(parts[0].as_slice());
    proof {
        assert forall|k: int| 0 <= k < line@.len() implies #[trigger] line@[k] < 128 by {
            assert(line@[k] == header@[k]);
        }
        crate::text::lemma_words_ascii(line@, true);
        assert(is_ascii_bytes(tw[1]));
        lemma_first_part_prefix(tw[1]);
        assert forall|k: int| 0 <= k < host_bytes@.len() implies #[trigger] host_bytes@[k] < 128 by {
            assert(host_bytes@[k] == tw[1][k]);
        }
    }
    let host = string_from_ascii(host_bytes);
    Ok((ConnectHeader { host, port }, remainder))
}

/// The first `:`-separated piece of `s` is a prefix of `s`.
pub proof fn lemma_first_part_prefix(s: Seq<u8>)
    ensures
        colon_parts(s)[0].len() <= s.len(),
        forall|k: int| 0 <= k < colon_parts(s)[0].len() ==> #[trigger] colon_parts(s)[0][k] == s[k],
{
    match index_from(s, 0x3A, 0) {
        None => {},
        Some(i) => {
            lemma_index_from_bound(s, 0x3A, 0);
        },
    }
}

/// A found terminator lies inside the text, at or after the start.
pub proof fn lemma_terminator_from_bound(s: Seq<u8>, i: int)
    ensures
        terminator_from(s, i) matches Some(j) ==> i <= j && j + 4 <= s.len() && terminator_at(s, j),
    decreases s.len() - i,
{
    if 0 <= i && i + 4 <= s.len() && !terminator_at(s, i) {
        lemma_terminator_from_bound(s, i + 1);
    }
}

/// A found index lies inside the text, at or after the start.
pub proof fn lemma_index_from_bound(s: Seq<u8>, b: u8, i: int)
    ensures
        index_from(s, b, i) matches Some(j) ==> i <= j < s.len() && s[j] == b,
    decreases s.len() - i,
{
    if 0 <= i < s.len() && s[i] != b {
        lemma_index_from_bound(s, b, i + 1);
    }
}

/// The bytes of the reply that tells a client its tunnel is up.
pub fn success_reply_bytes() -> (r: Vec<u8>)
    ensures
        r@ == success_reply(),
{
    let v: Vec<u8> = vec![
        0x48u8, 0x54u8, 0x54u8, 0x50u8, 0x2Fu8, 0x31u8, 0x2Eu8, 0x30u8, 0x20u8, 0x32u8, 0x30u8,
        0x30u8, 0x20u8, 0x43u8, 0x6Fu8, 0x6Eu8, 0x6Eu8, 0x65u8, 0x63u8, 0x74u8, 0x69u8, 0x6Fu8,
        0x6Eu8, 0x20u8, 0x45u8, 0x73u8, 0x74u8, 0x61u8, 0x62u8, 0x6Cu8, 0x69u8, 0x73u8, 0x68u8,
        0x65u8, 0x64u8, 0x0Du8, 0x0Au8, 0x50u8, 0x72u8, 0x6Fu8, 0x78u8, 0x79u8, 0x2Du8, 0x61u8,
        0x67u8, 0x65u8, 0x6Eu8, 0x74u8, 0x3Au8, 0x20u8, 0x41u8, 0x70u8, 0x61u8, 0x63u8, 0x68u8,
        0x65u8, 0x2Fu8, 0x32u8, 0x2Eu8, 0x34u8, 0x2Eu8, 0x34u8, 0x31u8, 0x20u8, 0x28u8, 0x55u8,
        0x62u8, 0x75u8, 0x6Eu8, 0x74u8, 0x75u8, 0x29u8, 0x0Du8, 0x0Au8, 0x0Du8, 0x0Au8,
    ];
    assert(v@ =~= success_reply());
    v
}

/// Where a CONNECT tunnel stands.
#[derive(Clone, Copy, Debug, PartialEq, Eq, Structural)]
pub enum Phase {
    /// Reading the request header.
    Buffering,
    /// The header has been read; the upstream connection is being made.
    Connecting,
    /// Relaying bytes to and from the upstream host.
    Relaying,
}

/// What to do with bytes that a client sent into a CONNECT tunnel.
pub enum ConnectStep {
    /// Write these bytes to the upstream host.
    Forward(Vec<u8>),
    /// Nothing yet: keep reading the header.
    Wait,
    /// Connect to `header.host` on `header.port`, write `remainder` to it if
    /// it is not empty, and tell the client with the success reply.
    Connect { header: ConnectHeader, remainder: Vec<u8> },
}

/// The decisions of a CONNECT tunnel: the header read so far and the phase.
pub struct ConnectState {
    buffer: Vec<u8>,
    phase: Phase,
}

impl ConnectState {
    pub closed spec fn spec_phase(&self) -> Phase {
        self.phase
    }

    /// The part of the header read so far.
    pub closed spec fn spec_buffer(&self) -> Seq<u8> {
        self.buffer@
    }

    /// A tunnel that has read nothing.
    pub fn new() -> (s: Self)
        ensures
            s.spec_phase() == Phase::Buffering,
            s.spec_buffer() == Seq::<u8>::empty(),
    {
        ConnectState { buffer: Vec::new(), phase: Phase::Buffering }
    }

    /// Adds `data` to the bytes held.
    fn hold(&mut self, data: &[u8])
        ensures
            final(self).spec_buffer() == old(self).spec_buffer() + data@,
            final(self).spec_phase() == old(self).spec_phase(),
    {
        let ghost before = self.buffer@;
        let mut i: usize = 0;
        while i < data.len()
            invariant
                i <= data@.len(),
                self.phase == old(self).phase,
                self.buffer@ == before + data@.take(i as int),
            decreases data@.len() - i,
        {
            self.buffer.push(data[i]);
            i = i + 1;
            assert(self.buffer@ =~= before + data@.take(i as int));
        }
        assert(data@.take(data@.len() as int) =~= data@);
    }

    /// Takes bytes a client sent. While relaying they go to the upstream
    /// host, after any still held. While reading the header they are added
    /// to it; once the header is whole it is parsed, and its host checked
    /// against `config`, and what is held is let go (what followed the
    /// header is the step's remainder). Bytes that arrive while the
    /// connection is being made are held until it is made.
    pub fn on_client_data(&mut self, data: &[u8], config: &HttpProxyConfig) -> (r: Result<
        ConnectStep,
        ConnectError,
    >)
        ensures
            old(self).spec_phase() == Phase::Relaying ==> (r matches Ok(ConnectStep::Forward(bytes))
                && bytes@ == old(self).spec_buffer() + data@ && final(self).spec_phase()
                == Phase::Relaying && final(self).spec_buffer() == Seq::<u8>::empty()),
            old(self).spec_phase() == Phase::Connecting ==> (r matches Ok(ConnectStep::Wait)
                && final(self).spec_phase() == Phase::Connecting && final(self).spec_buffer()
                == old(self).spec_buffer() + data@),
            old(self).spec_phase() == Phase::Buffering ==> ({
                let buf = old(self).spec_buffer() + data@;
                if header_end(buf) is None {
                    &&& r matches Ok(ConnectStep::Wait)
                    &&& final(self).spec_phase() == Phase::Buffering
                    &&& final(self).spec_buffer() == buf
                } else {
                    &&& final(self).spec_phase() == Phase::Connecting
                    &&& final(self).spec_buffer() == Seq::<u8>::empty()
                    &&& match connect_request(buf) {
                        Err(e) => r == Err::<ConnectStep, ConnectError>(e),
                        Ok((host, port, remainder)) => if !config.allows_host(host) {
                            r == Err::<ConnectStep, ConnectError>(ConnectError::HostNotAllowed)
                        } else {
                            r matches Ok(ConnectStep::Connect { header, remainder: rest })
                                && vstd::utf8::encode_utf8(header.host@) == host && header.port
                                == port && rest@ == remainder
                        },
                    }
                }
            }),
    {
        match self.phase {
            Phase::Relaying => {
                self.hold(data);
                let mut out: Vec<u8> = Vec::new();
                std::mem::swap(&mut out, &mut self.buffer);
                return Ok(ConnectStep::Forward(out));
            },
            Phase::Connecting => {
                self.hold(data);
                return Ok(ConnectStep::Wait);
            },
            Phase::Buffering => {},
        }
        self.hold(data);
        if !header_complete(self.buffer.as_slice()) {
            return Ok(ConnectStep::Wait);
        }
        self.phase = Phase::Connecting;
        let mut buf: Vec<u8> = Vec::new();
        std::mem::swap(&mut buf, &mut self.buffer);
        let (header, remainder) = parse_header(buf.as_slice())?;
        if !config.allows(&header.host) {
            return Err(ConnectError::HostNotAllowed);
        }
        Ok(ConnectStep::Connect { header, remainder })
    }

    /// The upstream connection is made: from now on bytes are relayed.
    /// Hands back, to be written upstream now, the bytes that arrived while
    /// it was being made.
    pub fn connected(&mut self) -> (pending: Vec<u8>)
        ensures
            final(self).spec_phase() == Phase::Relaying,
            pending@ == old(self).spec_buffer(),
            final(self).spec_buffer() == Seq::<u8>::empty(),
    {
        self.phase = Phase::Relaying;
        let mut out: Vec<u8> = Vec::new();
        std::mem::swap(&mut out, &mut self.buffer);
        out
    }
}

/// Nothing the client sent is lost or reordered by reading a CONNECT
/// request: the header, the terminator and the remainder make up the
/// bytes received, and the header holds no earlier terminator.
pub proof fn lemma_connect_remainder(buf: Seq<u8>)
    requires
        connect_request(buf) is Ok,
    ensures
        ({
            let end = header_end(buf)->Some_0;
            &&& buf.take(end) + header_terminator() + connect_request(buf)->Ok_0.2 == buf
            &&& forall|i: int| 0 <= i < end ==> !terminator_at(buf, i)
        }),
{
    let end = header_end(buf)->Some_0;
    lemma_terminator_from_bound(buf, 0);
    lemma_terminator_first(buf, 0);
    assert(buf.subrange(end, end + 4) == header_terminator());
    assert(buf.take(end) + header_terminator() + buf.skip(end + 4) =~= buf);
}

/// The terminator found from `i` is the first one at or after `i`.
proof fn lemma_terminator_first(s: Seq<u8>, i: int)
    requires
        0 <= i,
    ensures
        terminator_from(s, i) matches Some(j) ==> forall|k: int| i <= k < j ==> !terminator_at(s, k),
    decreases s.len() - i,
{
    if i + 4 <= s.len() && !terminator_at(s, i) {
        lemma_terminator_first(s, i + 1);
    }
}

} // verus!
