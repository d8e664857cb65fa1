//! The command language a client speaks before its link carries data.
//!
//! A command is one line of ASCII text, at most 255 bytes:
//!
//! - `PING<anything>` is answered `PONG<anything>`;
//! - `NEWADDR` asks for an address on the private network and its passcode;
//! - `BIND <passcode> UDP <port>` claims a port on that address;
//! - `PROXY IPV4|IPV6 TCP <address> <port>` reaches one of the proxy's own
//!   services.
//!
//! Parsing is split where the text of an IP address has to be read, which
//! the caller does: `parse_command` reads the words, `proxy_target` takes
//! the address that was read and finishes a PROXY command.

use vstd::prelude::*;
use vstd::string::StringSliceAdditionalSpecFns;

use crate::addr::{IpAddress, SocketAddress};
use crate::net::code::{Passcode, PasscodeError, parse_passcode, is_passcode_char};
use crate::service::{OwnService, route_service, spec_connect_proxy, spec_dns_proxy};
use crate::text::{all_ascii, bytes_eq, copy_range, is_ascii_bytes, parse_u16, parse_u16_text,
    split_words, string_from_ascii, words};

verus! {

/// Longest command the relay accepts, in bytes.
pub const MAX_COMMAND_LEN: usize = 255;

/// Largest partial command held while the rest of its line arrives.
pub const MAX_COMMAND_SIZE: usize = 4096;

/// `PING`
pub open spec fn word_ping() -> Seq<u8> {
    seq![0x50u8, 0x49u8, 0x4Eu8, 0x47u8]
}

/// `PONG`
pub open spec fn word_pong() -> Seq<u8> {
    seq![0x50u8, 0x4Fu8, 0x4Eu8, 0x47u8]
}

/// `PROXY`
pub open spec fn word_proxy() -> Seq<u8> {
    seq![0x50u8, 0x52u8, 0x4Fu8, 0x58u8, 0x59u8]
}

/// `IPV4`
pub open spec fn word_ipv4() -> Seq<u8> {
    seq![0x49u8, 0x50u8, 0x56u8, 0x34u8]
}

/// `IPV6`
pub open spec fn word_ipv6() -> Seq<u8> {
    seq![0x49u8, 0x50u8, 0x56u8, 0x36u8]
}

/// `TCP`
pub open spec fn word_tcp() -> Seq<u8> {
    seq![0x54u8, 0x43u8, 0x50u8]
}

/// `UDP`
pub open spec fn word_udp() -> Seq<u8> {
    seq![0x55u8, 0x44u8, 0x50u8]
}

/// `NEWADDR`
pub open spec fn word_newaddr() -> Seq<u8> {
    seq![0x4Eu8, 0x45u8, 0x57u8, 0x41u8, 0x44u8, 0x44u8, 0x52u8]
}

/// `BIND`
pub open spec fn word_bind() -> Seq<u8> {
    seq![0x42u8, 0x49u8, 0x4Eu8, 0x44u8]
}

/// `PROXY OK`
pub open spec fn reply_proxy_ok() -> Seq<u8> {
    seq![0x50u8, 0x52u8, 0x4Fu8, 0x58u8, 0x59u8, 0x20u8, 0x4Fu8, 0x4Bu8]
}

/// `BIND OK`
pub open spec fn reply_bind_ok() -> Seq<u8> {
    seq![0x42u8, 0x49u8, 0x4Eu8, 0x44u8, 0x20u8, 0x4Fu8, 0x4Bu8]
}

/// `BIND FAILED`
pub open spec fn reply_bind_failed() -> Seq<u8> {
    seq![0x42u8, 0x49u8, 0x4Eu8, 0x44u8, 0x20u8, 0x46u8, 0x41u8, 0x49u8, 0x4Cu8, 0x45u8, 0x44u8]
}

/// Why a command was refused. Every refusal ends the client's session.
#[derive(Clone, Copy, Debug, PartialEq, Eq, Structural)]
pub enum CommandError {
    /// The command contains non-ASCII bytes.
    NonAscii,
    /// The command is longer than 255 bytes.
    TooLong,
    /// The command has no words.
    Empty,
    /// The first word is not a command.
    Unrecognized,
    /// PROXY needs exactly four arguments.
    BadProxyArgs,
    /// PROXY's protocol is neither `IPV4` nor `IPV6`.
    BadProtocol,
    /// PROXY was asked for UDP, which is carried on a bound link instead.
    UdpNotProxied,
    /// PROXY's transport is neither `TCP` nor `UDP`.
    BadTransport,
    /// PROXY's address is not an IP address.
    BadAddress,
    /// PROXY's address is not of the family its protocol names.
    FamilyMismatch,
    /// PROXY's port is not a number from 0 to 65535.
    BadProxyPort,
    /// PROXY arrived when the link has nowhere to send replies.
    ProxyRelayMissing,
    /// PROXY named a place other than the proxy's own services.
    NotOwnService,
    /// NEWADDR takes no arguments.
    BadNewAddrArgs,
    /// BIND arrived when the link has nowhere to send datagrams.
    BindRelayMissing,
    /// BIND needs exactly three arguments.
    BadBindArgs,
    /// BIND's passcode is malformed.
    BadPasscode(PasscodeError),
    /// BIND's transport is not `UDP`.
    OnlyUdp,
    /// BIND's port is not a number from 0 to 65535.
    BadBindPort,
}

/// What a well-formed command asks for.
pub enum SpecCommand {
    Ping { payload: Seq<u8> },
    Proxy { want_ipv6: bool, address: Seq<u8>, port_text: Seq<u8> },
    NewAddr,
    Bind { passcode: Seq<u8>, port: u16 },
}

/// What a well-formed command asks for.
pub enum Command {
    /// Answer `PONG` followed by `payload`, the bytes after `PING`.
    Ping { payload: Vec<u8> },
    /// Reach one of the proxy's own services; the address and port are
    /// still text.
    Proxy { want_ipv6: bool, address: Vec<u8>, port_text: Vec<u8> },
    /// Hand out a fresh address and passcode.
    NewAddr,
    /// Claim `port` on the address `passcode` was issued for.
    Bind { passcode: Passcode, port: u16 },
}

impl View for Command {
    type V = SpecCommand;

    open spec fn view(&self) -> SpecCommand {
        match self {
            Command::Ping { payload } => SpecCommand::Ping { payload: payload@ },
            Command::Proxy { want_ipv6, address, port_text } => SpecCommand::Proxy {
                want_ipv6: *want_ipv6,
                address: address@,
                port_text: port_text@,
            },
            Command::NewAddr => SpecCommand::NewAddr,
            Command::Bind { passcode, port } => SpecCommand::Bind {
                passcode: passcode@,
                port: *port,
            },
        }
    }
}

/// What the words of a PROXY command ask for.
pub open spec fn proxy_command(t: Seq<Seq<u8>>) -> Result<SpecCommand, CommandError> {
    if t.len() != 5 {
        Err(CommandError::BadProxyArgs)
    } else if t[1] != word_ipv4() && t[1] != word_ipv6() {
        Err(CommandError::BadProtocol)
    } else if t[2] == word_udp() {
        Err(CommandError::UdpNotProxied)
    } else if t[2] != word_tcp() {
        Err(CommandError::BadTransport)
    } else {
        Ok(SpecCommand::Proxy { want_ipv6: t[1] == word_ipv6(), address: t[3], port_text: t[4] })
    }
}

/// What the words of a BIND command ask for. A link with nowhere to send
/// datagrams is refused before the words are looked at.
pub open spec fn bind_command(t: Seq<Seq<u8>>, has_relay: bool) -> Result<
    SpecCommand,
    CommandError,
> {
    if !has_relay {
        Err(CommandError::BindRelayMissing)
    } else if t.len() != 4 {
        Err(CommandError::BadBindArgs)
    } else {
        match parse_passcode(t[1]) {
            Err(e) => Err(CommandError::BadPasscode(e)),
            Ok(p) => if t[2] != word_udp() {
                Err(CommandError::OnlyUdp)
            } else {
                match parse_u16(t[3]) {
                    None => Err(CommandError::BadBindPort),
                    Some(port) => Ok(SpecCommand::Bind { passcode: p, port }),
                }
            },
        }
    }
}

/// What the command line `raw` asks for, on a link that has (`has_relay`)
/// or has not somewhere to send replies. Words are separated by
/// whitespace, the vertical tab included.
pub open spec fn command_spec(raw: Seq<u8>, has_relay: bool) -> Result<SpecCommand, CommandError> {
    if !is_ascii_bytes(raw) {
        Err(CommandError::NonAscii)
    } else if raw.len() > MAX_COMMAND_LEN {
        Err(CommandError::TooLong)
    } else if raw.len() >= 4 && raw.take(4) == word_ping() {
        Ok(SpecCommand::Ping { payload: raw.skip(4) })
    } else {
        let t = words(raw, false);
        if t.len() < 1 {
            Err(CommandError::Empty)
        } else if t[0] == word_proxy() {
            proxy_command(t)
        } else if t[0] == word_newaddr() {
            if t.len() != 1 {
                Err(CommandError::BadNewAddrArgs)
            } else {
                Ok(SpecCommand::NewAddr)
            }
        } else if t[0] == word_bind() {
            bind_command(t, has_relay)
        } else {
            Err(CommandError::Unrecognized)
        }
    }
}

/// Reads a command line. `has_relay` says whether the link has somewhere
/// to send replies, which BIND needs before it looks at its arguments.
pub fn parse_command(raw: &[u8], has_relay: bool) -> (r: Result<Command, CommandError>)
    ensures
        match r {
            Ok(c) => command_spec(raw@, has_relay) == Ok::<SpecCommand, CommandError>(c@),
            Err(e) => command_spec(raw@, has_relay) == Err::<SpecCommand, CommandError>(e),
        },
{
    if !all_ascii(raw) {
        return Err(CommandError::NonAscii);
    }
    let len: usize = raw.len();
    if len > MAX_COMMAND_LEN {
        return Err(CommandError::TooLong);
    }
    if len >= 4 {
        let ping: [u8; 4] = [0x50u8, 0x49u8, 0x4Eu8, 0x47u8];
        assert(ping@ =~= word_ping());
        if bytes_eq(vstd::slice::slice_subrange(raw, 0, 4), &ping) {
            assert(raw@.subrange(0, 4) =~= raw@.take(4));
            let payload = copy_range(raw, 4, len);
            assert(payload@ =~= raw@.skip(4));
            return Ok(Command::Ping { payload });
        }
        assert(raw@.subrange(0, 4) =~= raw@.take(4));
    }
    let t = split_words(raw, false);
    let ghost tw = words(raw@, false);
    if t.len() < 1 {
        return Err(CommandError::Empty);
    }
    let proxy: [u8; 5] = [0x50u8, 0x52u8, 0x4Fu8, 0x58u8, 0x59u8];
    let newaddr: [u8; 7] = [0x4Eu8, 0x45u8, 0x57u8, 0x41u8, 0x44u8, 0x44u8, 0x52u8];
    let bind: [u8; 4] = [0x42u8, 0x49u8, 0x4Eu8, 0x44u8];
    assert(proxy@ =~= word_proxy());
    assert(newaddr@ =~= word_newaddr());
    assert(bind@ =~= word_bind());
    assert(t@[0]@ == tw[0]);
    if bytes_eq(t[0].as_slice(), &proxy) {
        parse_proxy(&t)
    } else if bytes_eq(t[0].as_slice(), &newaddr) {
        if t.len() != 1 {
            Err(CommandError::BadNewAddrArgs)
        } else {
            Ok(Command::NewAddr)
        }
    } else if bytes_eq(t[0].as_slice(), &bind) {
        parse_bind(&t, has_relay)
    } else {
        Err(CommandError::Unrecognized)
    }
}

/// The views of a list of words.
pub open spec fn words_view(t: Seq<Vec<u8>>) -> Seq<Seq<u8>> {
    Seq::new(t.len(), |i: int| t[i]@)
}

fn parse_proxy(t: &Vec<Vec<u8>>) -> (r: Result<Command, CommandError>)
    ensures
        match r {
            Ok(c) => proxy_command(words_view(t@)) == Ok::<SpecCommand, CommandError>(c@),
            Err(e) => proxy_command(words_view(t@)) == Err::<SpecCommand, CommandError>(e),
        },
{
    let ghost w = words_view(t@);
    if t.len() != 5 {
        return Err(CommandError::BadProxyArgs);
    }
    let ipv4: [u8; 4] = [0x49u8, 0x50u8, 0x56u8, 0x34u8];
    let ipv6: [u8; 4] = [0x49u8, 0x50u8, 0x56u8, 0x36u8];
    let tcp: [u8; 3] = [0x54u8, 0x43u8, 0x50u8];
    let udp: [u8; 3] = [0x55u8, 0x44u8, 0x50u8];
    assert(ipv4@ =~= word_ipv4());
    assert(ipv6@ =~= word_ipv6());
    assert(tcp@ =~= word_tcp());
    assert(udp@ =~= word_udp());
    assert(w[1] == t@[1]@ && w[2] == t@[2]@ && w[3] == t@[3]@ && w[4] == t@[4]@);
    let want_ipv6 = if bytes_eq(t[1].as_slice(), &ipv4) {
        false
    } else if bytes_eq(t[1].as_slice(), &ipv6) {
        true
    } else {
        return Err(CommandError::BadProtocol);
    };
    if bytes_eq(t[2].as_slice(), &udp) {
        return Err(CommandError::UdpNotProxied);
    }
    if !bytes_eq(t[2].as_slice(), &tcp) {
        return Err(CommandError::BadTransport);
    }
    let address = copy_range(t[3].as_slice(), 0, t[3].len());
    let port_text = copy_range(t[4].as_slice(), 0, t[4].len());
    assert(address@ =~= t@[3]@);
    assert(port_text@ =~= t@[4]@);
    Ok(Command::Proxy { want_ipv6, address, port_text })
}

fn parse_bind(t: &Vec<Vec<u8>>, has_relay: bool) -> (r: Result<Command, CommandError>)
    ensures
        match r {
            Ok(c) => bind_command(words_view(t@), has_relay) == Ok::<SpecCommand, CommandError>(
                c@,
            ),
            Err(e) => bind_command(words_view(t@), has_relay) == Err::<SpecCommand, CommandError>(
                e,
            ),
        },
{
    let ghost w = words_view(t@);
    if !has_relay {
        return Err(CommandError::BindRelayMissing);
    }
    if t.len() != 4 {
        return Err(CommandError::BadBindArgs);
    }
    assert(w[1] == t@[1]@ && w[2] == t@[2]@ && w[3] == t@[3]@);
    let passcode = match Passcode::parse_bytes(t[1].as_slice()) {
        Ok(p) => p,
        Err(e) => {
            return Err(CommandError::BadPasscode(e));
        },
    };
    let udp: [u8; 3] = [0x55u8, 0x44u8, 0x50u8];
    assert(udp@ =~= word_udp());
    if !bytes_eq(t[2].as_slice(), &udp) {
        return Err(CommandError::OnlyUdp);
    }
    match parse_u16_text(t[3].as_slice()) {
        Some(port) => Ok(Command::Bind { passcode, port }),
        None => Err(CommandError::BadBindPort),
    }
}

/// Where a PROXY command leads once its address has been read (`None` when
/// the text was not an IP address). The checks run in this order: the
/// address, its family against the protocol word, the port, the link, and
/// last the place itself.
pub open spec fn proxy_target_spec(
    want_ipv6: bool,
    address: Option<IpAddress>,
    port: Seq<u8>,
    has_relay: bool,
) -> Result<OwnService, CommandError> {
    match address {
        None => Err(CommandError::BadAddress),
        Some(ip) => if (ip is V6) != want_ipv6 {
            Err(CommandError::FamilyMismatch)
        } else {
            match parse_u16(port) {
                None => Err(CommandError::BadProxyPort),
                Some(p) => if !has_relay {
                    Err(CommandError::ProxyRelayMissing)
                } else if (SocketAddress { ip, port: p }) == spec_connect_proxy() {
                    Ok(OwnService::Connect)
                } else if (SocketAddress { ip, port: p }) == spec_dns_proxy() {
                    Ok(OwnService::Dns)
                } else {
                    Err(CommandError::NotOwnService)
                },
            }
        },
    }
}

/// Finishes a PROXY command: `address` is its address word as read by the
/// caller, `None` when that word is not an IP address.
pub fn proxy_target(want_ipv6: bool, address: Option<IpAddress>, port: &[u8], has_relay: bool) -> (r:
    Result<OwnService, CommandError>)
    ensures
        r == proxy_target_spec(want_ipv6, address, port@, has_relay),
{
    let ip = match address {
        None => {
            return Err(CommandError::BadAddress);
        },
        Some(ip) => ip,
    };
    if ip.is_ipv6() != want_ipv6 {
        return Err(CommandError::FamilyMismatch);
    }
    let p: u16 = match parse_u16_text(port) {
        None => {
            return Err(CommandError::BadProxyPort);
        },
        Some(p) => p,
    };
    if !has_relay {
        return Err(CommandError::ProxyRelayMissing);
    }
    match route_service(SocketAddress::new(ip, p)) {
        Ok(service) => Ok(service),
        Err(_) => Err(CommandError::NotOwnService),
    }
}

/// An answer to a command, other than the one to NEWADDR, which carries an
/// address and a passcode.
pub enum Reply {
    /// `PONG` followed by the bytes that followed `PING`.
    Pong { payload: Vec<u8> },
    /// `PROXY OK`
    ProxyOk,
    /// `BIND OK`
    BindOk,
    /// `BIND FAILED`: the passcode is unknown or expired, or the port is
    /// taken; the client may try again.
    BindFailed,
}

/// The text of an answer.
pub open spec fn reply_bytes(r: Reply) -> Seq<u8> {
    match r {
        Reply::Pong { payload } => word_pong() + payload@,
        Reply::ProxyOk => reply_proxy_ok(),
        Reply::BindOk => reply_bind_ok(),
        Reply::BindFailed => reply_bind_failed(),
    }
}

/// The text of an answer. A `PONG` payload must be ASCII, as any payload
/// of a parsed `PING` is.
pub fn reply_text(reply: Reply) -> (s: String)
    requires
        reply matches Reply::Pong { payload } ==> is_ascii_bytes(payload@),
    ensures
        vstd::utf8::encode_utf8(s@) == reply_bytes(reply),
{
    let ghost expected = reply_bytes(reply);
    let bytes: Vec<u8> = match reply {
        Reply::Pong { payload } => {
            let mut out: Vec<u8> = Vec::new();
            out.push(0x50u8);
            out.push(0x4Fu8);
            out.push(0x4Eu8);
            out.push(0x47u8);
            let ghost head = out@;
            let mut i: usize = 0;
            while i < payload.len()
                invariant
                    i <= payload@.len(),
                    out@ == head + payload@.take(i as int),
                decreases payload@.len() - i,
            {
                out.push(payload[i]);
                i = i + 1;
                assert(out@ =~= head + payload@.take(i as int));
            }
            assert(payload@.take(payload@.len() as int) =~= payload@);
            assert(out@ =~= expected);
            out
        },
        Reply::ProxyOk => {
            let v: Vec<u8> = vec![0x50u8, 0x52u8, 0x4Fu8, 0x58u8, 0x59u8, 0x20u8, 0x4Fu8, 0x4Bu8];
            assert(v@ =~= expected);
            v
        },
        Reply::BindOk => {
            let v: Vec<u8> = vec![0x42u8, 0x49u8, 0x4Eu8, 0x44u8, 0x20u8, 0x4Fu8, 0x4Bu8];
            assert(v@ =~= expected);
            v
        },
        Reply::BindFailed => {
            let v: Vec<u8> = vec![
                0x42u8,
                0x49u8,
                0x4Eu8,
                0x44u8,
                0x20u8,
                0x46u8,
                0x41u8,
                0x49u8,
                0x4Cu8,
                0x45u8,
                0x44u8,
            ];
            assert(v@ =~= expected);
            v
        },
    };
    assert(is_ascii_bytes(bytes@));
    string_from_ascii(bytes)
}

/// `ADDR`
pub open spec fn word_addr() -> Seq<u8> {
    seq![0x41u8, 0x44u8, 0x44u8, 0x52u8]
}

/// The answer to NEWADDR: `ADDR`, the address as text and the passcode,
/// separated by single spaces.
pub open spec fn addr_reply_bytes(address_text: Seq<u8>, passcode: Seq<u8>) -> Seq<u8> {
    word_addr() + seq![0x20u8] + address_text + seq![0x20u8] + passcode
}

/// Adds `data` to the end of `out`.
fn append(out: &mut Vec<u8>, data: &[u8])
    ensures
        final(out)@ == old(out)@ + data@,
{
    let ghost before = out@;
    let mut i: usize = 0;
    while i < data.len()
        invariant
            i <= data@.len(),
            out@ == before + data@.take(i as int),
        decreases data@.len() - i,
    {
        out.push(data[i]);
        i = i + 1;
        assert(out@ =~= before + data@.take(i as int));
    }
    assert(data@.take(data@.len() as int) =~= data@);
}

/// The answer to NEWADDR, for the address written as `address_text` (as
/// the caller's address formatting writes it, which is ASCII) and the
/// passcode handed out with it.
pub fn addr_reply(address_text: &str, passcode: &Passcode) -> (s: String)
    requires
        is_ascii_bytes(address_text.spec_bytes()),
    ensures
        vstd::utf8::encode_utf8(s@) == addr_reply_bytes(address_text.spec_bytes(), passcode@),
{
    let mut out: Vec<u8> = vec![0x41u8, 0x44u8, 0x44u8, 0x52u8, 0x20u8];
    append(&mut out, address_text.as_bytes());
    out.push(0x20u8);
    let code = passcode.as_str().as_bytes();
    append(&mut out, code);
    proof {
        use_type_invariant(passcode);
        let expected = addr_reply_bytes(address_text.spec_bytes(), passcode@);
        assert(out@ =~= expected);
        assert forall|k: int| 0 <= k < out@.len() implies #[trigger] out@[k] < 128 by {
            if k >= 5 + address_text.spec_bytes().len() + 1 {
                assert(out@[k] == passcode@[k - 5 - address_text.spec_bytes().len() - 1]);
                assert(is_passcode_char(passcode@[k - 5 - address_text.spec_bytes().len() - 1]));
            } else if k >= 5 && k < 5 + address_text.spec_bytes().len() {
                assert(out@[k] == address_text.spec_bytes()[k - 5]);
            }
        }
    }
    string_from_ascii(out)
}

/// What a BIND whose claim was made (`bound`) or refused is answered: on
/// success `BIND OK`, and the link takes the relay and carries datagrams;
/// on refusal `BIND FAILED`, which is no error: the relay stays in place
/// so that the client can try again.
pub struct BindAnswer {
    pub reply: Reply,
    /// The link takes the relay.
    pub take_relay: bool,
    /// The link carries datagrams.
    pub relay_udp: bool,
}

/// The answer to a BIND, by whether the claim was made.
pub fn bind_answer(bound: bool) -> (r: BindAnswer)
    ensures
        r == (if bound {
            BindAnswer { reply: Reply::BindOk, take_relay: true, relay_udp: true }
        } else {
            BindAnswer { reply: Reply::BindFailed, take_relay: false, relay_udp: false }
        }),
{
    if bound {
        BindAnswer { reply: Reply::BindOk, take_relay: true, relay_udp: true }
    } else {
        BindAnswer { reply: Reply::BindFailed, take_relay: false, relay_udp: false }
    }
}

/// Whether a PROXY command whose target came out as `target` takes the
/// relay. Once the command reaches routing (the target is one of the
/// proxy's own services, or the address is refused there) the relay is
/// handed over and goes with it: on a refusal it is dropped. A command
/// refused before routing leaves the relay in place.
pub fn proxy_takes_relay(target: &Result<OwnService, CommandError>) -> (r: bool)
    ensures
        r == (target is Ok || *target == Err::<OwnService, CommandError>(CommandError::NotOwnService)),
{
    match target {
        Ok(_) => true,
        Err(CommandError::NotOwnService) => true,
        Err(_) => false,
    }
}

} // verus!
