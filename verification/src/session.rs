//! The decisions of a client session, whatever carries it: when bytes are
//! commands and when they are data, and what to do with what the relay
//! hands back.

use vstd::prelude::*;

use crate::commands::MAX_COMMAND_SIZE;

verus! {

/// Why a session ends.
#[derive(Clone, Copy, Debug, PartialEq, Eq, Structural)]
pub enum SessionError {
    /// A command grew to `MAX_COMMAND_SIZE` bytes without its newline.
    CommandTooLarge,
    /// Stream data arrived on a session that carries datagrams only.
    DataOnDatagramSession,
    /// A datagram arrived on a session whose link is a reliable stream.
    DatagramOnStreamSession,
    /// The lease behind the session has ended.
    LeaseEnded,
    /// The relay that brings data back has closed.
    RelayClosed,
    /// A command arrived after a link was established.
    CommandAtImproperTime,
    /// A datagram arrived before any link was established.
    DatagramWithoutTarget,
    /// A second bidirectional stream was opened; a session has one.
    MultipleStreams,
    /// A unidirectional stream was opened; a session has none.
    UnidirectionalStream,
}

/// A stream a client opened on a WebTransport session.
#[derive(Clone, Copy, Debug, PartialEq, Eq, Structural)]
pub enum IncomingStream {
    /// A bidirectional stream, which carries commands and then data.
    Bidirectional,
    /// A unidirectional stream.
    Unidirectional,
}

/// The first index at or after `i` holding a newline.
pub open spec fn newline_from(s: Seq<u8>, i: int) -> Option<int>
    decreases s.len() - i,
{
    if i < 0 || i >= s.len() {
        None
    } else if s[i] == 0x0A {
        Some(i)
    } else {
        newline_from(s, i + 1)
    }
}

proof fn lemma_newline_from_bound(s: Seq<u8>, i: int)
    ensures
        newline_from(s, i) matches Some(j) ==> i <= j < s.len() && s[j] == 0x0A,
    decreases s.len() - i,
{
    if 0 <= i < s.len() && s[i] != 0x0A {
        lemma_newline_from_bound(s, i + 1);
    }
}

/// A session over one reliable stream, where commands are lines until one
/// of them establishes a link, and everything after is data for it.
pub struct StreamSession {
    /// A partial command, waiting for the rest of its line.
    cmdbuf: Vec<u8>,
    has_lease: bool,
    relay_udp: bool,
}

/// What to do with bytes from the stream once a link holds it.
pub enum StreamData {
    /// Nothing: there were no bytes.
    Nothing,
    /// Send these bytes over the lease.
    Send(Vec<u8>),
}

/// What to do with bytes the relay hands back.
#[derive(Clone, Copy, Debug, PartialEq, Eq, Structural)]
pub enum RelayStep {
    /// Nothing to send.
    Ignore,
    /// Send them as a datagram.
    Datagram,
    /// Write them to the stream.
    Stream,
}

impl StreamSession {
    pub closed spec fn spec_cmdbuf(&self) -> Seq<u8> {
        self.cmdbuf@
    }

    pub closed spec fn spec_has_lease(&self) -> bool {
        self.has_lease
    }

    pub closed spec fn spec_relay_udp(&self) -> bool {
        self.relay_udp
    }

    /// A session that has read nothing and holds no link.
    pub fn new() -> (s: Self)
        ensures
            s.spec_cmdbuf() == Seq::<u8>::empty(),
            !s.spec_has_lease(),
            !s.spec_relay_udp(),
    {
        StreamSession { cmdbuf: Vec::new(), has_lease: false, relay_udp: false }
    }

    pub fn has_lease(&self) -> (r: bool)
        ensures
            r == self.spec_has_lease(),
    {
        self.has_lease
    }

    pub fn relay_udp(&self) -> (r: bool)
        ensures
            r == self.spec_relay_udp(),
    {
        self.relay_udp
    }

    /// Adds bytes from the stream to the partial command.
    pub fn push_command_bytes(&mut self, data: &[u8])
        ensures
            final(self).spec_cmdbuf() == old(self).spec_cmdbuf() + data@,
            final(self).spec_has_lease() == old(self).spec_has_lease(),
            final(self).spec_relay_udp() == old(self).spec_relay_udp(),
    {
        let ghost before = self.cmdbuf@;
        let mut i: usize = 0;
        while i < data.len()
            invariant
                i <= data@.len(),
                self.cmdbuf@ == before + data@.take(i as int),
                self.has_lease == old(self).has_lease,
                self.relay_udp == old(self).relay_udp,
            decreases data@.len() - i,
        {
            self.cmdbuf.push(data[i]);
            i = i + 1;
            assert(self.cmdbuf@ =~= before + data@.take(i as int));
        }
        assert(data@.take(data@.len() as int) =~= data@);
    }

    /// Takes the next whole command, without its newline, and the newline
    /// with it. With no newline yet, there is no command; but a partial
    /// command of `MAX_COMMAND_SIZE` bytes or more ends the session.
    pub fn next_command(&mut self) -> (r: Result<Option<Vec<u8>>, SessionError>)
        ensures
            final(self).spec_has_lease() == old(self).spec_has_lease(),
            final(self).spec_relay_udp() == old(self).spec_relay_udp(),
            match newline_from(old(self).spec_cmdbuf(), 0) {
                Some(n) => r matches Ok(Some(cmd)) && cmd@ == old(self).spec_cmdbuf().take(n)
                    && final(self).spec_cmdbuf() == old(self).spec_cmdbuf().skip(n + 1),
                None => if old(self).spec_cmdbuf().len() >= MAX_COMMAND_SIZE {
                    r == Err::<Option<Vec<u8>>, SessionError>(SessionError::CommandTooLarge)
                } else {
                    r matches Ok(None) && final(self).spec_cmdbuf() == old(self).spec_cmdbuf()
                },
            },
    {
        let len: usize = self.cmdbuf.len();
        let mut i: usize = 0;
        while i < len
            invariant
                i <= len == self.cmdbuf@.len(),
                self.cmdbuf@ == old(self).cmdbuf@,
                self.has_lease == old(self).has_lease,
                self.relay_udp == old(self).relay_udp,
                newline_from(self.cmdbuf@, 0) == newline_from(self.cmdbuf@, i as int),
            decreases len - i,
        {
            if self.cmdbuf[i] == 0x0A {
                let cmd = crate::text::copy_range(self.cmdbuf.as_slice(), 0, i);
                let rest = crate::text::copy_range(self.cmdbuf.as_slice(), i + 1, len);
                assert(cmd@ =~= self.cmdbuf@.take(i as int));
                assert(rest@ =~= self.cmdbuf@.skip(i + 1));
                self.cmdbuf = rest;
                return Ok(Some(cmd));
            }
            i = i + 1;
        }
        if len >= MAX_COMMAND_SIZE {
            return Err(SessionError::CommandTooLarge);
        }
        Ok(None)
    }

    /// A command established a link; `relay_udp` says whether it carries
    /// datagrams rather than a stream.
    pub fn lease_granted(&mut self, relay_udp: bool)
        ensures
            final(self).spec_has_lease(),
            final(self).spec_relay_udp() == relay_udp,
            final(self).spec_cmdbuf() == old(self).spec_cmdbuf(),
    {
        self.has_lease = true;
        self.relay_udp = relay_udp;
    }

    /// Takes what followed the command that established the link: it is
    /// stream data.
    pub fn take_remainder(&mut self) -> (r: Vec<u8>)
        ensures
            r@ == old(self).spec_cmdbuf(),
            final(self).spec_cmdbuf() == Seq::<u8>::empty(),
            final(self).spec_has_lease() == old(self).spec_has_lease(),
            final(self).spec_relay_udp() == old(self).spec_relay_udp(),
    {
        let mut out: Vec<u8> = Vec::new();
        std::mem::swap(&mut out, &mut self.cmdbuf);
        out
    }

    /// What to do with stream data once a link holds the stream: empty data
    /// is nothing; on a datagram-only link any data ends the session.
    pub fn stream_data(&self, data: &[u8]) -> (r: Result<StreamData, SessionError>)
        ensures
            data@.len() == 0 ==> r matches Ok(StreamData::Nothing),
            data@.len() > 0 && self.spec_relay_udp() ==> r == Err::<StreamData, SessionError>(
                SessionError::DataOnDatagramSession,
            ),
            data@.len() > 0 && !self.spec_relay_udp() ==> (r matches Ok(StreamData::Send(bytes))
                && bytes@ == data@),
    {
        if data.len() == 0 {
            return Ok(StreamData::Nothing);
        }
        if self.relay_udp {
            return Err(SessionError::DataOnDatagramSession);
        }
        Ok(StreamData::Send(vstd::slice::slice_to_vec(data)))
    }

    /// Whether a datagram from the client goes over the lease: without a
    /// link it is ignored, and a stream link refuses it.
    pub fn datagram(&self) -> (r: Result<bool, SessionError>)
        ensures
            !self.spec_has_lease() ==> r == Ok::<bool, SessionError>(false),
            self.spec_has_lease() && !self.spec_relay_udp() ==> r == Err::<bool, SessionError>(
                SessionError::DatagramOnStreamSession,
            ),
            self.spec_has_lease() && self.spec_relay_udp() ==> r == Ok::<bool, SessionError>(true),
    {
        if !self.has_lease {
            return Ok(false);
        }
        if !self.relay_udp {
            return Err(SessionError::DatagramOnStreamSession);
        }
        Ok(true)
    }

    /// What to do with what the relay handed back: `data_len` bytes, or
    /// `None` when the relay closed; `lease_live` is whether the lease, if
    /// any, is still live. Empty data is the relay's way to say the lease
    /// may have ended.
    pub fn relay(&self, data_len: Option<usize>, lease_live: bool) -> (r: Result<RelayStep, SessionError>)
        ensures
            data_len is None ==> r == Err::<RelayStep, SessionError>(SessionError::RelayClosed),
            data_len == Some(0usize) ==> r == (if self.spec_has_lease() && !lease_live {
                Err::<RelayStep, SessionError>(SessionError::LeaseEnded)
            } else {
                Ok(RelayStep::Ignore)
            }),
            data_len matches Some(n) && n > 0 ==> r == Ok::<RelayStep, SessionError>(
                if self.spec_relay_udp() {
                    RelayStep::Datagram
                } else {
                    RelayStep::Stream
                },
            ),
    {
        match data_len {
            None => Err(SessionError::RelayClosed),
            Some(n) => {
                if n == 0 {
                    if self.has_lease && !lease_live {
                        return Err(SessionError::LeaseEnded);
                    }
                    return Ok(RelayStep::Ignore);
                }
                if self.relay_udp {
                    Ok(RelayStep::Datagram)
                } else {
                    Ok(RelayStep::Stream)
                }
            },
        }
    }
}

/// What a message-based session does with what the relay handed back.
#[derive(Clone, Copy, Debug, PartialEq, Eq, Structural)]
pub enum MessageRelayStep {
    /// Send the bytes as a binary message.
    Send,
    /// Send a normal close, and end the session.
    Close,
}

/// What a message-based session does with `data_len` bytes from the relay,
/// or `None` when the relay closed: empty data with a lease that is no
/// longer live, or a closed relay, closes the session; anything else is
/// sent, even empty.
pub fn message_relay_step(data_len: Option<usize>, lease: Option<bool>) -> (r: MessageRelayStep)
    ensures
        r == (match data_len {
            None => MessageRelayStep::Close,
            Some(n) => if n == 0 && lease == Some(false) {
                MessageRelayStep::Close
            } else {
                MessageRelayStep::Send
            },
        }),
{
    match data_len {
        None => MessageRelayStep::Close,
        Some(n) => {
            if n == 0 {
                if let Some(live) = lease {
                    if !live {
                        return MessageRelayStep::Close;
                    }
                }
            }
            MessageRelayStep::Send
        },
    }
}

/// Whether a text message may carry a command: only before a link exists.
pub fn command_allowed(has_lease: bool) -> (r: Result<(), SessionError>)
    ensures
        r == (if has_lease {
            Err::<(), SessionError>(SessionError::CommandAtImproperTime)
        } else {
            Ok(())
        }),
{
    if has_lease {
        Err(SessionError::CommandAtImproperTime)
    } else {
        Ok(())
    }
}

/// Whether a binary message can go anywhere: only over a link.
pub fn datagram_target(has_lease: bool) -> (r: Result<(), SessionError>)
    ensures
        r == (if has_lease {
            Ok::<(), SessionError>(())
        } else {
            Err(SessionError::DatagramWithoutTarget)
        }),
{
    if has_lease {
        Ok(())
    } else {
        Err(SessionError::DatagramWithoutTarget)
    }
}

/// Whether a session takes a stream the client opened, `has_stream` being
/// whether it already holds one: it takes exactly one bidirectional stream
/// and no unidirectional stream.
pub fn accept_stream(kind: IncomingStream, has_stream: bool) -> (r: Result<(), SessionError>)
    ensures
        r == (match kind {
            IncomingStream::Unidirectional => Err::<(), SessionError>(SessionError::UnidirectionalStream),
            IncomingStream::Bidirectional => if has_stream {
                Err(SessionError::MultipleStreams)
            } else {
                Ok(())
            },
        }),
{
    match kind {
        IncomingStream::Unidirectional => Err(SessionError::UnidirectionalStream),
        IncomingStream::Bidirectional => {
            if has_stream {
                Err(SessionError::MultipleStreams)
            } else {
                Ok(())
            }
        },
    }
}

/// A message a WebSocket client sent, by kind.
#[derive(Clone, Copy, Debug, PartialEq, Eq, Structural)]
pub enum IncomingMessage {
    /// A text message: a command.
    Text,
    /// A binary message: data for the link.
    Binary,
    /// A ping.
    Ping,
    /// A pong.
    Pong,
    /// A close, with a close frame (`has_frame`) or without one.
    Close { has_frame: bool },
}

/// What a WebSocket session does with one message.
#[derive(Clone, Copy, Debug, PartialEq, Eq, Structural)]
pub enum MessageAction {
    /// Carry out the command and answer it.
    Command,
    /// Send the data over the link.
    Datagram,
    /// Answer with a pong carrying the ping's payload.
    Pong,
    /// Nothing.
    Ignore,
    /// Send the client's close frame back, and end the session.
    EchoClose,
    /// Send a normal close, and end the session.
    NormalClose,
}

/// What a WebSocket session does with a message of kind `kind`, where
/// `has_lease` is whether a link is established: commands only before a
/// link, data only over one; a ping is answered, a pong ignored, and a
/// close returned (the client's own frame, else a normal one).
pub fn message_action(kind: IncomingMessage, has_lease: bool) -> (r: Result<MessageAction, SessionError>)
    ensures
        r == (match kind {
            IncomingMessage::Text => if has_lease {
                Err::<MessageAction, SessionError>(SessionError::CommandAtImproperTime)
            } else {
                Ok(MessageAction::Command)
            },
            IncomingMessage::Binary => if has_lease {
                Ok(MessageAction::Datagram)
            } else {
                Err(SessionError::DatagramWithoutTarget)
            },
            IncomingMessage::Ping => Ok(MessageAction::Pong),
            IncomingMessage::Pong => Ok(MessageAction::Ignore),
            IncomingMessage::Close { has_frame } => Ok(
                if has_frame {
                    MessageAction::EchoClose
                } else {
                    MessageAction::NormalClose
                },
            ),
        }),
{
    match kind {
        IncomingMessage::Text => {
            command_allowed(has_lease)?;
            Ok(MessageAction::Command)
        },
        IncomingMessage::Binary => {
            datagram_target(has_lease)?;
            Ok(MessageAction::Datagram)
        },
        IncomingMessage::Ping => Ok(MessageAction::Pong),
        IncomingMessage::Pong => Ok(MessageAction::Ignore),
        IncomingMessage::Close { has_frame } => {
            if has_frame {
                Ok(MessageAction::EchoClose)
            } else {
                Ok(MessageAction::NormalClose)
            }
        },
    }
}

} // verus!
