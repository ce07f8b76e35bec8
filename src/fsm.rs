use vstd::prelude::*;
use vstd::utf8::encode_utf8;

use crate::error::ProtocolError;
use crate::fixed::lemma_long_bytes_of_decoded;
use crate::json::{status_json, MAX_TEXT_LEN};
use crate::packet::{
    decode_handshake, decode_header, decode_ping, header_bytes, lemma_handshake_prefix,
    lemma_header_len, lemma_header_prefix, lemma_ping_prefix, ping_bytes, response_bytes,
    HandshakeModel, HandshakePacket, Header, PingPacket, RequestPacket, ResponsePacket,
};
use crate::varint::VarInt;

verus! {

/// What a server tells clients that ask for its status.
pub struct Fsm<'a> {
    pub version_name: &'a str,
    pub version_protocol: i32,
    pub player_max: usize,
    pub player_online: usize,
    pub description: &'a str,
}

impl<'a> Fsm<'a> {
    /// Both texts are short enough for a status response.
    pub open spec fn fits(&self) -> bool {
        &&& encode_utf8(self.version_name@).len() <= MAX_TEXT_LEN
        &&& encode_utf8(self.description@).len() <= MAX_TEXT_LEN
    }

    /// Whether both texts are short enough for a status response.
    pub fn texts_fit(&self) -> (r: bool)
        ensures
            r == self.fits(),
    {
        self.version_name.as_bytes().len() <= MAX_TEXT_LEN && self.description.as_bytes().len()
            <= MAX_TEXT_LEN
    }

    /// The status document that this configuration serves.
    pub open spec fn json(&self) -> Seq<char> {
        status_json(
            self.version_name@,
            self.version_protocol,
            self.player_max as nat,
            self.player_online as nat,
            self.description@,
        )
    }

    /// A server of the given version, with no players and the default description.
    pub fn new(version_name: &'a str, version_protocol: i32) -> (r: Self)
        ensures
            r.version_name == version_name,
            r.version_protocol == version_protocol,
            r.player_max == 0,
            r.player_online == 0,
            r.description@ == "A minecraft server"@,
            r.fits() <==> encode_utf8(version_name@).len() <= MAX_TEXT_LEN,
    {
        let description = "A minecraft server";
        proof {
            reveal_strlit("A minecraft server");
            vstd::utf8::is_ascii_chars_encode_utf8(description@);
        }
        Fsm { version_name, version_protocol, player_max: 0, player_online: 0, description }
    }

    /// The same server, announcing `player_max` as its capacity.
    pub fn player_max(self, player_max: usize) -> (r: Self)
        ensures
            r == (Fsm { player_max, ..self }),
    {
        Fsm { player_max, ..self }
    }

    /// The same server, announcing `player_online` players.
    pub fn player_online(self, player_online: usize) -> (r: Self)
        ensures
            r == (Fsm { player_online, ..self }),
    {
        Fsm { player_online, ..self }
    }

    /// The same server, with `description` as its message of the day.
    pub fn description(self, description: &'a str) -> (r: Self)
        ensures
            r == (Fsm { description, ..self }),
    {
        Fsm { description, ..self }
    }

    /// A connection that has not yet received anything.
    pub fn start(self) -> (r: Connection<'a>)
        requires
            self.fits(),
        ensures
            r.config == self,
            r.phase == Phase::AwaitingHandshake,
            r.pending@.len() == 0,
            r.wf(),
    {
        Connection { config: self, phase: Phase::AwaitingHandshake, pending: Vec::new() }
    }
}

/// Where a connection stands.
#[derive(Clone, Copy, Debug, PartialEq, Eq, Structural)]
pub enum Phase {
    /// The first packet, the handshake, is being received.
    AwaitingHandshake,
    /// The client asked for the status; its request is being received.
    AwaitingRequest,
    /// The status went out; the client's ping is being received.
    AwaitingPing,
    /// The pong went out; nothing is left to do.
    Done,
    /// The client asked to log in; the stream belongs to the caller now.
    HandedOff,
    /// The connection was given up.
    Failed,
}

/// What the caller does next with the connection's stream.
#[derive(Debug)]
pub enum Action {
    /// Read one byte and hand it to `step`.
    Read,
    /// Write these bytes and flush, then read one byte and hand it to `step`.
    Reply(Vec<u8>),
    /// Write these bytes and flush; the exchange is complete.
    Finish(Vec<u8>),
    /// Stop: the client asked to log in with this handshake, and the rest of the stream
    /// is for login handling.
    HandOff(HandshakePacket),
    /// Stop: the connection is given up.
    Fail(ProtocolError),
}

/// The pong that answers a ping carrying `ping_id`.
pub open spec fn pong_packet(ping_id: i64) -> PingPacket {
    PingPacket {
        header: Header { length: VarInt { inner: 9 }, packet_id: VarInt { inner: 1 } },
        ping_id,
    }
}

/// A pong is the bytes `9` (its length) and `1` (its id), then, byte for byte, the
/// eight payload bytes of the ping it answers.
pub proof fn lemma_pong_echoes_ping(s: Seq<u8>)
    requires
        decode_ping(s) is Ok,
    ensures
        ping_bytes(pong_packet(decode_ping(s)->Ok_0.0.ping_id)) == seq![9u8, 1u8] + s.subrange(
            decode_ping(s)->Ok_0.1 - 8,
            decode_ping(s)->Ok_0.1 as int,
        ),
{
    let a = decode_header(s)->Ok_0.1 as int;
    lemma_header_len(s);
    lemma_long_bytes_of_decoded(s.skip(a));
    assert(s.skip(a).take(8) =~= s.subrange(a, a + 8));
    let h = pong_packet(0).header;
    assert(header_bytes(h) =~= seq![9u8, 1u8]);
}

/// One connection's progress through handshake, status and ping.
pub struct Connection<'a> {
    pub config: Fsm<'a>,
    pub phase: Phase,
    /// The bytes received of the packet that is not yet complete.
    pub pending: Vec<u8>,
}

impl<'a> Connection<'a> {
    /// The configuration fits a response, and the pending bytes are a packet that is
    /// not yet complete.
    pub open spec fn wf(&self) -> bool {
        &&& self.config.fits()
        &&& match self.phase {
            Phase::AwaitingHandshake => decode_handshake(self.pending@) == Err::<
                (HandshakeModel, nat),
                ProtocolError,
            >(ProtocolError::IoFailure),
            Phase::AwaitingRequest => decode_header(self.pending@) == Err::<(Header, nat), ProtocolError>(
                ProtocolError::IoFailure,
            ),
            Phase::AwaitingPing => decode_ping(self.pending@) == Err::<(PingPacket, nat), ProtocolError>(
                ProtocolError::IoFailure,
            ),
            _ => true,
        }
    }

    /// The connection still takes bytes.
    pub open spec fn is_active(&self) -> bool {
        match self.phase {
            Phase::AwaitingHandshake | Phase::AwaitingRequest | Phase::AwaitingPing => true,
            _ => false,
        }
    }

    pub fn is_finished(&self) -> (r: bool)
        ensures
            r == !self.is_active(),
    {
        match self.phase {
            Phase::AwaitingHandshake | Phase::AwaitingRequest | Phase::AwaitingPing => false,
            _ => true,
        }
    }

    /// Takes the next byte that the client sent and says what to do next.
    pub fn step(&mut self, byte: u8) -> (r: Action)
        requires
            old(self).wf(),
            old(self).is_active(),
        ensures
            final(self).wf(),
            final(self).config == old(self).config,
            ({
                let buf = old(self).pending@.push(byte);
                match old(self).phase {
                    Phase::AwaitingHandshake => match decode_handshake(buf) {
                        Err(ProtocolError::IoFailure) => final(self).phase == Phase::AwaitingHandshake
                            && final(self).pending@ == buf && r is Read,
                        Err(e) => final(self).phase == Phase::Failed && r == Action::Fail(e),
                        Ok((m, n)) => n == buf.len() && if m.next_state == 1 {
                            final(self).phase == Phase::AwaitingRequest && final(self).pending@.len() == 0
                                && r is Read
                        } else if m.next_state == 2 {
                            final(self).phase == Phase::HandedOff && r is HandOff && r->HandOff_0@ == m
                        } else {
                            final(self).phase == Phase::Failed && r == Action::Fail(
                                ProtocolError::UnexpectedNextState,
                            )
                        },
                    },
                    Phase::AwaitingRequest => match decode_header(buf) {
                        Err(ProtocolError::IoFailure) => final(self).phase == Phase::AwaitingRequest
                            && final(self).pending@ == buf && r is Read,
                        Err(e) => final(self).phase == Phase::Failed && r == Action::Fail(e),
                        Ok((h, n)) => n == buf.len() && final(self).phase == Phase::AwaitingPing
                            && final(self).pending@.len() == 0 && r is Reply
                            && r->Reply_0@ == response_bytes(old(self).config.json()),
                    },
                    _ => match decode_ping(buf) {
                        Err(ProtocolError::IoFailure) => final(self).phase == Phase::AwaitingPing
                            && final(self).pending@ == buf && r is Read,
                        Err(e) => final(self).phase == Phase::Failed && r == Action::Fail(e),
                        Ok((p, n)) => n == buf.len() && final(self).phase == Phase::Done && r is Finish
                            && r->Finish_0@ == ping_bytes(pong_packet(p.ping_id)),
                    },
                }
            }),
    {
        let ghost before = self.pending@;
        self.pending.push(byte);
        let ghost buf = self.pending@;
        assert(buf.skip(0) =~= buf);
        assert(buf.drop_last() =~= before);
        match self.phase {
            Phase::AwaitingHandshake => match HandshakePacket::parse(self.pending.as_slice(), 0) {
                Err(ProtocolError::IoFailure) => Action::Read,
                Err(e) => {
                    self.phase = Phase::Failed;
                    Action::Fail(e)
                },
                Ok((packet, n)) => {
                    proof {
                        if n < buf.len() {
                            assert(before.take(n as int) =~= buf.take(n as int));
                            lemma_handshake_prefix(buf, before);
                        }
                    }
                    self.pending = Vec::new();
                    if packet.next_state.inner == 1 {
                        self.phase = Phase::AwaitingRequest;
                        Action::Read
                    } else if packet.next_state.inner == 2 {
                        self.phase = Phase::HandedOff;
                        Action::HandOff(packet)
                    } else {
                        self.phase = Phase::Failed;
                        Action::Fail(ProtocolError::UnexpectedNextState)
                    }
                },
            },
            Phase::AwaitingRequest => match RequestPacket::parse(self.pending.as_slice(), 0) {
                Err(ProtocolError::IoFailure) => Action::Read,
                Err(e) => {
                    self.phase = Phase::Failed;
                    Action::Fail(e)
                },
                Ok((_, n)) => {
                    proof {
                        if n < buf.len() {
                            assert(before.take(n as int) =~= buf.take(n as int));
                            lemma_header_prefix(buf, before);
                        }
                    }
                    self.pending = Vec::new();
                    self.phase = Phase::AwaitingPing;
                    let response = ResponsePacket::new(
                        self.config.version_name,
                        self.config.version_protocol,
                        self.config.player_max,
                        self.config.player_online,
                        self.config.description,
                    );
                    let mut out: Vec<u8> = Vec::new();
                    match response.send(&mut out) {
                        Ok(_) => Action::Reply(out),
                        Err(e) => {
                            self.phase = Phase::Failed;
                            Action::Fail(e)
                        },
                    }
                },
            },
            _ => match PingPacket::parse(self.pending.as_slice(), 0) {
                Err(ProtocolError::IoFailure) => Action::Read,
                Err(e) => {
                    self.phase = Phase::Failed;
                    Action::Fail(e)
                },
                Ok((ping, n)) => {
                    proof {
                        if n < buf.len() {
                            assert(before.take(n as int) =~= buf.take(n as int));
                            lemma_ping_prefix(buf, before);
                        }
                    }
                    self.pending = Vec::new();
                    self.phase = Phase::Done;
                    let pong = PingPacket {
                        header: Header::new(VarInt::from(9), VarInt::from(1)),
                        ping_id: ping.ping_id,
                    };
                    let mut out: Vec<u8> = Vec::new();
                    pong.send(&mut out);
                    Action::Finish(out)
                },
            },
        }
    }
}

} // verus!
