use vstd::prelude::*;

use crate::error::ProtocolError;
use crate::fixed::{decode_long, decode_short, lemma_long_prefix, lemma_long_round_trip, lemma_short_prefix, lemma_short_round_trip, long_bytes, parse_Long, parse_UnsignedShort, send_Long, send_UnsignedShort, short_bytes};
use crate::text::{decode_text, lemma_text_prefix, lemma_text_round_trip, text_bytes, String};
use crate::json::{status_json, status_json_text, MAX_TEXT_LEN};
use crate::varint::{decode_varint, lemma_varint_len, lemma_varint_prefix, lemma_varint_round_trip, varint_bytes, VarInt};
use vstd::utf8::encode_utf8;

verus! {

/// The prefix of every packet: the byte count of what follows the length field, and
/// the packet's id.
#[derive(Clone, Copy, Debug, PartialEq, Eq, Structural)]
pub struct Header {
    pub length: VarInt,
    pub packet_id: VarInt,
}

/// The wire form of a header.
pub open spec fn header_bytes(h: Header) -> Seq<u8> {
    varint_bytes(h.length.inner) + varint_bytes(h.packet_id.inner)
}

/// What a header at the front of `s` decodes to, with the bytes it takes.
pub open spec fn decode_header(s: Seq<u8>) -> Result<(Header, nat), ProtocolError> {
    match decode_varint(s) {
        Err(e) => Err(e),
        Ok((length, a)) => match decode_varint(s.skip(a as int)) {
            Err(e) => Err(e),
            Ok((id, b)) => Ok(
                (Header { length: VarInt { inner: length }, packet_id: VarInt { inner: id } }, a + b),
            ),
        },
    }
}

impl Header {
    /// Decodes the header that starts at `input[at]`, returning it with the number of
    /// bytes it takes.
    pub fn parse(input: &[u8], at: usize) -> (r: Result<(Self, usize), ProtocolError>)
        requires
            at <= input@.len(),
        ensures
            match r {
                Ok((h, n)) => decode_header(input@.skip(at as int)) == Ok::<(Header, nat), ProtocolError>((h, n as nat))
                    && at + n <= input.len(),
                Err(e) => decode_header(input@.skip(at as int)) == Err::<(Header, nat), ProtocolError>(e),
            },
    {
        let (length, a) = match VarInt::parse(input, at) {
            Ok(p) => p,
            Err(e) => return Err(e),
        };
        assert(input@.skip(at as int).skip(a as int) =~= input@.skip(at + a));
        let (packet_id, b) = match VarInt::parse(input, at + a) {
            Ok(p) => p,
            Err(e) => return Err(e),
        };
        Ok((Header { length, packet_id }, a + b))
    }

    /// Appends the wire form of this header to `out`, returning the number of bytes
    /// written.
    pub fn send(self, out: &mut Vec<u8>) -> (r: usize)
        ensures
            final(out)@ == old(out)@ + header_bytes(self),
            r == header_bytes(self).len(),
            2 <= r <= 10,
    {
        let a = self.length.send(out);
        let b = self.packet_id.send(out);
        assert(out@ =~= old(out)@ + header_bytes(self));
        a + b
    }

    pub fn new(length: VarInt, packet_id: VarInt) -> (r: Self)
        ensures
            r.length == length,
            r.packet_id == packet_id,
    {
        Header { length, packet_id }
    }
}

/// The fields of a handshake, as values.
pub struct HandshakeModel {
    pub header: Header,
    pub protocol_version: i32,
    pub server_address: Seq<char>,
    pub server_port: u16,
    pub next_state: i32,
}

/// The wire form of a handshake.
pub open spec fn handshake_bytes(m: HandshakeModel) -> Seq<u8> {
    header_bytes(m.header) + varint_bytes(m.protocol_version) + text_bytes(m.server_address)
        + short_bytes(m.server_port) + varint_bytes(m.next_state)
}

/// What a handshake at the front of `s` decodes to, with the bytes it takes.
pub open spec fn decode_handshake(s: Seq<u8>) -> Result<(HandshakeModel, nat), ProtocolError> {
    match decode_header(s) {
        Err(e) => Err(e),
        Ok((header, a)) => match decode_varint(s.skip(a as int)) {
            Err(e) => Err(e),
            Ok((protocol_version, b)) => match decode_text(s.skip((a + b) as int)) {
                Err(e) => Err(e),
                Ok((server_address, c)) => match decode_short(s.skip((a + b + c) as int)) {
                    Err(e) => Err(e),
                    Ok((server_port, d)) => match decode_varint(s.skip((a + b + c + d) as int)) {
                        Err(e) => Err(e),
                        Ok((next_state, f)) => Ok(
                            (
                                HandshakeModel {
                                    header,
                                    protocol_version,
                                    server_address,
                                    server_port,
                                    next_state,
                                },
                                a + b + c + d + f,
                            ),
                        ),
                    },
                },
            },
        },
    }
}

/// The first packet of a connection: who the client is and what it wants next.
#[derive(Debug)]
pub struct HandshakePacket {
    pub header: Header,
    pub protocol_version: VarInt,
    pub server_address: String,
    pub server_port: u16,
    pub next_state: VarInt,
}

impl View for HandshakePacket {
    type V = HandshakeModel;

    open spec fn view(&self) -> HandshakeModel {
        HandshakeModel {
            header: self.header,
            protocol_version: self.protocol_version.inner,
            server_address: self.server_address@,
            server_port: self.server_port,
            next_state: self.next_state.inner,
        }
    }
}

impl HandshakePacket {
    /// Decodes the handshake that starts at `input[at]`, returning it with the number
    /// of bytes it takes.
    pub fn parse(input: &[u8], at: usize) -> (r: Result<(Self, usize), ProtocolError>)
        requires
            at <= input@.len(),
        ensures
            match r {
                Ok((p, n)) => decode_handshake(input@.skip(at as int)) == Ok::<(HandshakeModel, nat), ProtocolError>((p@, n as nat))
                    && at + n <= input.len(),
                Err(e) => decode_handshake(input@.skip(at as int)) == Err::<(HandshakeModel, nat), ProtocolError>(e),
            },
    {
        let ghost s = input@.skip(at as int);
        let (header, a) = match Header::parse(input, at) {
            Ok(p) => p,
            Err(e) => return Err(e),
        };
        assert(s.skip(a as int) =~= input@.skip(at + a));
        let (protocol_version, b) = match VarInt::parse(input, at + a) {
            Ok(p) => p,
            Err(e) => return Err(e),
        };
        assert(s.skip((a + b) as int) =~= input@.skip(at + a + b));
        let (server_address, c) = match String::parse(input, at + a + b) {
            Ok(p) => p,
            Err(e) => return Err(e),
        };
        assert(s.skip((a + b + c) as int) =~= input@.skip(at + a + b + c));
        let (server_port, d) = match parse_UnsignedShort(input, at + a + b + c) {
            Ok(p) => p,
            Err(e) => return Err(e),
        };
        assert(s.skip((a + b + c + d) as int) =~= input@.skip(at + a + b + c + d));
        let (next_state, f) = match VarInt::parse(input, at + a + b + c + d) {
            Ok(p) => p,
            Err(e) => return Err(e),
        };
        let packet = HandshakePacket {
            header,
            protocol_version,
            server_address,
            server_port,
            next_state,
        };
        Ok((packet, a + b + c + d + f))
    }

    /// Appends the wire form of this handshake to `out`, returning the number of bytes
    /// written; an address whose byte length does not fit a VarInt is refused.
    pub fn send(self, out: &mut Vec<u8>) -> (r: Result<usize, ProtocolError>)
        ensures
            vstd::utf8::encode_utf8(self@.server_address).len() <= i32::MAX ==> r
                == Ok::<usize, ProtocolError>(handshake_bytes(self@).len() as usize) && final(out)@
                == old(out)@ + handshake_bytes(self@),
            vstd::utf8::encode_utf8(self@.server_address).len() > i32::MAX ==> r == Err::<
                usize,
                ProtocolError,
            >(ProtocolError::InvalidEncoding) && final(out)@ == old(out)@ + header_bytes(self.header)
                + varint_bytes(self.protocol_version.inner),
    {
        let ghost m = self@;
        let mut sent = self.header.send(out);
        sent = sent + self.protocol_version.send(out);
        let c = match self.server_address.send(out) {
            Ok(c) => c,
            Err(e) => return Err(e),
        };
        sent = sent + c;
        sent = sent + send_UnsignedShort(out, self.server_port);
        sent = sent + self.next_state.send(out);
        assert(out@ =~= old(out)@ + handshake_bytes(m));
        Ok(sent)
    }
}

/// A client's status request: a header and nothing else.
#[derive(Debug)]
pub struct RequestPacket {
    pub header: Header,
}

impl RequestPacket {
    /// Decodes the request that starts at `input[at]`, returning it with the number of
    /// bytes it takes.
    pub fn parse(input: &[u8], at: usize) -> (r: Result<(Self, usize), ProtocolError>)
        requires
            at <= input@.len(),
        ensures
            match r {
                Ok((p, n)) => decode_header(input@.skip(at as int)) == Ok::<(Header, nat), ProtocolError>((p.header, n as nat))
                    && at + n <= input.len(),
                Err(e) => decode_header(input@.skip(at as int)) == Err::<(Header, nat), ProtocolError>(e),
            },
    {
        match Header::parse(input, at) {
            Ok((header, n)) => Ok((RequestPacket { header }, n)),
            Err(e) => Err(e),
        }
    }
}

/// The wire form of a ping or pong.
pub open spec fn ping_bytes(p: PingPacket) -> Seq<u8> {
    header_bytes(p.header) + long_bytes(p.ping_id)
}

/// What a ping at the front of `s` decodes to, with the bytes it takes.
pub open spec fn decode_ping(s: Seq<u8>) -> Result<(PingPacket, nat), ProtocolError> {
    match decode_header(s) {
        Err(e) => Err(e),
        Ok((header, a)) => match decode_long(s.skip(a as int)) {
            Err(e) => Err(e),
            Ok((ping_id, b)) => Ok((PingPacket { header, ping_id }, a + b)),
        },
    }
}

/// A client's ping, and the server's pong that echoes its payload.
#[derive(Clone, Copy, Debug, PartialEq, Eq, Structural)]
pub struct PingPacket {
    pub header: Header,
    pub ping_id: i64,
}

impl PingPacket {
    /// Decodes the ping that starts at `input[at]`, returning it with the number of
    /// bytes it takes.
    pub fn parse(input: &[u8], at: usize) -> (r: Result<(Self, usize), ProtocolError>)
        requires
            at <= input@.len(),
        ensures
            match r {
                Ok((p, n)) => decode_ping(input@.skip(at as int)) == Ok::<(PingPacket, nat), ProtocolError>((p, n as nat))
                    && at + n <= input.len(),
                Err(e) => decode_ping(input@.skip(at as int)) == Err::<(PingPacket, nat), ProtocolError>(e),
            },
    {
        let (header, a) = match Header::parse(input, at) {
            Ok(p) => p,
            Err(e) => return Err(e),
        };
        assert(input@.skip(at as int).skip(a as int) =~= input@.skip(at + a));
        let (ping_id, b) = match parse_Long(input, at + a) {
            Ok(p) => p,
            Err(e) => return Err(e),
        };
        Ok((PingPacket { header, ping_id }, a + b))
    }

    /// Appends the wire form of this packet to `out`, returning the number of bytes
    /// written.
    pub fn send(self, out: &mut Vec<u8>) -> (r: usize)
        ensures
            final(out)@ == old(out)@ + ping_bytes(self),
            r == ping_bytes(self).len(),
    {
        let a = self.header.send(out);
        let b = send_Long(out, self.ping_id);
        assert(out@ =~= old(out)@ + ping_bytes(self));
        a + b
    }
}

/// The header of a status response that carries `json`: the id, then the text.
pub open spec fn response_header(json: Seq<char>) -> Header {
    Header {
        length: VarInt { inner: (1 + text_bytes(json).len()) as i32 },
        packet_id: VarInt { inner: 0 },
    }
}

/// The wire form of a status response that carries `json`.
pub open spec fn response_bytes(json: Seq<char>) -> Seq<u8> {
    header_bytes(response_header(json)) + text_bytes(json)
}

/// The server's answer to a status request: the status document as text.
#[derive(Debug)]
pub struct ResponsePacket {
    pub header: Header,
    pub json: String,
}

impl ResponsePacket {
    /// The response that describes a server by the given values.
    pub fn new(
        version_name: &str,
        version_protocol: i32,
        player_max: usize,
        player_online: usize,
        description: &str,
    ) -> (r: Self)
        requires
            encode_utf8(version_name@).len() <= MAX_TEXT_LEN,
            encode_utf8(description@).len() <= MAX_TEXT_LEN,
        ensures
            r.json@ == status_json(version_name@, version_protocol, player_max as nat, player_online as nat, description@),
            r.header == response_header(r.json@),
            r.header.length.inner == 1 + text_bytes(r.json@).len(),
            encode_utf8(r.json@).len() <= i32::MAX,
    {
        let json = status_json_text(version_name, version_protocol, player_max, player_online, description);
        let size = json.as_str().as_bytes().len();
        let mut scratch: Vec<u8> = Vec::new();
        let prefix = VarInt::from(size as i32).send(&mut scratch);
        let header = Header::new(VarInt::from((1 + prefix + size) as i32), VarInt::from(0));
        ResponsePacket { header, json: String::new(json) }
    }

    /// Appends the wire form of this response to `out`, returning the number of bytes
    /// written; a document whose byte length does not fit a VarInt is refused.
    pub fn send(self, out: &mut Vec<u8>) -> (r: Result<usize, ProtocolError>)
        ensures
            encode_utf8(self.json@).len() <= i32::MAX ==> r == Ok::<usize, ProtocolError>(
                (header_bytes(self.header) + text_bytes(self.json@)).len() as usize,
            ) && final(out)@ == old(out)@ + header_bytes(self.header) + text_bytes(self.json@),
            encode_utf8(self.json@).len() > i32::MAX ==> r == Err::<usize, ProtocolError>(
                ProtocolError::InvalidEncoding,
            ) && final(out)@ == old(out)@ + header_bytes(self.header),
    {
        let ghost json = self.json@;
        let a = self.header.send(out);
        let b = match self.json.send(out) {
            Ok(b) => b,
            Err(e) => return Err(e),
        };
        assert(out@ =~= old(out)@ + header_bytes(self.header) + text_bytes(json));
        Ok(a + b)
    }
}

proof fn lemma_agree_within(s: Seq<u8>, t: Seq<u8>, n: int, a: int, b: int)
    requires
        0 <= a,
        0 <= b,
        a + b <= n <= s.len(),
        n <= t.len(),
        t.take(n) == s.take(n),
    ensures
        t.skip(a).take(b) == s.skip(a).take(b),
        b <= t.skip(a).len(),
{
    assert forall|i: int| 0 <= i < b implies t.skip(a).take(b)[i] == s.skip(a).take(b)[i] by {
        assert(t.take(n)[a + i] == s.take(n)[a + i]);
        assert(t.take(n)[a + i] == t[a + i]);
        assert(s.take(n)[a + i] == s[a + i]);
        assert(t.skip(a).take(b)[i] == t[a + i]);
        assert(s.skip(a).take(b)[i] == s[a + i]);
    }
    assert(t.skip(a).take(b) =~= s.skip(a).take(b));
}

/// A decoded header takes no more bytes than there are.
pub proof fn lemma_header_len(s: Seq<u8>)
    requires
        decode_header(s) is Ok,
    ensures
        decode_header(s)->Ok_0.1 <= s.len(),
        decode_varint(s) is Ok,
        decode_varint(s)->Ok_0.1 <= s.len(),
{
    let a = decode_varint(s)->Ok_0.1 as int;
    lemma_varint_len(s);
    lemma_varint_len(s.skip(a));
}

/// A decoded header depends only on the bytes it takes.
pub proof fn lemma_header_prefix(s: Seq<u8>, t: Seq<u8>)
    requires
        decode_header(s) is Ok,
        decode_header(s)->Ok_0.1 <= t.len(),
        t.take(decode_header(s)->Ok_0.1 as int) == s.take(decode_header(s)->Ok_0.1 as int),
    ensures
        decode_header(t) == decode_header(s),
        decode_header(s)->Ok_0.1 <= s.len(),
{
    let n = decode_header(s)->Ok_0.1 as int;
    let a = decode_varint(s)->Ok_0.1 as int;
    let b = decode_varint(s.skip(a))->Ok_0.1 as int;
    lemma_header_len(s);
    lemma_agree_within(s, t, n, 0, a);
    assert(s.skip(0) =~= s);
    assert(t.skip(0) =~= t);
    lemma_varint_prefix(s, t);
    lemma_agree_within(s, t, n, a, b);
    lemma_varint_prefix(s.skip(a), t.skip(a));
}

/// A decoded handshake depends only on the bytes it takes.
#[verifier::rlimit(50)]
pub proof fn lemma_handshake_prefix(s: Seq<u8>, t: Seq<u8>)
    requires
        decode_handshake(s) is Ok,
        decode_handshake(s)->Ok_0.1 <= t.len(),
        t.take(decode_handshake(s)->Ok_0.1 as int) == s.take(decode_handshake(s)->Ok_0.1 as int),
    ensures
        decode_handshake(t) == decode_handshake(s),
        decode_handshake(s)->Ok_0.1 <= s.len(),
{
    let n = decode_handshake(s)->Ok_0.1 as int;
    let a = decode_header(s)->Ok_0.1 as int;
    let sa = s.skip(a);
    let b = decode_varint(sa)->Ok_0.1 as int;
    let sb = s.skip(a + b);
    let c = decode_text(sb)->Ok_0.1 as int;
    let sc = s.skip(a + b + c);
    let d = decode_short(sc)->Ok_0.1 as int;
    let sd = s.skip(a + b + c + d);
    let f = decode_varint(sd)->Ok_0.1 as int;
    lemma_header_len(s);
    lemma_varint_len(sa);
    lemma_varint_len(sd);
    assert(s.skip(0) =~= s);
    assert(t.skip(0) =~= t);
    lemma_agree_within(s, t, n, 0, a);
    lemma_header_prefix(s, t);
    lemma_agree_within(s, t, n, a, b);
    lemma_varint_prefix(sa, t.skip(a));
    lemma_agree_within(s, t, n, a + b, c);
    lemma_text_prefix(sb, t.skip(a + b));
    lemma_agree_within(s, t, n, a + b + c, d);
    lemma_short_prefix(sc, t.skip(a + b + c));
    lemma_agree_within(s, t, n, a + b + c + d, f);
    lemma_varint_prefix(sd, t.skip(a + b + c + d));
}

/// A decoded ping depends only on the bytes it takes.
pub proof fn lemma_ping_prefix(s: Seq<u8>, t: Seq<u8>)
    requires
        decode_ping(s) is Ok,
        decode_ping(s)->Ok_0.1 <= t.len(),
        t.take(decode_ping(s)->Ok_0.1 as int) == s.take(decode_ping(s)->Ok_0.1 as int),
    ensures
        decode_ping(t) == decode_ping(s),
        decode_ping(s)->Ok_0.1 <= s.len(),
{
    let n = decode_ping(s)->Ok_0.1 as int;
    let a = decode_header(s)->Ok_0.1 as int;
    lemma_header_len(s);
    assert(s.skip(0) =~= s);
    assert(t.skip(0) =~= t);
    lemma_agree_within(s, t, n, 0, a);
    lemma_header_prefix(s, t);
    lemma_agree_within(s, t, n, a, 8);
    lemma_long_prefix(s.skip(a), t.skip(a));
}

/// Decoding the wire form of any header gives it back, and takes exactly the bytes
/// that encoding wrote.
pub proof fn lemma_header_round_trip(h: Header, rest: Seq<u8>)
    ensures
        decode_header(header_bytes(h) + rest) == Ok::<(Header, nat), ProtocolError>(
            (h, header_bytes(h).len()),
        ),
{
    let l = varint_bytes(h.length.inner);
    let i = varint_bytes(h.packet_id.inner);
    let s = header_bytes(h) + rest;
    assert(s =~= l + (i + rest));
    lemma_varint_round_trip(h.length.inner, i + rest);
    assert(s.skip(l.len() as int) =~= i + rest);
    lemma_varint_round_trip(h.packet_id.inner, rest);
}

/// Decoding the wire form of any handshake gives it back, and takes exactly the bytes
/// that encoding wrote, whatever follows them.
#[verifier::rlimit(50)]
pub proof fn lemma_handshake_round_trip(m: HandshakeModel, rest: Seq<u8>)
    requires
        encode_utf8(m.server_address).len() <= i32::MAX,
    ensures
        decode_handshake(handshake_bytes(m) + rest) == Ok::<(HandshakeModel, nat), ProtocolError>(
            (m, handshake_bytes(m).len()),
        ),
{
    let hb = header_bytes(m.header);
    let pv = varint_bytes(m.protocol_version);
    let tx = text_bytes(m.server_address);
    let sp = short_bytes(m.server_port);
    let ns = varint_bytes(m.next_state);
    let s = handshake_bytes(m) + rest;
    let a = hb.len() as int;
    let b = pv.len() as int;
    let c = tx.len() as int;
    let d = sp.len() as int;
    assert(s =~= hb + (pv + tx + sp + ns + rest));
    lemma_header_round_trip(m.header, pv + tx + sp + ns + rest);
    assert(s.skip(a) =~= pv + (tx + sp + ns + rest));
    lemma_varint_round_trip(m.protocol_version, tx + sp + ns + rest);
    assert(s.skip(a + b) =~= tx + (sp + ns + rest));
    lemma_text_round_trip(m.server_address, sp + ns + rest);
    lemma_short_round_trip(m.server_port, ns + rest);
    assert(s.skip(a + b + c) =~= sp + (ns + rest));
    assert(s.skip(a + b + c + d) =~= ns + rest);
    lemma_varint_round_trip(m.next_state, rest);
}

} // verus!
