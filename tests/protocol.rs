use mc_server_list_ping::error::ProtocolError;
use mc_server_list_ping::fixed::{parse_Long, parse_UnsignedShort, send_Long, send_UnsignedShort};
use mc_server_list_ping::fsm::{Action, Fsm, Phase};
use mc_server_list_ping::json::{decimal_text, signed_decimal_text, status_json_text};
use mc_server_list_ping::packet::{
    HandshakePacket, Header, PingPacket, RequestPacket, ResponsePacket,
};
use mc_server_list_ping::text::String as WireString;
use mc_server_list_ping::varint::VarInt;

fn varint(n: i32) -> Vec<u8> {
    let mut out = Vec::new();
    VarInt::from(n).send(&mut out);
    out
}

fn handshake_bytes(next_state: i32) -> Vec<u8> {
    let packet = HandshakePacket {
        header: Header::new(VarInt::from(16), VarInt::from(0)),
        protocol_version: VarInt::from(578),
        server_address: WireString::new("localhost".to_string()),
        server_port: 25565,
        next_state: VarInt::from(next_state),
    };
    let mut out = Vec::new();
    packet.send(&mut out).unwrap();
    out
}

struct Outcome {
    written: Vec<Vec<u8>>,
    consumed: usize,
    last: Action,
}

/// Feeds `client` to a fresh connection one byte at a time, as the actions ask.
fn drive(fsm: Fsm<'_>, client: &[u8]) -> Outcome {
    let mut conn = fsm.start();
    let mut written = Vec::new();
    let mut consumed = 0;
    loop {
        let action = conn.step(client[consumed]);
        consumed += 1;
        match action {
            Action::Read => {}
            Action::Reply(bytes) => written.push(bytes),
            other => {
                if let Action::Finish(bytes) = &other {
                    written.push(bytes.clone());
                }
                return Outcome { written, consumed, last: other };
            }
        }
    }
}

#[test]
fn varint_minimal_encoding() {
    assert_eq!(varint(0), vec![0x00]);
    assert_eq!(varint(127), vec![0x7f]);
    assert_eq!(varint(128), vec![0x80, 0x01]);
    assert_eq!(varint(25565), vec![0xdd, 0xc7, 0x01]);
    assert_eq!(varint(-1), vec![0xff, 0xff, 0xff, 0xff, 0x0f]);
    assert_eq!(varint(i32::MAX), vec![0xff, 0xff, 0xff, 0xff, 0x07]);
}

#[test]
fn varint_round_trip_values() {
    for n in [0, 1, 127, 128, 255, 300, 25565, 2097151, i32::MAX, -1, -128, i32::MIN] {
        let mut bytes = varint(n);
        let written = bytes.len();
        bytes.push(0x55);
        let (v, used) = VarInt::parse(&bytes, 0).unwrap();
        assert_eq!(v.inner, n);
        assert_eq!(used, written);
    }
}

#[test]
fn varint_parse_at_offset() {
    let bytes = vec![0x01, 0x80, 0x01, 0x07];
    let (v, used) = VarInt::parse(&bytes, 1).unwrap();
    assert_eq!(v.inner, 128);
    assert_eq!(used, 2);
}

#[test]
fn varint_too_long() {
    let bytes = vec![0x80, 0x81, 0xff, 0x80, 0x80, 0x01];
    assert_eq!(VarInt::parse(&bytes, 0).unwrap_err(), ProtocolError::VarIntTooLong);
    assert_eq!(VarInt::parse(&bytes[..5], 0).unwrap_err(), ProtocolError::VarIntTooLong);
}

#[test]
fn varint_truncated() {
    assert_eq!(VarInt::parse(&[], 0).unwrap_err(), ProtocolError::IoFailure);
    assert_eq!(VarInt::parse(&[0x80, 0x80], 0).unwrap_err(), ProtocolError::IoFailure);
}

#[test]
fn varint_fifth_byte_high_bits_dropped() {
    let (v, used) = VarInt::parse(&[0xff, 0xff, 0xff, 0xff, 0x7f], 0).unwrap();
    assert_eq!(v.inner, -1);
    assert_eq!(used, 5);
}

#[test]
fn text_round_trip() {
    for s in ["", "localhost", "héllo ✓ 𝄞"] {
        let mut out = vec![0xee];
        let written = WireString::new(s.to_string()).send(&mut out).unwrap();
        assert_eq!(written, out.len() - 1);
        out.push(0x00);
        let (t, used) = WireString::parse(&out, 1).unwrap();
        assert_eq!(t.inner, s);
        assert_eq!(used, written);
    }
}

#[test]
fn text_counts_bytes_not_chars() {
    let mut out = Vec::new();
    WireString::new("é".to_string()).send(&mut out).unwrap();
    assert_eq!(out, vec![0x02, 0xc3, 0xa9]);
}

#[test]
fn text_invalid_utf8() {
    assert_eq!(
        WireString::parse(&[0x02, 0xc3, 0x28], 0).unwrap_err(),
        ProtocolError::InvalidEncoding
    );
}

#[test]
fn text_negative_length() {
    assert_eq!(
        WireString::parse(&[0xff, 0xff, 0xff, 0xff, 0x0f], 0).unwrap_err(),
        ProtocolError::InvalidEncoding
    );
}

#[test]
fn text_truncated() {
    assert_eq!(
        WireString::parse(&[0x05, b'a', b'b'], 0).unwrap_err(),
        ProtocolError::IoFailure
    );
}

#[test]
fn short_and_long_wire_form() {
    let mut out = Vec::new();
    assert_eq!(send_UnsignedShort(&mut out, 25565), 2);
    assert_eq!(out, vec![0x63, 0xdd]);
    assert_eq!(parse_UnsignedShort(&out, 0).unwrap(), (25565, 2));
    assert_eq!(parse_UnsignedShort(&out, 1).unwrap_err(), ProtocolError::IoFailure);

    let mut out = Vec::new();
    assert_eq!(send_Long(&mut out, 42), 8);
    assert_eq!(out, vec![0, 0, 0, 0, 0, 0, 0, 42]);
    for i in [0i64, 42, -1, i64::MIN, i64::MAX, 0x0102_0304_0506_0708] {
        let mut out = Vec::new();
        send_Long(&mut out, i);
        assert_eq!(out, i.to_be_bytes().to_vec());
        assert_eq!(parse_Long(&out, 0).unwrap(), (i, 8));
    }
    assert_eq!(parse_Long(&[1, 2, 3], 0).unwrap_err(), ProtocolError::IoFailure);
}

#[test]
fn header_round_trip() {
    let mut out = Vec::new();
    let n = Header::new(VarInt::from(300), VarInt::from(1)).send(&mut out);
    assert_eq!(out, vec![0xac, 0x02, 0x01]);
    assert_eq!(n, 3);
    let (h, used) = Header::parse(&out, 0).unwrap();
    assert_eq!(h, Header::new(VarInt::from(300), VarInt::from(1)));
    assert_eq!(used, 3);
}

#[test]
fn handshake_round_trip() {
    let bytes = handshake_bytes(1);
    assert_eq!(bytes.len(), 17);
    assert_eq!(bytes[0], 16);
    let (p, used) = HandshakePacket::parse(&bytes, 0).unwrap();
    assert_eq!(used, 1 + 1 + 2 + 10 + 2 + 1);
    assert_eq!(p.header, Header::new(VarInt::from(16), VarInt::from(0)));
    assert_eq!(p.protocol_version.inner, 578);
    assert_eq!(p.server_address.inner, "localhost");
    assert_eq!(p.server_port, 25565);
    assert_eq!(p.next_state.inner, 1);
}

#[test]
fn request_parse() {
    let (r, used) = RequestPacket::parse(&[0x01, 0x00], 0).unwrap();
    assert_eq!(r.header, Header::new(VarInt::from(1), VarInt::from(0)));
    assert_eq!(used, 2);
}

#[test]
fn ping_round_trip() {
    let ping = PingPacket { header: Header::new(VarInt::from(9), VarInt::from(1)), ping_id: -7 };
    let mut out = Vec::new();
    assert_eq!(ping.send(&mut out), 10);
    assert_eq!(PingPacket::parse(&out, 0).unwrap(), (ping, 10));
}

#[test]
fn decimal_forms() {
    assert_eq!(decimal_text(0), "0");
    assert_eq!(decimal_text(9), "9");
    assert_eq!(decimal_text(10), "10");
    assert_eq!(decimal_text(767), "767");
    assert_eq!(decimal_text(usize::MAX), usize::MAX.to_string());
    assert_eq!(signed_decimal_text(-578), "-578");
    assert_eq!(signed_decimal_text(i32::MIN), "-2147483648");
    assert_eq!(signed_decimal_text(i32::MAX), "2147483647");
}

#[test]
fn status_document() {
    let json = status_json_text("1.21.1", 767, 100, 5, "Server not started");
    assert_eq!(
        json,
        r#"{"version":{"name":"1.21.1","protocol":767},"players":{"max":100,"online":5},"description":{"text":"Server not started"}}"#
    );
}

#[test]
fn response_length_counts_prefix() {
    let response = ResponsePacket::new("1.21.1", 767, 0, 0, "Server not started, come back later");
    let size = response.json.inner.len();
    assert!(size >= 128);
    assert_eq!(response.header.length.inner as usize, 1 + 2 + size);
    assert_eq!(response.header.packet_id.inner, 0);
    let mut out = Vec::new();
    let n = response.send(&mut out).unwrap();
    assert_eq!(n, out.len());
    let (h, used) = Header::parse(&out, 0).unwrap();
    assert_eq!(h.length.inner as usize, out.len() - (used - 1));
}

#[test]
fn fsm_defaults_and_builders() {
    let fsm = Fsm::new("1.15.2", 578);
    assert_eq!(fsm.player_max, 0);
    assert_eq!(fsm.player_online, 0);
    assert_eq!(fsm.description, "A minecraft server");
    let fsm = fsm.player_max(20).player_online(3).description("hello");
    assert_eq!(fsm.version_name, "1.15.2");
    assert_eq!(fsm.version_protocol, 578);
    assert_eq!(fsm.player_max, 20);
    assert_eq!(fsm.player_online, 3);
    assert_eq!(fsm.description, "hello");
    assert!(fsm.texts_fit());
}

#[test]
fn status_exchange_end_to_end() {
    let mut client = handshake_bytes(1);
    client.extend([0x01, 0x00]);
    client.extend([0x09, 0x01, 0, 0, 0, 0, 0, 0, 0, 42]);
    let fsm = Fsm::new("1.21.1", 767).description("Server not started");
    let outcome = drive(fsm, &client);
    assert!(matches!(outcome.last, Action::Finish(_)));
    assert_eq!(outcome.consumed, client.len());
    assert_eq!(outcome.written.len(), 2);

    let response = &outcome.written[0];
    let (h, used) = Header::parse(response, 0).unwrap();
    assert_eq!(h.packet_id.inner, 0);
    assert_eq!(h.length.inner as usize, response.len() - (used - 1));
    let (json, _) = WireString::parse(response, used).unwrap();
    assert!(json.inner.contains(r#""protocol":767"#));
    assert!(json.inner.contains(r#""name":"1.21.1""#));
    assert!(json.inner.contains(r#""max":0,"online":0"#));
    assert!(json.inner.contains(r#""text":"Server not started""#));

    assert_eq!(outcome.written[1], vec![0x09, 0x01, 0, 0, 0, 0, 0, 0, 0, 42]);
}

#[test]
fn login_handoff() {
    let mut client = handshake_bytes(2);
    let handshake_len = client.len();
    client.extend([0xab, 0xcd]);
    let outcome = drive(Fsm::new("1.21.1", 767), &client);
    assert!(outcome.written.is_empty());
    assert_eq!(outcome.consumed, handshake_len);
    assert_eq!(&client[outcome.consumed..], &[0xab, 0xcd]);
    match outcome.last {
        Action::HandOff(p) => {
            assert_eq!(p.next_state.inner, 2);
            assert_eq!(p.server_address.inner, "localhost");
            assert_eq!(p.protocol_version.inner, 578);
        }
        other => panic!("unexpected action {:?}", other),
    }
}

#[test]
fn rejection_of_unknown_next_state() {
    let mut client = handshake_bytes(5);
    client.extend([0x01, 0x00]);
    let mut conn = Fsm::new("1.21.1", 767).start();
    let mut last = Action::Read;
    let mut i = 0;
    while !conn.is_finished() {
        last = conn.step(client[i]);
        i += 1;
        assert!(!matches!(last, Action::Reply(_) | Action::Finish(_)));
    }
    assert_eq!(conn.phase, Phase::Failed);
    assert!(matches!(last, Action::Fail(ProtocolError::UnexpectedNextState)));
    assert_eq!(i, client.len() - 2);
}

#[test]
fn malformed_request_fails() {
    let mut client = handshake_bytes(1);
    client.extend([0x80, 0x80, 0x80, 0x80, 0x80]);
    let outcome = drive(Fsm::new("1.21.1", 767), &client);
    assert!(matches!(outcome.last, Action::Fail(ProtocolError::VarIntTooLong)));
    assert!(outcome.written.is_empty());
}
