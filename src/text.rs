use vstd::prelude::*;
use vstd::utf8::*;

use crate::error::ProtocolError;
use crate::varint::{decode_varint, lemma_varint_prefix, lemma_varint_round_trip, varint_bytes, VarInt};

verus! {

broadcast use {encode_utf8_valid_utf8, encode_utf8_decode_utf8};

/// The wire form of text `s`: its UTF-8 byte count as a VarInt, then those bytes.
pub open spec fn text_bytes(s: Seq<char>) -> Seq<u8> {
    varint_bytes(encode_utf8(s).len() as i32) + encode_utf8(s)
}

/// What text at the front of `s` decodes to: its characters and the bytes it takes.
pub open spec fn decode_text(s: Seq<u8>) -> Result<(Seq<char>, nat), ProtocolError> {
    match decode_varint(s) {
        Err(e) => Err(e),
        Ok((n, k)) => {
            if n < 0 {
                Err(ProtocolError::InvalidEncoding)
            } else if k + n > s.len() {
                Err(ProtocolError::IoFailure)
            } else if !valid_utf8(s.subrange(k as int, k + n)) {
                Err(ProtocolError::InvalidEncoding)
            } else {
                Ok((decode_utf8(s.subrange(k as int, k + n)), (k + n) as nat))
            }
        },
    }
}

/// Relies on std::str::from_utf8: it accepts exactly the well-formed UTF-8 byte
/// sequences, and the text it gives back holds the characters they encode.
#[verifier::external_body]
fn utf8_text(bytes: &[u8]) -> (r: Option<&str>)
    ensures
        r is Some <==> valid_utf8(bytes@),
        r is Some ==> r->Some_0@ == decode_utf8(bytes@),
{
    std::str::from_utf8(bytes).ok()
}

/// Appends `bytes` to `out`.
pub fn append_bytes(out: &mut Vec<u8>, bytes: &[u8])
    ensures
        final(out)@ == old(out)@ + bytes@,
{
    let mut i: usize = 0;
    while i < bytes.len()
        invariant
            i <= bytes@.len(),
            out@ == old(out)@ + bytes@.take(i as int),
        decreases bytes@.len() - i,
    {
        out.push(bytes[i]);
        i = i + 1;
        assert(out@ =~= old(out)@ + bytes@.take(i as int));
    }
    assert(bytes@.take(i as int) =~= bytes@);
}

/// Text carried on the wire behind its byte length.
#[derive(Debug)]
pub struct String {
    pub inner: std::string::String,
}

impl View for String {
    type V = Seq<char>;

    open spec fn view(&self) -> Seq<char> {
        self.inner@
    }
}

impl String {
    pub fn new(s: std::string::String) -> (r: Self)
        ensures
            r@ == s@,
    {
        String { inner: s }
    }

    /// Decodes the text that starts at `input[at]`, returning it with the number of
    /// bytes it takes.
    pub fn parse(input: &[u8], at: usize) -> (r: Result<(Self, usize), ProtocolError>)
        requires
            at <= input@.len(),
        ensures
            match r {
                Ok((t, n)) => decode_text(input@.skip(at as int)) == Ok::<(Seq<char>, nat), ProtocolError>((t@, n as nat))
                    && at + n <= input.len(),
                Err(e) => decode_text(input@.skip(at as int)) == Err::<(Seq<char>, nat), ProtocolError>(e),
            },
    {
        let ghost s = input@.skip(at as int);
        let (size, k) = match VarInt::parse(input, at) {
            Ok(p) => p,
            Err(e) => {
                return Err(e);
            },
        };
        if size.inner < 0 {
            return Err(ProtocolError::InvalidEncoding);
        }
        let len = size.inner as usize;
        if len > input.len() - at - k {
            return Err(ProtocolError::IoFailure);
        }
        let start = at + k;
        let bytes = &input[start..start + len];
        assert(bytes@ =~= s.subrange(k as int, k + len));
        match utf8_text(bytes) {
            Some(t) => {
                let text = t.to_owned();
                Ok((String { inner: text }, k + len))
            },
            None => Err(ProtocolError::InvalidEncoding),
        }
    }

    /// Appends the wire form of this text to `out`, returning the number of bytes
    /// written; text whose byte length does not fit a VarInt is refused and nothing is
    /// written.
    pub fn send(self, out: &mut Vec<u8>) -> (r: Result<usize, ProtocolError>)
        ensures
            encode_utf8(self@).len() <= i32::MAX ==> r == Ok::<usize, ProtocolError>(
                text_bytes(self@).len() as usize,
            ) && final(out)@ == old(out)@ + text_bytes(self@) && text_bytes(self@).len() <= 0x8000_0004,
            encode_utf8(self@).len() > i32::MAX ==> r == Err::<usize, ProtocolError>(
                ProtocolError::InvalidEncoding,
            ) && final(out)@ == old(out)@,
    {
        let bytes = self.inner.as_str().as_bytes();
        let len = bytes.len();
        if len > 0x7fff_ffff {
            return Err(ProtocolError::InvalidEncoding);
        }
        let head = VarInt::from(len as i32).send(out);
        append_bytes(out, bytes);
        assert(out@ =~= old(out)@ + text_bytes(self@));
        Ok(head + len)
    }
}

/// Decoding the wire form of any text gives back that text, and takes exactly the
/// bytes that encoding wrote, whatever follows them.
pub proof fn lemma_text_round_trip(s: Seq<char>, rest: Seq<u8>)
    requires
        encode_utf8(s).len() <= i32::MAX,
    ensures
        decode_text(text_bytes(s) + rest) == Ok::<(Seq<char>, nat), ProtocolError>(
            (s, text_bytes(s).len()),
        ),
{
    let b = encode_utf8(s);
    let n = b.len() as i32;
    let head = varint_bytes(n);
    let all = text_bytes(s) + rest;
    assert(all =~= head + (b + rest));
    lemma_varint_round_trip(n, b + rest);
    assert(all.subrange(head.len() as int, (head.len() + b.len()) as int) =~= b);
}

/// Decoded text depends only on the bytes it takes.
pub proof fn lemma_text_prefix(s: Seq<u8>, t: Seq<u8>)
    requires
        decode_text(s) is Ok,
        decode_text(s)->Ok_0.1 <= t.len(),
        t.take(decode_text(s)->Ok_0.1 as int) == s.take(decode_text(s)->Ok_0.1 as int),
    ensures
        decode_text(t) == decode_text(s),
        decode_text(s)->Ok_0.1 <= s.len(),
{
    let m = decode_text(s)->Ok_0.1 as int;
    let k = decode_varint(s)->Ok_0.1 as int;
    assert(t.take(k) =~= t.take(m).take(k));
    assert(s.take(k) =~= s.take(m).take(k));
    lemma_varint_prefix(s, t);
    assert(t.subrange(k, m) =~= t.take(m).subrange(k, m));
    assert(s.subrange(k, m) =~= s.take(m).subrange(k, m));
}

} // verus!
