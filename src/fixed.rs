use vstd::prelude::*;
use vstd::arithmetic::div_mod::lemma_mod_breakdown;

use crate::error::ProtocolError;

verus! {

/// 256 to the power `n`.
pub open spec fn pow256(n: nat) -> nat
    decreases n,
{
    if n == 0 {
        1
    } else {
        256 * pow256((n - 1) as nat)
    }
}

/// The unsigned number that the bytes `s` spell, most significant first.
pub open spec fn be_value(s: Seq<u8>) -> nat
    decreases s.len(),
{
    if s.len() == 0 {
        0
    } else {
        be_value(s.drop_last()) * 256 + s.last() as nat
    }
}

/// The `n` low bytes of `v`, most significant first.
pub open spec fn be_bytes(v: nat, n: nat) -> Seq<u8>
    decreases n,
{
    if n == 0 {
        seq![]
    } else {
        be_bytes(v / 256, (n - 1) as nat).push((v % 256) as u8)
    }
}

/// The unsigned 64-bit pattern of `i`.
pub open spec fn bits64_of(i: i64) -> nat {
    if i >= 0 {
        i as nat
    } else {
        (i + 0x1_0000_0000_0000_0000) as nat
    }
}

/// The signed reading of a 64-bit pattern.
pub open spec fn signed64_of(u: nat) -> i64 {
    if u < 0x8000_0000_0000_0000 {
        u as i64
    } else {
        (u - 0x1_0000_0000_0000_0000) as i64
    }
}

/// The wire form of an unsigned short.
pub open spec fn short_bytes(u: u16) -> Seq<u8> {
    be_bytes(u as nat, 2)
}

/// The wire form of a long.
pub open spec fn long_bytes(i: i64) -> Seq<u8> {
    be_bytes(bits64_of(i), 8)
}

/// What an unsigned short at the front of `s` decodes to.
pub open spec fn decode_short(s: Seq<u8>) -> Result<(u16, nat), ProtocolError> {
    if s.len() < 2 {
        Err(ProtocolError::IoFailure)
    } else {
        Ok((be_value(s.take(2)) as u16, 2))
    }
}

/// What a long at the front of `s` decodes to.
pub open spec fn decode_long(s: Seq<u8>) -> Result<(i64, nat), ProtocolError> {
    if s.len() < 8 {
        Err(ProtocolError::IoFailure)
    } else {
        Ok((signed64_of(be_value(s.take(8))), 8))
    }
}

pub proof fn lemma_be_value_bound(s: Seq<u8>)
    ensures
        be_value(s) < pow256(s.len()),
    decreases s.len(),
{
    if s.len() > 0 {
        lemma_be_value_bound(s.drop_last());
        let a = be_value(s.drop_last());
        let p = pow256(s.drop_last().len());
        assert(a * 256 + s.last() < 256 * p) by (nonlinear_arith)
            requires
                a < p,
                s.last() < 256,
        ;
    }
}

/// Reads `n` bytes from `input[at]` on, most significant first.
fn read_be(input: &[u8], at: usize, n: usize) -> (r: u64)
    requires
        n <= 8,
        at + n <= input@.len(),
    ensures
        r == be_value(input@.subrange(at as int, at + n)),
{
    let mut acc: u64 = 0;
    let mut i: usize = 0;
    while i < n
        invariant
            i <= n <= 8,
            at + n <= input.len(),
            acc == be_value(input@.subrange(at as int, at + i)),
        decreases n - i,
    {
        let ghost prev = input@.subrange(at as int, at + i);
        let b = input[at + i];
        proof {
            lemma_be_value_bound(prev);
            reveal_with_fuel(pow256, 9);
            assert(pow256(i as nat) <= pow256(7)) by {
                lemma_pow256_mono(i as nat, 7);
            }
        }
        acc = acc * 256 + b as u64;
        i = i + 1;
        assert(input@.subrange(at as int, at + i).drop_last() =~= prev);
    }
    acc
}

proof fn lemma_pow256_mono(a: nat, b: nat)
    requires
        a <= b,
    ensures
        pow256(a) <= pow256(b),
    decreases b,
{
    if a < b {
        lemma_pow256_mono(a, (b - 1) as nat);
    }
}

/// Appends the `n` low bytes of `v` to `out`, most significant first.
fn write_be(out: &mut Vec<u8>, v: u64, n: usize)
    ensures
        final(out)@ == old(out)@ + be_bytes(v as nat, n as nat),
        be_bytes(v as nat, n as nat).len() == n,
    decreases n,
{
    if n > 0 {
        write_be(out, v / 256, n - 1);
        out.push((v % 256) as u8);
    }
}

#[allow(non_snake_case)]
/// Decodes the unsigned short at `input[at]`, returning it with the two bytes it takes.
pub fn parse_UnsignedShort(input: &[u8], at: usize) -> (r: Result<(u16, usize), ProtocolError>)
    requires
        at <= input@.len(),
    ensures
        match r {
            Ok((u, n)) => decode_short(input@.skip(at as int)) == Ok::<(u16, nat), ProtocolError>((u, n as nat))
                && at + n <= input.len(),
            Err(e) => decode_short(input@.skip(at as int)) == Err::<(u16, nat), ProtocolError>(e),
        },
{
    if input.len() - at < 2 {
        return Err(ProtocolError::IoFailure);
    }
    let v = read_be(input, at, 2);
    assert(input@.subrange(at as int, at + 2) =~= input@.skip(at as int).take(2));
    proof {
        lemma_be_value_bound(input@.subrange(at as int, at + 2));
        reveal_with_fuel(pow256, 3);
    }
    Ok((v as u16, 2))
}

#[allow(non_snake_case)]
/// Appends the wire form of `u` to `out`, returning the number of bytes written.
pub fn send_UnsignedShort(out: &mut Vec<u8>, u: u16) -> (r: usize)
    ensures
        final(out)@ == old(out)@ + short_bytes(u),
        r == short_bytes(u).len(),
        r == 2,
{
    write_be(out, u as u64, 2);
    2
}

#[allow(non_snake_case)]
/// Decodes the long at `input[at]`, returning it with the eight bytes it takes.
pub fn parse_Long(input: &[u8], at: usize) -> (r: Result<(i64, usize), ProtocolError>)
    requires
        at <= input@.len(),
    ensures
        match r {
            Ok((i, n)) => decode_long(input@.skip(at as int)) == Ok::<(i64, nat), ProtocolError>((i, n as nat))
                && at + n <= input.len(),
            Err(e) => decode_long(input@.skip(at as int)) == Err::<(i64, nat), ProtocolError>(e),
        },
{
    if input.len() - at < 8 {
        return Err(ProtocolError::IoFailure);
    }
    let v = read_be(input, at, 8);
    assert(input@.subrange(at as int, at + 8) =~= input@.skip(at as int).take(8));
    let i: i64 = if v < 0x8000_0000_0000_0000 {
        v as i64
    } else {
        (v - 0x8000_0000_0000_0000) as i64 - 0x4000_0000_0000_0000 - 0x4000_0000_0000_0000
    };
    Ok((i, 8))
}

#[allow(non_snake_case)]
/// Appends the wire form of `i` to `out`, returning the number of bytes written.
pub fn send_Long(out: &mut Vec<u8>, i: i64) -> (r: usize)
    ensures
        final(out)@ == old(out)@ + long_bytes(i),
        r == long_bytes(i).len(),
        r == 8,
{
    let u: u64 = if i >= 0 {
        i as u64
    } else {
        ((i + 0x4000_0000_0000_0000) + 0x4000_0000_0000_0000) as u64 + 0x8000_0000_0000_0000
    };
    write_be(out, u, 8);
    8
}

/// A decoded unsigned short depends only on the two bytes it takes.
pub proof fn lemma_short_prefix(s: Seq<u8>, t: Seq<u8>)
    requires
        decode_short(s) is Ok,
        2 <= t.len(),
        t.take(2) == s.take(2),
    ensures
        decode_short(t) == decode_short(s),
        decode_short(s)->Ok_0.1 == 2,
{
}

/// A decoded long depends only on the eight bytes it takes.
pub proof fn lemma_long_prefix(s: Seq<u8>, t: Seq<u8>)
    requires
        decode_long(s) is Ok,
        8 <= t.len(),
        t.take(8) == s.take(8),
    ensures
        decode_long(t) == decode_long(s),
        decode_long(s)->Ok_0.1 == 8,
{
}

proof fn lemma_pow256_pos(n: nat)
    ensures
        pow256(n) > 0,
    decreases n,
{
    if n > 0 {
        lemma_pow256_pos((n - 1) as nat);
    }
}

proof fn lemma_be_value_of_bytes(v: nat, n: nat)
    ensures
        be_value(be_bytes(v, n)) == v % pow256(n),
        be_bytes(v, n).len() == n,
    decreases n,
{
    if n > 0 {
        let p = pow256((n - 1) as nat);
        lemma_be_value_of_bytes(v / 256, (n - 1) as nat);
        assert(be_bytes(v, n).drop_last() =~= be_bytes(v / 256, (n - 1) as nat));
        lemma_pow256_pos((n - 1) as nat);
        lemma_mod_breakdown(v as int, 256, p as int);
    }
}

proof fn lemma_be_bytes_of_value(b: Seq<u8>)
    ensures
        be_bytes(be_value(b), b.len()) == b,
    decreases b.len(),
{
    if b.len() > 0 {
        let rest = b.drop_last();
        lemma_be_bytes_of_value(rest);
        let v = be_value(b);
        assert(v / 256 == be_value(rest));
        assert(v % 256 == b.last());
        assert(be_bytes(v, b.len()) =~= b);
    }
}

/// Decoding the wire form of an unsigned short gives it back.
pub proof fn lemma_short_round_trip(u: u16, rest: Seq<u8>)
    ensures
        decode_short(short_bytes(u) + rest) == Ok::<(u16, nat), ProtocolError>((u, 2)),
        short_bytes(u).len() == 2,
{
    lemma_be_value_of_bytes(u as nat, 2);
    reveal_with_fuel(pow256, 3);
    assert(pow256(2) == 0x1_0000);
    assert((short_bytes(u) + rest).take(2) =~= short_bytes(u));
    assert(be_value(short_bytes(u)) == u);
}

/// Decoding the wire form of a long gives it back.
pub proof fn lemma_long_round_trip(i: i64, rest: Seq<u8>)
    ensures
        decode_long(long_bytes(i) + rest) == Ok::<(i64, nat), ProtocolError>((i, 8)),
        long_bytes(i).len() == 8,
{
    lemma_be_value_of_bytes(bits64_of(i), 8);
    reveal_with_fuel(pow256, 9);
    assert(pow256(8) == 0x1_0000_0000_0000_0000);
    assert((long_bytes(i) + rest).take(8) =~= long_bytes(i));
    assert(be_value(long_bytes(i)) == bits64_of(i));
}

/// Encoding a decoded long gives back the eight bytes it was read from.
pub proof fn lemma_long_bytes_of_decoded(s: Seq<u8>)
    requires
        decode_long(s) is Ok,
    ensures
        long_bytes(decode_long(s)->Ok_0.0) == s.take(8),
{
    let b = s.take(8);
    lemma_be_value_bound(b);
    reveal_with_fuel(pow256, 9);
    lemma_be_bytes_of_value(b);
}

} // verus!
