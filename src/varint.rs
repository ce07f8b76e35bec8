use vstd::prelude::*;

use crate::error::ProtocolError;

verus! {

/// 128 to the power `i`: the weight of the `i`-th seven-bit group.
pub open spec fn pow128(i: nat) -> nat
    decreases i,
{
    if i == 0 {
        1
    } else {
        128 * pow128((i - 1) as nat)
    }
}

/// The unsigned 32-bit pattern of `n`.
pub open spec fn bits_of(n: i32) -> nat {
    if n >= 0 {
        n as nat
    } else {
        (n + 0x1_0000_0000) as nat
    }
}

/// The signed reading of a 32-bit pattern.
pub open spec fn signed_of(u: nat) -> i32 {
    if u < 0x8000_0000 {
        u as i32
    } else {
        (u - 0x1_0000_0000) as i32
    }
}

/// The groups of `v`, least significant first, each continued but the last.
pub open spec fn group_bytes(v: nat) -> Seq<u8>
    decreases v,
{
    if v < 128 {
        seq![v as u8]
    } else {
        seq![(v % 128 + 128) as u8] + group_bytes(v / 128)
    }
}

/// The wire form of `n`.
pub open spec fn varint_bytes(n: i32) -> Seq<u8> {
    group_bytes(bits_of(n))
}

/// Decoding of `s` from its `i`-th byte on, with `acc` collected from the bytes before it.
pub open spec fn decode_groups(s: Seq<u8>, i: nat, acc: nat) -> Result<(i32, nat), ProtocolError>
    decreases 5 - i,
{
    if i >= s.len() {
        Err(ProtocolError::IoFailure)
    } else {
        let sum = acc + (s[i as int] % 128) as nat * pow128(i);
        if s[i as int] < 128 {
            Ok((signed_of(sum % 0x1_0000_0000), i + 1))
        } else if i + 1 >= 5 {
            Err(ProtocolError::VarIntTooLong)
        } else {
            decode_groups(s, i + 1, sum)
        }
    }
}

/// What a VarInt at the front of `s` decodes to: its value and the bytes it takes.
pub open spec fn decode_varint(s: Seq<u8>) -> Result<(i32, nat), ProtocolError> {
    decode_groups(s, 0, 0)
}

/// A 32-bit signed integer carried on the wire in the variable-length form.
#[derive(Clone, Copy, Debug, PartialEq, Eq, Structural)]
pub struct VarInt {
    pub inner: i32,
}

impl VarInt {
    pub fn from(n: i32) -> (r: Self)
        ensures
            r.inner == n,
    {
        VarInt { inner: n }
    }

    /// Decodes the VarInt that starts at `input[at]`, returning it with the number of
    /// bytes it takes.
    pub fn parse(input: &[u8], at: usize) -> (r: Result<(Self, usize), ProtocolError>)
        requires
            at <= input@.len(),
        ensures
            match r {
                Ok((v, n)) => decode_varint(input@.skip(at as int)) == Ok::<(i32, nat), ProtocolError>((v.inner, n as nat))
                    && 1 <= n <= 5 && at + n <= input.len(),
                Err(e) => decode_varint(input@.skip(at as int)) == Err::<(i32, nat), ProtocolError>(e),
            },
    {
        let ghost s = input@.skip(at as int);
        let mut acc: u64 = 0;
        let mut weight: u64 = 1;
        let mut i: usize = 0;
        loop
            invariant
                s == input@.skip(at as int),
                at <= input@.len(),
                i < 5,
                weight == pow128(i as nat),
                acc < weight,
                decode_varint(s) == decode_groups(s, i as nat, acc as nat),
            decreases 5 - i,
        {
            if i >= input.len() - at {
                return Err(ProtocolError::IoFailure);
            }
            let b = input[at + i];
            assert(s[i as int] == b);
            proof {
                assert(weight <= 0x1000_0000) by {
                    lemma_pow128_bound(i as nat);
                }
                assert(acc + (b % 128) as nat * weight < 128 * weight) by (nonlinear_arith)
                    requires
                        acc < weight,
                        b % 128 < 128,
                ;
            }
            acc = acc + (b % 128) as u64 * weight;
            if b < 128 {
                let u: u64 = acc % 0x1_0000_0000;
                let v: i32 = if u < 0x8000_0000 {
                    u as i32
                } else {
                    (u as i64 - 0x1_0000_0000) as i32
                };
                return Ok((VarInt { inner: v }, i + 1));
            }
            if i + 1 >= 5 {
                return Err(ProtocolError::VarIntTooLong);
            }
            i = i + 1;
            weight = weight * 128;
        }
    }

    /// Appends the wire form of this VarInt to `out`, returning the number of bytes written.
    pub fn send(self, out: &mut Vec<u8>) -> (r: usize)
        ensures
            final(out)@ == old(out)@ + varint_bytes(self.inner),
            r == varint_bytes(self.inner).len(),
            1 <= r <= 5,
    {
        let mut n: u32 = if self.inner >= 0 {
            self.inner as u32
        } else {
            (self.inner as i64 + 0x1_0000_0000) as u32
        };
        let mut count: usize = 0;
        proof {
            lemma_group_bytes_len(bits_of(self.inner));
        }
        loop
            invariant
                out@ + group_bytes(n as nat) == old(out)@ + varint_bytes(self.inner),
                count + group_bytes(n as nat).len() == varint_bytes(self.inner).len(),
                varint_bytes(self.inner).len() <= 5,
            decreases n,
        {
            let low = (n % 128) as u8;
            let rest = n / 128;
            count = count + 1;
            if rest == 0 {
                assert(group_bytes(n as nat) == seq![low]);
                out.push(low);
                return count;
            }
            assert(group_bytes(n as nat) == seq![(low + 128) as u8] + group_bytes(rest as nat));
            out.push(low + 128);
            assert(out@ + group_bytes(rest as nat) == old(out)@ + varint_bytes(self.inner));
            n = rest;
        }
    }
}

pub proof fn lemma_pow128_bound(i: nat)
    requires
        i < 5,
    ensures
        pow128(i) <= 0x1000_0000,
        i == 4 ==> pow128(i) == 0x1000_0000,
{
    reveal_with_fuel(pow128, 5);
}

/// The wire form of a 32-bit value takes one to five bytes.
pub proof fn lemma_group_bytes_len(v: nat)
    requires
        v < 0x1_0000_0000,
    ensures
        1 <= group_bytes(v).len() <= 5,
{
    let v1 = v / 128;
    let v2 = v1 / 128;
    let v3 = v2 / 128;
    let v4 = v3 / 128;
    assert(v4 < 128);
    reveal_with_fuel(group_bytes, 5);
}

proof fn lemma_decode_groups_of(v: nat, s: Seq<u8>, i: nat, acc: nat)
    requires
        i < 5,
        i + group_bytes(v).len() <= s.len(),
        s.subrange(i as int, i + group_bytes(v).len() as int) == group_bytes(v),
        acc < pow128(i),
        acc + v * pow128(i) < 0x1_0000_0000,
    ensures
        decode_groups(s, i, acc) == Ok::<(i32, nat), ProtocolError>(
            (signed_of(acc + v * pow128(i)), i + group_bytes(v).len()),
        ),
    decreases v,
{
    let p = pow128(i);
    assert(s[i as int] == group_bytes(v)[0]);
    if v < 128 {
        assert((acc + v * p) % 0x1_0000_0000 == acc + v * p);
    } else {
        let b = s[i as int];
        assert(b == (v % 128 + 128) as u8);
        assert(b % 128 == v % 128);
        if i == 4 {
            lemma_pow128_bound(i);
            assert(v * p >= 128 * 0x1000_0000) by (nonlinear_arith)
                requires
                    v >= 128,
                    p == 0x1000_0000,
            ;
        }
        let rest = group_bytes(v / 128);
        assert(group_bytes(v) == seq![b] + rest);
        let ii = i as int;
        let rl = rest.len() as int;
        assert(s.subrange(ii + 1, ii + 1 + rl) == rest) by {
            assert(s.subrange(ii + 1, ii + 1 + rl) =~= s.subrange(
                ii,
                ii + group_bytes(v).len(),
            ).subrange(1, 1 + rl));
        }
        let sum = acc + (v % 128) * p;
        assert(pow128(i + 1) == 128 * p);
        assert(sum < pow128(i + 1) && sum + (v / 128) * pow128(i + 1) == acc + v * p)
            by (nonlinear_arith)
            requires
                sum == acc + (v % 128) * p,
                pow128(i + 1) == 128 * p,
                acc < p,
                v == 128 * (v / 128) + v % 128,
                v % 128 < 128,
        ;
        lemma_decode_groups_of(v / 128, s, i + 1, sum);
    }
}

/// Decoding the wire form of any `n` gives back `n`, and takes exactly the bytes that
/// encoding wrote, whatever follows them.
pub proof fn lemma_varint_round_trip(n: i32, rest: Seq<u8>)
    ensures
        decode_varint(varint_bytes(n) + rest) == Ok::<(i32, nat), ProtocolError>(
            (n, varint_bytes(n).len()),
        ),
{
    let e = varint_bytes(n);
    let s = e + rest;
    lemma_group_bytes_len(bits_of(n));
    assert(s.subrange(0, e.len() as int) =~= e);
    assert(pow128(0) == 1);
    assert(bits_of(n) * pow128(0) == bits_of(n));
    lemma_decode_groups_of(bits_of(n), s, 0, 0);
}

/// Five bytes that all carry the continuation bit are refused as too long, and
/// nothing after them is looked at.
pub proof fn lemma_varint_too_long(s: Seq<u8>)
    requires
        s.len() >= 5,
        forall|i: int| 0 <= i < 5 ==> s[i] >= 128,
    ensures
        decode_varint(s) == Err::<(i32, nat), ProtocolError>(ProtocolError::VarIntTooLong),
        decode_varint(s.take(5)) == Err::<(i32, nat), ProtocolError>(ProtocolError::VarIntTooLong),
{
    reveal_with_fuel(decode_groups, 6);
}

proof fn lemma_decode_groups_prefix(s: Seq<u8>, t: Seq<u8>, i: nat, acc: nat)
    requires
        decode_groups(s, i, acc) is Ok,
        decode_groups(s, i, acc)->Ok_0.1 <= t.len(),
        t.take(decode_groups(s, i, acc)->Ok_0.1 as int) == s.take(
            decode_groups(s, i, acc)->Ok_0.1 as int,
        ),
    ensures
        decode_groups(t, i, acc) == decode_groups(s, i, acc),
        i < decode_groups(s, i, acc)->Ok_0.1 <= s.len(),
    decreases 5 - i,
{
    let n = decode_groups(s, i, acc)->Ok_0.1;
    let sum = acc + (s[i as int] % 128) as nat * pow128(i);
    if s[i as int] >= 128 {
        lemma_decode_groups_prefix(s, t, i + 1, sum);
    }
    assert(t.take(n as int)[i as int] == s.take(n as int)[i as int]);
}

/// A VarInt's value depends only on the bytes it takes.
pub proof fn lemma_varint_prefix(s: Seq<u8>, t: Seq<u8>)
    requires
        decode_varint(s) is Ok,
        decode_varint(s)->Ok_0.1 <= t.len(),
        t.take(decode_varint(s)->Ok_0.1 as int) == s.take(decode_varint(s)->Ok_0.1 as int),
    ensures
        decode_varint(t) == decode_varint(s),
        1 <= decode_varint(s)->Ok_0.1 <= s.len(),
{
    lemma_decode_groups_prefix(s, t, 0, 0);
}

proof fn lemma_decode_groups_len(s: Seq<u8>, i: nat, acc: nat)
    requires
        decode_groups(s, i, acc) is Ok,
    ensures
        i < decode_groups(s, i, acc)->Ok_0.1 <= s.len(),
    decreases 5 - i,
{
    let sum = acc + (s[i as int] % 128) as nat * pow128(i);
    if s[i as int] >= 128 {
        lemma_decode_groups_len(s, i + 1, sum);
    }
}

/// A decoded VarInt takes at least one byte, and no more than there are.
pub proof fn lemma_varint_len(s: Seq<u8>)
    requires
        decode_varint(s) is Ok,
    ensures
        1 <= decode_varint(s)->Ok_0.1 <= s.len(),
{
    lemma_decode_groups_len(s, 0, 0);
}

} // verus!
