use vstd::prelude::*;
use vstd::string::StringExecFns;
use vstd::utf8::{encode_scalar, encode_utf8};

verus! {

/// Longest version name or description, in bytes, that keeps a status response's
/// length within a VarInt.
pub const MAX_TEXT_LEN: usize = 0x3fff_0000;

/// The character of decimal digit `d`.
pub open spec fn digit_char(d: nat) -> char {
    (48 + d) as char
}

/// The decimal digits of `n`, without leading zeros.
pub open spec fn nat_text(n: nat) -> Seq<char>
    decreases n,
{
    if n < 10 {
        seq![digit_char(n)]
    } else {
        nat_text(n / 10).push(digit_char(n % 10))
    }
}

/// The decimal form of `i`, with a minus sign when it is negative.
pub open spec fn int_text(i: int) -> Seq<char> {
    if i < 0 {
        seq!['-'] + nat_text((-i) as nat)
    } else {
        nat_text(i as nat)
    }
}

/// The status document that a server hands to a client that asks for it.
pub open spec fn status_json(
    version_name: Seq<char>,
    version_protocol: i32,
    player_max: nat,
    player_online: nat,
    description: Seq<char>,
) -> Seq<char> {
    "{\"version\":{\"name\":\""@ + version_name + "\",\"protocol\":"@ + int_text(
        version_protocol as int,
    ) + "},\"players\":{\"max\":"@ + nat_text(player_max) + ",\"online\":"@ + nat_text(
        player_online,
    ) + "},\"description\":{\"text\":\""@ + description + "\"}}"@
}

/// The text of decimal digit `d`.
fn digit_text(d: usize) -> (r: &'static str)
    requires
        d < 10,
    ensures
        r@ == seq![digit_char(d as nat)],
{
    proof {
        reveal_strlit("0");
        reveal_strlit("1");
        reveal_strlit("2");
        reveal_strlit("3");
        reveal_strlit("4");
        reveal_strlit("5");
        reveal_strlit("6");
        reveal_strlit("7");
        reveal_strlit("8");
        reveal_strlit("9");
    }
    if d == 0 {
        "0"
    } else if d == 1 {
        "1"
    } else if d == 2 {
        "2"
    } else if d == 3 {
        "3"
    } else if d == 4 {
        "4"
    } else if d == 5 {
        "5"
    } else if d == 6 {
        "6"
    } else if d == 7 {
        "7"
    } else if d == 8 {
        "8"
    } else {
        "9"
    }
}

/// The decimal digits of `n`.
pub fn decimal_text(n: usize) -> (r: std::string::String)
    ensures
        r@ == nat_text(n as nat),
    decreases n,
{
    if n < 10 {
        digit_text(n).to_owned()
    } else {
        let mut s = decimal_text(n / 10);
        s.append(digit_text(n % 10));
        s
    }
}

/// The decimal form of `i`, signed.
pub fn signed_decimal_text(i: i32) -> (r: std::string::String)
    ensures
        r@ == int_text(i as int),
{
    if i < 0 {
        let mut s = "-".to_owned();
        proof {
            reveal_strlit("-");
        }
        let magnitude = (0 - (i as i64)) as usize;
        s.append(decimal_text(magnitude).as_str());
        s
    } else {
        decimal_text(i as usize)
    }
}

/// The UTF-8 form of joined text is the two forms joined.
pub proof fn lemma_encode_utf8_concat(a: Seq<char>, b: Seq<char>)
    ensures
        encode_utf8(a + b) == encode_utf8(a) + encode_utf8(b),
    decreases a.len(),
{
    if a.len() == 0 {
        assert(a + b =~= b);
    } else {
        assert((a + b).drop_first() =~= a.drop_first() + b);
        assert((a + b)[0] == a[0]);
        lemma_encode_utf8_concat(a.drop_first(), b);
    }
}

/// No character takes more than four bytes.
pub proof fn lemma_encode_utf8_len(a: Seq<char>)
    ensures
        encode_utf8(a).len() <= 4 * a.len(),
    decreases a.len(),
{
    if a.len() > 0 {
        assert(encode_scalar(a[0] as u32).len() <= 4);
        lemma_encode_utf8_len(a.drop_first());
    }
}

/// 10 to the power `k`.
pub open spec fn pow10(k: nat) -> nat
    decreases k,
{
    if k == 0 {
        1
    } else {
        10 * pow10((k - 1) as nat)
    }
}

proof fn lemma_nat_text_len_below(n: nat, k: nat)
    requires
        n < pow10(k),
        k >= 1,
    ensures
        nat_text(n).len() <= k,
        nat_text(n).len() >= 1,
    decreases n,
{
    if n >= 10 {
        reveal_with_fuel(pow10, 2);
        let p = pow10((k - 1) as nat);
        assert(pow10(k) == 10 * p);
        assert(n / 10 < p) by (nonlinear_arith)
            requires
                n < 10 * p,
        ;
        lemma_nat_text_len_below(n / 10, (k - 1) as nat);
    }
}

/// The decimal digits of a machine word number are at most twenty.
pub proof fn lemma_nat_text_len(n: nat)
    requires
        n <= usize::MAX,
    ensures
        1 <= nat_text(n).len() <= 20,
{
    reveal_with_fuel(pow10, 21);
    assert(pow10(20) == 100_000_000_000_000_000_000nat);
    lemma_nat_text_len_below(n, 20);
}

/// The status document takes, besides the bytes of its two texts, less than a page of
/// bytes.
pub proof fn lemma_status_json_len(
    version_name: Seq<char>,
    version_protocol: i32,
    player_max: nat,
    player_online: nat,
    description: Seq<char>,
)
    requires
        player_max <= usize::MAX,
        player_online <= usize::MAX,
    ensures
        encode_utf8(status_json(version_name, version_protocol, player_max, player_online, description)).len()
            <= encode_utf8(version_name).len() + encode_utf8(description).len() + 0x1000,
{
    let p1 = "{\"version\":{\"name\":\""@;
    let p2 = "\",\"protocol\":"@;
    let p3 = "},\"players\":{\"max\":"@;
    let p4 = ",\"online\":"@;
    let p5 = "},\"description\":{\"text\":\""@;
    let p6 = "\"}}"@;
    reveal_strlit("{\"version\":{\"name\":\"");
    reveal_strlit("\",\"protocol\":");
    reveal_strlit("},\"players\":{\"max\":");
    reveal_strlit(",\"online\":");
    reveal_strlit("},\"description\":{\"text\":\"");
    reveal_strlit("\"}}");
    let v = int_text(version_protocol as int);
    let m = nat_text(player_max);
    let o = nat_text(player_online);
    lemma_nat_text_len(player_max);
    lemma_nat_text_len(player_online);
    if version_protocol < 0 {
        lemma_nat_text_len((-(version_protocol as int)) as nat);
    } else {
        lemma_nat_text_len(version_protocol as nat);
    }
    let mid = p2 + v + p3 + m + p4 + o + p5;
    assert(mid.len() <= 200);
    lemma_encode_utf8_len(p1);
    lemma_encode_utf8_len(mid);
    lemma_encode_utf8_len(p6);
    let j = status_json(version_name, version_protocol, player_max, player_online, description);
    assert(j =~= p1 + version_name + mid + description + p6);
    lemma_encode_utf8_concat(p1, version_name);
    lemma_encode_utf8_concat(p1 + version_name, mid);
    lemma_encode_utf8_concat(p1 + version_name + mid, description);
    lemma_encode_utf8_concat(p1 + version_name + mid + description, p6);
}

/// Writes the status document for the given server description.
pub fn status_json_text(
    version_name: &str,
    version_protocol: i32,
    player_max: usize,
    player_online: usize,
    description: &str,
) -> (r: std::string::String)
    requires
        encode_utf8(version_name@).len() <= MAX_TEXT_LEN,
        encode_utf8(description@).len() <= MAX_TEXT_LEN,
    ensures
        r@ == status_json(version_name@, version_protocol, player_max as nat, player_online as nat, description@),
        encode_utf8(r@).len() <= 2 * MAX_TEXT_LEN + 0x1000,
{
    let mut json = "{\"version\":{\"name\":\"".to_owned();
    json.append(version_name);
    json.append("\",\"protocol\":");
    json.append(signed_decimal_text(version_protocol).as_str());
    json.append("},\"players\":{\"max\":");
    json.append(decimal_text(player_max).as_str());
    json.append(",\"online\":");
    json.append(decimal_text(player_online).as_str());
    json.append("},\"description\":{\"text\":\"");
    json.append(description);
    json.append("\"}}");
    proof {
        lemma_status_json_len(version_name@, version_protocol, player_max as nat, player_online as nat, description@);
    }
    json
}

} // verus!
