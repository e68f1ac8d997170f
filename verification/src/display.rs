//! Text shown to users: names kept in fixed-size byte fields, decimal
//! numbers, IPv4 addresses, and the labels of states and kinds.

use crate::irq::nul_pos;
use vstd::prelude::*;
use vstd::string::{StringExecFns, StringSliceAdditionalSpecFns};
use vstd::utf8::{decode_utf8, valid_utf8};

verus! {

/// Decodes UTF-8 text (`std::str::from_utf8`).
///
/// Trusted: `from_utf8` returns the text exactly when the bytes are valid
/// UTF-8, and the text's encoding is those bytes.
#[verifier::external_body]
fn utf8_text(b: &[u8]) -> (r: Option<&str>)
    ensures
        r is Some <==> valid_utf8(b@),
        r matches Some(s) ==> s.spec_bytes() == b@ && s@ == decode_utf8(b@),
{
    std::str::from_utf8(b).ok()
}

/// The text of a name kept in a fixed-size byte field: the bytes before the
/// first NUL when they are valid UTF-8, otherwise "?".
pub open spec fn field_text(b: Seq<u8>) -> Seq<char> {
    if valid_utf8(b.take(nul_pos(b) as int)) {
        decode_utf8(b.take(nul_pos(b) as int))
    } else {
        seq!['?']
    }
}

/// The text of a name kept in a fixed-size byte field.
pub fn bytes_to_str(b: &[u8]) -> (r: &str)
    ensures
        r@ == field_text(b@),
{
    let n = b.len();
    let mut end: usize = 0;
    assert(b@.skip(0) =~= b@);
    while end < n && b[end] != 0
        invariant
            n == b@.len(),
            end <= n,
            nul_pos(b@) == end + nul_pos(b@.skip(end as int)),
        decreases n - end,
    {
        assert(b@.skip(end as int).skip(1) =~= b@.skip(end + 1));
        end = end + 1;
    }
    assert(nul_pos(b@) == end);
    let head = &b[0..end];
    assert(head@ =~= b@.take(end as int));
    match utf8_text(head) {
        Some(s) => s,
        None => {
            let q = "?";
            proof {
                reveal_strlit("?");
            }
            q
        },
    }
}

/// The decimal digits of `n`, most significant first.
pub open spec fn decimal(n: nat) -> Seq<char>
    decreases n,
{
    if n < 10 {
        seq![(48 + n) as char]
    } else {
        decimal(n / 10).push((48 + n % 10) as char)
    }
}

fn digit_text(d: u64) -> (r: &'static str)
    requires
        d < 10,
    ensures
        r@ == seq![(48 + d) as char],
{
    proof {
        reveal_strlit("0");
        reveal_strlit("1");
        reveal_strlit("2");
        reveal_strlit("3");
        reveal_strlit("4");
        reveal_strlit("5");
        reveal_strlit("6");
        reveal_strlit("7");
        reveal_strlit("8");
        reveal_strlit("9");
    }
    match d {
        0 => "0",
        1 => "1",
        2 => "2",
        3 => "3",
        4 => "4",
        5 => "5",
        6 => "6",
        7 => "7",
        8 => "8",
        _ => "9",
    }
}

/// Appends the decimal digits of `v` to `s`.
pub fn push_decimal(s: &mut String, v: u64)
    ensures
        final(s)@ == old(s)@ + decimal(v as nat),
    decreases v,
{
    if v >= 10 {
        push_decimal(s, v / 10);
    }
    s.append(digit_text(v % 10));
}

/// The decimal text of `v`.
pub fn decimal_string(v: u64) -> (r: String)
    ensures
        r@ == decimal(v as nat),
{
    let mut s = String::new();
    push_decimal(&mut s, v);
    s
}

/// An IPv4 address in dotted form; the address is stored least significant
/// byte first, as the socket records keep it.
pub open spec fn ipv4_text(addr: u32) -> Seq<char> {
    decimal((addr % 256) as nat) + seq!['.'] + decimal(((addr / 256) % 256) as nat) + seq!['.']
        + decimal(((addr / 65536) % 256) as nat) + seq!['.'] + decimal((addr / 16777216) as nat)
}

/// The dotted form of an IPv4 address kept in a socket record.
pub fn format_ipv4(addr: u32) -> (r: String)
    ensures
        r@ == ipv4_text(addr),
{
    let dot = ".";
    proof {
        reveal_strlit(".");
    }
    let mut s = String::new();
    push_decimal(&mut s, (addr % 256) as u64);
    s.append(dot);
    push_decimal(&mut s, ((addr / 256) % 256) as u64);
    s.append(dot);
    push_decimal(&mut s, ((addr / 65536) % 256) as u64);
    s.append(dot);
    push_decimal(&mut s, (addr / 16777216) as u64);
    s
}

/// The name of a TCP state number.
pub open spec fn tcp_state_text(state: u8) -> Seq<char> {
    match state {
        1 => "ESTABLISHED"@,
        2 => "SYN_SENT"@,
        3 => "SYN_RECV"@,
        4 => "FIN_WAIT1"@,
        5 => "FIN_WAIT2"@,
        6 => "TIME_WAIT"@,
        7 => "CLOSE"@,
        8 => "CLOSE_WAIT"@,
        9 => "LAST_ACK"@,
        10 => "LISTEN"@,
        11 => "CLOSING"@,
        _ => "UNKNOWN"@,
    }
}

/// The name of a TCP state number.
pub fn tcp_state_str(state: u8) -> (r: &'static str)
    ensures
        r@ == tcp_state_text(state),
{
    match state {
        1 => "ESTABLISHED",
        2 => "SYN_SENT",
        3 => "SYN_RECV",
        4 => "FIN_WAIT1",
        5 => "FIN_WAIT2",
        6 => "TIME_WAIT",
        7 => "CLOSE",
        8 => "CLOSE_WAIT",
        9 => "LAST_ACK",
        10 => "LISTEN",
        11 => "CLOSING",
        _ => "UNKNOWN",
    }
}

} // verus!
