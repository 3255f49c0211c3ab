//! The discovery datagram and the textual form of an endpoint.
//!
//! A node announces itself with one UDP datagram whose payload is its own TCP
//! listening port as two bytes, most significant first. The receiver pairs
//! that port with the datagram's source address and connects back. Inside
//! the mesh an endpoint travels as the text `ip:port`.

use vstd::prelude::*;
use vstd::string::*;

verus! {

/// The source port from which discovery datagrams are sent.
pub const DISCOVERY_SOURCE_PORT: u16 = 7337;

/// The two payload bytes for `port`, most significant first.
pub open spec fn payload_of(port: u16) -> Seq<u8> {
    seq![(port / 256) as u8, (port % 256) as u8]
}

/// The byte of `payload` at `i`, or zero where the payload is shorter.
pub open spec fn byte_or_zero(payload: Seq<u8>, i: int) -> int {
    if 0 <= i < payload.len() {
        payload[i] as int
    } else {
        0
    }
}

/// The port that a payload announces: its first two bytes, most significant
/// first. Bytes beyond the second are ignored and missing bytes count as
/// zero, as with a two-byte receive buffer that starts out zeroed.
pub open spec fn port_of(payload: Seq<u8>) -> int {
    byte_or_zero(payload, 0) * 256 + byte_or_zero(payload, 1)
}

/// Encodes `port` as a discovery payload.
pub fn port_payload(port: u16) -> (payload: Vec<u8>)
    ensures
        payload@ == payload_of(port),
{
    let high: u8 = (port / 256) as u8;
    let low: u8 = (port % 256) as u8;
    let payload: Vec<u8> = vec![high, low];
    assert(payload@ =~= payload_of(port));
    payload
}

/// Decodes the port that a discovery payload announces.
pub fn port_from_payload(payload: &[u8]) -> (port: u16)
    ensures
        port == port_of(payload@),
{
    let high: u16 = if payload.len() > 0 {
        payload[0] as u16
    } else {
        0
    };
    let low: u16 = if payload.len() > 1 {
        payload[1] as u16
    } else {
        0
    };
    high * 256 + low
}

/// A node that reads the payload written for `port` learns `port`.
pub proof fn lemma_payload_round_trip(port: u16)
    ensures
        port_of(payload_of(port)) == port,
{
}

/// The character for a decimal digit.
pub open spec fn digit_char(d: int) -> char
    recommends
        0 <= d < 10,
{
    (48 + d) as u8 as char
}

/// True for `'0'` to `'9'`.
pub open spec fn is_digit(c: char) -> bool {
    48 <= c as u32 <= 57
}

/// The decimal numeral of `n`, without sign or leading zeros.
pub open spec fn decimal(n: nat) -> Seq<char>
    decreases n,
{
    if n < 10 {
        seq![digit_char(n as int)]
    } else {
        decimal(n / 10).push(digit_char((n % 10) as int))
    }
}

/// The number that a non-empty run of decimal digits denotes; `None` for the
/// empty text and for text with any other character.
pub open spec fn digits_value(s: Seq<char>) -> Option<nat>
    decreases s.len(),
{
    if s.len() == 0 || !is_digit(s.last()) {
        None
    } else if s.len() == 1 {
        Some((s.last() as u32 - 48) as nat)
    } else {
        match digits_value(s.drop_last()) {
            Some(v) => Some(v * 10 + (s.last() as u32 - 48) as nat),
            None => None,
        }
    }
}

/// The port that a text denotes: an optional `+`, then decimal digits whose
/// value fits sixteen bits. Leading zeros are accepted.
pub open spec fn parsed_port(s: Seq<char>) -> Option<u16> {
    let digits = if s.len() > 0 && s[0] == '+' {
        s.subrange(1, s.len() as int)
    } else {
        s
    };
    match digits_value(digits) {
        Some(v) => if v <= 65535 {
            Some(v as u16)
        } else {
            None
        },
        None => None,
    }
}

/// True when the first colon of `s` stands at `i`.
pub open spec fn first_colon_at(s: Seq<char>, i: int) -> bool {
    &&& 0 <= i < s.len()
    &&& s[i] == ':'
    &&& forall|j: int| 0 <= j < i ==> s[j] != ':'
}

/// The text `ip:port`.
pub open spec fn endpoint_text(ip: Seq<char>, port: u16) -> Seq<char> {
    ip + seq![':'] + decimal(port as nat)
}

/// The address and port that a text of the form `ip:port` denotes. The text
/// is cut at its first colon; what follows must denote a port.
pub open spec fn endpoint_parts(s: Seq<char>) -> Option<(Seq<char>, u16)> {
    if exists|i: int| first_colon_at(s, i) {
        let i = choose|i: int| first_colon_at(s, i);
        match parsed_port(s.subrange(i + 1, s.len() as int)) {
            Some(port) => Some((s.subrange(0, i), port)),
            None => None,
        }
    } else {
        None
    }
}

/// The one-character text of a decimal digit.
fn digit_text(d: u8) -> (text: &'static str)
    requires
        d < 10,
    ensures
        text@ == seq![digit_char(d as int)],
{
    proof {
        reveal_strlit("0");
        reveal_strlit("1");
        reveal_strlit("2");
        reveal_strlit("3");
        reveal_strlit("4");
        reveal_strlit("5");
        reveal_strlit("6");
        reveal_strlit("7");
        reveal_strlit("8");
        reveal_strlit("9");
    }
    let text = if d == 0 {
        "0"
    } else if d == 1 {
        "1"
    } else if d == 2 {
        "2"
    } else if d == 3 {
        "3"
    } else if d == 4 {
        "4"
    } else if d == 5 {
        "5"
    } else if d == 6 {
        "6"
    } else if d == 7 {
        "7"
    } else if d == 8 {
        "8"
    } else {
        "9"
    };
    assert(text@ =~= seq![digit_char(d as int)]);
    text
}

/// Appends the decimal numeral of `n` to `out`.
fn push_decimal(out: &mut String, n: u16)
    ensures
        final(out)@ == old(out)@ + decimal(n as nat),
    decreases n,
{
    if n >= 10 {
        push_decimal(out, n / 10);
    }
    out.append(digit_text((n % 10) as u8));
    assert(out@ =~= old(out)@ + decimal(n as nat));
}

/// Writes an endpoint as `ip:port`.
pub fn endpoint(ip: &str, port: u16) -> (text: String)
    ensures
        text@ == endpoint_text(ip@, port),
{
    proof {
        reveal_strlit(":");
    }
    let mut text = String::from_str(ip);
    text.append(":");
    assert(text@ =~= ip@ + seq![':']);
    push_decimal(&mut text, port);
    text
}

/// A prefix of a digit run is a digit run, and denotes no more.
proof fn lemma_digits_prefix(s: Seq<char>, k: int)
    requires
        0 < k <= s.len(),
        digits_value(s) is Some,
    ensures
        is_digit(s[k - 1]),
        digits_value(s.subrange(0, k)) is Some,
        digits_value(s.subrange(0, k))->0 <= digits_value(s)->0,
    decreases s.len() - k,
{
    if k == s.len() {
        assert(s.subrange(0, k) =~= s);
    } else {
        lemma_digits_prefix(s.drop_last(), k);
        assert(s.drop_last().subrange(0, k) =~= s.subrange(0, k));
    }
}

/// A numeral denotes the number it was written for, and starts with a digit.
proof fn lemma_decimal_value(n: nat)
    ensures
        decimal(n).len() > 0,
        is_digit(decimal(n)[0]),
        digits_value(decimal(n)) == Some(n),
    decreases n,
{
    if n >= 10 {
        lemma_decimal_value(n / 10);
        let s = decimal(n);
        assert(s.drop_last() =~= decimal(n / 10));
        assert(s[0] == decimal(n / 10)[0]);
    }
}

/// Reading back an endpoint that was written from an address without a
/// colon gives the address and the port it was written from.
pub proof fn lemma_endpoint_round_trip(ip: Seq<char>, port: u16)
    requires
        forall|j: int| 0 <= j < ip.len() ==> ip[j] != ':',
    ensures
        endpoint_parts(endpoint_text(ip, port)) == Some((ip, port)),
{
    let numeral = decimal(port as nat);
    let s = endpoint_text(ip, port);
    lemma_decimal_value(port as nat);
    assert(first_colon_at(s, ip.len() as int));
    let i = choose|i: int| first_colon_at(s, i);
    assert(i == ip.len());
    assert(s.subrange(i + 1, s.len() as int) =~= numeral);
    assert(s.subrange(0, i) =~= ip);
    assert(numeral[0] != '+');
}

/// Reads a port: an optional `+`, then decimal digits up to 65535.
pub fn parse_port(text: &str) -> (r: Option<u16>)
    ensures
        r == parsed_port(text@),
{
    let n: usize = text.unicode_len();
    let mut i: usize = 0;
    if n > 0 && text.get_char(0) == '+' {
        i = 1;
    }
    let start: usize = i;
    let ghost digits = text@.subrange(start as int, n as int);
    if i == n {
        return None;
    }
    let mut value: u32 = 0;
    while i < n
        invariant
            start <= i <= n,
            n == text@.len(),
            digits == text@.subrange(start as int, n as int),
            start == (if text@.len() > 0 && text@[0] == '+' { 1int } else { 0int }),
            value <= 65535,
            i == start ==> value == 0,
            i > start ==> digits_value(digits.subrange(0, i - start)) == Some(value as nat),
        decreases n - i,
    {
        let code: u32 = text.get_char(i) as u32;
        assert(digits[i - start] == text@[i as int]);
        if code < 48 || code > 57 {
            proof {
                assert(text@.subrange(0, n as int) =~= text@);
                if digits_value(digits) is Some {
                    lemma_digits_prefix(digits, i - start + 1);
                }
            }
            return None;
        }
        let ghost shorter = digits.subrange(0, i - start);
        let ghost longer = digits.subrange(0, i - start + 1);
        assert(longer.drop_last() =~= shorter);
        assert(longer.last() == text@[i as int]);
        let ghost before = value as nat;
        value = value * 10 + (code - 48);
        assert(is_digit(longer.last()));
        assert((longer.last() as u32 - 48) as nat == (code - 48) as nat);
        if i > start {
            assert(digits_value(longer.drop_last()) == Some(before));
        } else {
            assert(longer.len() == 1);
        }
        assert(digits_value(longer) == Some(value as nat));
        if value > 65535 {
            proof {
                assert(text@.subrange(0, n as int) =~= text@);
                if digits_value(digits) is Some {
                    lemma_digits_prefix(digits, i - start + 1);
                }
            }
            return None;
        }
        i += 1;
    }
    assert(digits.subrange(0, n - start) =~= digits);
    assert(text@.subrange(0, n as int) =~= text@);
    Some(value as u16)
}

/// The position of the first colon of `text`, if it has one.
fn find_colon(text: &str) -> (r: Option<usize>)
    ensures
        r matches Some(i) ==> first_colon_at(text@, i as int),
        r is None ==> forall|j: int| 0 <= j < text@.len() ==> text@[j] != ':',
{
    let n: usize = text.unicode_len();
    let mut i: usize = 0;
    while i < n
        invariant
            i <= n,
            n == text@.len(),
            forall|j: int| 0 <= j < i ==> text@[j] != ':',
        decreases n - i,
    {
        if text.get_char(i) == ':' {
            return Some(i);
        }
        i += 1;
    }
    None
}

/// Reads an endpoint of the form `ip:port`.
///
/// The text is cut at its first colon. The result is `Some` exactly when
/// there is a colon and what follows it denotes a port; the address is then
/// everything before the colon, as it stands.
pub fn parse_endpoint(text: &str) -> (r: Option<(String, u16)>)
    ensures
        match r {
            Some((ip, port)) => endpoint_parts(text@) == Some((ip@, port)),
            None => endpoint_parts(text@) is None,
        },
{
    let n: usize = text.unicode_len();
    match find_colon(text) {
        Some(i) => {
            let ghost chosen = choose|k: int| first_colon_at(text@, k);
            assert(chosen == i);
            let ip = text.substring_char(0, i);
            let rest = text.substring_char(i + 1, n);
            match parse_port(rest) {
                Some(port) => Some((ip.to_owned(), port)),
                None => None,
            }
        },
        None => None,
    }
}

} // verus!
