//! The wire codec for the hub's message schema: a tagged textual object whose
//! `type` field names the message kind. Server-to-client messages are rendered
//! exactly, with fields in schema order and no added whitespace. The two
//! client-to-server messages (`click` and `ping`) are single-member objects
//! `{"type":"<kind>"}`, parsed with optional whitespace between tokens;
//! anything else is malformed or unrecognized and decodes to `None`, which the
//! session treats as "silently dropped".

use vstd::prelude::*;

verus! {

/// Decimal digits of `n`, most significant first, with no leading zeros.
pub open spec fn spec_digits(n: nat) -> Seq<char>
    decreases n,
{
    if n < 10 {
        seq![spec_digit_char(n)]
    } else {
        spec_digits(n / 10) + seq![spec_digit_char(n % 10)]
    }
}

/// The character for one decimal digit.
pub open spec fn spec_digit_char(d: nat) -> char {
    if d == 0 {
        '0'
    } else if d == 1 {
        '1'
    } else if d == 2 {
        '2'
    } else if d == 3 {
        '3'
    } else if d == 4 {
        '4'
    } else if d == 5 {
        '5'
    } else if d == 6 {
        '6'
    } else if d == 7 {
        '7'
    } else if d == 8 {
        '8'
    } else {
        '9'
    }
}

/// A message a client may send to the hub.
#[derive(Clone, Copy, PartialEq, Eq, Structural, Debug)]
pub enum ClientMessage {
    Click,
    Ping,
}

/// A message the hub sends to a client.
#[derive(Debug)]
pub enum ServerMessage {
    Init { total_clicks: u64 },
    ClickResponse { client_clicks: u64, total_clicks: u64, timestamp: String },
    GlobalUpdate { total_clicks: u64 },
    Pong,
}

/// The exact wire text of a server message.
pub open spec fn spec_encode(m: ServerMessage) -> Seq<char> {
    match m {
        ServerMessage::Init { total_clicks } => "{\"type\":\"init\",\"total_clicks\":"@
            + spec_digits(total_clicks as nat) + "}"@,
        ServerMessage::ClickResponse { client_clicks, total_clicks, timestamp } =>
            "{\"type\":\"click_response\",\"client_clicks\":"@ + spec_digits(client_clicks as nat)
            + ",\"total_clicks\":"@ + spec_digits(total_clicks as nat) + ",\"timestamp\":\""@
            + timestamp@ + "\"}"@,
        ServerMessage::GlobalUpdate { total_clicks } => "{\"type\":\"global_update\",\"total_clicks\":"@
            + spec_digits(total_clicks as nat) + "}"@,
        ServerMessage::Pong => "{\"type\":\"pong\"}"@,
    }
}

/// Renders a server message as its exact wire text.
pub fn encode_message(m: &ServerMessage) -> (r: String)
    ensures
        r@ == spec_encode(*m),
{
    match m {
        ServerMessage::Init { total_clicks } => {
            let mut s = String::from_str("{\"type\":\"init\",\"total_clicks\":");
            let num = u64_to_string(*total_clicks);
            s.append(num.as_str());
            s.append("}");
            s
        },
        ServerMessage::ClickResponse { client_clicks, total_clicks, timestamp } => {
            let mut s = String::from_str("{\"type\":\"click_response\",\"client_clicks\":");
            let cnum = u64_to_string(*client_clicks);
            s.append(cnum.as_str());
            s.append(",\"total_clicks\":");
            let tnum = u64_to_string(*total_clicks);
            s.append(tnum.as_str());
            s.append(",\"timestamp\":\"");
            s.append(timestamp.as_str());
            s.append("\"}");
            s
        },
        ServerMessage::GlobalUpdate { total_clicks } => {
            let mut s = String::from_str("{\"type\":\"global_update\",\"total_clicks\":");
            let num = u64_to_string(*total_clicks);
            s.append(num.as_str());
            s.append("}");
            s
        },
        ServerMessage::Pong => String::from_str("{\"type\":\"pong\"}"),
    }
}

/// Decimal rendering of `n`.
pub fn u64_to_string(n: u64) -> (r: String)
    ensures
        r@ == spec_digits(n as nat),
    decreases n,
{
    if n < 10 {
        String::from_str(digit_str(n))
    } else {
        let mut s = u64_to_string(n / 10);
        s.append(digit_str(n % 10));
        s
    }
}

/// The one-character string for a decimal digit.
fn digit_str(d: u64) -> (r: &'static str)
    requires
        d < 10,
    ensures
        r@ == seq![spec_digit_char(d as nat)],
{
    proof {
        reveal_strlit("0");
        reveal_strlit("1");
        reveal_strlit("2");
        reveal_strlit("3");
        reveal_strlit("4");
        reveal_strlit("5");
        reveal_strlit("6");
        reveal_strlit("7");
        reveal_strlit("8");
        reveal_strlit("9");
    }
    if d == 0 {
        "0"
    } else if d == 1 {
        "1"
    } else if d == 2 {
        "2"
    } else if d == 3 {
        "3"
    } else if d == 4 {
        "4"
    } else if d == 5 {
        "5"
    } else if d == 6 {
        "6"
    } else if d == 7 {
        "7"
    } else if d == 8 {
        "8"
    } else {
        "9"
    }
}

/// Whitespace the inbound grammar allows between tokens.
pub open spec fn is_json_ws(c: char) -> bool {
    c == ' ' || c == '\t' || c == '\n' || c == '\r'
}

/// The first index at or after `i` holding a non-whitespace character
/// (or the end of the text).
pub open spec fn skip_ws(s: Seq<char>, i: int) -> int
    decreases s.len() - i
    when 0 <= i <= s.len()
{
    if i < s.len() && is_json_ws(s[i]) {
        skip_ws(s, i + 1)
    } else {
        i
    }
}

/// The first index at or after `i` holding a closing quote
/// (or the end of the text).
pub open spec fn scan_string(s: Seq<char>, i: int) -> int
    decreases s.len() - i
    when 0 <= i <= s.len()
{
    if i < s.len() && s[i] != '"' {
        scan_string(s, i + 1)
    } else {
        i
    }
}

/// What the inbound grammar makes of a payload: the payload is a single-member
/// object whose `type` field is `click` or `ping`, with optional whitespace
/// between tokens; any other payload is malformed or unrecognized and yields
/// `None`.
pub open spec fn spec_decode(s: Seq<char>) -> Option<ClientMessage> {
    let i0 = skip_ws(s, 0);
    if !(i0 < s.len() && s[i0] == '{') {
        None
    } else {
        let i1 = skip_ws(s, i0 + 1);
        if !(i1 + 6 <= s.len() && s.subrange(i1, i1 + 6) == "\"type\""@) {
            None
        } else {
            let i2 = skip_ws(s, i1 + 6);
            if !(i2 < s.len() && s[i2] == ':') {
                None
            } else {
                let i3 = skip_ws(s, i2 + 1);
                if !(i3 < s.len() && s[i3] == '"') {
                    None
                } else {
                    let j = scan_string(s, i3 + 1);
                    if !(j < s.len()) {
                        None
                    } else {
                        let i4 = skip_ws(s, j + 1);
                        if !(i4 < s.len() && s[i4] == '}' && skip_ws(s, i4 + 1) == s.len()) {
                            None
                        } else {
                            let v = s.subrange(i3 + 1, j);
                            if v == "click"@ {
                                Some(ClientMessage::Click)
                            } else if v == "ping"@ {
                                Some(ClientMessage::Ping)
                            } else {
                                None
                            }
                        }
                    }
                }
            }
        }
    }
}

/// Whether `c` is grammar whitespace.
fn is_ws_exec(c: char) -> (r: bool)
    ensures
        r == is_json_ws(c),
{
    c == ' ' || c == '\t' || c == '\n' || c == '\r'
}

/// Walks past whitespace, mirroring `skip_ws`.
fn skip_ws_exec(s: &str, i: usize, n: usize) -> (r: usize)
    requires
        i <= n,
        n == s@.len(),
    ensures
        r == skip_ws(s@, i as int),
        i <= r <= n,
{
    let mut j = i;
    loop
        invariant
            i <= j <= n,
            n == s@.len(),
            skip_ws(s@, i as int) == skip_ws(s@, j as int),
        decreases n - j,
    {
        if j == n {
            return j;
        }
        let c = s.get_char(j);
        if !is_ws_exec(c) {
            return j;
        }
        proof {
            assert(skip_ws(s@, j as int) == skip_ws(s@, j as int + 1));
        }
        j = j + 1;
    }
}

/// Walks to the closing quote, mirroring `scan_string`.
fn scan_string_exec(s: &str, i: usize, n: usize) -> (r: usize)
    requires
        i <= n,
        n == s@.len(),
    ensures
        r == scan_string(s@, i as int),
        i <= r <= n,
{
    let mut j = i;
    loop
        invariant
            i <= j <= n,
            n == s@.len(),
            scan_string(s@, i as int) == scan_string(s@, j as int),
        decreases n - j,
    {
        if j == n {
            return j;
        }
        let c = s.get_char(j);
        if c == '"' {
            return j;
        }
        proof {
            assert(scan_string(s@, j as int) == scan_string(s@, j as int + 1));
        }
        j = j + 1;
    }
}

/// Whether the characters of `s` from `from` to `to` equal `lit`.
fn str_range_eq(s: &str, from: usize, to: usize, lit: &str) -> (r: bool)
    requires
        from <= to <= s@.len(),
    ensures
        r == (s@.subrange(from as int, to as int) == lit@),
{
    let llen = lit.unicode_len();
    if to - from != llen {
        proof {
            assert(s@.subrange(from as int, to as int).len() != lit@.len());
        }
        return false;
    }
    let mut k: usize = 0;
    loop
        invariant
            k <= llen,
            to - from == llen,
            from <= to <= s@.len(),
            llen == lit@.len(),
            forall|t: int| 0 <= t < k ==> s@[from + t] == #[trigger] lit@[t],
        decreases llen - k,
    {
        if k == llen {
            proof {
                assert(s@.subrange(from as int, to as int) =~= lit@);
            }
            return true;
        }
        if s.get_char(from + k) != lit.get_char(k) {
            proof {
                assert(s@.subrange(from as int, to as int)[k as int] != lit@[k as int]);
            }
            return false;
        }
        k = k + 1;
    }
}

/// Parses an inbound payload per the grammar `spec_decode` states.
pub fn decode_client(s: &str) -> (r: Option<ClientMessage>)
    ensures
        r == spec_decode(s@),
{
    proof {
        reveal_strlit("\"type\"");
        reveal_strlit("click");
        reveal_strlit("ping");
    }
    let n = s.unicode_len();
    let i0 = skip_ws_exec(s, 0, n);
    if !(i0 < n && s.get_char(i0) == '{') {
        return None;
    }
    let i1 = skip_ws_exec(s, i0 + 1, n);
    if n - i1 < 6 {
        return None;
    }
    if !str_range_eq(s, i1, i1 + 6, "\"type\"") {
        return None;
    }
    let i2 = skip_ws_exec(s, i1 + 6, n);
    if !(i2 < n && s.get_char(i2) == ':') {
        return None;
    }
    let i3 = skip_ws_exec(s, i2 + 1, n);
    if !(i3 < n && s.get_char(i3) == '"') {
        return None;
    }
    let j = scan_string_exec(s, i3 + 1, n);
    if !(j < n) {
        return None;
    }
    let i4 = skip_ws_exec(s, j + 1, n);
    if !(i4 < n && s.get_char(i4) == '}') {
        return None;
    }
    if skip_ws_exec(s, i4 + 1, n) != n {
        return None;
    }
    if str_range_eq(s, i3 + 1, j, "click") {
        Some(ClientMessage::Click)
    } else if str_range_eq(s, i3 + 1, j, "ping") {
        Some(ClientMessage::Ping)
    } else {
        None
    }
}

} // verus!
