use vstd::prelude::*;
use axum::http::StatusCode;
use axum::http::header::HeaderMap;
use crate::error::BridgeError;
use crate::headers::{from_native, header_entries, pairs_view, text_pairs};
use crate::text::{lossy_text, lossy_utf8};

verus! {

/// The character of a decimal digit.
pub open spec fn digit_char(d: nat) -> char {
    ((48 + d) as u8) as char
}

/// The decimal numeral of `n`, without leading zeros.
pub open spec fn decimal_text(n: nat) -> Seq<char>
    decreases n,
{
    if n < 10 {
        seq![digit_char(n)]
    } else {
        decimal_text(n / 10).push(digit_char(n % 10))
    }
}

fn digit_str(d: u16) -> (r: &'static str)
    requires
        d < 10,
    ensures
        r@ == seq![digit_char(d as nat)],
{
    proof {
        reveal_strlit("0");
        reveal_strlit("1");
        reveal_strlit("2");
        reveal_strlit("3");
        reveal_strlit("4");
        reveal_strlit("5");
        reveal_strlit("6");
        reveal_strlit("7");
        reveal_strlit("8");
        reveal_strlit("9");
    }
    match d {
        0 => "0",
        1 => "1",
        2 => "2",
        3 => "3",
        4 => "4",
        5 => "5",
        6 => "6",
        7 => "7",
        8 => "8",
        _ => "9",
    }
}

/// The decimal numeral of `n`.
pub fn decimal(n: u16) -> (r: String)
    ensures
        r@ == decimal_text(n as nat),
    decreases n,
{
    if n < 10 {
        String::from_str(digit_str(n))
    } else {
        let mut s = decimal(n / 10);
        s.append(digit_str(n % 10));
        s
    }
}

/// The standard reason phrase of a status code, if it has one.
pub uninterp spec fn reason_phrase(code: u16) -> Option<Seq<char>>;

pub open spec fn opt_text(o: Option<String>) -> Option<Seq<char>> {
    match o {
        Some(t) => Some(t@),
        None => None,
    }
}

/// Relies on `StatusCode::canonical_reason` (http): the standard reason phrase of the code.
/// `StatusCode::from_u16` accepts every code from 100 to 999.
#[verifier::external_body]
fn canonical_reason(code: u16) -> (r: Option<String>)
    requires
        100 <= code <= 999,
    ensures
        opt_text(r) == reason_phrase(code),
{
    StatusCode::from_u16(code).ok().and_then(|s| s.canonical_reason()).map(|t| t.to_string())
}

/// A status line: the code, then a space and the reason phrase when there is one.
pub open spec fn status_line_text(code: u16, reason: Option<Seq<char>>) -> Seq<char> {
    match reason {
        Some(t) => decimal_text(code as nat) + seq![' '] + t,
        None => decimal_text(code as nat),
    }
}

/// The status line for `code` with the given reason phrase.
pub fn status_line_with(code: u16, reason: Option<String>) -> (r: String)
    ensures
        r@ == status_line_text(code, opt_text(reason)),
{
    let mut s = decimal(code);
    match reason {
        Some(t) => {
            proof {
                reveal_strlit(" ");
            }
            s.append(" ");
            s.append(t.as_str());
        },
        None => {},
    }
    s
}

/// The status line that a pull-protocol host expects, such as `200 OK`.
pub fn status_line(code: u16) -> (r: String)
    requires
        100 <= code <= 999,
    ensures
        r@ == status_line_text(code, reason_phrase(code)),
{
    status_line_with(code, canonical_reason(code))
}

/// What the pull-protocol host receives before any body byte: the status line and the
/// headers as text pairs, in the collection's order.
pub fn response_head(code: u16, headers: &HeaderMap) -> (r: (String, Vec<(String, String)>))
    requires
        100 <= code <= 999,
    ensures
        r.0@ == status_line_text(code, reason_phrase(code)),
        pairs_view(r.1@) == text_pairs(header_entries(*headers)),
{
    (status_line(code), from_native(headers))
}

/// A lower-case hexadecimal digit.
pub open spec fn hex_digit(n: nat) -> char {
    if n < 10 {
        ((48 + n) as u8) as char
    } else {
        ((87 + n) as u8) as char
    }
}

/// One character inside a JSON string literal: the quote, the backslash and the control
/// characters are escaped (the short forms where JSON has one, else `\u00` and two hex
/// digits); every other character stands for itself.
pub open spec fn json_escape(c: char) -> Seq<char> {
    if c == '"' {
        seq!['\\', '"']
    } else if c == '\\' {
        seq!['\\', '\\']
    } else if c == '\u{8}' {
        seq!['\\', 'b']
    } else if c == '\t' {
        seq!['\\', 't']
    } else if c == '\n' {
        seq!['\\', 'n']
    } else if c == '\u{c}' {
        seq!['\\', 'f']
    } else if c == '\r' {
        seq!['\\', 'r']
    } else if ' ' > c {
        let high = hex_digit((c as nat) / 16);
        let low = hex_digit((c as nat) % 16);
        seq!['\\', 'u', '0', '0'] + seq![high, low]
    } else {
        seq![c]
    }
}

/// The characters of a text, each escaped for a JSON string literal.
pub open spec fn json_escaped(s: Seq<char>) -> Seq<char>
    decreases s.len(),
{
    if s.len() == 0 {
        Seq::empty()
    } else {
        json_escaped(s.drop_last()) + json_escape(s.last())
    }
}

/// A text as a JSON string literal: escaped, between double quotes.
pub open spec fn json_quoted(s: Seq<char>) -> Seq<char> {
    seq!['"'] + json_escaped(s) + seq!['"']
}

/// Relies on `serde_json::to_string` applied to a `str`: the text between double quotes, with
/// the characters that its escape table marks written as escapes. A string serializes without error and the output goes to a `Vec`,
/// which cannot fail, so the call always succeeds.
#[verifier::external_body]
fn quote_json(s: &str) -> (r: Option<String>)
    ensures
        r is Some,
        r matches Some(t) ==> t@ == json_quoted(s@),
{
    serde_json::to_string(s).ok()
}

/// One header as a JSON array of two strings, from its quoted name and value.
pub open spec fn header_item(p: (Seq<char>, Seq<char>)) -> Seq<char> {
    seq!['['] + p.0 + seq![','] + p.1 + seq![']']
}

/// The header items separated by commas.
pub open spec fn header_items(qs: Seq<(Seq<char>, Seq<char>)>) -> Seq<char>
    decreases qs.len(),
{
    if qs.len() == 0 {
        Seq::empty()
    } else if qs.len() == 1 {
        header_item(qs[0])
    } else {
        header_items(qs.drop_last()) + seq![','] + header_item(qs.last())
    }
}

/// The single encoded value of a response: a JSON object with the fields `status`, `headers`
/// (an array of name and value pairs) and `body`, built from the quoted strings.
pub open spec fn bundle_text(status: u16, quoted_headers: Seq<(Seq<char>, Seq<char>)>, quoted_body: Seq<char>) -> Seq<char> {
    "{\"status\":"@ + decimal_text(status as nat) + ",\"headers\":["@ + header_items(quoted_headers)
        + "],\"body\":"@ + quoted_body + "}"@
}

/// Each name and value of the pairs as a JSON string literal.
pub open spec fn quoted_pairs(ps: Seq<(Seq<char>, Seq<char>)>) -> Seq<(Seq<char>, Seq<char>)> {
    ps.map_values(|p: (Seq<char>, Seq<char>)| (json_quoted(p.0), json_quoted(p.1)))
}

/// Lays out the encoded value from already quoted strings: the status as a number, each
/// header as an array of its quoted name and value, and the quoted body.
pub fn assemble_bundle(
    status: u16,
    quoted_headers: &Vec<(String, String)>,
    quoted_body: &String,
) -> (r: String)
    ensures
        r@ == bundle_text(status, pairs_view(quoted_headers@), quoted_body@),
{
    let mut s = String::from_str("{\"status\":");
    let num = decimal(status);
    s.append(num.as_str());
    s.append(",\"headers\":[");
    let ghost start = s@;
    let mut i: usize = 0;
    while i < quoted_headers.len()
        invariant
            i <= quoted_headers@.len(),
            s@ == start + header_items(pairs_view(quoted_headers@.subrange(0, i as int))),
        decreases quoted_headers@.len() - i,
    {
        let ghost prev = s@;
        if i > 0 {
            s.append(",");
        }
        s.append("[");
        s.append(quoted_headers[i].0.as_str());
        s.append(",");
        s.append(quoted_headers[i].1.as_str());
        s.append("]");
        proof {
            reveal_strlit(",");
            reveal_strlit("[");
            reveal_strlit("]");
            let q = pairs_view(quoted_headers@.subrange(0, i + 1));
            assert(q.drop_last() =~= pairs_view(quoted_headers@.subrange(0, i as int)));
            assert(q.last() == (quoted_headers@[i as int].0@, quoted_headers@[i as int].1@));
            if i == 0 {
                assert(q.len() == 1);
                assert(header_items(q.drop_last()) =~= Seq::<char>::empty());
                assert(s@ =~= start + header_items(q));
            } else {
                assert(s@ =~= start + header_items(q));
            }
        }
        i += 1;
    }
    proof {
        assert(quoted_headers@.subrange(0, quoted_headers@.len() as int) =~= quoted_headers@);
    }
    s.append("],\"body\":");
    s.append(quoted_body.as_str());
    s.append("}");
    proof {
        assert(s@ =~= bundle_text(status, pairs_view(quoted_headers@), quoted_body@));
    }
    s
}

/// Encodes a response as one value for the single-shot host, with the names, values and body
/// quoted as JSON strings. Quoting a string cannot fail, so neither can this.
pub fn encode_response(status: u16, headers: &Vec<(String, String)>, body: &String) -> (r: Result<
    String,
    BridgeError,
>)
    ensures
        r is Ok,
        r matches Ok(t) ==> t@ == bundle_text(
            status,
            quoted_pairs(pairs_view(headers@)),
            json_quoted(body@),
        ),
        r matches Err(e) ==> e == BridgeError::EncodingFailed,
{
    let mut quoted: Vec<(String, String)> = Vec::new();
    let mut i: usize = 0;
    while i < headers.len()
        invariant
            i <= headers@.len(),
            pairs_view(quoted@) == quoted_pairs(pairs_view(headers@.subrange(0, i as int))),
        decreases headers@.len() - i,
    {
        let k = match quote_json(headers[i].0.as_str()) {
            Some(t) => t,
            None => return Err(BridgeError::EncodingFailed),
        };
        let v = match quote_json(headers[i].1.as_str()) {
            Some(t) => t,
            None => return Err(BridgeError::EncodingFailed),
        };
        let ghost prev = quoted@;
        quoted.push((k, v));
        proof {
            let x = (json_quoted(headers@[i as int].0@), json_quoted(headers@[i as int].1@));
            assert(pairs_view(quoted@) =~= pairs_view(prev).push(x));
            assert(quoted_pairs(pairs_view(headers@.subrange(0, i + 1))) =~= quoted_pairs(
                pairs_view(headers@.subrange(0, i as int)),
            ).push(x));
        }
        i += 1;
    }
    proof {
        assert(headers@.subrange(0, headers@.len() as int) =~= headers@);
    }
    let b = match quote_json(body.as_str()) {
        Some(t) => t,
        None => return Err(BridgeError::EncodingFailed),
    };
    Ok(assemble_bundle(status, &quoted, &b))
}

/// The single-shot response: the headers read back as text, the body decoded as UTF-8 with
/// invalid sequences replaced, and the whole encoded as one value.
pub fn bundle_response(status: u16, headers: &HeaderMap, body: &Vec<u8>) -> (r: Result<
    String,
    BridgeError,
>)
    ensures
        r is Ok,
        r matches Ok(t) ==> t@ == bundle_text(
            status,
            quoted_pairs(text_pairs(header_entries(*headers))),
            json_quoted(lossy_text(body@)),
        ),
        r matches Err(e) ==> e == BridgeError::EncodingFailed,
{
    let pairs = from_native(headers);
    let text = lossy_utf8(body.as_slice());
    encode_response(status, &pairs, &text)
}

} // verus!
