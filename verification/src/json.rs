//! The wire format of one queue message body: a JSON object holding the
//! captured webhook event. The decoder accepts the schema fields in any
//! order, with any whitespace, with string escapes (`\uXXXX` only for
//! code points below 0x100); an object with an unknown or repeated key, or
//! any other malformed text, is refused, and the intake loop then leaves
//! the message for redelivery. The encoder writes the fields in a fixed
//! order; decoding an encoded event gives back exactly the original.

use vstd::prelude::*;
use crate::event::{WebhookMessage, WebhookMessageV};
use crate::text::{chars_eq_str, chars_string, str_chars};

verus! {

/// JSON whitespace.
pub open spec fn is_ws(c: char) -> bool {
    c == ' ' || c == '\t' || c == '\n' || c == '\r'
}

/// The input with its leading whitespace removed.
pub open spec fn skip_ws(s: Seq<char>) -> Seq<char>
    decreases s.len(),
{
    if s.len() > 0 && is_ws(s[0]) {
        skip_ws(s.drop_first())
    } else {
        s
    }
}

pub proof fn lemma_skip_ws_le(s: Seq<char>)
    ensures
        skip_ws(s).len() <= s.len(),
    decreases s.len(),
{
    if s.len() > 0 && is_ws(s[0]) {
        lemma_skip_ws_le(s.drop_first());
    }
}

/// The numeric value of a hex digit; 16 for any other character.
pub open spec fn hex_val(c: char) -> int {
    if '0' <= c && c <= '9' {
        (c as int) - ('0' as int)
    } else if 'a' <= c && c <= 'f' {
        (c as int) - ('a' as int) + 10
    } else if 'A' <= c && c <= 'F' {
        (c as int) - ('A' as int) + 10
    } else {
        16
    }
}

/// The lower-case hex digit for a value below 16.
pub open spec fn hex_digit(n: int) -> char {
    if n < 10 {
        (('0' as u8) + (n as u8)) as char
    } else {
        (('a' as u8) + ((n - 10) as u8)) as char
    }
}

/// The characters allowed after a backslash besides `u`.
pub open spec fn is_simple_escape(c: char) -> bool {
    c == '"' || c == '\\' || c == '/' || c == 'n' || c == 'r' || c == 't' || c == 'b' || c == 'f'
}

/// What a simple escape character stands for.
pub open spec fn simple_unescape(c: char) -> char {
    if c == '"' {
        '"'
    } else if c == '\\' {
        '\\'
    } else if c == '/' {
        '/'
    } else if c == 'n' {
        '\n'
    } else if c == 'r' {
        '\r'
    } else if c == 't' {
        '\t'
    } else if c == 'b' {
        '\x08'
    } else if c == 'f' {
        '\x0c'
    } else {
        '\0'
    }
}

/// The escaping of one character inside a JSON string.
pub open spec fn escape_char(c: char) -> Seq<char> {
    if c == '"' {
        seq!['\\', '"']
    } else if c == '\\' {
        seq!['\\', '\\']
    } else if c == '\n' {
        seq!['\\', 'n']
    } else if c == '\r' {
        seq!['\\', 'r']
    } else if c == '\t' {
        seq!['\\', 't']
    } else if (c as u32) < 32 {
        seq!['\\', 'u', '0', '0', hex_digit((c as int) / 16), hex_digit((c as int) % 16)]
    } else {
        seq![c]
    }
}

/// The escaping of a whole string body.
pub open spec fn escape_seq(s: Seq<char>) -> Seq<char>
    decreases s.len(),
{
    if s.len() == 0 {
        Seq::<char>::empty()
    } else {
        escape_char(s[0]) + escape_seq(s.drop_first())
    }
}

/// A quoted, escaped JSON string.
pub open spec fn quoted(s: Seq<char>) -> Seq<char> {
    seq!['"'] + escape_seq(s) + seq!['"']
}

/// Parsing of a string body after its opening quote: the unescaped content
/// and the input after the closing quote.
pub open spec fn parse_str_body(s: Seq<char>) -> Option<(Seq<char>, Seq<char>)>
    decreases s.len(),
{
    if s.len() == 0 {
        Option::None
    } else if s[0] == '"' {
        Option::Some((Seq::<char>::empty(), s.drop_first()))
    } else if s[0] == '\\' {
        if s.len() >= 2 && s[1] == 'u' {
            if s.len() >= 6 && s[2] == '0' && s[3] == '0' && hex_val(s[4]) < 16 && hex_val(s[5])
                < 16 {
                let code = hex_val(s[4]) * 16 + hex_val(s[5]);
                match parse_str_body(s.skip(6)) {
                    Option::Some(p) => Option::Some((seq![(code as u8) as char] + p.0, p.1)),
                    Option::None => Option::None,
                }
            } else {
                Option::None
            }
        } else if s.len() >= 2 && is_simple_escape(s[1]) {
            match parse_str_body(s.skip(2)) {
                Option::Some(p) => Option::Some((seq![simple_unescape(s[1])] + p.0, p.1)),
                Option::None => Option::None,
            }
        } else {
            Option::None
        }
    } else if (s[0] as u32) < 32 {
        Option::None
    } else {
        match parse_str_body(s.drop_first()) {
            Option::Some(p) => Option::Some((seq![s[0]] + p.0, p.1)),
            Option::None => Option::None,
        }
    }
}

pub proof fn lemma_parse_str_body_shrink(s: Seq<char>)
    ensures
        match parse_str_body(s) {
            Option::Some(p) => p.1.len() < s.len(),
            Option::None => true,
        },
    decreases s.len(),
{
    if s.len() == 0 {
    } else if s[0] == '"' {
    } else if s[0] == '\\' {
        if s.len() >= 2 && s[1] == 'u' {
            if s.len() >= 6 {
                lemma_parse_str_body_shrink(s.skip(6));
            }
        } else if s.len() >= 2 {
            lemma_parse_str_body_shrink(s.skip(2));
        }
    } else {
        lemma_parse_str_body_shrink(s.drop_first());
    }
}

/// Parsing of a JSON string with leading whitespace and both quotes.
pub open spec fn parse_string(s: Seq<char>) -> Option<(Seq<char>, Seq<char>)> {
    let t = skip_ws(s);
    if t.len() > 0 && t[0] == '"' {
        parse_str_body(t.drop_first())
    } else {
        Option::None
    }
}

pub proof fn lemma_parse_string_shrink(s: Seq<char>)
    ensures
        match parse_string(s) {
            Option::Some(p) => p.1.len() < s.len(),
            Option::None => true,
        },
{
    lemma_skip_ws_le(s);
    let t = skip_ws(s);
    if t.len() > 0 && t[0] == '"' {
        lemma_parse_str_body_shrink(t.drop_first());
    }
}

/// Parsing of a JSON boolean with leading whitespace.
pub open spec fn parse_bool(s: Seq<char>) -> Option<(bool, Seq<char>)> {
    let t = skip_ws(s);
    if t.len() >= 4 && t.take(4) == "true"@ {
        Option::Some((true, t.skip(4)))
    } else if t.len() >= 5 && t.take(5) == "false"@ {
        Option::Some((false, t.skip(5)))
    } else {
        Option::None
    }
}

pub proof fn lemma_parse_bool_shrink(s: Seq<char>)
    ensures
        match parse_bool(s) {
            Option::Some(p) => p.1.len() < s.len(),
            Option::None => true,
        },
{
    lemma_skip_ws_le(s);
}

/// Parsing of the members of a string-to-string object, positioned after
/// the opening brace (or a comma), with the members seen so far.
pub open spec fn parse_strmap_members(s: Seq<char>, acc: Seq<(Seq<char>, Seq<char>)>) -> Option<
    (Seq<(Seq<char>, Seq<char>)>, Seq<char>),
>
    decreases s.len(),
    via parse_strmap_members_dec
{
    match parse_string(s) {
        Option::None => Option::None,
        Option::Some(kp) => {
            let r2 = skip_ws(kp.1);
            if r2.len() > 0 && r2[0] == ':' {
                match parse_string(r2.drop_first()) {
                    Option::None => Option::None,
                    Option::Some(vp) => {
                        let r4 = skip_ws(vp.1);
                        if r4.len() > 0 && r4[0] == ',' {
                            parse_strmap_members(r4.drop_first(), acc.push((kp.0, vp.0)))
                        } else if r4.len() > 0 && r4[0] == '}' {
                            Option::Some((acc.push((kp.0, vp.0)), r4.drop_first()))
                        } else {
                            Option::None
                        }
                    },
                }
            } else {
                Option::None
            }
        },
    }
}

#[via_fn]
proof fn parse_strmap_members_dec(s: Seq<char>, acc: Seq<(Seq<char>, Seq<char>)>) {
    match parse_string(s) {
        Option::None => {},
        Option::Some(kp) => {
            lemma_parse_string_shrink(s);
            let r2 = skip_ws(kp.1);
            lemma_skip_ws_le(kp.1);
            if r2.len() > 0 && r2[0] == ':' {
                match parse_string(r2.drop_first()) {
                    Option::None => {},
                    Option::Some(vp) => {
                        lemma_parse_string_shrink(r2.drop_first());
                        let r4 = skip_ws(vp.1);
                        lemma_skip_ws_le(vp.1);
                        assert(r4.len() <= vp.1.len());
                    },
                }
            }
        },
    }
}

pub proof fn lemma_parse_strmap_members_shrink(s: Seq<char>, acc: Seq<(Seq<char>, Seq<char>)>)
    ensures
        match parse_strmap_members(s, acc) {
            Option::Some(p) => p.1.len() < s.len(),
            Option::None => true,
        },
    decreases s.len(),
{
    match parse_string(s) {
        Option::None => {},
        Option::Some(kp) => {
            lemma_parse_string_shrink(s);
            let r2 = skip_ws(kp.1);
            lemma_skip_ws_le(kp.1);
            if r2.len() > 0 && r2[0] == ':' {
                match parse_string(r2.drop_first()) {
                    Option::None => {},
                    Option::Some(vp) => {
                        lemma_parse_string_shrink(r2.drop_first());
                        let r4 = skip_ws(vp.1);
                        lemma_skip_ws_le(vp.1);
                        if r4.len() > 0 && r4[0] == ',' {
                            lemma_parse_strmap_members_shrink(
                                r4.drop_first(),
                                acc.push((kp.0, vp.0)),
                            );
                        }
                    },
                }
            }
        },
    }
}

/// Parsing of a whole string-to-string object with leading whitespace.
pub open spec fn parse_strmap(s: Seq<char>) -> Option<(Seq<(Seq<char>, Seq<char>)>, Seq<char>)> {
    let t = skip_ws(s);
    if t.len() > 0 && t[0] == '{' {
        let u = skip_ws(t.drop_first());
        if u.len() > 0 && u[0] == '}' {
            Option::Some((Seq::<(Seq<char>, Seq<char>)>::empty(), u.drop_first()))
        } else {
            parse_strmap_members(t.drop_first(), Seq::<(Seq<char>, Seq<char>)>::empty())
        }
    } else {
        Option::None
    }
}

pub proof fn lemma_parse_strmap_shrink(s: Seq<char>)
    ensures
        match parse_strmap(s) {
            Option::Some(p) => p.1.len() < s.len(),
            Option::None => true,
        },
{
    lemma_skip_ws_le(s);
    let t = skip_ws(s);
    if t.len() > 0 && t[0] == '{' {
        lemma_skip_ws_le(t.drop_first());
        let u = skip_ws(t.drop_first());
        if u.len() > 0 && u[0] == '}' {
        } else {
            lemma_parse_strmap_members_shrink(
                t.drop_first(),
                Seq::<(Seq<char>, Seq<char>)>::empty(),
            );
        }
    }
}

/// The event fields seen so far while parsing the top-level object.
pub ghost struct PartialEvent {
    pub path: Option<Seq<char>>,
    pub method: Option<Seq<char>>,
    pub headers: Option<Seq<(Seq<char>, Seq<char>)>>,
    pub body: Option<Seq<char>>,
    pub is_base64_encoded: Option<bool>,
    pub query_string_parameters: Option<Seq<(Seq<char>, Seq<char>)>>,
    pub timestamp: Option<Seq<char>>,
    pub source_ip: Option<Seq<char>>,
}

/// No field seen yet.
pub open spec fn empty_partial() -> PartialEvent {
    PartialEvent {
        path: Option::None,
        method: Option::None,
        headers: Option::None,
        body: Option::None,
        is_base64_encoded: Option::None,
        query_string_parameters: Option::None,
        timestamp: Option::None,
        source_ip: Option::None,
    }
}

/// Parsing of one member value for a known, not yet seen key; an unknown or
/// repeated key refuses the document.
pub open spec fn parse_member_value(k: Seq<char>, s: Seq<char>, acc: PartialEvent) -> Option<
    (PartialEvent, Seq<char>),
> {
    if k == "path"@ {
        if acc.path is Some {
            Option::None
        } else {
            match parse_string(s) {
                Option::Some(p) => Option::Some(
                    (PartialEvent { path: Option::Some(p.0), ..acc }, p.1),
                ),
                Option::None => Option::None,
            }
        }
    } else if k == "method"@ {
        if acc.method is Some {
            Option::None
        } else {
            match parse_string(s) {
                Option::Some(p) => Option::Some(
                    (PartialEvent { method: Option::Some(p.0), ..acc }, p.1),
                ),
                Option::None => Option::None,
            }
        }
    } else if k == "headers"@ {
        if acc.headers is Some {
            Option::None
        } else {
            match parse_strmap(s) {
                Option::Some(p) => Option::Some(
                    (PartialEvent { headers: Option::Some(p.0), ..acc }, p.1),
                ),
                Option::None => Option::None,
            }
        }
    } else if k == "body"@ {
        if acc.body is Some {
            Option::None
        } else {
            match parse_string(s) {
                Option::Some(p) => Option::Some(
                    (PartialEvent { body: Option::Some(p.0), ..acc }, p.1),
                ),
                Option::None => Option::None,
            }
        }
    } else if k == "is_base64_encoded"@ {
        if acc.is_base64_encoded is Some {
            Option::None
        } else {
            match parse_bool(s) {
                Option::Some(p) => Option::Some(
                    (PartialEvent { is_base64_encoded: Option::Some(p.0), ..acc }, p.1),
                ),
                Option::None => Option::None,
            }
        }
    } else if k == "query_string_parameters"@ {
        if acc.query_string_parameters is Some {
            Option::None
        } else {
            match parse_strmap(s) {
                Option::Some(p) => Option::Some(
                    (PartialEvent { query_string_parameters: Option::Some(p.0), ..acc }, p.1),
                ),
                Option::None => Option::None,
            }
        }
    } else if k == "timestamp"@ {
        if acc.timestamp is Some {
            Option::None
        } else {
            match parse_string(s) {
                Option::Some(p) => Option::Some(
                    (PartialEvent { timestamp: Option::Some(p.0), ..acc }, p.1),
                ),
                Option::None => Option::None,
            }
        }
    } else if k == "source_ip"@ {
        if acc.source_ip is Some {
            Option::None
        } else {
            match parse_string(s) {
                Option::Some(p) => Option::Some(
                    (PartialEvent { source_ip: Option::Some(p.0), ..acc }, p.1),
                ),
                Option::None => Option::None,
            }
        }
    } else {
        Option::None
    }
}

pub proof fn lemma_parse_member_value_shrink(k: Seq<char>, s: Seq<char>, acc: PartialEvent)
    ensures
        match parse_member_value(k, s, acc) {
            Option::Some(p) => p.1.len() < s.len(),
            Option::None => true,
        },
{
    lemma_parse_string_shrink(s);
    lemma_parse_bool_shrink(s);
    lemma_parse_strmap_shrink(s);
}

/// Parsing of the members of the top-level event object, positioned after
/// the opening brace (or a comma).
pub open spec fn parse_event_members(s: Seq<char>, acc: PartialEvent) -> Option<
    (PartialEvent, Seq<char>),
>
    decreases s.len(),
    via parse_event_members_dec
{
    match parse_string(s) {
        Option::None => Option::None,
        Option::Some(kp) => {
            let r2 = skip_ws(kp.1);
            if r2.len() > 0 && r2[0] == ':' {
                match parse_member_value(kp.0, r2.drop_first(), acc) {
                    Option::None => Option::None,
                    Option::Some(vp) => {
                        let r4 = skip_ws(vp.1);
                        if r4.len() > 0 && r4[0] == ',' {
                            parse_event_members(r4.drop_first(), vp.0)
                        } else if r4.len() > 0 && r4[0] == '}' {
                            Option::Some((vp.0, r4.drop_first()))
                        } else {
                            Option::None
                        }
                    },
                }
            } else {
                Option::None
            }
        },
    }
}

#[via_fn]
proof fn parse_event_members_dec(s: Seq<char>, acc: PartialEvent) {
    match parse_string(s) {
        Option::None => {},
        Option::Some(kp) => {
            lemma_parse_string_shrink(s);
            let r2 = skip_ws(kp.1);
            lemma_skip_ws_le(kp.1);
            if r2.len() > 0 && r2[0] == ':' {
                match parse_member_value(kp.0, r2.drop_first(), acc) {
                    Option::None => {},
                    Option::Some(vp) => {
                        lemma_parse_member_value_shrink(kp.0, r2.drop_first(), acc);
                        let r4 = skip_ws(vp.1);
                        lemma_skip_ws_le(vp.1);
                        assert(r4.len() <= vp.1.len());
                    },
                }
            }
        },
    }
}

/// The finished event: path and method are required, everything else takes
/// its default when absent.
pub open spec fn build_event(p: PartialEvent) -> Option<WebhookMessageV> {
    match (p.path, p.method) {
        (Option::Some(path), Option::Some(method)) => Option::Some(
            WebhookMessageV {
                path: path,
                method: method,
                headers: match p.headers {
                    Option::Some(h) => h,
                    Option::None => Seq::<(Seq<char>, Seq<char>)>::empty(),
                },
                body: match p.body {
                    Option::Some(b) => b,
                    Option::None => Seq::<char>::empty(),
                },
                is_base64_encoded: match p.is_base64_encoded {
                    Option::Some(b) => b,
                    Option::None => false,
                },
                query_string_parameters: match p.query_string_parameters {
                    Option::Some(q) => q,
                    Option::None => Seq::<(Seq<char>, Seq<char>)>::empty(),
                },
                timestamp: match p.timestamp {
                    Option::Some(t) => t,
                    Option::None => Seq::<char>::empty(),
                },
                source_ip: match p.source_ip {
                    Option::Some(ip) => ip,
                    Option::None => Seq::<char>::empty(),
                },
            },
        ),
        _ => Option::None,
    }
}

/// What decoding a whole message body yields: the event, or nothing when
/// the text is not a single well-formed event object.
pub open spec fn decode_event_spec(s: Seq<char>) -> Option<WebhookMessageV> {
    let t = skip_ws(s);
    if t.len() > 0 && t[0] == '{' {
        let u = skip_ws(t.drop_first());
        if u.len() > 0 && u[0] == '}' {
            if skip_ws(u.drop_first()).len() == 0 {
                build_event(empty_partial())
            } else {
                Option::None
            }
        } else {
            match parse_event_members(t.drop_first(), empty_partial()) {
                Option::Some(p) => {
                    if skip_ws(p.1).len() == 0 {
                        build_event(p.0)
                    } else {
                        Option::None
                    }
                },
                Option::None => Option::None,
            }
        }
    } else {
        Option::None
    }
}

/// One encoded `"k":"v"` member.
pub open spec fn encode_pair(p: (Seq<char>, Seq<char>)) -> Seq<char> {
    quoted(p.0) + seq![':'] + quoted(p.1)
}

/// The comma-separated members of an encoded string map.
pub open spec fn encode_strmap_items(m: Seq<(Seq<char>, Seq<char>)>) -> Seq<char>
    decreases m.len(),
{
    if m.len() == 0 {
        Seq::<char>::empty()
    } else if m.len() == 1 {
        encode_pair(m[0])
    } else {
        encode_pair(m[0]) + seq![','] + encode_strmap_items(m.drop_first())
    }
}

/// An encoded string map object.
pub open spec fn encode_strmap(m: Seq<(Seq<char>, Seq<char>)>) -> Seq<char> {
    seq!['{'] + encode_strmap_items(m) + seq!['}']
}

/// An encoded boolean.
pub open spec fn encode_bool(b: bool) -> Seq<char> {
    if b {
        "true"@
    } else {
        "false"@
    }
}

/// The canonical encoding of an event: every field, in a fixed order.
pub open spec fn encode_event_spec(e: WebhookMessageV) -> Seq<char> {
    seq!['{'] + quoted("path"@) + seq![':'] + quoted(e.path) + seq![','] + quoted("method"@)
        + seq![':'] + quoted(e.method) + seq![','] + quoted("headers"@) + seq![':']
        + encode_strmap(e.headers) + seq![','] + quoted("body"@) + seq![':'] + quoted(e.body)
        + seq![','] + quoted("is_base64_encoded"@) + seq![':'] + encode_bool(e.is_base64_encoded)
        + seq![','] + quoted("query_string_parameters"@) + seq![':'] + encode_strmap(
        e.query_string_parameters,
    ) + seq![','] + quoted("timestamp"@) + seq![':'] + quoted(e.timestamp) + seq![','] + quoted(
        "source_ip"@,
    ) + seq![':'] + quoted(e.source_ip) + seq!['}']
}

/// Exec test for JSON whitespace.
fn is_ws_exec(c: char) -> (b: bool)
    ensures
        b == is_ws(c),
{
    c == ' ' || c == '\t' || c == '\n' || c == '\r'
}

/// Exec whitespace skipping: the position of the first non-blank character.
fn skip_ws_exec(v: &[char], pos: usize) -> (r: usize)
    requires
        pos <= v@.len(),
    ensures
        pos <= r <= v@.len(),
        v@.skip(r as int) == skip_ws(v@.skip(pos as int)),
{
    let mut i: usize = pos;
    while i < v.len() && is_ws_exec(v[i])
        invariant
            pos <= i <= v@.len(),
            skip_ws(v@.skip(pos as int)) == skip_ws(v@.skip(i as int)),
        decreases v@.len() - i,
    {
        proof {
            assert(v@.skip(i as int).drop_first() =~= v@.skip(i + 1 as int));
        }
        i = i + 1;
    }
    proof {
        if i < v@.len() {
            assert(!is_ws(v@.skip(i as int)[0]));
        }
        assert(skip_ws(v@.skip(i as int)) == v@.skip(i as int));
    }
    i
}

/// Exec hex digit value; 16 for any other character.
fn hex_val_exec(c: char) -> (h: u32)
    ensures
        h as int == hex_val(c),
{
    if '0' <= c && c <= '9' {
        (c as u32) - ('0' as u32)
    } else if 'a' <= c && c <= 'f' {
        (c as u32) - ('a' as u32) + 10
    } else if 'A' <= c && c <= 'F' {
        (c as u32) - ('A' as u32) + 10
    } else {
        16
    }
}

/// Exec string-body parsing after the opening quote.
fn parse_str_body_exec(v: &[char], pos: usize) -> (r: Option<(Vec<char>, usize)>)
    requires
        pos <= v@.len(),
    ensures
        match r {
            Some(p) => p.1 <= v@.len() && parse_str_body(v@.skip(pos as int)) == Option::Some(
                (p.0@, v@.skip(p.1 as int)),
            ),
            None => parse_str_body(v@.skip(pos as int)) is None,
        },
    decreases v@.len() - pos,
{
    let ghost s = v@.skip(pos as int);
    if pos == v.len() {
        return None;
    }
    let c = v[pos];
    proof {
        assert(s[0] == v@[pos as int]);
    }
    if c == '"' {
        let out: Vec<char> = Vec::new();
        proof {
            assert(s.drop_first() =~= v@.skip(pos + 1 as int));
        }
        return Some((out, pos + 1));
    }
    if c == '\\' {
        if pos + 1 == v.len() {
            return None;
        }
        let e = v[pos + 1];
        proof {
            assert(s.len() >= 2 && s[1] == v@[pos + 1 as int]);
        }
        if e == 'u' {
            if v.len() - pos < 6 {
                return None;
            }
            let z2 = v[pos + 2];
            let z3 = v[pos + 3];
            let h1 = hex_val_exec(v[pos + 4]);
            let h2 = hex_val_exec(v[pos + 5]);
            proof {
                assert(s[2] == v@[pos + 2 as int] && s[3] == v@[pos + 3 as int]);
                assert(s[4] == v@[pos + 4 as int] && s[5] == v@[pos + 5 as int]);
            }
            if !(z2 == '0' && z3 == '0' && h1 < 16 && h2 < 16) {
                return None;
            }
            let code: u32 = h1 * 16 + h2;
            let ch = (code as u8) as char;
            match parse_str_body_exec(v, pos + 6) {
                Some((mut content, np)) => {
                    proof {
                        assert(s.skip(6) =~= v@.skip(pos + 6 as int));
                    }
                    content.insert(0, ch);
                    proof {
                        assert(content@ =~= seq![ch] + content@.skip(1));
                    }
                    Some((content, np))
                },
                None => {
                    proof {
                        assert(s.skip(6) =~= v@.skip(pos + 6 as int));
                    }
                    None
                },
            }
        } else {
            let simple = e == '"' || e == '\\' || e == '/' || e == 'n' || e == 'r' || e == 't'
                || e == 'b' || e == 'f';
            if !simple {
                return None;
            }
            let ch = if e == '"' {
                '"'
            } else if e == '\\' {
                '\\'
            } else if e == '/' {
                '/'
            } else if e == 'n' {
                '\n'
            } else if e == 'r' {
                '\r'
            } else if e == 't' {
                '\t'
            } else if e == 'b' {
                '\x08'
            } else {
                '\x0c'
            };
            proof {
                assert(ch == simple_unescape(s[1]));
            }
            match parse_str_body_exec(v, pos + 2) {
                Some((mut content, np)) => {
                    proof {
                        assert(s.skip(2) =~= v@.skip(pos + 2 as int));
                    }
                    content.insert(0, ch);
                    proof {
                        assert(content@ =~= seq![ch] + content@.skip(1));
                    }
                    Some((content, np))
                },
                None => {
                    proof {
                        assert(s.skip(2) =~= v@.skip(pos + 2 as int));
                    }
                    None
                },
            }
        }
    } else if (c as u32) < 32 {
        None
    } else {
        match parse_str_body_exec(v, pos + 1) {
            Some((mut content, np)) => {
                proof {
                    assert(s.drop_first() =~= v@.skip(pos + 1 as int));
                }
                content.insert(0, c);
                proof {
                    assert(content@ =~= seq![c] + content@.skip(1));
                }
                Some((content, np))
            },
            None => {
                proof {
                    assert(s.drop_first() =~= v@.skip(pos + 1 as int));
                }
                None
            },
        }
    }
}

/// Exec string parsing with leading whitespace and quotes.
fn parse_string_exec(v: &[char], pos: usize) -> (r: Option<(Vec<char>, usize)>)
    requires
        pos <= v@.len(),
    ensures
        match r {
            Some(p) => p.1 <= v@.len() && parse_string(v@.skip(pos as int)) == Option::Some(
                (p.0@, v@.skip(p.1 as int)),
            ),
            None => parse_string(v@.skip(pos as int)) is None,
        },
{
    let t = skip_ws_exec(v, pos);
    if t < v.len() && v[t] == '"' {
        proof {
            assert(v@.skip(t as int)[0] == v@[t as int]);
            assert(v@.skip(t as int).drop_first() =~= v@.skip(t + 1 as int));
        }
        parse_str_body_exec(v, t + 1)
    } else {
        proof {
            if t < v@.len() {
                assert(v@.skip(t as int)[0] == v@[t as int]);
            }
        }
        None
    }
}

/// Exec boolean parsing with leading whitespace.
fn parse_bool_exec(v: &[char], pos: usize) -> (r: Option<(bool, usize)>)
    requires
        pos <= v@.len(),
    ensures
        match r {
            Some(p) => p.1 <= v@.len() && parse_bool(v@.skip(pos as int)) == Option::Some(
                (p.0, v@.skip(p.1 as int)),
            ),
            None => parse_bool(v@.skip(pos as int)) is None,
        },
{
    let t = skip_ws_exec(v, pos);
    let ghost tv = v@.skip(t as int);
    proof {
        reveal_strlit("true");
        reveal_strlit("false");
        assert(forall|j: int| 0 <= j < tv.len() ==> tv[j] == v@[t + j]);
    }
    if v.len() - t >= 4 && v[t] == 't' && v[t + 1] == 'r' && v[t + 2] == 'u' && v[t + 3] == 'e' {
        proof {
            assert(tv.take(4) =~= "true"@);
            assert(tv.skip(4) =~= v@.skip(t + 4 as int));
        }
        Some((true, t + 4))
    } else if v.len() - t >= 5 && v[t] == 'f' && v[t + 1] == 'a' && v[t + 2] == 'l' && v[t + 3]
        == 's' && v[t + 4] == 'e' {
        proof {
            assert(tv.take(5) =~= "false"@);
            assert(tv.skip(5) =~= v@.skip(t + 5 as int));
        }
        Some((false, t + 5))
    } else {
        proof {
            if tv.len() >= 4 && tv.take(4) == "true"@ {
                assert(tv.take(4)[0] == tv[0] && tv.take(4)[1] == tv[1] && tv.take(4)[2] == tv[2]
                    && tv.take(4)[3] == tv[3]);
                assert("true"@[0] == 't' && "true"@[1] == 'r' && "true"@[2] == 'u' && "true"@[3]
                    == 'e');
                assert(false);
            }
            if tv.len() >= 5 && tv.take(5) == "false"@ {
                assert(tv.take(5)[0] == tv[0] && tv.take(5)[1] == tv[1] && tv.take(5)[2] == tv[2]
                    && tv.take(5)[3] == tv[3] && tv.take(5)[4] == tv[4]);
                assert("false"@[0] == 'f' && "false"@[1] == 'a' && "false"@[2] == 'l' && "false"@[3]
                    == 's' && "false"@[4] == 'e');
                assert(false);
            }
        }
        None
    }
}

/// Push a pair of strings, extending the deep view by the pair of views.
fn push_pair(acc: &mut Vec<(String, String)>, k: String, v: String)
    ensures
        final(acc).deep_view() == old(acc).deep_view().push((k@, v@)),
{
    let ghost pre = acc@;
    let ghost pred = acc.deep_view();
    acc.push((k, v));
    proof {
        assert(acc@ == pre.push((k, v)));
        assert forall|j: int| 0 <= j < acc@.len() implies acc.deep_view()[j] == pred.push(
            (k@, v@),
        )[j] by {
            if j < pre.len() {
                assert(acc@[j] == pre[j]);
            } else {
                assert(acc@[j] == (k, v));
            }
        }
        assert(acc.deep_view() =~= pred.push((k@, v@)));
    }
}

/// Exec parsing of string-map members, after the opening brace or a comma.
fn parse_strmap_members_exec(v: &[char], pos: usize, acc: Vec<(String, String)>) -> (r: Option<
    (Vec<(String, String)>, usize),
>)
    requires
        pos <= v@.len(),
    ensures
        match r {
            Some(p) => p.1 <= v@.len() && parse_strmap_members(v@.skip(pos as int), acc.deep_view())
                == Option::Some((p.0.deep_view(), v@.skip(p.1 as int))),
            None => parse_strmap_members(v@.skip(pos as int), acc.deep_view()) is None,
        },
    decreases v@.len() - pos,
{
    let ghost s = v@.skip(pos as int);
    let kp = match parse_string_exec(v, pos) {
        Some(kp) => kp,
        None => {
            return None;
        },
    };
    let r2 = skip_ws_exec(v, kp.1);
    if !(r2 < v.len() && v[r2] == ':') {
        proof {
            if r2 < v@.len() {
                assert(v@.skip(r2 as int)[0] == v@[r2 as int]);
            }
        }
        return None;
    }
    proof {
        assert(v@.skip(r2 as int)[0] == v@[r2 as int]);
        assert(v@.skip(r2 as int).drop_first() =~= v@.skip(r2 + 1 as int));
    }
    let vp = match parse_string_exec(v, r2 + 1) {
        Some(vp) => vp,
        None => {
            return None;
        },
    };
    let r4 = skip_ws_exec(v, vp.1);
    if r4 < v.len() && v[r4] == ',' {
        proof {
            assert(v@.skip(r4 as int)[0] == v@[r4 as int]);
            assert(v@.skip(r4 as int).drop_first() =~= v@.skip(r4 + 1 as int));
        }
        let mut acc2 = acc;
        let ks = chars_string(kp.0.as_slice());
        let vs = chars_string(vp.0.as_slice());
        push_pair(&mut acc2, ks, vs);
        proof {
            lemma_parse_string_shrink(v@.skip(pos as int));
            lemma_parse_string_shrink(v@.skip(r2 + 1 as int));
        }
        parse_strmap_members_exec(v, r4 + 1, acc2)
    } else if r4 < v.len() && v[r4] == '}' {
        proof {
            assert(v@.skip(r4 as int)[0] == v@[r4 as int]);
            assert(v@.skip(r4 as int).drop_first() =~= v@.skip(r4 + 1 as int));
        }
        let mut acc2 = acc;
        let ks = chars_string(kp.0.as_slice());
        let vs = chars_string(vp.0.as_slice());
        push_pair(&mut acc2, ks, vs);
        Some((acc2, r4 + 1))
    } else {
        proof {
            if r4 < v@.len() {
                assert(v@.skip(r4 as int)[0] == v@[r4 as int]);
            }
        }
        None
    }
}

/// Exec parsing of a whole string map with leading whitespace.
fn parse_strmap_exec(v: &[char], pos: usize) -> (r: Option<(Vec<(String, String)>, usize)>)
    requires
        pos <= v@.len(),
    ensures
        match r {
            Some(p) => p.1 <= v@.len() && parse_strmap(v@.skip(pos as int)) == Option::Some(
                (p.0.deep_view(), v@.skip(p.1 as int)),
            ),
            None => parse_strmap(v@.skip(pos as int)) is None,
        },
{
    let t = skip_ws_exec(v, pos);
    if !(t < v.len() && v[t] == '{') {
        proof {
            if t < v@.len() {
                assert(v@.skip(t as int)[0] == v@[t as int]);
            }
        }
        return None;
    }
    proof {
        assert(v@.skip(t as int)[0] == v@[t as int]);
        assert(v@.skip(t as int).drop_first() =~= v@.skip(t + 1 as int));
    }
    let u = skip_ws_exec(v, t + 1);
    if u < v.len() && v[u] == '}' {
        proof {
            assert(v@.skip(u as int)[0] == v@[u as int]);
            assert(v@.skip(u as int).drop_first() =~= v@.skip(u + 1 as int));
        }
        let out: Vec<(String, String)> = Vec::new();
        proof {
            assert(out.deep_view() =~= Seq::<(Seq<char>, Seq<char>)>::empty());
        }
        Some((out, u + 1))
    } else {
        proof {
            if u < v@.len() {
                assert(v@.skip(u as int)[0] == v@[u as int]);
            }
        }
        let acc: Vec<(String, String)> = Vec::new();
        proof {
            assert(acc.deep_view() =~= Seq::<(Seq<char>, Seq<char>)>::empty());
        }
        parse_strmap_members_exec(v, t + 1, acc)
    }
}

/// The event fields collected so far by the exec parser.
pub struct PartialExec {
    pub path: Option<String>,
    pub method: Option<String>,
    pub headers: Option<Vec<(String, String)>>,
    pub body: Option<String>,
    pub is_base64_encoded: Option<bool>,
    pub query_string_parameters: Option<Vec<(String, String)>>,
    pub timestamp: Option<String>,
    pub source_ip: Option<String>,
}

impl View for PartialExec {
    type V = PartialEvent;

    open spec fn view(&self) -> PartialEvent {
        PartialEvent {
            path: match self.path {
                Option::Some(ref p) => Option::Some(p@),
                Option::None => Option::None,
            },
            method: match self.method {
                Option::Some(ref p) => Option::Some(p@),
                Option::None => Option::None,
            },
            headers: match self.headers {
                Option::Some(ref h) => Option::Some(h.deep_view()),
                Option::None => Option::None,
            },
            body: match self.body {
                Option::Some(ref p) => Option::Some(p@),
                Option::None => Option::None,
            },
            is_base64_encoded: match self.is_base64_encoded {
                Option::Some(b) => Option::Some(b),
                Option::None => Option::None,
            },
            query_string_parameters: match self.query_string_parameters {
                Option::Some(ref q) => Option::Some(q.deep_view()),
                Option::None => Option::None,
            },
            timestamp: match self.timestamp {
                Option::Some(ref p) => Option::Some(p@),
                Option::None => Option::None,
            },
            source_ip: match self.source_ip {
                Option::Some(ref p) => Option::Some(p@),
                Option::None => Option::None,
            },
        }
    }
}

/// Exec parsing of one member value for a known key.
fn parse_member_value_exec(k: &[char], v: &[char], pos: usize, acc: PartialExec) -> (r: Option<
    (PartialExec, usize),
>)
    requires
        pos <= v@.len(),
    ensures
        match r {
            Some(p) => p.1 <= v@.len() && parse_member_value(k@, v@.skip(pos as int), acc@)
                == Option::Some((p.0@, v@.skip(p.1 as int))),
            None => parse_member_value(k@, v@.skip(pos as int), acc@) is None,
        },
{
    if chars_eq_str(k, "path") {
        if acc.path.is_some() {
            return None;
        }
        match parse_string_exec(v, pos) {
            Some(p) => Some((PartialExec { path: Some(chars_string(p.0.as_slice())), ..acc }, p.1)),
            None => None,
        }
    } else if chars_eq_str(k, "method") {
        if acc.method.is_some() {
            return None;
        }
        match parse_string_exec(v, pos) {
            Some(p) => Some(
                (PartialExec { method: Some(chars_string(p.0.as_slice())), ..acc }, p.1),
            ),
            None => None,
        }
    } else if chars_eq_str(k, "headers") {
        if acc.headers.is_some() {
            return None;
        }
        match parse_strmap_exec(v, pos) {
            Some(p) => Some((PartialExec { headers: Some(p.0), ..acc }, p.1)),
            None => None,
        }
    } else if chars_eq_str(k, "body") {
        if acc.body.is_some() {
            return None;
        }
        match parse_string_exec(v, pos) {
            Some(p) => Some((PartialExec { body: Some(chars_string(p.0.as_slice())), ..acc }, p.1)),
            None => None,
        }
    } else if chars_eq_str(k, "is_base64_encoded") {
        if acc.is_base64_encoded.is_some() {
            return None;
        }
        match parse_bool_exec(v, pos) {
            Some(p) => Some((PartialExec { is_base64_encoded: Some(p.0), ..acc }, p.1)),
            None => None,
        }
    } else if chars_eq_str(k, "query_string_parameters") {
        if acc.query_string_parameters.is_some() {
            return None;
        }
        match parse_strmap_exec(v, pos) {
            Some(p) => Some((PartialExec { query_string_parameters: Some(p.0), ..acc }, p.1)),
            None => None,
        }
    } else if chars_eq_str(k, "timestamp") {
        if acc.timestamp.is_some() {
            return None;
        }
        match parse_string_exec(v, pos) {
            Some(p) => Some(
                (PartialExec { timestamp: Some(chars_string(p.0.as_slice())), ..acc }, p.1),
            ),
            None => None,
        }
    } else if chars_eq_str(k, "source_ip") {
        if acc.source_ip.is_some() {
            return None;
        }
        match parse_string_exec(v, pos) {
            Some(p) => Some(
                (PartialExec { source_ip: Some(chars_string(p.0.as_slice())), ..acc }, p.1),
            ),
            None => None,
        }
    } else {
        None
    }
}

/// Exec parsing of the top-level members, after the opening brace or a comma.
fn parse_event_members_exec(v: &[char], pos: usize, acc: PartialExec) -> (r: Option<
    (PartialExec, usize),
>)
    requires
        pos <= v@.len(),
    ensures
        match r {
            Some(p) => p.1 <= v@.len() && parse_event_members(v@.skip(pos as int), acc@)
                == Option::Some((p.0@, v@.skip(p.1 as int))),
            None => parse_event_members(v@.skip(pos as int), acc@) is None,
        },
    decreases v@.len() - pos,
{
    let kp = match parse_string_exec(v, pos) {
        Some(kp) => kp,
        None => {
            return None;
        },
    };
    let r2 = skip_ws_exec(v, kp.1);
    if !(r2 < v.len() && v[r2] == ':') {
        proof {
            if r2 < v@.len() {
                assert(v@.skip(r2 as int)[0] == v@[r2 as int]);
            }
        }
        return None;
    }
    proof {
        assert(v@.skip(r2 as int)[0] == v@[r2 as int]);
        assert(v@.skip(r2 as int).drop_first() =~= v@.skip(r2 + 1 as int));
    }
    let vp = match parse_member_value_exec(kp.0.as_slice(), v, r2 + 1, acc) {
        Some(vp) => vp,
        None => {
            return None;
        },
    };
    let r4 = skip_ws_exec(v, vp.1);
    if r4 < v.len() && v[r4] == ',' {
        proof {
            assert(v@.skip(r4 as int)[0] == v@[r4 as int]);
            assert(v@.skip(r4 as int).drop_first() =~= v@.skip(r4 + 1 as int));
            lemma_parse_string_shrink(v@.skip(pos as int));
            lemma_parse_member_value_shrink(kp.0@, v@.skip(r2 + 1 as int), acc@);
        }
        parse_event_members_exec(v, r4 + 1, vp.0)
    } else if r4 < v.len() && v[r4] == '}' {
        proof {
            assert(v@.skip(r4 as int)[0] == v@[r4 as int]);
            assert(v@.skip(r4 as int).drop_first() =~= v@.skip(r4 + 1 as int));
        }
        Some((vp.0, r4 + 1))
    } else {
        proof {
            if r4 < v@.len() {
                assert(v@.skip(r4 as int)[0] == v@[r4 as int]);
            }
        }
        None
    }
}

/// Decode one queue message body into an event, or nothing when the text is
/// not a single well-formed event object.
pub fn decode_event(s: &str) -> (r: Option<WebhookMessage>)
    ensures
        match r {
            Some(m) => decode_event_spec(s@) == Option::Some(m@),
            None => decode_event_spec(s@) is None,
        },
{
    let chars = str_chars(s);
    let v = chars.as_slice();
    proof {
        assert(v@.skip(0) =~= s@);
    }
    let t = skip_ws_exec(v, 0);
    if !(t < v.len() && v[t] == '{') {
        proof {
            if t < v@.len() {
                assert(v@.skip(t as int)[0] == v@[t as int]);
            }
        }
        return None;
    }
    proof {
        assert(v@.skip(t as int)[0] == v@[t as int]);
        assert(v@.skip(t as int).drop_first() =~= v@.skip(t + 1 as int));
    }
    let u = skip_ws_exec(v, t + 1);
    if u < v.len() && v[u] == '}' {
        proof {
            assert(v@.skip(u as int)[0] == v@[u as int]);
            assert(v@.skip(u as int).drop_first() =~= v@.skip(u + 1 as int));
        }
        // An empty object has no path and no method: never a valid event.
        return None;
    }
    proof {
        if u < v@.len() {
            assert(v@.skip(u as int)[0] == v@[u as int]);
        }
    }
    let empty_acc = PartialExec {
        path: None,
        method: None,
        headers: None,
        body: None,
        is_base64_encoded: None,
        query_string_parameters: None,
        timestamp: None,
        source_ip: None,
    };
    proof {
        assert(empty_acc@ == empty_partial());
    }
    let p = match parse_event_members_exec(v, t + 1, empty_acc) {
        Some(p) => p,
        None => {
            return None;
        },
    };
    let w = skip_ws_exec(v, p.1);
    if w != v.len() {
        return None;
    }
    proof {
        assert(v@.skip(w as int).len() == 0);
    }
    let ghost accv = p.0@;
    let acc = p.0;
    let path = match acc.path {
        Some(x) => x,
        None => {
            return None;
        },
    };
    let method = match acc.method {
        Some(x) => x,
        None => {
            return None;
        },
    };
    let headers = match acc.headers {
        Some(x) => x,
        None => Vec::new(),
    };
    let body = match acc.body {
        Some(x) => x,
        None => String::new(),
    };
    let is_base64_encoded = match acc.is_base64_encoded {
        Some(x) => x,
        None => false,
    };
    let query_string_parameters = match acc.query_string_parameters {
        Some(x) => x,
        None => Vec::new(),
    };
    let timestamp = match acc.timestamp {
        Some(x) => x,
        None => String::new(),
    };
    let source_ip = match acc.source_ip {
        Some(x) => x,
        None => String::new(),
    };
    let m = WebhookMessage {
        path,
        method,
        headers,
        body,
        is_base64_encoded,
        query_string_parameters,
        timestamp,
        source_ip,
    };
    proof {
        if accv.headers is None {
            assert(m@.headers =~= Seq::<(Seq<char>, Seq<char>)>::empty());
        }
        if accv.query_string_parameters is None {
            assert(m@.query_string_parameters =~= Seq::<(Seq<char>, Seq<char>)>::empty());
        }
        if accv.body is None {
            assert(m@.body =~= Seq::<char>::empty());
        }
        if accv.timestamp is None {
            assert(m@.timestamp =~= Seq::<char>::empty());
        }
        if accv.source_ip is None {
            assert(m@.source_ip =~= Seq::<char>::empty());
        }
        assert(build_event(accv) == Option::Some(m@));
    }
    Some(m)
}

/// Appending one more pair to an encoded member list.
proof fn lemma_encode_items_push(m: Seq<(Seq<char>, Seq<char>)>, x: (Seq<char>, Seq<char>))
    ensures
        m.len() == 0 ==> encode_strmap_items(m.push(x)) =~= encode_pair(x),
        m.len() > 0 ==> encode_strmap_items(m.push(x)) =~= encode_strmap_items(m) + seq![',']
            + encode_pair(x),
    decreases m.len(),
{
    if m.len() == 0 {
        assert(m.push(x)[0] == x);
    } else if m.len() == 1 {
        let w = m.push(x);
        assert(w.len() == 2);
        assert(w[0] == m[0]);
        assert(w.drop_first() =~~= seq![x]);
        assert(encode_strmap_items(w.drop_first()) == encode_pair(x));
    } else {
        lemma_encode_items_push(m.drop_first(), x);
        let w = m.push(x);
        assert(w[0] == m[0]);
        assert(w.drop_first() =~~= m.drop_first().push(x));
    }
}

/// Appending one more character to an escaped body.
proof fn lemma_escape_push(s: Seq<char>, c: char)
    ensures
        escape_seq(s.push(c)) =~= escape_seq(s) + escape_char(c),
    decreases s.len(),
{
    if s.len() == 0 {
        assert(s.push(c)[0] == c);
        assert(s.push(c).drop_first() =~= Seq::<char>::empty());
        assert(escape_seq(s.push(c)) =~= escape_char(c) + escape_seq(Seq::<char>::empty()));
        assert(escape_seq(s) =~= Seq::<char>::empty());
    } else {
        lemma_escape_push(s.drop_first(), c);
        assert(s.push(c)[0] == s[0]);
        assert(s.push(c).drop_first() =~= s.drop_first().push(c));
        assert(escape_seq(s.push(c)) =~= escape_char(s[0]) + escape_seq(s.drop_first().push(c)));
        assert(escape_seq(s) =~= escape_char(s[0]) + escape_seq(s.drop_first()));
    }
}

/// Exec escaping of one character.
fn escape_char_exec(c: char) -> (r: Vec<char>)
    ensures
        r@ == escape_char(c),
{
    let mut r: Vec<char> = Vec::new();
    if c == '"' {
        r.push('\\');
        r.push('"');
    } else if c == '\\' {
        r.push('\\');
        r.push('\\');
    } else if c == '\n' {
        r.push('\\');
        r.push('n');
    } else if c == '\r' {
        r.push('\\');
        r.push('r');
    } else if c == '\t' {
        r.push('\\');
        r.push('t');
    } else if (c as u32) < 32 {
        r.push('\\');
        r.push('u');
        r.push('0');
        r.push('0');
        let hi: u32 = (c as u32) / 16;
        let lo: u32 = (c as u32) % 16;
        let hic = if hi < 10 {
            (('0' as u8) + (hi as u8)) as char
        } else {
            (('a' as u8) + ((hi - 10) as u8)) as char
        };
        let loc = if lo < 10 {
            (('0' as u8) + (lo as u8)) as char
        } else {
            (('a' as u8) + ((lo - 10) as u8)) as char
        };
        r.push(hic);
        r.push(loc);
    } else {
        r.push(c);
    }
    proof {
        assert(r@ =~= escape_char(c));
    }
    r
}

/// Append the characters of a string slice.
fn push_str_chars(out: &mut Vec<char>, s: &str)
    ensures
        final(out)@ == old(out)@ + s@,
{
    let mut cs = str_chars(s);
    out.append(&mut cs);
}

/// Append a quoted, escaped JSON string.
fn push_quoted(out: &mut Vec<char>, s: &str)
    ensures
        final(out)@ == old(out)@ + quoted(s@),
{
    out.push('"');
    let cs = str_chars(s);
    let ghost base = out@;
    let mut i: usize = 0;
    while i < cs.len()
        invariant
            i <= cs@.len(),
            cs@ == s@,
            out@ =~= base + escape_seq(s@.take(i as int)),
        decreases cs@.len() - i,
    {
        let mut e = escape_char_exec(cs[i]);
        proof {
            lemma_escape_push(s@.take(i as int), s@[i as int]);
            assert(s@.take(i as int).push(s@[i as int]) =~= s@.take(i + 1 as int));
        }
        out.append(&mut e);
        i = i + 1;
    }
    proof {
        assert(s@.take(s@.len() as int) =~= s@);
    }
    out.push('"');
    proof {
        assert(out@ =~= old(out)@ + quoted(s@));
    }
}

/// Append an encoded string-map object.
fn push_strmap(out: &mut Vec<char>, m: &Vec<(String, String)>)
    ensures
        final(out)@ == old(out)@ + encode_strmap(m.deep_view()),
{
    out.push('{');
    let ghost base = out@;
    let ghost mv = m.deep_view();
    let mut i: usize = 0;
    while i < m.len()
        invariant
            i <= m@.len(),
            mv == m.deep_view(),
            mv.len() == m@.len(),
            out@ =~= base + encode_strmap_items(mv.take(i as int)),
        decreases m@.len() - i,
    {
        proof {
            assert(mv[i as int] == (m@[i as int].0@, m@[i as int].1@));
            lemma_encode_items_push(mv.take(i as int), mv[i as int]);
            assert(mv.take(i as int).push(mv[i as int]) =~= mv.take(i + 1 as int));
        }
        if i > 0 {
            out.push(',');
        }
        push_quoted(out, m[i].0.as_str());
        out.push(':');
        push_quoted(out, m[i].1.as_str());
        proof {
            assert(out@ =~= base + encode_strmap_items(mv.take(i + 1 as int)));
        }
        i = i + 1;
    }
    proof {
        assert(mv.take(mv.len() as int) =~= mv);
    }
    out.push('}');
    proof {
        assert(out@ =~= old(out)@ + encode_strmap(mv));
    }
}

/// Encode an event as its canonical JSON text.
pub fn encode_event(m: &WebhookMessage) -> (r: String)
    ensures
        r@ == encode_event_spec(m@),
{
    let mut out: Vec<char> = Vec::new();
    out.push('{');
    push_quoted(&mut out, "path");
    out.push(':');
    push_quoted(&mut out, m.path.as_str());
    out.push(',');
    push_quoted(&mut out, "method");
    out.push(':');
    push_quoted(&mut out, m.method.as_str());
    out.push(',');
    push_quoted(&mut out, "headers");
    out.push(':');
    push_strmap(&mut out, &m.headers);
    out.push(',');
    push_quoted(&mut out, "body");
    out.push(':');
    push_quoted(&mut out, m.body.as_str());
    out.push(',');
    push_quoted(&mut out, "is_base64_encoded");
    out.push(':');
    if m.is_base64_encoded {
        push_str_chars(&mut out, "true");
    } else {
        push_str_chars(&mut out, "false");
    }
    out.push(',');
    push_quoted(&mut out, "query_string_parameters");
    out.push(':');
    push_strmap(&mut out, &m.query_string_parameters);
    out.push(',');
    push_quoted(&mut out, "timestamp");
    out.push(':');
    push_quoted(&mut out, m.timestamp.as_str());
    out.push(',');
    push_quoted(&mut out, "source_ip");
    out.push(':');
    push_quoted(&mut out, m.source_ip.as_str());
    out.push('}');
    proof {
        assert(out@ =~= encode_event_spec(m@));
    }
    crate::text::chars_string(out.as_slice())
}

proof fn lemma_skip_ws_id(s: Seq<char>)
    requires
        s.len() == 0 || !is_ws(s[0]),
    ensures
        skip_ws(s) == s,
{
}

proof fn lemma_char_scalar(c: char)
    ensures
        c as int == c as u32,
        (c as u32) < 256 ==> ((c as u32) as u8) as char == c,
{
}

proof fn lemma_hex_digit_val(n: int)
    requires
        0 <= n < 16,
    ensures
        hex_val(hex_digit(n)) == n,
{
    if n < 10 {
        assert('0' <= hex_digit(n) && hex_digit(n) <= '9');
    } else {
        assert('a' <= hex_digit(n) && hex_digit(n) <= 'f');
    }
}

/// Parsing an escaped string body gives back exactly the original text.
proof fn lemma_parse_escaped(s: Seq<char>, rest: Seq<char>)
    ensures
        parse_str_body(escape_seq(s) + seq!['"'] + rest) == Option::Some((s, rest)),
    decreases s.len(),
{
    let input = escape_seq(s) + seq!['"'] + rest;
    if s.len() == 0 {
        assert(input =~= seq!['"'] + rest);
        assert(input[0] == '"');
        assert(input.drop_first() =~= rest);
        assert(parse_str_body(input) == Option::Some((Seq::<char>::empty(), rest)));
        assert(Seq::<char>::empty() =~= s);
    } else {
        let c = s[0];
        let tail_input = escape_seq(s.drop_first()) + seq!['"'] + rest;
        lemma_parse_escaped(s.drop_first(), rest);
        assert(input =~= escape_char(c) + tail_input);
        assert(seq![c] + s.drop_first() =~= s);
        if c == '"' || c == '\\' || c == '\n' || c == '\r' || c == '\t' {
            assert(escape_char(c).len() == 2);
            assert(input[0] == '\\');
            assert(input[1] == escape_char(c)[1]);
            assert(input[1] != 'u');
            assert(is_simple_escape(input[1]));
            assert(simple_unescape(input[1]) == c);
            assert(input.skip(2) =~= tail_input);
            assert(parse_str_body(input) == Option::Some((seq![c] + s.drop_first(), rest)));
        } else if (c as u32) < 32 {
            lemma_char_scalar(c);
            assert((c as int) < 32);
            assert(escape_char(c) == seq![
                '\\',
                'u',
                '0',
                '0',
                hex_digit((c as int) / 16),
                hex_digit((c as int) % 16),
            ]);
            assert(input.len() >= 7);
            assert(input[0] == '\\' && input[1] == 'u' && input[2] == '0' && input[3] == '0');
            assert(input[4] == hex_digit((c as int) / 16));
            assert(input[5] == hex_digit((c as int) % 16));
            lemma_hex_digit_val((c as int) / 16);
            lemma_hex_digit_val((c as int) % 16);
            let code = hex_val(input[4]) * 16 + hex_val(input[5]);
            assert(code == c as int);
            assert(((code as u8) as char) == c);

            assert(input.skip(6) =~= tail_input);
            assert(parse_str_body(input) == Option::Some((seq![c] + s.drop_first(), rest)));
        } else {
            assert(escape_char(c) == seq![c]);
            assert(input[0] == c);
            assert(c != '"' && c != '\\');
            assert(!((c as u32) < 32));
            assert(input.drop_first() =~= tail_input);
            assert(parse_str_body(input) == Option::Some((seq![c] + s.drop_first(), rest)));
        }
        assert(parse_str_body(input) == Option::Some((s, rest)));
    }
}

/// Parsing a quoted string gives back exactly the original text.
proof fn lemma_parse_quoted(s: Seq<char>, rest: Seq<char>)
    ensures
        parse_string(quoted(s) + rest) == Option::Some((s, rest)),
{
    let input = quoted(s) + rest;
    assert(input[0] == '"');
    assert(!is_ws('"'));
    lemma_skip_ws_id(input);
    assert(input.drop_first() =~= escape_seq(s) + seq!['"'] + rest);
    lemma_parse_escaped(s, rest);
}

/// Parsing an encoded boolean gives back the boolean.
proof fn lemma_parse_bool_enc(b: bool, rest: Seq<char>)
    ensures
        parse_bool(encode_bool(b) + rest) == Option::Some((b, rest)),
{
    reveal_strlit("true");
    reveal_strlit("false");
    let input = encode_bool(b) + rest;
    if b {
        assert(input[0] == 't');
        assert(!is_ws('t'));
        lemma_skip_ws_id(input);
        assert(input.take(4) =~= "true"@);
        assert(input.skip(4) =~= rest);
    } else {
        assert(input[0] == 'f');
        assert(!is_ws('f'));
        lemma_skip_ws_id(input);
        assert(input.len() >= 5);
        assert(input.take(4)[0] == 'f');
        assert("true"@[0] == 't');
        assert(input.take(4) != "true"@);
        assert(input.take(5) =~= "false"@);
        assert(input.skip(5) =~= rest);
    }
}

/// Parsing encoded string-map members appends exactly the original pairs.
#[verifier::rlimit(60)]
proof fn lemma_parse_strmap_members_enc(
    m: Seq<(Seq<char>, Seq<char>)>,
    acc: Seq<(Seq<char>, Seq<char>)>,
    rest: Seq<char>,
)
    requires
        m.len() > 0,
    ensures
        parse_strmap_members(encode_strmap_items(m) + seq!['}'] + rest, acc) == Option::Some(
            (acc + m, rest),
        ),
    decreases m.len(),
{
    let input = encode_strmap_items(m) + seq!['}'] + rest;
    let k = m[0].0;
    let v = m[0].1;
    assert((k, v) == m[0]);
    if m.len() == 1 {
        let after_key = seq![':'] + (quoted(v) + (seq!['}'] + rest));
        assert(input =~= quoted(k) + after_key);
        lemma_parse_quoted(k, after_key);
        assert(after_key[0] == ':');
        assert(!is_ws(':'));
        lemma_skip_ws_id(after_key);
        assert(after_key.drop_first() =~= quoted(v) + (seq!['}'] + rest));
        lemma_parse_quoted(v, seq!['}'] + rest);
        let r3 = seq!['}'] + rest;
        assert(r3[0] == '}');
        assert(!is_ws('}'));
        lemma_skip_ws_id(r3);
        assert(r3.drop_first() =~= rest);
        assert(acc.push((k, v)) =~~= acc + m);
    } else {
        let next = encode_strmap_items(m.drop_first()) + seq!['}'] + rest;
        let after_key = seq![':'] + (quoted(v) + (seq![','] + next));
        assert(input =~= quoted(k) + after_key);
        lemma_parse_quoted(k, after_key);
        assert(after_key[0] == ':');
        assert(!is_ws(':'));
        lemma_skip_ws_id(after_key);
        assert(after_key.drop_first() =~= quoted(v) + (seq![','] + next));
        lemma_parse_quoted(v, seq![','] + next);
        let r3 = seq![','] + next;
        assert(r3[0] == ',');
        assert(!is_ws(','));
        lemma_skip_ws_id(r3);
        assert(r3.drop_first() =~= next);
        lemma_parse_strmap_members_enc(m.drop_first(), acc.push((k, v)), rest);
        assert(acc.push((k, v)) + m.drop_first() =~~= acc + m);
    }
}

/// Parsing an encoded string map gives back exactly the original pairs.
proof fn lemma_parse_strmap_enc(
    m: Seq<(Seq<char>, Seq<char>)>,
    rest: Seq<char>,
)
    ensures
        parse_strmap(encode_strmap(m) + rest) == Option::Some(
            (m, rest),
        ),
{
    let input = encode_strmap(m) + rest;
    assert(input[0] == '{');
    assert(!is_ws('{'));
    lemma_skip_ws_id(input);
    if m.len() == 0 {
        assert(input.drop_first() =~= seq!['}'] + rest);
        lemma_skip_ws_id(seq!['}'] + rest);
        assert((seq!['}'] + rest).drop_first() =~= rest);
        assert(Seq::<(Seq<char>, Seq<char>)>::empty() =~= m);
    } else {
        assert(input.drop_first() =~= encode_strmap_items(m) + seq!['}'] + rest);
        let inner = encode_strmap_items(m) + seq!['}'] + rest;
        assert(encode_strmap_items(m)[0] == '"');
        assert(inner[0] == '"');
        assert(!is_ws('"'));
        lemma_skip_ws_id(inner);
        assert(inner[0] != '}');
        lemma_parse_strmap_members_enc(m, Seq::<(Seq<char>, Seq<char>)>::empty(), rest);
        assert(Seq::<(Seq<char>, Seq<char>)>::empty() + m =~= m);
    }
}

/// One member followed by a comma or the closing brace, inside the
/// top-level object.
proof fn lemma_event_member(
    name: Seq<char>,
    venc: Seq<char>,
    nxt: Seq<char>,
    acc: PartialEvent,
    acc2: PartialEvent,
)
    requires
        parse_member_value(name, venc + nxt, acc) == Option::Some((acc2, nxt)),
        nxt.len() > 0,
        nxt[0] == ',' || nxt[0] == '}',
    ensures
        nxt[0] == ',' ==> parse_event_members(quoted(name) + (seq![':'] + (venc + nxt)), acc)
            == parse_event_members(nxt.drop_first(), acc2),
        nxt[0] == '}' ==> parse_event_members(quoted(name) + (seq![':'] + (venc + nxt)), acc)
            == Option::Some((acc2, nxt.drop_first())),
{
    let r = seq![':'] + (venc + nxt);
    lemma_parse_quoted(name, r);
    assert(r[0] == ':' && !is_ws(':'));
    lemma_skip_ws_id(r);
    assert(r.drop_first() =~= venc + nxt);
    assert(!is_ws(',') && !is_ws('}'));
    lemma_skip_ws_id(nxt);
}

proof fn lemma_mv_path(s: Seq<char>, x: Seq<char>, rest: Seq<char>, acc: PartialEvent)
    requires
        acc.path is None,
        parse_string(s) == Option::Some((x, rest)),
    ensures
        parse_member_value("path"@, s, acc) == Option::Some(
            (PartialEvent { path: Option::Some(x), ..acc }, rest),
        ),
{
}

proof fn lemma_mv_method(s: Seq<char>, x: Seq<char>, rest: Seq<char>, acc: PartialEvent)
    requires
        acc.method is None,
        parse_string(s) == Option::Some((x, rest)),
    ensures
        parse_member_value("method"@, s, acc) == Option::Some(
            (PartialEvent { method: Option::Some(x), ..acc }, rest),
        ),
{
    reveal_strlit("method");
    reveal_strlit("path");
    assert("method"@.len() == 6 && "path"@.len() == 4);
}

proof fn lemma_mv_headers(
    s: Seq<char>,
    x: Seq<(Seq<char>, Seq<char>)>,
    rest: Seq<char>,
    acc: PartialEvent,
)
    requires
        acc.headers is None,
        parse_strmap(s) == Option::Some((x, rest)),
    ensures
        parse_member_value("headers"@, s, acc) == Option::Some(
            (PartialEvent { headers: Option::Some(x), ..acc }, rest),
        ),
{
    reveal_strlit("headers");
    reveal_strlit("path");
    reveal_strlit("method");
    assert("headers"@.len() == 7 && "path"@.len() == 4 && "method"@.len() == 6);
}

proof fn lemma_mv_body(s: Seq<char>, x: Seq<char>, rest: Seq<char>, acc: PartialEvent)
    requires
        acc.body is None,
        parse_string(s) == Option::Some((x, rest)),
    ensures
        parse_member_value("body"@, s, acc) == Option::Some(
            (PartialEvent { body: Option::Some(x), ..acc }, rest),
        ),
{
    reveal_strlit("body");
    reveal_strlit("path");
    reveal_strlit("method");
    reveal_strlit("headers");
    assert("body"@.len() == 4 && "path"@.len() == 4 && "method"@.len() == 6 && "headers"@.len()
        == 7);
    assert("body"@[0] == 'b' && "path"@[0] == 'p');
    assert("body"@ != "path"@);
}

proof fn lemma_mv_b64(s: Seq<char>, x: bool, rest: Seq<char>, acc: PartialEvent)
    requires
        acc.is_base64_encoded is None,
        parse_bool(s) == Option::Some((x, rest)),
    ensures
        parse_member_value("is_base64_encoded"@, s, acc) == Option::Some(
            (PartialEvent { is_base64_encoded: Option::Some(x), ..acc }, rest),
        ),
{
    reveal_strlit("is_base64_encoded");
    reveal_strlit("path");
    reveal_strlit("method");
    reveal_strlit("headers");
    reveal_strlit("body");
    assert("is_base64_encoded"@.len() == 17 && "path"@.len() == 4 && "method"@.len() == 6
        && "headers"@.len() == 7 && "body"@.len() == 4);
}

proof fn lemma_mv_query(
    s: Seq<char>,
    x: Seq<(Seq<char>, Seq<char>)>,
    rest: Seq<char>,
    acc: PartialEvent,
)
    requires
        acc.query_string_parameters is None,
        parse_strmap(s) == Option::Some((x, rest)),
    ensures
        parse_member_value("query_string_parameters"@, s, acc) == Option::Some(
            (PartialEvent { query_string_parameters: Option::Some(x), ..acc }, rest),
        ),
{
    reveal_strlit("query_string_parameters");
    reveal_strlit("path");
    reveal_strlit("method");
    reveal_strlit("headers");
    reveal_strlit("body");
    reveal_strlit("is_base64_encoded");
    assert("query_string_parameters"@.len() == 23 && "path"@.len() == 4 && "method"@.len() == 6
        && "headers"@.len() == 7 && "body"@.len() == 4 && "is_base64_encoded"@.len() == 17);
}

proof fn lemma_mv_timestamp(s: Seq<char>, x: Seq<char>, rest: Seq<char>, acc: PartialEvent)
    requires
        acc.timestamp is None,
        parse_string(s) == Option::Some((x, rest)),
    ensures
        parse_member_value("timestamp"@, s, acc) == Option::Some(
            (PartialEvent { timestamp: Option::Some(x), ..acc }, rest),
        ),
{
    reveal_strlit("timestamp");
    reveal_strlit("path");
    reveal_strlit("method");
    reveal_strlit("headers");
    reveal_strlit("body");
    reveal_strlit("is_base64_encoded");
    reveal_strlit("query_string_parameters");
    assert("timestamp"@.len() == 9 && "path"@.len() == 4 && "method"@.len() == 6
        && "headers"@.len() == 7 && "body"@.len() == 4 && "is_base64_encoded"@.len() == 17
        && "query_string_parameters"@.len() == 23);
}

proof fn lemma_mv_source_ip(s: Seq<char>, x: Seq<char>, rest: Seq<char>, acc: PartialEvent)
    requires
        acc.source_ip is None,
        parse_string(s) == Option::Some((x, rest)),
    ensures
        parse_member_value("source_ip"@, s, acc) == Option::Some(
            (PartialEvent { source_ip: Option::Some(x), ..acc }, rest),
        ),
{
    reveal_strlit("source_ip");
    reveal_strlit("path");
    reveal_strlit("method");
    reveal_strlit("headers");
    reveal_strlit("body");
    reveal_strlit("is_base64_encoded");
    reveal_strlit("query_string_parameters");
    reveal_strlit("timestamp");
    assert("source_ip"@.len() == 9 && "path"@.len() == 4 && "method"@.len() == 6
        && "headers"@.len() == 7 && "body"@.len() == 4 && "is_base64_encoded"@.len() == 17
        && "query_string_parameters"@.len() == 23 && "timestamp"@.len() == 9);
    assert("source_ip"@[0] == 's' && "timestamp"@[0] == 't');
    assert("source_ip"@ != "timestamp"@);
}

/// The encoded members of the event object, suffix by suffix.
spec fn rt_m8(e: WebhookMessageV) -> Seq<char> {
    quoted("source_ip"@) + (seq![':'] + (quoted(e.source_ip) + seq!['}']))
}

spec fn rt_m7(e: WebhookMessageV) -> Seq<char> {
    quoted("timestamp"@) + (seq![':'] + (quoted(e.timestamp) + (seq![','] + rt_m8(e))))
}

spec fn rt_m6(e: WebhookMessageV) -> Seq<char> {
    quoted("query_string_parameters"@) + (seq![':'] + (encode_strmap(e.query_string_parameters)
        + (seq![','] + rt_m7(e))))
}

spec fn rt_m5(e: WebhookMessageV) -> Seq<char> {
    quoted("is_base64_encoded"@) + (seq![':'] + (encode_bool(e.is_base64_encoded) + (seq![',']
        + rt_m6(e))))
}

spec fn rt_m4(e: WebhookMessageV) -> Seq<char> {
    quoted("body"@) + (seq![':'] + (quoted(e.body) + (seq![','] + rt_m5(e))))
}

spec fn rt_m3(e: WebhookMessageV) -> Seq<char> {
    quoted("headers"@) + (seq![':'] + (encode_strmap(e.headers) + (seq![','] + rt_m4(e))))
}

spec fn rt_m2(e: WebhookMessageV) -> Seq<char> {
    quoted("method"@) + (seq![':'] + (quoted(e.method) + (seq![','] + rt_m3(e))))
}

spec fn rt_m1(e: WebhookMessageV) -> Seq<char> {
    quoted("path"@) + (seq![':'] + (quoted(e.path) + (seq![','] + rt_m2(e))))
}

/// The partial event after the first four members.
spec fn rt_acc4(e: WebhookMessageV) -> PartialEvent {
    PartialEvent {
        path: Option::Some(e.path),
        method: Option::Some(e.method),
        headers: Option::Some(e.headers),
        body: Option::Some(e.body),
        is_base64_encoded: Option::None,
        query_string_parameters: Option::None,
        timestamp: Option::None,
        source_ip: Option::None,
    }
}

/// The partial event after all eight members.
spec fn rt_acc8(e: WebhookMessageV) -> PartialEvent {
    PartialEvent {
        path: Option::Some(e.path),
        method: Option::Some(e.method),
        headers: Option::Some(e.headers),
        body: Option::Some(e.body),
        is_base64_encoded: Option::Some(e.is_base64_encoded),
        query_string_parameters: Option::Some(e.query_string_parameters),
        timestamp: Option::Some(e.timestamp),
        source_ip: Option::Some(e.source_ip),
    }
}

proof fn lemma_rt_first(e: WebhookMessageV)
    ensures
        parse_event_members(rt_m1(e), empty_partial()) == parse_event_members(
            rt_m5(e),
            rt_acc4(e),
        ),
{
    let acc0 = empty_partial();
    let acc1 = PartialEvent { path: Option::Some(e.path), ..acc0 };
    let acc2 = PartialEvent { method: Option::Some(e.method), ..acc1 };
    let acc3 = PartialEvent { headers: Option::Some(e.headers), ..acc2 };
    let acc4 = PartialEvent { body: Option::Some(e.body), ..acc3 };

    lemma_parse_quoted(e.path, seq![','] + rt_m2(e));
    lemma_mv_path(quoted(e.path) + (seq![','] + rt_m2(e)), e.path, seq![','] + rt_m2(e), acc0);
    lemma_event_member("path"@, quoted(e.path), seq![','] + rt_m2(e), acc0, acc1);
    assert((seq![','] + rt_m2(e)).drop_first() =~= rt_m2(e));

    lemma_parse_quoted(e.method, seq![','] + rt_m3(e));
    lemma_mv_method(
        quoted(e.method) + (seq![','] + rt_m3(e)),
        e.method,
        seq![','] + rt_m3(e),
        acc1,
    );
    lemma_event_member("method"@, quoted(e.method), seq![','] + rt_m3(e), acc1, acc2);
    assert((seq![','] + rt_m3(e)).drop_first() =~= rt_m3(e));

    lemma_parse_strmap_enc(e.headers, seq![','] + rt_m4(e));
    lemma_mv_headers(
        encode_strmap(e.headers) + (seq![','] + rt_m4(e)),
        e.headers,
        seq![','] + rt_m4(e),
        acc2,
    );
    lemma_event_member("headers"@, encode_strmap(e.headers), seq![','] + rt_m4(e), acc2, acc3);
    assert((seq![','] + rt_m4(e)).drop_first() =~= rt_m4(e));

    lemma_parse_quoted(e.body, seq![','] + rt_m5(e));
    lemma_mv_body(quoted(e.body) + (seq![','] + rt_m5(e)), e.body, seq![','] + rt_m5(e), acc3);
    lemma_event_member("body"@, quoted(e.body), seq![','] + rt_m5(e), acc3, acc4);
    assert((seq![','] + rt_m5(e)).drop_first() =~= rt_m5(e));

    assert(acc4 == rt_acc4(e));
}

proof fn lemma_rt_second(e: WebhookMessageV)
    ensures
        parse_event_members(rt_m5(e), rt_acc4(e)) == Option::Some(
            (rt_acc8(e), Seq::<char>::empty()),
        ),
{
    let acc4 = rt_acc4(e);
    let acc5 = PartialEvent { is_base64_encoded: Option::Some(e.is_base64_encoded), ..acc4 };
    let acc6 = PartialEvent {
        query_string_parameters: Option::Some(e.query_string_parameters),
        ..acc5
    };
    let acc7 = PartialEvent { timestamp: Option::Some(e.timestamp), ..acc6 };
    let acc8 = PartialEvent { source_ip: Option::Some(e.source_ip), ..acc7 };

    lemma_parse_bool_enc(e.is_base64_encoded, seq![','] + rt_m6(e));
    lemma_mv_b64(
        encode_bool(e.is_base64_encoded) + (seq![','] + rt_m6(e)),
        e.is_base64_encoded,
        seq![','] + rt_m6(e),
        acc4,
    );
    lemma_event_member(
        "is_base64_encoded"@,
        encode_bool(e.is_base64_encoded),
        seq![','] + rt_m6(e),
        acc4,
        acc5,
    );
    assert((seq![','] + rt_m6(e)).drop_first() =~= rt_m6(e));

    lemma_parse_strmap_enc(e.query_string_parameters, seq![','] + rt_m7(e));
    lemma_mv_query(
        encode_strmap(e.query_string_parameters) + (seq![','] + rt_m7(e)),
        e.query_string_parameters,
        seq![','] + rt_m7(e),
        acc5,
    );
    lemma_event_member(
        "query_string_parameters"@,
        encode_strmap(e.query_string_parameters),
        seq![','] + rt_m7(e),
        acc5,
        acc6,
    );
    assert((seq![','] + rt_m7(e)).drop_first() =~= rt_m7(e));

    lemma_parse_quoted(e.timestamp, seq![','] + rt_m8(e));
    lemma_mv_timestamp(
        quoted(e.timestamp) + (seq![','] + rt_m8(e)),
        e.timestamp,
        seq![','] + rt_m8(e),
        acc6,
    );
    lemma_event_member("timestamp"@, quoted(e.timestamp), seq![','] + rt_m8(e), acc6, acc7);
    assert((seq![','] + rt_m8(e)).drop_first() =~= rt_m8(e));

    lemma_parse_quoted(e.source_ip, seq!['}']);
    lemma_mv_source_ip(quoted(e.source_ip) + seq!['}'], e.source_ip, seq!['}'], acc7);
    lemma_event_member("source_ip"@, quoted(e.source_ip), seq!['}'], acc7, acc8);
    assert((seq!['}']).drop_first() =~= Seq::<char>::empty());
    assert(acc8 == rt_acc8(e));
}

spec fn pre2(e: WebhookMessageV) -> Seq<char> {
    seq!['{'] + quoted("path"@) + seq![':'] + quoted(e.path) + seq![',']
}

spec fn pre3(e: WebhookMessageV) -> Seq<char> {
    pre2(e) + quoted("method"@) + seq![':'] + quoted(e.method) + seq![',']
}

spec fn pre4(e: WebhookMessageV) -> Seq<char> {
    pre3(e) + quoted("headers"@) + seq![':'] + encode_strmap(e.headers) + seq![',']
}

spec fn pre5(e: WebhookMessageV) -> Seq<char> {
    pre4(e) + quoted("body"@) + seq![':'] + quoted(e.body) + seq![',']
}

spec fn pre6(e: WebhookMessageV) -> Seq<char> {
    pre5(e) + quoted("is_base64_encoded"@) + seq![':'] + encode_bool(e.is_base64_encoded)
        + seq![',']
}

spec fn pre7(e: WebhookMessageV) -> Seq<char> {
    pre6(e) + quoted("query_string_parameters"@) + seq![':'] + encode_strmap(
        e.query_string_parameters,
    ) + seq![',']
}

spec fn pre8(e: WebhookMessageV) -> Seq<char> {
    pre7(e) + quoted("timestamp"@) + seq![':'] + quoted(e.timestamp) + seq![',']
}

#[verifier::rlimit(100)]
#[verifier::spinoff_prover]
proof fn lemma_rt_shape_high(e: WebhookMessageV)
    ensures
        pre5(e) + rt_m5(e) == pre8(e) + quoted("source_ip"@) + seq![':'] + quoted(e.source_ip)
            + seq!['}'],
{
    assert(pre8(e) + rt_m8(e) =~= pre8(e) + quoted("source_ip"@) + seq![':'] + quoted(
        e.source_ip,
    ) + seq!['}']);
    assert(pre7(e) + rt_m7(e) =~= pre8(e) + rt_m8(e));
    assert(pre6(e) + rt_m6(e) =~= pre7(e) + rt_m7(e));
    assert(pre5(e) + rt_m5(e) =~= pre6(e) + rt_m6(e));
}

#[verifier::rlimit(100)]
#[verifier::spinoff_prover]
proof fn lemma_rt_shape_low(e: WebhookMessageV)
    ensures
        seq!['{'] + rt_m1(e) == pre5(e) + rt_m5(e),
{
    assert(pre4(e) + rt_m4(e) =~= pre5(e) + rt_m5(e));
    assert(pre3(e) + rt_m3(e) =~= pre4(e) + rt_m4(e));
    assert(pre2(e) + rt_m2(e) =~= pre3(e) + rt_m3(e));
    assert(seq!['{'] + rt_m1(e) =~= pre2(e) + rt_m2(e));
}

#[verifier::rlimit(100)]
#[verifier::spinoff_prover]
proof fn lemma_rt_shape(e: WebhookMessageV)
    ensures
        encode_event_spec(e) == seq!['{'] + rt_m1(e),
{
    lemma_rt_shape_low(e);
    lemma_rt_shape_high(e);
    assert(encode_event_spec(e) =~= pre8(e) + quoted("source_ip"@) + seq![':'] + quoted(
        e.source_ip,
    ) + seq!['}']);
}

/// Round trip: decoding the canonical encoding of an event gives back
/// exactly that event, every field included, empty mappings too.
#[verifier::rlimit(100)]
pub proof fn lemma_encode_decode_round_trip(e: WebhookMessageV)
    ensures
        decode_event_spec(encode_event_spec(e)) == Option::Some(e),
{
    let input = encode_event_spec(e);
    lemma_rt_shape(e);
    lemma_rt_first(e);
    lemma_rt_second(e);
    assert(parse_event_members(rt_m1(e), empty_partial()) == Option::Some(
        (rt_acc8(e), Seq::<char>::empty()),
    ));
    assert(input[0] == '{' && !is_ws('{'));
    lemma_skip_ws_id(input);
    assert(input.drop_first() =~= rt_m1(e));
    assert(rt_m1(e)[0] == '"' && !is_ws('"'));
    lemma_skip_ws_id(rt_m1(e));
    assert(rt_m1(e)[0] != '}');
    assert(skip_ws(Seq::<char>::empty()).len() == 0);
    assert(build_event(rt_acc8(e)) == Option::Some(e));
}

} // verus!
