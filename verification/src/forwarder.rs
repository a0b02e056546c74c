//! Reconstruction of the outbound HTTP request from a queued event and a
//! resolved target: URL and query composition, body decoding with the base64
//! fallback, hop-by-hop header removal, and relay header injection. The
//! network send itself is left to the caller of the library.

use vstd::prelude::*;
use base64::Engine;
use crate::event::{WebhookMessage, WebhookMessageV};
use crate::router::{RouteTarget, RouteTargetV};
use crate::text::{
    chars_eq_str, chars_string, join_chars, join_seq, lower_chars, lower_seq, str_chars, subvec,
    upper_chars, upper_seq,
};

verus! {

/// A base URL with every trailing slash removed.
pub open spec fn trim_trailing_slashes(s: Seq<char>) -> Seq<char>
    decreases s.len(),
{
    if s.len() > 0 && s.last() == '/' {
        trim_trailing_slashes(s.drop_last())
    } else {
        s
    }
}

proof fn lemma_trim_take(s: Seq<char>, end: int)
    requires
        0 <= end <= s.len(),
        forall|j: int| end <= j < s.len() ==> s[j] == '/',
        end == 0 || s[end - 1] != '/',
    ensures
        trim_trailing_slashes(s) =~= s.take(end),
    decreases s.len(),
{
    if s.len() == end {
    } else {
        assert(s.last() == '/');
        lemma_trim_take(s.drop_last(), end);
    }
}

/// One `k=v` query item.
pub open spec fn query_item(p: (Seq<char>, Seq<char>)) -> Seq<char> {
    p.0 + seq!['='] + p.1
}

/// The `k=v` items of a query mapping, in its own order.
pub open spec fn query_items(q: Seq<(Seq<char>, Seq<char>)>) -> Seq<Seq<char>> {
    q.map_values(|p: (Seq<char>, Seq<char>)| query_item(p))
}

/// The `?k=v&k=v` query suffix, in the mapping's own order; empty when the
/// mapping is empty. Keys and values are joined verbatim, without escaping.
pub open spec fn query_suffix(q: Seq<(Seq<char>, Seq<char>)>) -> Seq<char> {
    if q.len() == 0 {
        Seq::<char>::empty()
    } else {
        seq!['?'] + join_seq(query_items(q), '&')
    }
}

/// The composed outbound URL: trimmed base, remainder, query suffix.
pub open spec fn outbound_url(t: RouteTargetV, rest: Seq<char>, q: Seq<(Seq<char>, Seq<char>)>)
    -> Seq<char> {
    trim_trailing_slashes(t.url) + rest + query_suffix(q)
}

/// Whether a header name is hop-by-hop or connection management and must
/// never be copied to the outbound request (matched case-insensitively).
pub open spec fn hop_by_hop(name: Seq<char>) -> bool {
    let l = lower_seq(name);
    ||| l == "host"@
    ||| l == "connection"@
    ||| l == "keep-alive"@
    ||| l == "proxy-authenticate"@
    ||| l == "proxy-authorization"@
    ||| l == "te"@
    ||| l == "trailers"@
    ||| l == "transfer-encoding"@
    ||| l == "upgrade"@
    ||| l == "content-length"@
}

/// A character allowed in a header name on the wire.
pub open spec fn header_name_char(c: char) -> bool {
    ||| ('a' <= c && c <= 'z')
    ||| ('A' <= c && c <= 'Z')
    ||| ('0' <= c && c <= '9')
    ||| c == '!' || c == '#' || c == '$' || c == '%' || c == '&' || c == '\'' || c == '*'
    ||| c == '+' || c == '-' || c == '.' || c == '^' || c == '_' || c == '`' || c == '|'
    ||| c == '~'
}

/// A header name valid for wire transmission: non-empty, token characters.
pub open spec fn valid_header_name(s: Seq<char>) -> bool {
    s.len() > 0 && forall|i: int| 0 <= i < s.len() ==> header_name_char(s[i])
}

/// A header value valid for wire transmission: tab or printable ASCII.
pub open spec fn valid_header_value(s: Seq<char>) -> bool {
    forall|i: int| 0 <= i < s.len() ==> (s[i] == '\t' || (' ' <= s[i] && s[i] <= '~'))
}

/// Whether an input header survives filtering: it must be transmittable,
/// not hop-by-hop, and not collide with the two injected relay headers.
pub open spec fn keep_header(k: Seq<char>, v: Seq<char>) -> bool {
    &&& valid_header_name(k)
    &&& valid_header_value(v)
    &&& !hop_by_hop(k)
    &&& lower_seq(k) != "x-forwarded-for"@
    &&& lower_seq(k) != "x-webhook-relay"@
}

/// The input headers that survive filtering, in their original order.
pub open spec fn filtered_headers(hs: Seq<(Seq<char>, Seq<char>)>) -> Seq<(Seq<char>, Seq<char>)>
    decreases hs.len(),
{
    if hs.len() == 0 {
        Seq::<(Seq<char>, Seq<char>)>::empty()
    } else {
        let rest = filtered_headers(hs.drop_first());
        if keep_header(hs[0].0, hs[0].1) {
            seq![hs[0]] + rest
        } else {
            rest
        }
    }
}

proof fn lemma_filtered_push(hs: Seq<(Seq<char>, Seq<char>)>, x: (Seq<char>, Seq<char>))
    ensures
        filtered_headers(hs.push(x)) =~= filtered_headers(hs) + (if keep_header(x.0, x.1) {
            seq![x]
        } else {
            Seq::<(Seq<char>, Seq<char>)>::empty()
        }),
    decreases hs.len(),
{
    if hs.len() == 0 {
        assert(hs.push(x).drop_first() =~= hs);
    } else {
        lemma_filtered_push(hs.drop_first(), x);
        assert(hs.push(x).drop_first() =~= hs.drop_first().push(x));
        assert(hs.push(x)[0] == hs[0]);
    }
}

proof fn lemma_filtered_keep(hs: Seq<(Seq<char>, Seq<char>)>)
    ensures
        forall|i: int|
            0 <= i < filtered_headers(hs).len() ==> #[trigger] keep_header(
                filtered_headers(hs)[i].0,
                filtered_headers(hs)[i].1,
            ),
    decreases hs.len(),
{
    if hs.len() > 0 {
        lemma_filtered_keep(hs.drop_first());
        let f = filtered_headers(hs);
        let rest = filtered_headers(hs.drop_first());
        assert forall|i: int| 0 <= i < f.len() implies #[trigger] keep_header(f[i].0, f[i].1) by {
            if keep_header(hs[0].0, hs[0].1) {
                if i > 0 {
                    assert(f[i] == rest[i - 1]);
                }
            } else {
                assert(f[i] == rest[i]);
            }
        }
    }
}

/// The injected `X-Forwarded-For` entry, when the source IP warrants one.
pub open spec fn xff_entry(e: WebhookMessageV) -> Seq<(Seq<char>, Seq<char>)> {
    if e.source_ip.len() > 0 && valid_header_value(e.source_ip) {
        seq![("X-Forwarded-For"@, e.source_ip)]
    } else {
        Seq::<(Seq<char>, Seq<char>)>::empty()
    }
}

/// The full outbound header list: surviving input headers, then the
/// forwarded-for entry when due, then the fixed relay marker.
pub open spec fn outbound_headers(e: WebhookMessageV) -> Seq<(Seq<char>, Seq<char>)> {
    filtered_headers(e.headers) + xff_entry(e) + seq![("X-Webhook-Relay"@, "webhook-relay/1.0"@)]
}

/// What base64's standard-alphabet `Engine::decode` returns; a function of
/// the input characters alone.
pub uninterp spec fn base64_decoded(s: Seq<char>) -> Option<Seq<u8>>;

/// Relies on base64's `Engine::decode` with the `STANDARD` engine: decodes
/// the input or reports an error, depending on the input alone.
#[verifier::external_body]
fn b64_decode(s: &str) -> (r: Option<Vec<u8>>)
    ensures
        match r {
            Some(v) => base64_decoded(s@) == Some(v@),
            None => base64_decoded(s@) is None,
        },
{
    match base64::engine::general_purpose::STANDARD.decode(s.as_bytes()) {
        Ok(v) => Some(v),
        Err(_) => None,
    }
}

/// The outbound body bytes: the base64 decoding when the flag is set and the
/// body decodes, otherwise the raw body bytes.
pub open spec fn outbound_body(e: WebhookMessageV) -> Seq<u8> {
    if e.is_base64_encoded {
        match base64_decoded(e.body) {
            Option::Some(b) => b,
            Option::None => vstd::utf8::encode_utf8(e.body),
        }
    } else {
        vstd::utf8::encode_utf8(e.body)
    }
}

/// The dispatch method: the upper-cased method when it is one of the five
/// supported verbs, otherwise `POST` as the permissive fallback.
pub open spec fn canonical_method(m: Seq<char>) -> Seq<char> {
    let u = upper_seq(m);
    if u == "GET"@ || u == "POST"@ || u == "PUT"@ || u == "PATCH"@ || u == "DELETE"@ {
        u
    } else {
        "POST"@
    }
}

/// Whether the dispatch carries the body: everything but GET and DELETE.
pub open spec fn method_sends_body(m: Seq<char>) -> bool {
    canonical_method(m) != "GET"@ && canonical_method(m) != "DELETE"@
}

/// A fully composed outbound request, ready for an HTTP client to send.
#[derive(Debug)]
pub struct OutboundRequest {
    pub target_name: String,
    pub url: String,
    pub method: String,
    pub headers: Vec<(String, String)>,
    pub body: Vec<u8>,
    pub has_body: bool,
    pub timeout_seconds: u64,
}

/// Mathematical model of an `OutboundRequest`.
pub ghost struct OutboundRequestV {
    pub target_name: Seq<char>,
    pub url: Seq<char>,
    pub method: Seq<char>,
    pub headers: Seq<(Seq<char>, Seq<char>)>,
    pub body: Seq<u8>,
    pub has_body: bool,
    pub timeout_seconds: u64,
}

impl View for OutboundRequest {
    type V = OutboundRequestV;

    open spec fn view(&self) -> OutboundRequestV {
        OutboundRequestV {
            target_name: self.target_name@,
            url: self.url@,
            method: self.method@,
            headers: self.headers.deep_view(),
            body: self.body@,
            has_body: self.has_body,
            timeout_seconds: self.timeout_seconds,
        }
    }
}

/// The request that forwarding composes for an event, target and remainder.
pub open spec fn request_spec(e: WebhookMessageV, t: RouteTargetV, rest: Seq<char>)
    -> OutboundRequestV {
    OutboundRequestV {
        target_name: t.name,
        url: outbound_url(t, rest, e.query_string_parameters),
        method: canonical_method(e.method),
        headers: outbound_headers(e),
        body: outbound_body(e),
        has_body: method_sends_body(e.method),
        timeout_seconds: t.timeout_seconds,
    }
}

/// Exec check that every character of a name is a header-name character and
/// the name is non-empty.
fn check_header_name(v: &[char]) -> (b: bool)
    ensures
        b == valid_header_name(v@),
{
    if v.len() == 0 {
        return false;
    }
    let mut i: usize = 0;
    while i < v.len()
        invariant
            i <= v@.len(),
            forall|j: int| 0 <= j < i ==> header_name_char(v@[j]),
        decreases v@.len() - i,
    {
        let c = v[i];
        let ok = ('a' <= c && c <= 'z') || ('A' <= c && c <= 'Z') || ('0' <= c && c <= '9')
            || c == '!' || c == '#' || c == '$' || c == '%' || c == '&' || c == '\'' || c == '*'
            || c == '+' || c == '-' || c == '.' || c == '^' || c == '_' || c == '`' || c == '|'
            || c == '~';
        if !ok {
            return false;
        }
        i = i + 1;
    }
    true
}

/// Exec check that every character of a value is transmittable.
fn check_header_value(v: &[char]) -> (b: bool)
    ensures
        b == valid_header_value(v@),
{
    let mut i: usize = 0;
    while i < v.len()
        invariant
            i <= v@.len(),
            forall|j: int| 0 <= j < i ==> (v@[j] == '\t' || (' ' <= v@[j] && v@[j] <= '~')),
        decreases v@.len() - i,
    {
        let c = v[i];
        if !(c == '\t' || (' ' <= c && c <= '~')) {
            return false;
        }
        i = i + 1;
    }
    true
}

/// Exec check of the hop-by-hop list against a lower-cased name.
fn check_hop_by_hop(name: &[char]) -> (b: bool)
    ensures
        b == hop_by_hop(name@),
{
    let low = lower_chars(name);
    let l = low.as_slice();
    chars_eq_str(l, "host") || chars_eq_str(l, "connection") || chars_eq_str(l, "keep-alive")
        || chars_eq_str(l, "proxy-authenticate") || chars_eq_str(l, "proxy-authorization")
        || chars_eq_str(l, "te") || chars_eq_str(l, "trailers") || chars_eq_str(
        l,
        "transfer-encoding",
    ) || chars_eq_str(l, "upgrade") || chars_eq_str(l, "content-length")
}

/// Compose the outbound request for one event against its resolved target
/// and remainder path. Pure reconstruction; nothing is sent here.
pub fn build_request(message: &WebhookMessage, target: &RouteTarget, rest_path: &str) -> (r:
    OutboundRequest)
    ensures
        r@ == request_spec(message@, target@, rest_path@),
{
    // URL: base with trailing slashes removed, then remainder, then query.
    let base = str_chars(target.url.as_str());
    let mut end: usize = base.len();
    while end > 0 && base[end - 1] == '/'
        invariant
            end <= base@.len(),
            forall|j: int| end <= j < base@.len() ==> base@[j] == '/',
        decreases end,
    {
        end = end - 1;
    }
    let mut url: Vec<char> = subvec(base.as_slice(), 0, end);
    proof {
        lemma_trim_take(base@, end as int);
        assert(url@ =~= trim_trailing_slashes(target@.url));
    }
    let mut rest_chars = str_chars(rest_path);
    url.append(&mut rest_chars);
    let ghost q = message@.query_string_parameters;
    if message.query_string_parameters.len() > 0 {
        url.push('?');
        let mut pairs: Vec<Vec<char>> = Vec::new();
        let mut i: usize = 0;
        while i < message.query_string_parameters.len()
            invariant
                i <= message.query_string_parameters@.len(),
                q == message@.query_string_parameters,
                q.len() == message.query_string_parameters@.len(),
                pairs@.len() == i,
                forall|j: int| 0 <= j < i ==> (#[trigger] pairs@[j])@ == query_item(q[j]),
            decreases message.query_string_parameters@.len() - i,
        {
            let mut pv = str_chars(message.query_string_parameters[i].0.as_str());
            pv.push('=');
            let mut vv = str_chars(message.query_string_parameters[i].1.as_str());
            pv.append(&mut vv);
            proof {
                assert(pv@ =~= query_item(q[i as int]));
            }
            pairs.push(pv);
            i = i + 1;
        }
        proof {
            assert forall|j: int| 0 <= j < q.len() implies pairs.deep_view()[j] == query_items(
                q,
            )[j] by {
                assert((#[trigger] pairs@[j])@ == query_item(q[j]));
                assert(pairs@[j].deep_view() =~= pairs@[j]@);
            }
            assert(pairs.deep_view() =~= query_items(q));
        }
        let mut joined = join_chars(&pairs, 0, '&');
        proof {
            assert(pairs.deep_view().skip(0) =~~= pairs.deep_view());
        }
        url.append(&mut joined);
        proof {
            assert(url@ =~= outbound_url(target@, rest_path@, q));
        }
    } else {
        proof {
            assert(url@ =~= outbound_url(target@, rest_path@, q));
        }
    }
    let url_string = chars_string(url.as_slice());

    // Headers: drop hop-by-hop, untransmittable and reserved names.
    let ghost hv = message@.headers;
    let mut headers: Vec<(String, String)> = Vec::new();
    let mut i: usize = 0;
    while i < message.headers.len()
        invariant
            i <= message.headers@.len(),
            hv == message@.headers,
            hv.len() == message.headers@.len(),
            headers@.len() == filtered_headers(hv.take(i as int)).len(),
            forall|j: int|
                0 <= j < headers@.len() ==> (#[trigger] headers@[j]).0@ == filtered_headers(
                    hv.take(i as int),
                )[j].0 && headers@[j].1@ == filtered_headers(hv.take(i as int))[j].1,
        decreases message.headers@.len() - i,
    {
        proof {
            assert(hv[i as int] == (message.headers@[i as int].0@, message.headers@[i as int].1@));
        }
        let name = str_chars(message.headers[i].0.as_str());
        let value = str_chars(message.headers[i].1.as_str());
        let keep = check_header_name(name.as_slice()) && check_header_value(value.as_slice())
            && !check_hop_by_hop(name.as_slice()) && !chars_eq_str(
            lower_chars(name.as_slice()).as_slice(),
            "x-forwarded-for",
        ) && !chars_eq_str(lower_chars(name.as_slice()).as_slice(), "x-webhook-relay");
        proof {
            assert(keep == keep_header(hv[i as int].0, hv[i as int].1));
            lemma_filtered_push(hv.take(i as int), hv[i as int]);
            assert(hv.take(i as int).push(hv[i as int]) =~= hv.take(i + 1 as int));
        }
        if keep {
            let k = message.headers[i].0.clone();
            let v = message.headers[i].1.clone();
            proof {
                assert(k@ == hv[i as int].0 && v@ == hv[i as int].1);
            }
            headers.push((k, v));
        }
        i = i + 1;
    }
    proof {
        assert(hv.take(hv.len() as int) =~= hv);
    }
    let ghost fh = filtered_headers(hv);
    let source_ip_chars = str_chars(message.source_ip.as_str());
    if source_ip_chars.len() != 0 && check_header_value(source_ip_chars.as_slice()) {
        headers.push((String::from_str("X-Forwarded-For"), message.source_ip.clone()));
    }
    headers.push((String::from_str("X-Webhook-Relay"), String::from_str("webhook-relay/1.0")));
    proof {
        let out = outbound_headers(message@);
        assert(message@.source_ip == message.source_ip@);
        assert(headers@.len() == out.len());
        assert forall|j: int| 0 <= j < headers@.len() implies headers.deep_view()[j] == out[j] by {
            assert(headers.deep_view()[j] == (headers@[j].0@, headers@[j].1@));
            if j < fh.len() {
                assert(out[j] == fh[j]);
            }
        }
        assert(headers.deep_view() =~= out);
    }

    // Body: base64 decoding with the raw-bytes fallback.
    let body: Vec<u8> = if message.is_base64_encoded {
        match b64_decode(message.body.as_str()) {
            Some(decoded) => decoded,
            None => message.body.as_str().as_bytes_vec(),
        }
    } else {
        message.body.as_str().as_bytes_vec()
    };
    proof {
        assert(body@ == outbound_body(message@));
    }

    // Method: upper-cased known verb, or the permissive POST fallback.
    let upper = upper_chars(str_chars(message.method.as_str()).as_slice());
    let u = upper.as_slice();
    let known = chars_eq_str(u, "GET") || chars_eq_str(u, "POST") || chars_eq_str(u, "PUT")
        || chars_eq_str(u, "PATCH") || chars_eq_str(u, "DELETE");
    let no_body = chars_eq_str(u, "GET") || chars_eq_str(u, "DELETE");
    let method_string = if known {
        chars_string(u)
    } else {
        String::from_str("POST")
    };
    proof {
        reveal_strlit("GET");
        reveal_strlit("POST");
        reveal_strlit("PUT");
        reveal_strlit("PATCH");
        reveal_strlit("DELETE");
        assert("POST"@.len() == 4 && "GET"@.len() == 3 && "DELETE"@.len() == 6);
        assert(method_string@ == canonical_method(message@.method));
        assert(!no_body == method_sends_body(message@.method));
    }

    OutboundRequest {
        target_name: target.name.clone(),
        url: url_string,
        method: method_string,
        headers,
        body,
        has_body: !no_body,
        timeout_seconds: target.timeout_seconds,
    }
}

/// No outbound header is hop-by-hop, whatever the casing of the input
/// headers, and none reuses the two injected relay names.
pub proof fn lemma_no_hop_by_hop_forwarded(e: WebhookMessageV)
    ensures
        forall|i: int|
            0 <= i < outbound_headers(e).len() ==> !hop_by_hop(
                #[trigger] outbound_headers(e)[i].0,
            ),
{
    lemma_filtered_keep(e.headers);
    let hs = outbound_headers(e);
    assert forall|i: int| 0 <= i < hs.len() implies !hop_by_hop(#[trigger] hs[i].0) by {
        let f = filtered_headers(e.headers);
        if i < f.len() {
            assert(hs[i] == f[i]);
            assert(keep_header(f[i].0, f[i].1));
        } else {
            reveal_strlit("X-Forwarded-For");
            reveal_strlit("X-Webhook-Relay");
            assert(hs[i].0.len() == 15);
            reveal_strlit("host");
            reveal_strlit("connection");
            reveal_strlit("keep-alive");
            reveal_strlit("proxy-authenticate");
            reveal_strlit("proxy-authorization");
            reveal_strlit("te");
            reveal_strlit("trailers");
            reveal_strlit("transfer-encoding");
            reveal_strlit("upgrade");
            reveal_strlit("content-length");
            assert(lower_seq(hs[i].0).len() == 15);
        }
    }
}

/// The relay marker is always the last outbound header, and the
/// forwarded-for header is present exactly when the source IP is non-empty
/// and transmittable.
pub proof fn lemma_relay_headers_set(e: WebhookMessageV)
    ensures
        outbound_headers(e).len() >= 1,
        outbound_headers(e).last() == ("X-Webhook-Relay"@, "webhook-relay/1.0"@),
        (e.source_ip.len() > 0 && valid_header_value(e.source_ip)) ==> outbound_headers(e)[
            outbound_headers(e).len() - 2
        ] == ("X-Forwarded-For"@, e.source_ip),
{
}

} // verus!
