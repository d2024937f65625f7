//! The decisions and documents of the HTTP surface: bearer-token checks,
//! the hub's form requests, SPARQL POST bodies, fragment parameters and
//! controls, discovery links, the SSE feed's lines, and MCP tool results.
use vstd::prelude::*;

use crate::fragments::Cursor;
use crate::hub::{resolve_spec, resolve_topic};
use crate::json::{str_eq, Json, JsonValue};
use crate::text::{chars_of, is_prefix, owned, parse_u64, parse_unsigned, push_all, split_all, split_by, split_once, split_once_spec, string_of_range, strip_prefix, trim, trimmed};
use vstd::utf8::{decode_utf8, encode_utf8, valid_utf8};

verus! {

// ---------------------------------------------------------------------------
// bearer tokens
// ---------------------------------------------------------------------------

/// `subtle::ConstantTimeEq::ct_eq` on byte slices, as a `bool`: equality,
/// in time independent of the contents for equal lengths.
#[verifier::external_body]
fn ct_eq(a: &[u8], b: &[u8]) -> (r: bool)
    ensures
        r == (a@ == b@),
{
    bool::from(subtle::ConstantTimeEq::ct_eq(a, b))
}

/// Whether a request is allowed: an ungated endpoint allows every request;
/// a gated one needs `Authorization: Bearer <token>` with exactly the token.
pub open spec fn bearer_ok_spec(expected: Option<Seq<char>>, authorization: Option<Seq<char>>) -> bool {
    match expected {
        None => true,
        Some(e) => match authorization {
            Some(h) => is_prefix("Bearer "@, h) && h.skip(7) == e,
            None => false,
        },
    }
}

pub open spec fn opt_view(o: Option<&str>) -> Option<Seq<char>> {
    match o {
        Some(s) => Some(s@),
        None => None,
    }
}

/// `authorization` is the Authorization header's text, when present.
pub fn bearer_ok(expected: Option<&str>, authorization: Option<&str>) -> (r: bool)
    ensures
        r == bearer_ok_spec(opt_view(expected), opt_view(authorization)),
{
    let e = match expected {
        Some(e) => e,
        None => {
            return true;
        },
    };
    let h = match authorization {
        Some(h) => h,
        None => {
            return false;
        },
    };
    proof {
        reveal_strlit("Bearer ");
    }
    match strip_prefix(h, "Bearer ") {
        Some(p) => {
            let r = ct_eq(p.as_str().as_bytes(), e.as_bytes());
            proof {
                vstd::utf8::encode_utf8_decode_utf8(p@);
                vstd::utf8::encode_utf8_decode_utf8(e@);
                assert(p@ =~= h@.skip(7));
            }
            r
        },
        None => false,
    }
}

/// One Server-Sent Events line.
pub fn sse_line(payload: &str) -> (r: String)
    ensures
        r@ == "data: "@ + payload@ + "\n\n"@,
{
    let mut r = owned("data: ");
    push_all(&mut r, payload);
    push_all(&mut r, "\n\n");
    r
}

// ---------------------------------------------------------------------------
// form bodies
// ---------------------------------------------------------------------------

/// The value of a hex digit byte.
pub open spec fn hex_byte_value(b: u8) -> Option<nat> {
    if 48 <= b <= 57 {
        Some((b - 48) as nat)
    } else if 65 <= b <= 70 {
        Some((b - 55) as nat)
    } else if 97 <= b <= 102 {
        Some((b - 87) as nat)
    } else {
        None
    }
}

/// Percent-decoding of bytes: "%XY" with two hex digits becomes that
/// byte; a '%' not followed by two hex digits stays as it is.
pub open spec fn percent_decode(bs: Seq<u8>) -> Seq<u8>
    decreases bs.len(),
{
    if bs.len() == 0 {
        Seq::empty()
    } else if bs[0] != 37 {
        seq![bs[0]] + percent_decode(bs.drop_first())
    } else if bs.len() < 3 {
        bs
    } else {
        match (hex_byte_value(bs[1]), hex_byte_value(bs[2])) {
            (Some(a), Some(b)) => seq![(a * 16 + b) as u8] + percent_decode(bs.subrange(3, bs.len() as int)),
            (Some(_), None) => seq![37u8, bs[1]] + percent_decode(bs.subrange(2, bs.len() as int)),
            _ => seq![37u8] + percent_decode(bs.drop_first()),
        }
    }
}

/// `urlencoding::decode`: the percent-decoded UTF-8 bytes of the text, as
/// text when they are valid UTF-8.
pub open spec fn url_decoded(s: Seq<char>) -> Option<Seq<char>> {
    let b = percent_decode(encode_utf8(s));
    if valid_utf8(b) {
        Some(decode_utf8(b))
    } else {
        None
    }
}

/// `urlencoding::decode(s).ok()`: '%XX' escapes decoded, '+' kept;
/// `None` when the decoded bytes are not UTF-8.
#[verifier::external_body]
fn url_decode(s: &str) -> (r: Option<String>)
    ensures
        match r {
            Some(d) => url_decoded(s@) == Some(d@),
            None => url_decoded(s@) is None,
        },
{
    urlencoding::decode(s).ok().map(|c| c.into_owned())
}

/// `String::from_utf8_lossy`: invalid sequences become U+FFFD.
pub uninterp spec fn utf8_lossy(bytes: Seq<u8>) -> Seq<char>;

/// `String::from_utf8_lossy(bytes)`; valid UTF-8 decodes exactly.
#[verifier::external_body]
fn lossy_text(bytes: &[u8]) -> (r: String)
    ensures
        r@ == utf8_lossy(bytes@),
        valid_utf8(bytes@) ==> r@ == decode_utf8(bytes@),
{
    String::from_utf8_lossy(bytes).into_owned()
}

/// '+' read as a space.
pub open spec fn plus_to_space(s: Seq<char>) -> Seq<char> {
    s.map_values(|c: char| if c == '+' {
        ' '
    } else {
        c
    })
}

/// Decoding one form-encoded component.
pub open spec fn form_decode_spec(s: Seq<char>) -> Option<Seq<char>> {
    url_decoded(plus_to_space(s))
}

/// Percent-decodes a text (`None` when the result is not UTF-8).
pub fn url_decode_text(s: &str) -> (r: Option<String>)
    ensures
        match r {
            Some(d) => url_decoded(s@) == Some(d@),
            None => url_decoded(s@) is None,
        },
{
    url_decode(s)
}

pub fn form_decode(s: &str) -> (r: Option<String>)
    ensures
        match r {
            Some(d) => form_decode_spec(s@) == Some(d@),
            None => form_decode_spec(s@) is None,
        },
{
    let v = chars_of(s);
    let mut t = String::new();
    let mut i: usize = 0;
    while i < v.len()
        invariant
            i <= v@.len(),
            v@ == s@,
            t@ == plus_to_space(s@).take(i as int),
        decreases v@.len() - i,
    {
        if v[i] == '+' {
            t.push(' ');
        } else {
            t.push(v[i]);
        }
        assert(t@ =~= plus_to_space(s@).take(i + 1));
        i = i + 1;
    }
    assert(plus_to_space(s@).take(i as int) =~= plus_to_space(s@));
    url_decode(t.as_str())
}

/// The value of the first pair whose decoded name is "query", scanning
/// the '&'-separated pairs from `i`; a pair without '=', or whose name
/// does not decode, is passed over.
pub open spec fn form_scan(pairs: Seq<Seq<char>>, i: int) -> Option<Seq<char>>
    decreases pairs.len() - i,
{
    if i < 0 || i >= pairs.len() {
        None
    } else {
        match split_once_spec(pairs[i], '=') {
            None => form_scan(pairs, i + 1),
            Some((k, v)) => match form_decode_spec(k) {
                None => form_scan(pairs, i + 1),
                Some(name) => if name == "query"@ {
                    form_decode_spec(v)
                } else {
                    form_scan(pairs, i + 1)
                },
            },
        }
    }
}

/// The `query` parameter of a form-encoded body.
pub open spec fn form_query_spec(body: Seq<u8>) -> Option<Seq<char>> {
    form_scan(split_all(utf8_lossy(body), '&'), 0)
}

pub fn form_query_param(body: &[u8]) -> (r: Option<String>)
    ensures
        match r {
            Some(q) => form_query_spec(body@) == Some(q@),
            None => form_query_spec(body@) is None,
        },
{
    let text = lossy_text(body);
    let pairs = split_by(text.as_str(), '&');
    let ghost pv = pairs@.map_values(|p: String| p@);
    let mut i: usize = 0;
    while i < pairs.len()
        invariant
            i <= pairs@.len(),
            pv == pairs@.map_values(|p: String| p@),
            pv == split_all(utf8_lossy(body@), '&'),
            form_scan(pv, 0) == form_scan(pv, i as int),
        decreases pairs@.len() - i,
    {
        assert(pv[i as int] == pairs@[i as int]@);
        if let Some((k, v)) = split_once(pairs[i].as_str(), '=') {
            if let Some(name) = form_decode(k.as_str()) {
                if str_eq(name.as_str(), "query") {
                    return form_decode(v.as_str());
                }
            }
        }
        i = i + 1;
    }
    None
}

// ---------------------------------------------------------------------------
// SPARQL requests
// ---------------------------------------------------------------------------

/// ASCII letters lowered.
pub open spec fn ascii_lower(s: Seq<char>) -> Seq<char> {
    s.map_values(|c: char| if 'A' <= c <= 'Z' {
        ((c as u32) + 32) as char
    } else {
        c
    })
}

pub fn to_ascii_lower(s: &str) -> (r: String)
    ensures
        r@ == ascii_lower(s@),
{
    let v = chars_of(s);
    let mut t = String::new();
    let mut i: usize = 0;
    while i < v.len()
        invariant
            i <= v@.len(),
            v@ == s@,
            t@ == ascii_lower(s@).take(i as int),
        decreases v@.len() - i,
    {
        let c = v[i];
        if 'A' <= c && c <= 'Z' {
            t.push(((c as u32) + 32) as u8 as char);
        } else {
            t.push(c);
        }
        assert(t@ =~= ascii_lower(s@).take(i + 1));
        i = i + 1;
    }
    assert(ascii_lower(s@).take(i as int) =~= ascii_lower(s@));
    t
}

/// The media type of a Content-Type value: before any ';', trimmed,
/// lower case.
pub open spec fn media_type(content_type: Seq<char>) -> Seq<char> {
    ascii_lower(trim(split_all(content_type, ';')[0]))
}

/// The query of a POST /sparql request, or the message of its refusal.
pub open spec fn sparql_post_spec(content_type: Seq<char>, body: Seq<u8>) -> Result<Seq<char>, Seq<char>> {
    let ct = media_type(content_type);
    if ct == "application/x-www-form-urlencoded"@ {
        match form_query_spec(body) {
            Some(q) => Ok(q),
            None => Err("form body must carry a non-empty 'query' parameter"@),
        }
    } else if ct == "application/sparql-query"@ {
        let q = trim(utf8_lossy(body));
        if q.len() == 0 {
            Err("empty query body"@)
        } else {
            Ok(q)
        }
    } else if ct == "application/sparql-update"@ {
        Err("SPARQL updates are not accepted on /sparql (read-only execution plane)"@)
    } else {
        Err(
            "unsupported content type '"@ + ct
                + "': use GET ?query=, form-encoded POST, or Content-Type: application/sparql-query"@,
        )
    }
}

pub open spec fn result_view(r: Result<String, String>) -> Result<Seq<char>, Seq<char>> {
    match r {
        Ok(s) => Ok(s@),
        Err(e) => Err(e@),
    }
}

/// The query a POST /sparql carries (`content_type` is the header's text,
/// "" when absent), or why it is refused (answered 400).
pub fn sparql_post_query(content_type: &str, body: &[u8]) -> (r: Result<String, String>)
    ensures
        result_view(r) == sparql_post_spec(content_type@, body@),
{
    let pieces = split_by(content_type, ';');
    proof {
        crate::text::lemma_split_all_nonempty(content_type@, ';');
    }
    assert(pieces@.map_values(|p: String| p@)[0] == pieces@[0]@);
    let first = trimmed(pieces[0].as_str());
    let ct = to_ascii_lower(first.as_str());
    if str_eq(ct.as_str(), "application/x-www-form-urlencoded") {
        match form_query_param(body) {
            Some(q) => Ok(q),
            None => Err(owned("form body must carry a non-empty 'query' parameter")),
        }
    } else if str_eq(ct.as_str(), "application/sparql-query") {
        let text = lossy_text(body);
        let q = trimmed(text.as_str());
        if q.as_str().unicode_len() == 0 {
            Err(owned("empty query body"))
        } else {
            Ok(q)
        }
    } else if str_eq(ct.as_str(), "application/sparql-update") {
        Err(owned("SPARQL updates are not accepted on /sparql (read-only execution plane)"))
    } else {
        let mut m = owned("unsupported content type '");
        push_all(&mut m, ct.as_str());
        push_all(&mut m, "': use GET ?query=, form-encoded POST, or Content-Type: application/sparql-query");
        Err(m)
    }
}

/// The query of GET /sparql: a non-empty `query` parameter.
pub fn sparql_get_query(query: Option<&str>) -> (r: Result<String, String>)
    ensures
        result_view(r) == match opt_view(query) {
            Some(q) => if q.len() > 0 {
                Ok(q)
            } else {
                Err("query parameter is required"@)
            },
            None => Err("query parameter is required"@),
        },
{
    match query {
        Some(q) => if q.unicode_len() > 0 {
            Ok(owned(q))
        } else {
            Err(owned("query parameter is required"))
        },
        None => Err(owned("query parameter is required")),
    }
}

// ---------------------------------------------------------------------------
// POST /hub
// ---------------------------------------------------------------------------

/// The value of the last pair named `key` (repeated names: the last wins).
pub open spec fn last_param(pairs: Seq<(Seq<char>, Seq<char>)>, key: Seq<char>) -> Option<Seq<char>>
    decreases pairs.len(),
{
    if pairs.len() == 0 {
        None
    } else if pairs.last().0 == key {
        Some(pairs.last().1)
    } else {
        last_param(pairs.drop_last(), key)
    }
}

pub open spec fn pairs_view(v: Seq<(String, String)>) -> Seq<(Seq<char>, Seq<char>)> {
    v.map_values(|e: (String, String)| (e.0@, e.1@))
}

pub fn last_param_of<'a>(pairs: &'a [(String, String)], key: &str) -> (r: Option<&'a String>)
    ensures
        match r {
            Some(v) => last_param(pairs_view(pairs@), key@) == Some(v@),
            None => last_param(pairs_view(pairs@), key@) is None,
        },
{
    let ghost pv = pairs_view(pairs@);
    let mut i: usize = pairs.len();
    assert(pv.take(i as int) =~= pv);
    while i > 0
        invariant
            i <= pairs@.len(),
            pv == pairs_view(pairs@),
            last_param(pv, key@) == last_param(pv.take(i as int), key@),
        decreases i,
    {
        assert(pv.take(i as int).drop_last() =~= pv.take(i - 1));
        assert(pv[i - 1] == (pairs@[i - 1].0@, pairs@[i - 1].1@));
        if str_eq(pairs[i - 1].0.as_str(), key) {
            return Some(&pairs[i - 1].1);
        }
        i = i - 1;
    }
    None
}

/// A hub request.
pub enum HubRequest {
    /// Publish the canonical topic.
    Publish { topic: &'static str },
    Subscribe { topic: String, callback: String, secret: Option<String>, lease: Option<u64> },
    Unsubscribe { topic: String, callback: String },
}

/// Model: (mode, topic, callback, secret, lease); mode 0 publish,
/// 1 subscribe, 2 unsubscribe.
pub open spec fn hub_request_model(r: HubRequest) -> (nat, Seq<char>, Seq<char>, Option<Seq<char>>, Option<u64>) {
    match r {
        HubRequest::Publish { topic } => (0, topic@, Seq::empty(), None, None),
        HubRequest::Subscribe { topic, callback, secret, lease } => (
            1,
            topic@,
            callback@,
            match secret {
                Some(s) => Some(s@),
                None => None,
            },
            lease,
        ),
        HubRequest::Unsubscribe { topic, callback } => (2, topic@, callback@, None, None),
    }
}

/// The request a form describes, or the refusal's message (answered 400).
pub open spec fn hub_form_spec(pairs: Seq<(Seq<char>, Seq<char>)>) -> Result<
    (nat, Seq<char>, Seq<char>, Option<Seq<char>>, Option<u64>),
    Seq<char>,
> {
    let mode = last_param(pairs, "hub.mode"@);
    if mode == Some("publish"@) {
        let url = match last_param(pairs, "hub.url"@) {
            Some(u) => u,
            None => Seq::empty(),
        };
        match resolve_spec(url) {
            Some(t) => Ok((0, t, Seq::empty(), None, None)),
            None => Err("hub.url does not resolve to a known topic"@),
        }
    } else if mode == Some("subscribe"@) || mode == Some("unsubscribe"@) {
        match last_param(pairs, "hub.topic"@) {
            None => Err("hub.topic is required"@),
            Some(topic) => match last_param(pairs, "hub.callback"@) {
                None => Err("hub.callback is required"@),
                Some(callback) => if callback.len() == 0 {
                    Err("hub.callback is required"@)
                } else if mode == Some("subscribe"@) {
                    Ok(
                        (
                            1,
                            topic,
                            callback,
                            last_param(pairs, "hub.secret"@),
                            match last_param(pairs, "hub.lease_seconds"@) {
                                Some(l) => match parse_unsigned(l, u64::MAX as nat) {
                                    Some(n) => Some(n as u64),
                                    None => None,
                                },
                                None => None,
                            },
                        ),
                    )
                } else {
                    Ok((2, topic, callback, None, None))
                },
            },
        }
    } else {
        Err("hub.mode must be 'subscribe', 'unsubscribe' or 'publish'"@)
    }
}

/// Reads a WebSub form request (parameters the hub does not know are
/// ignored).
pub fn parse_hub_form(pairs: &[(String, String)]) -> (r: Result<HubRequest, String>)
    ensures
        match r {
            Ok(req) => hub_form_spec(pairs_view(pairs@)) == Ok::<_, Seq<char>>(hub_request_model(req)),
            Err(m) => hub_form_spec(pairs_view(pairs@)) == Err::<(nat, Seq<char>, Seq<char>, Option<Seq<char>>, Option<u64>), _>(m@),
        },
{
    let mode = last_param_of(pairs, "hub.mode");
    let is_mode = |m: &str| -> (b: bool)
        ensures
            b == (mode matches Some(x) && x@ == m@),
        {
            match mode {
                Some(x) => str_eq(x.as_str(), m),
                None => false,
            }
        };
    if is_mode("publish") {
        let url = match last_param_of(pairs, "hub.url") {
            Some(u) => owned(u.as_str()),
            None => String::new(),
        };
        match resolve_topic(url.as_str()) {
            Some(t) => Ok(HubRequest::Publish { topic: t }),
            None => Err(owned("hub.url does not resolve to a known topic")),
        }
    } else if is_mode("subscribe") || is_mode("unsubscribe") {
        let topic = match last_param_of(pairs, "hub.topic") {
            Some(t) => owned(t.as_str()),
            None => {
                return Err(owned("hub.topic is required"));
            },
        };
        let callback = match last_param_of(pairs, "hub.callback") {
            Some(c) => owned(c.as_str()),
            None => {
                return Err(owned("hub.callback is required"));
            },
        };
        if callback.as_str().unicode_len() == 0 {
            return Err(owned("hub.callback is required"));
        }
        if is_mode("subscribe") {
            let secret = match last_param_of(pairs, "hub.secret") {
                Some(s) => Some(owned(s.as_str())),
                None => None,
            };
            let lease = match last_param_of(pairs, "hub.lease_seconds") {
                Some(l) => parse_u64(l.as_str()),
                None => None,
            };
            Ok(HubRequest::Subscribe { topic, callback, secret, lease })
        } else {
            Ok(HubRequest::Unsubscribe { topic, callback })
        }
    } else {
        Err(owned("hub.mode must be 'subscribe', 'unsubscribe' or 'publish'"))
    }
}

/// The canonical topic of GET /topics/{name}, or the 404 message.
pub fn topic_for_name(name: &str) -> (r: Result<&'static str, String>)
    ensures
        match r {
            Ok(t) => resolve_spec("/topics/"@ + name@) == Some(t@),
            Err(m) => resolve_spec("/topics/"@ + name@) is None && m@ == "unknown topic: "@ + name@,
        },
{
    let mut canonical = owned("/topics/");
    push_all(&mut canonical, name);
    match resolve_topic(canonical.as_str()) {
        Some(t) => Ok(t),
        None => {
            let mut m = owned("unknown topic: ");
            push_all(&mut m, name);
            Err(m)
        },
    }
}

// ---------------------------------------------------------------------------
// discovery and the change feed
// ---------------------------------------------------------------------------

/// The rel=hub links, joined by ", ".
pub open spec fn hub_links(hubs: Seq<Seq<char>>) -> Seq<char>
    decreases hubs.len(),
{
    if hubs.len() == 0 {
        Seq::empty()
    } else if hubs.len() == 1 {
        seq!['<'] + hubs[0] + ">; rel=\"hub\""@
    } else {
        hub_links(hubs.drop_last()) + ", "@ + seq!['<'] + hubs.last() + ">; rel=\"hub\""@
    }
}

/// The discovery Link header: rel=self for the resource, then rel=hub for
/// this hub and each external hub.
pub open spec fn discovery_link_spec(public_url: Seq<char>, path: Seq<char>, external: Seq<Seq<char>>) -> Seq<char> {
    seq!['<'] + public_url + path + ">; rel=\"self\", "@ + hub_links(seq![public_url + "/hub"@] + external)
}

pub fn discovery_link(public_url: &str, path: &str, external_hubs: &[String]) -> (r: String)
    ensures
        r@ == discovery_link_spec(public_url@, path@, external_hubs@.map_values(|s: String| s@)),
{
    let ghost ext = external_hubs@.map_values(|s: String| s@);
    let mut own = owned(public_url);
    push_all(&mut own, "/hub");
    let ghost hubs = seq![own@] + ext;
    let mut links = String::new();
    links.push('<');
    push_all(&mut links, own.as_str());
    push_all(&mut links, ">; rel=\"hub\"");
    assert(hubs.take(1) =~= seq![own@]);
    let mut i: usize = 0;
    while i < external_hubs.len()
        invariant
            i <= external_hubs@.len(),
            ext == external_hubs@.map_values(|s: String| s@),
            hubs == seq![own@] + ext,
            links@ == hub_links(hubs.take(i + 1)),
        decreases external_hubs@.len() - i,
    {
        assert(hubs.take(i + 2).drop_last() =~= hubs.take(i + 1));
        assert(hubs[i + 1] == external_hubs@[i as int]@);
        push_all(&mut links, ", ");
        links.push('<');
        push_all(&mut links, external_hubs[i].as_str());
        push_all(&mut links, ">; rel=\"hub\"");
        i = i + 1;
    }
    assert(hubs.take(i + 1) =~= hubs);
    let mut r = String::new();
    r.push('<');
    push_all(&mut r, public_url);
    push_all(&mut r, path);
    push_all(&mut r, ">; rel=\"self\", ");
    push_all(&mut r, links.as_str());
    r
}

/// The topic filter of GET /events: none, or a topic that resolves.
pub fn events_filter(topic: Option<&str>) -> (r: Result<Option<String>, String>)
    ensures
        match opt_view(topic) {
            Some(t) if t.len() > 0 => if resolve_spec(t) is Some {
                r matches Ok(Some(f)) && f@ == t
            } else {
                r matches Err(m) && m@ == "unknown topic: "@ + t
            },
            _ => r matches Ok(None),
        },
{
    match topic {
        Some(t) => if t.unicode_len() > 0 {
            if resolve_topic(t).is_none() {
                let mut m = owned("unknown topic: ");
                push_all(&mut m, t);
                Err(m)
            } else {
                Ok(Some(owned(t)))
            }
        } else {
            Ok(None)
        },
        None => Ok(None),
    }
}

/// Whether an event's topic passes the feed's filter: both resolve to the
/// same canonical topic (or neither resolves).
pub fn event_passes(event_topic: &str, filter: Option<&str>) -> (r: bool)
    ensures
        r == match opt_view(filter) {
            Some(f) => resolve_spec(event_topic@) == resolve_spec(f),
            None => true,
        },
{
    match filter {
        Some(f) => match (resolve_topic(event_topic), resolve_topic(f)) {
            (Some(a), Some(b)) => str_eq(a, b),
            (None, None) => true,
            _ => false,
        },
        None => true,
    }
}

// ---------------------------------------------------------------------------
// GET /fragments
// ---------------------------------------------------------------------------

/// Default and largest page sizes of GET /fragments.
pub const DEFAULT_FRAGMENT_LIMIT: u64 = 100;

pub const MAX_FRAGMENT_LIMIT: u64 = 1000;

/// A parameter that counts only when non-empty.
pub open spec fn non_empty(o: Option<Seq<char>>) -> Option<Seq<char>> {
    match o {
        Some(s) => if s.len() > 0 {
            Some(s)
        } else {
            None
        },
        None => None,
    }
}

pub open spec fn parse_or(o: Option<Seq<char>>, default: u64) -> u64 {
    match o {
        Some(t) => match parse_unsigned(t, u64::MAX as nat) {
            Some(n) => n as u64,
            None => default,
        },
        None => default,
    }
}

/// The page size: the `limit` parameter (default 100), at most 1000.
pub open spec fn fragment_limit_spec(limit: Option<Seq<char>>) -> u64 {
    let l = parse_or(limit, DEFAULT_FRAGMENT_LIMIT);
    if l < MAX_FRAGMENT_LIMIT {
        l
    } else {
        MAX_FRAGMENT_LIMIT
    }
}

pub fn non_empty_param<'a>(o: Option<&'a str>) -> (r: Option<&'a str>)
    ensures
        opt_view(r) == non_empty(opt_view(o)),
{
    match o {
        Some(s) => if s.unicode_len() > 0 {
            Some(s)
        } else {
            None
        },
        None => None,
    }
}

pub fn fragment_limit(limit: Option<&str>) -> (r: u64)
    ensures
        r == fragment_limit_spec(opt_view(limit)),
        r <= MAX_FRAGMENT_LIMIT,
{
    let l = match limit {
        Some(t) => match parse_u64(t) {
            Some(n) => n,
            None => DEFAULT_FRAGMENT_LIMIT,
        },
        None => DEFAULT_FRAGMENT_LIMIT,
    };
    if l < MAX_FRAGMENT_LIMIT {
        l
    } else {
        MAX_FRAGMENT_LIMIT
    }
}

pub fn fragment_offset(offset: Option<&str>) -> (r: u64)
    ensures
        r == parse_or(opt_view(offset), 0),
{
    match offset {
        Some(t) => match parse_u64(t) {
            Some(n) => n,
            None => 0,
        },
        None => 0,
    }
}

/// The cursor to page after: a non-empty `after` that decodes.
pub fn fragment_after(after: Option<&str>) -> (r: Option<Cursor>)
    ensures
        match non_empty(opt_view(after)) {
            Some(t) => match r {
                Some(c) => crate::fragments::cursor_decode_spec(t) == Some(c.model()),
                None => crate::fragments::cursor_decode_spec(t) is None,
            },
            None => r is None,
        },
{
    match non_empty_param(after) {
        Some(a) => Cursor::decode(a),
        None => None,
    }
}

/// The cursor of the last triple of a page: its three values.
pub open spec fn cursor_of_binding(b: JsonValue) -> Option<(Seq<char>, Seq<char>, Seq<char>)> {
    match (
        crate::counts::row_value(b, "s"@),
        crate::counts::row_value(b, "p"@),
        crate::counts::row_value(b, "o"@),
    ) {
        (Some(s), Some(p), Some(o)) => Some((s, p, o)),
        _ => None,
    }
}

pub fn cursor_from_binding(binding: &Json) -> (r: Option<Cursor>)
    ensures
        match r {
            Some(c) => cursor_of_binding(binding@) == Some(c.model()),
            None => cursor_of_binding(binding@) is None,
        },
{
    let s = match crate::counts::row_value_of(binding, "s") {
        Some(x) => owned(x.as_str()),
        None => {
            return None;
        },
    };
    let p = match crate::counts::row_value_of(binding, "p") {
        Some(x) => owned(x.as_str()),
        None => {
            return None;
        },
    };
    let o = match crate::counts::row_value_of(binding, "o") {
        Some(x) => owned(x.as_str()),
        None => {
            return None;
        },
    };
    Some(Cursor { s, p, o })
}

pub open spec fn or_empty(o: Option<Seq<char>>) -> Seq<char> {
    match o {
        Some(s) => s,
        None => Seq::empty(),
    }
}

/// The offset-pagination link of the next page.
pub open spec fn next_link_spec(s: Option<Seq<char>>, p: Option<Seq<char>>, o: Option<Seq<char>>, limit: nat, next_offset: nat) -> Seq<char> {
    "/fragments?subject="@ + or_empty(s) + "&predicate="@ + or_empty(p) + "&object="@ + or_empty(o) + "&limit="@
        + crate::text::dec(limit) + "&offset="@ + crate::text::dec(next_offset)
}

/// The hypermedia control line closing a fragment page: the count
/// estimate, and when more follow the cursor after the last triple and
/// the next offset link.
pub open spec fn control_spec(
    total: u64,
    has_more: bool,
    last: Option<JsonValue>,
    s: Option<Seq<char>>,
    p: Option<Seq<char>>,
    o: Option<Seq<char>>,
    limit: u64,
    offset: u64,
) -> JsonValue {
    let base = JsonValue::Object(
        seq![
            ("@control"@, JsonValue::Str("metadata"@)),
            ("count_estimate"@, JsonValue::Number(crate::text::dec(total as nat))),
        ],
    );
    if has_more {
        let with_after = match last {
            Some(b) => match cursor_of_binding(b) {
                Some(c) => crate::json::with_member(
                    base,
                    "after"@,
                    JsonValue::Str(crate::fragments::cursor_token(c.0, c.1, c.2)),
                ),
                None => base,
            },
            None => base,
        };
        crate::json::with_member(
            with_after,
            "next"@,
            JsonValue::Str(next_link_spec(s, p, o, limit as nat, (offset + limit) as nat)),
        )
    } else {
        base
    }
}

pub fn fragment_control(
    total: u64,
    has_more: bool,
    last: Option<&Json>,
    subject: Option<&str>,
    predicate: Option<&str>,
    object: Option<&str>,
    limit: u64,
    offset: u64,
) -> (r: Json)
    requires
        has_more ==> offset + limit <= u64::MAX,
    ensures
        r@ == control_spec(
            total,
            has_more,
            match last {
                Some(b) => Some(b@),
                None => None,
            },
            opt_view(subject),
            opt_view(predicate),
            opt_view(object),
            limit,
            offset,
        ),
{
    let mut es: Vec<(String, Json)> = Vec::new();
    es.push((owned("@control"), Json::string("metadata")));
    es.push((owned("count_estimate"), Json::Number(crate::text::u64_dec(total))));
    proof {
        crate::json::lemma_object_view(es);
    }
    let mut control = Json::Object(es);
    assert(control@->Object_0 =~= seq![
        ("@control"@, JsonValue::Str("metadata"@)),
        ("count_estimate"@, JsonValue::Number(crate::text::dec(total as nat))),
    ]);
    if has_more {
        match last {
            Some(b) => match cursor_from_binding(b) {
                Some(c) => {
                    let token = c.encode();
                    control.insert("after", Json::Str(token));
                },
                None => {},
            },
            None => {},
        }
        let mut next = owned("/fragments?subject=");
        match subject {
            Some(x) => push_all(&mut next, x),
            None => {},
        }
        push_all(&mut next, "&predicate=");
        match predicate {
            Some(x) => push_all(&mut next, x),
            None => {},
        }
        push_all(&mut next, "&object=");
        match object {
            Some(x) => push_all(&mut next, x),
            None => {},
        }
        push_all(&mut next, "&limit=");
        let l = crate::text::u64_dec(limit);
        push_all(&mut next, l.as_str());
        push_all(&mut next, "&offset=");
        let n = crate::text::u64_dec(offset + limit);
        push_all(&mut next, n.as_str());
        control.insert("next", Json::Str(next));
    }
    control
}

// ---------------------------------------------------------------------------
// the write path
// ---------------------------------------------------------------------------

/// A write request: one triple, optionally in a named graph.
pub struct InsertRequest {
    pub subject: String,
    pub predicate: String,
    pub object: String,
    pub graph: Option<String>,
}

/// The refusal of a write into a graph the service reserves for itself.
pub fn check_write_graph(graph: Option<&str>) -> (r: Result<(), String>)
    ensures
        match opt_view(graph) {
            Some(g) => if crate::store::reserved_graph_spec(g) {
                r matches Err(m) && m@ == "graph URI is reserved for service state"@
            } else {
                r is Ok
            },
            None => r is Ok,
        },
{
    match graph {
        Some(g) => if crate::store::is_reserved_graph(g) {
            Err(owned("graph URI is reserved for service state"))
        } else {
            Ok(())
        },
        None => Ok(()),
    }
}

/// Whether a write adds an ontology term: a predicate not seen before, or
/// an rdf:type triple whose (URI) class was not seen before.
pub fn schema_changed(card: &crate::counts::Cardinality, predicate: &str, object: &str) -> (r: bool)
    requires
        card.wf(),
    ensures
        r == (!card@.1.contains_key(predicate@) || (crate::store::object_is_uri(object@) && predicate@
            == crate::context::RDF_TYPE@ && !card@.0.contains_key(object@))),
{
    let new_predicate = !card.has_predicate(predicate);
    let new_class = match crate::store::object_uri(object) {
        Some(o) => str_eq(predicate, crate::context::RDF_TYPE) && !card.has_class(o),
        None => false,
    };
    new_predicate || new_class
}

// ---------------------------------------------------------------------------
// MCP results
// ---------------------------------------------------------------------------

/// The cap on MCP tool text, in bytes.
pub const MCP_MAX_TOOL_TEXT: usize = 8000;

/// The shortest prefix of `s` whose UTF-8 encoding has at least `n`
/// bytes (the whole text when it is shorter).
pub open spec fn cut_at(s: Seq<char>, n: nat) -> Seq<char>
    decreases s.len(),
{
    if encode_utf8(s).len() < n || s.len() == 0 {
        s
    } else if encode_utf8(s.drop_last()).len() >= n {
        cut_at(s.drop_last(), n)
    } else {
        s
    }
}

/// A tool result's text: capped at 8000 bytes (cut at the first character
/// boundary at or after the cap, with a truncation mark).
pub open spec fn capped_text(s: Seq<char>) -> (Seq<char>, bool) {
    if encode_utf8(s).len() > MCP_MAX_TOOL_TEXT {
        (cut_at(s, MCP_MAX_TOOL_TEXT as nat) + "\n…[truncated]"@, true)
    } else {
        (s, false)
    }
}

proof fn lemma_encode_push(s: Seq<char>, c: char)
    ensures
        encode_utf8(s.push(c)) == encode_utf8(s) + vstd::utf8::encode_scalar(c as u32),
    decreases s.len(),
{
    if s.len() == 0 {
        assert(s.push(c).drop_first() =~= Seq::<char>::empty());
        assert(encode_utf8(Seq::<char>::empty()) =~= Seq::<u8>::empty());
        assert(encode_utf8(s) =~= Seq::<u8>::empty());
    } else {
        lemma_encode_push(s.drop_first(), c);
        assert(s.push(c).drop_first() =~= s.drop_first().push(c));
        assert(s.push(c)[0] == s[0]);
    }
}

proof fn lemma_cut_prefix(s: Seq<char>, k: int, n: nat)
    requires
        0 <= k <= s.len(),
        encode_utf8(s.take(k)).len() >= n,
        k == 0 || encode_utf8(s.take(k - 1)).len() < n,
    ensures
        cut_at(s, n) == s.take(k),
    decreases s.len(),
{
    if k < s.len() {
        let d = s.drop_last();
        assert(d.take(k) =~= s.take(k));
        if k > 0 {
            assert(d.take(k - 1) =~= s.take(k - 1));
        }
        lemma_cut_prefix(d, k, n);
        lemma_encode_push(d, s.last());
        assert(s =~= d.push(s.last()));
        assert(encode_utf8(d).len() >= n) by {
            lemma_encode_prefix_len(d, k);
        }
    } else {
        assert(s.take(k) =~= s);
        if s.len() > 0 {
            assert(s.take(k - 1) =~= s.drop_last());
        } else {
            assert(encode_utf8(s) =~= Seq::<u8>::empty());
        }
    }
}

proof fn lemma_encode_prefix_len(s: Seq<char>, k: int)
    requires
        0 <= k <= s.len(),
    ensures
        encode_utf8(s.take(k)).len() <= encode_utf8(s).len(),
    decreases s.len() - k,
{
    if k < s.len() {
        lemma_encode_prefix_len(s, k + 1);
        assert(s.take(k + 1) =~= s.take(k).push(s[k]));
        lemma_encode_push(s.take(k), s[k]);
    } else {
        assert(s.take(k) =~= s);
    }
}

fn capped(text: String) -> (r: (String, bool))
    ensures
        (r.0@, r.1) == capped_text(text@),
{
    let n = text.as_str().as_bytes().len();
    if n <= MCP_MAX_TOOL_TEXT {
        return (text, false);
    }
    let v = chars_of(text.as_str());
    let mut bytes: usize = 0;
    let mut k: usize = 0;
    assert(encode_utf8(v@.take(0)) =~= Seq::<u8>::empty());
    while bytes < MCP_MAX_TOOL_TEXT
        invariant
            k <= v@.len(),
            v@ == text@,
            encode_utf8(text@).len() > MCP_MAX_TOOL_TEXT,
            bytes == encode_utf8(v@.take(k as int)).len(),
            k == 0 || encode_utf8(v@.take(k - 1)).len() < MCP_MAX_TOOL_TEXT,
        decreases v@.len() - k,
    {
        proof {
            lemma_encode_prefix_len(v@, k as int);
            if k == v@.len() {
                assert(v@.take(k as int) =~= v@);
            }
        }
        let nv = v.len();
        assert(k < nv);
        let c = v[k];
        let w: usize = if (c as u32) < 0x80 {
            1
        } else if (c as u32) < 0x800 {
            2
        } else if (c as u32) < 0x10000 {
            3
        } else {
            4
        };
        proof {
            assert(v@.take(k + 1) =~= v@.take(k as int).push(c));
            lemma_encode_push(v@.take(k as int), c);
            vstd::utf8::char_is_scalar(c);
        }
        bytes = bytes + w;
        k = k + 1;
    }
    proof {
        lemma_cut_prefix(text@, k as int, MCP_MAX_TOOL_TEXT as nat);
    }
    let mut cut = string_of_range(&v, 0, k);
    assert(cut@ =~= text@.take(k as int));
    push_all(&mut cut, "\n…[truncated]");
    (cut, true)
}

/// The JSON of a tool's text result.
pub open spec fn tool_text_spec(text: Seq<char>) -> JsonValue {
    let (t, truncated) = capped_text(text);
    JsonValue::Object(
        seq![
            ("content"@, JsonValue::Array(seq![JsonValue::Object(seq![("type"@, JsonValue::Str("text"@)), ("text"@, JsonValue::Str(t))])])),
            ("isError"@, JsonValue::Bool(false)),
            ("_truncated"@, JsonValue::Bool(truncated)),
        ],
    )
}

fn text_content(text: String) -> (r: Json)
    ensures
        r@ == JsonValue::Array(seq![JsonValue::Object(seq![("type"@, JsonValue::Str("text"@)), ("text"@, JsonValue::Str(text@))])]),
{
    let ghost tv = text@;
    let mut item: Vec<(String, Json)> = Vec::new();
    item.push((owned("type"), Json::string("text")));
    item.push((owned("text"), Json::Str(text)));
    proof {
        crate::json::lemma_object_view(item);
    }
    let obj = Json::Object(item);
    assert(obj@->Object_0 =~= seq![("type"@, JsonValue::Str("text"@)), ("text"@, JsonValue::Str(tv))]);
    let mut xs: Vec<Json> = Vec::new();
    xs.push(obj);
    proof {
        crate::json::lemma_array_view(xs);
    }
    let r = Json::Array(xs);
    assert(r@->Array_0 =~= seq![JsonValue::Object(seq![("type"@, JsonValue::Str("text"@)), ("text"@, JsonValue::Str(tv))])]);
    r
}

/// A tool's text result, capped.
pub fn tool_text(text: String) -> (r: Json)
    ensures
        r@ == tool_text_spec(text@),
{
    let ghost tv = text@;
    let (t, truncated) = capped(text);
    let content = text_content(t);
    let mut es: Vec<(String, Json)> = Vec::new();
    es.push((owned("content"), content));
    es.push((owned("isError"), Json::Bool(false)));
    es.push((owned("_truncated"), Json::Bool(truncated)));
    proof {
        crate::json::lemma_object_view(es);
    }
    let r = Json::Object(es);
    assert(r@->Object_0 =~= tool_text_spec(tv)->Object_0);
    r
}

/// A tool's error result.
pub fn tool_error(message: &str) -> (r: Json)
    ensures
        r@ == JsonValue::Object(
            seq![
                ("content"@, JsonValue::Array(seq![JsonValue::Object(seq![("type"@, JsonValue::Str("text"@)), ("text"@, JsonValue::Str(message@))])])),
                ("isError"@, JsonValue::Bool(true)),
            ],
        ),
{
    let content = text_content(owned(message));
    let mut es: Vec<(String, Json)> = Vec::new();
    es.push((owned("content"), content));
    es.push((owned("isError"), Json::Bool(true)));
    proof {
        crate::json::lemma_object_view(es);
    }
    let r = Json::Object(es);
    assert(r@->Object_0 =~= seq![
        ("content"@, JsonValue::Array(seq![JsonValue::Object(seq![("type"@, JsonValue::Str("text"@)), ("text"@, JsonValue::Str(message@))])])),
        ("isError"@, JsonValue::Bool(true)),
    ]);
    r
}

pub open spec fn opt_json_view(o: Option<Json>) -> Option<JsonValue> {
    match o {
        Some(v) => Some(v@),
        None => None,
    }
}

pub open spec fn id_json(id: Option<JsonValue>) -> JsonValue {
    match id {
        Some(v) => v,
        None => JsonValue::Null,
    }
}

/// A JSON-RPC 2.0 result.
pub fn json_rpc_result(id: Option<Json>, result: Json) -> (r: Json)
    ensures
        r@ == JsonValue::Object(
            seq![
                ("jsonrpc"@, JsonValue::Str("2.0"@)),
                ("id"@, id_json(opt_json_view(id))),
                ("result"@, result@),
            ],
        ),
{
    let ghost idv = opt_json_view(id);
    let ghost rv = result@;
    let idj = match id {
        Some(v) => v,
        None => Json::Null,
    };
    let mut es: Vec<(String, Json)> = Vec::new();
    es.push((owned("jsonrpc"), Json::string("2.0")));
    es.push((owned("id"), idj));
    es.push((owned("result"), result));
    proof {
        crate::json::lemma_object_view(es);
    }
    let r = Json::Object(es);
    assert(r@->Object_0 =~= seq![("jsonrpc"@, JsonValue::Str("2.0"@)), ("id"@, id_json(idv)), ("result"@, rv)]);
    r
}

/// A JSON-RPC 2.0 error.
pub fn json_rpc_error(id: Option<Json>, code: i64, message: &str) -> (r: Json)
    ensures
        r@ == JsonValue::Object(
            seq![
                ("jsonrpc"@, JsonValue::Str("2.0"@)),
                ("id"@, id_json(opt_json_view(id))),
                ("error"@, JsonValue::Object(seq![
                    ("code"@, JsonValue::Number(crate::text::dec_int(code as int))),
                    ("message"@, JsonValue::Str(message@)),
                ])),
            ],
        ),
{
    let ghost idv = opt_json_view(id);
    let idj = match id {
        Some(v) => v,
        None => Json::Null,
    };
    let mut err: Vec<(String, Json)> = Vec::new();
    err.push((owned("code"), Json::Number(crate::text::i64_dec(code))));
    err.push((owned("message"), Json::string(message)));
    proof {
        crate::json::lemma_object_view(err);
    }
    let errj = Json::Object(err);
    let ghost ev = errj@;
    assert(ev->Object_0 =~= seq![
        ("code"@, JsonValue::Number(crate::text::dec_int(code as int))),
        ("message"@, JsonValue::Str(message@)),
    ]);
    let mut es: Vec<(String, Json)> = Vec::new();
    es.push((owned("jsonrpc"), Json::string("2.0")));
    es.push((owned("id"), idj));
    es.push((owned("error"), errj));
    proof {
        crate::json::lemma_object_view(es);
    }
    let r = Json::Object(es);
    assert(r@->Object_0 =~= seq![("jsonrpc"@, JsonValue::Str("2.0"@)), ("id"@, id_json(idv)), ("error"@, ev)]);
    r
}

// ---------------------------------------------------------------------------
// MCP requests
// ---------------------------------------------------------------------------

/// The MCP methods the server answers.
pub enum McpRoute {
    /// A notification: answered 202 without a body.
    Notification,
    Initialize,
    Ping,
    ResourcesList,
    ResourcesRead,
    ToolsList,
    ToolsCall,
    PromptsList,
    PromptsGet,
    /// Answered with "method not found".
    Unknown,
}

pub open spec fn mcp_route_spec(method: Seq<char>) -> McpRoute {
    if method == "notifications/initialized"@ || method == "notifications/cancelled"@ {
        McpRoute::Notification
    } else if method == "initialize"@ {
        McpRoute::Initialize
    } else if method == "ping"@ {
        McpRoute::Ping
    } else if method == "resources/list"@ {
        McpRoute::ResourcesList
    } else if method == "resources/read"@ {
        McpRoute::ResourcesRead
    } else if method == "tools/list"@ {
        McpRoute::ToolsList
    } else if method == "tools/call"@ {
        McpRoute::ToolsCall
    } else if method == "prompts/list"@ {
        McpRoute::PromptsList
    } else if method == "prompts/get"@ {
        McpRoute::PromptsGet
    } else {
        McpRoute::Unknown
    }
}

pub fn mcp_route(method: &str) -> (r: McpRoute)
    ensures
        r == mcp_route_spec(method@),
{
    if str_eq(method, "notifications/initialized") || str_eq(method, "notifications/cancelled") {
        McpRoute::Notification
    } else if str_eq(method, "initialize") {
        McpRoute::Initialize
    } else if str_eq(method, "ping") {
        McpRoute::Ping
    } else if str_eq(method, "resources/list") {
        McpRoute::ResourcesList
    } else if str_eq(method, "resources/read") {
        McpRoute::ResourcesRead
    } else if str_eq(method, "tools/list") {
        McpRoute::ToolsList
    } else if str_eq(method, "tools/call") {
        McpRoute::ToolsCall
    } else if str_eq(method, "prompts/list") {
        McpRoute::PromptsList
    } else if str_eq(method, "prompts/get") {
        McpRoute::PromptsGet
    } else {
        McpRoute::Unknown
    }
}

/// The "method not found" message.
pub fn method_not_found(method: &str) -> (r: String)
    ensures
        r@ == "method not found: "@ + method@,
{
    let mut m = owned("method not found: ");
    push_all(&mut m, method);
    m
}

/// The page size of the search tool: the requested one (default 20), at
/// most 200.
pub fn mcp_search_limit(limit: Option<u64>) -> (r: u64)
    ensures
        r == ({
            let l = match limit {
                Some(n) => n,
                None => 20,
            };
            if l < 200 {
                l
            } else {
                200
            }
        }),
{
    let l = match limit {
        Some(n) => n,
        None => 20,
    };
    if l < 200 {
        l
    } else {
        200
    }
}

/// Whether the insert tool may write: ungated, or given exactly the token.
pub fn mcp_write_allowed(expected: Option<&str>, token: Option<&str>) -> (r: bool)
    ensures
        r == match opt_view(expected) {
            Some(e) => opt_view(token) == Some(e),
            None => true,
        },
{
    match expected {
        Some(e) => match token {
            Some(t) => str_eq(t, e),
            None => false,
        },
        None => true,
    }
}

} // verus!
