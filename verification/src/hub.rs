//! WebSub hub policy and state: which topics and callbacks are accepted,
//! lease clamping, intent-verification requests and their outcome, the
//! subscription table with its sharding between replicas, delivery retry
//! decisions, and the authenticated-distribution header.
use vstd::prelude::*;

use crate::dates::{find_sep, first_sep, lemma_first_sep};
use crate::text::{chars_of, ends_with, has_char, is_prefix, is_suffix, matches_at, owned, push_all, starts_with, string_of_range};
use crate::json::str_eq;
use crate::json::{Json, JsonValue};
use vstd::utf8::encode_utf8;
use crate::store::{owner_spec, persist_id_spec};
use crate::crypto::SecretCrypto;

verus! {

/// The topics this service publishes.
pub const TOPIC_DATA: &'static str = "/topics/data";

pub const TOPIC_SCHEMA: &'static str = "/topics/schema";

pub const TOPICS: [&'static str; 2] = ["/topics/data", "/topics/schema"];

// ---------------------------------------------------------------------------
// topic policy
// ---------------------------------------------------------------------------

/// `base` is exactly `http://authority` or `https://authority`: a
/// non-empty authority and no path.
pub open spec fn scheme_authority(base: Seq<char>) -> bool {
    let rest = if is_prefix("http://"@, base) {
        Some(base.skip("http://"@.len() as int))
    } else if is_prefix("https://"@, base) {
        Some(base.skip("https://"@.len() as int))
    } else {
        None
    };
    match rest {
        Some(a) => a.len() > 0 && !has_char(a, '/'),
        None => false,
    }
}

/// `topic` names the topic path `t`: the bare path, or an absolute URL
/// whose whole path is `t`.
pub open spec fn names_topic(topic: Seq<char>, t: Seq<char>) -> bool {
    topic == t || (is_suffix(t, topic) && scheme_authority(topic.take(topic.len() - t.len())))
}

/// The canonical topic path a submitted topic resolves to.
pub open spec fn resolve_spec(topic: Seq<char>) -> Option<Seq<char>> {
    if names_topic(topic, TOPIC_DATA@) {
        Some(TOPIC_DATA@)
    } else if names_topic(topic, TOPIC_SCHEMA@) {
        Some(TOPIC_SCHEMA@)
    } else {
        None
    }
}

/// True when `base` is exactly `scheme://authority` (no extra path).
pub fn url_is_scheme_authority(base: &str) -> (r: bool)
    ensures
        r == scheme_authority(base@),
{
    let authority = match crate::text::strip_prefix(base, "http://") {
        Some(a) => Some(a),
        None => crate::text::strip_prefix(base, "https://"),
    };
    match authority {
        Some(a) => a.as_str().unicode_len() > 0 && !crate::text::contains_char(a.as_str(), '/'),
        None => false,
    }
}

fn names_topic_exec(topic: &str, t: &str) -> (r: bool)
    ensures
        r == names_topic(topic@, t@),
{
    if str_eq(topic, t) {
        return true;
    }
    if !ends_with(topic, t) {
        return false;
    }
    let v = chars_of(topic);
    let n = v.len();
    let m = t.unicode_len();
    let base = string_of_range(&v, 0, n - m);
    assert(base@ =~= topic@.take(topic@.len() - t@.len()));
    url_is_scheme_authority(base.as_str())
}

/// Resolves a submitted hub.topic to one of the canonical topic paths.
/// A URL only matches when the topic path is its entire path.
pub fn resolve_topic(topic: &str) -> (r: Option<&'static str>)
    ensures
        match r {
            Some(t) => resolve_spec(topic@) == Some(t@),
            None => resolve_spec(topic@) is None,
        },
{
    if names_topic_exec(topic, TOPIC_DATA) {
        Some(TOPIC_DATA)
    } else if names_topic_exec(topic, TOPIC_SCHEMA) {
        Some(TOPIC_SCHEMA)
    } else {
        None
    }
}

/// The hub's topic policy: canonical topics always; any http(s) URL under
/// the open-hub policy.
pub open spec fn topic_allowed_spec(topic: Seq<char>, open_hub: bool) -> bool {
    resolve_spec(topic) is Some || (open_hub && (is_prefix("http://"@, topic) || is_prefix(
        "https://"@,
        topic,
    )))
}

/// Returns the accepted topic unchanged, or `None` when the policy
/// refuses it.
pub fn topic_allowed(topic: &str, open_hub: bool) -> (r: Option<String>)
    ensures
        r is Some <==> topic_allowed_spec(topic@, open_hub),
        r matches Some(t) ==> t@ == topic@,
{
    if resolve_topic(topic).is_some() {
        return Some(owned(topic));
    }
    if open_hub && (starts_with(topic, "http://") || starts_with(topic, "https://")) {
        return Some(owned(topic));
    }
    None
}

/// Canonical topics match loosely (bare path == absolute URL);
/// third-party topics match exactly.
pub open spec fn topic_matches_spec(subscribed: Seq<char>, publishing: Seq<char>) -> bool {
    if resolve_spec(subscribed) is Some {
        resolve_spec(publishing) == resolve_spec(subscribed)
    } else {
        subscribed == publishing
    }
}

pub fn topic_matches(subscribed: &str, publishing: &str) -> (r: bool)
    ensures
        r == topic_matches_spec(subscribed@, publishing@),
{
    match resolve_topic(subscribed) {
        Some(s) => match resolve_topic(publishing) {
            Some(p) => str_eq(s, p),
            None => false,
        },
        None => str_eq(subscribed, publishing),
    }
}

// ---------------------------------------------------------------------------
// callback-host allowlist
// ---------------------------------------------------------------------------

/// Whether `p` occurs in `s` at index `i`.
pub open spec fn occurs_at(s: Seq<char>, p: Seq<char>, i: int) -> bool {
    0 <= i && i + p.len() <= s.len() && s.subrange(i, i + p.len()) == p
}

/// The first index at or after `from` where `p` occurs in `s`.
pub open spec fn first_occurrence(s: Seq<char>, p: Seq<char>, from: int) -> Option<int>
    decreases s.len() - from,
{
    if from < 0 || from + p.len() > s.len() {
        None
    } else if occurs_at(s, p, from) {
        Some(from)
    } else if from >= s.len() {
        None
    } else {
        first_occurrence(s, p, from + 1)
    }
}

pub proof fn lemma_first_occurrence(s: Seq<char>, p: Seq<char>, from: int)
    ensures
        first_occurrence(s, p, from) matches Some(i) ==> from <= i && occurs_at(s, p, i),
    decreases s.len() - from,
{
    if !(from < 0 || from + p.len() > s.len()) && !occurs_at(s, p, from) && from < s.len() {
        lemma_first_occurrence(s, p, from + 1);
    }
}

/// The host of a URL: after the first "://" (or the whole text when there
/// is none), up to the first '/' or ':'.
pub open spec fn host_spec(url: Seq<char>) -> Seq<char> {
    let rest = match first_occurrence(url, "://"@, 0) {
        Some(i) => url.skip(i + 3),
        None => url,
    };
    match first_sep(rest, '/', ':') {
        Some(j) => rest.take(j),
        None => rest,
    }
}

/// `s` without its leading dots.
pub open spec fn drop_dots(s: Seq<char>) -> Seq<char>
    decreases s.len(),
{
    if s.len() > 0 && s[0] == '.' {
        drop_dots(s.drop_first())
    } else {
        s
    }
}

/// The URL's host is the allowed suffix (leading dots ignored) or a
/// subdomain of it.
pub open spec fn host_matches_spec(url: Seq<char>, allowed_suffix: Seq<char>) -> bool {
    let host = host_spec(url);
    let suffix = drop_dots(allowed_suffix);
    host == suffix || is_suffix(seq!['.'] + suffix, host)
}

pub open spec fn allowlist_spec(allowlist: Seq<Seq<char>>, url: Seq<char>) -> bool {
    allowlist.len() == 0 || exists|i: int| 0 <= i < allowlist.len() && host_matches_spec(url, allowlist[i])
}

fn find_occurrence(v: &Vec<char>, p: &Vec<char>) -> (r: Option<usize>)
    ensures
        match r {
            Some(i) => first_occurrence(v@, p@, 0) == Some(i as int),
            None => first_occurrence(v@, p@, 0) is None,
        },
{
    let n = v.len();
    let mut i: usize = 0;
    loop
        invariant
            i <= n,
            n == v@.len(),
            first_occurrence(v@, p@, 0) == first_occurrence(v@, p@, i as int),
        decreases n - i,
    {
        if p.len() > n - i {
            return None;
        }
        if matches_at(v, i, p) {
            return Some(i);
        }
        if i >= n {
            return None;
        }
        i = i + 1;
    }
}

fn host_of(url: &str) -> (r: String)
    ensures
        r@ == host_spec(url@),
{
    let v = chars_of(url);
    let sep = chars_of("://");
    proof {
        reveal_strlit("://");
        lemma_first_occurrence(v@, sep@, 0);
    }
    let rest = match find_occurrence(&v, &sep) {
        Some(i) => {
            let n = v.len();
            let r = string_of_range(&v, i + 3, n);
            assert(r@ =~= url@.skip(i + 3));
            r
        },
        None => owned(url),
    };
    let rv = chars_of(rest.as_str());
    match find_sep(&rv, '/', ':') {
        Some(j) => {
            proof {
                lemma_first_sep(rv@, '/', ':');
            }
            let h = string_of_range(&rv, 0, j);
            assert(h@ =~= rest@.take(j as int));
            h
        },
        None => rest,
    }
}

fn without_leading_dots(s: &str) -> (r: String)
    ensures
        r@ == drop_dots(s@),
{
    let v = chars_of(s);
    let mut i: usize = 0;
    assert(v@.skip(0) =~= v@);
    while i < v.len() && v[i] == '.'
        invariant
            i <= v@.len(),
            v@ == s@,
            drop_dots(v@) == drop_dots(v@.skip(i as int)),
        decreases v@.len() - i,
    {
        assert(v@.skip(i as int).drop_first() =~= v@.skip(i + 1));
        i = i + 1;
    }
    let r = string_of_range(&v, i, v.len());
    assert(r@ =~= v@.skip(i as int));
    r
}

pub fn host_matches(url: &str, allowed_suffix: &str) -> (r: bool)
    ensures
        r == host_matches_spec(url@, allowed_suffix@),
{
    let host = host_of(url);
    let suffix = without_leading_dots(allowed_suffix);
    let mut dotted = String::new();
    dotted.push('.');
    push_all(&mut dotted, suffix.as_str());
    str_eq(host.as_str(), suffix.as_str()) || ends_with(host.as_str(), dotted.as_str())
}

pub open spec fn texts_of(v: Seq<String>) -> Seq<Seq<char>> {
    v.map_values(|s: String| s@)
}

/// The callback-host policy: an empty allowlist allows everything.
pub fn allowlist_ok(allowlist: &[String], url: &str) -> (r: bool)
    ensures
        r == allowlist_spec(texts_of(allowlist@), url@),
{
    let ghost al = texts_of(allowlist@);
    if allowlist.len() == 0 {
        return true;
    }
    let mut i: usize = 0;
    while i < allowlist.len()
        invariant
            i <= allowlist@.len(),
            al == texts_of(allowlist@),
            forall|k: int| 0 <= k < i ==> !host_matches_spec(url@, #[trigger] al[k]),
        decreases allowlist@.len() - i,
    {
        if host_matches(url, allowlist[i].as_str()) {
            assert(al[i as int] == allowlist@[i as int]@);
            return true;
        }
        i = i + 1;
    }
    false
}

// ---------------------------------------------------------------------------
// leases
// ---------------------------------------------------------------------------

/// Lease when hub.lease_seconds is omitted.
pub const DEFAULT_LEASE_SECS: u64 = 86_400;

/// Longest lease granted (no perpetual leases).
pub const MAX_LEASE_SECS: u64 = 864_000;

/// Shortest lease granted.
pub const MIN_LEASE_SECS: u64 = 60;

pub open spec fn clamp_lease_spec(requested: Option<u64>) -> u64 {
    let r = match requested {
        Some(x) => x,
        None => DEFAULT_LEASE_SECS,
    };
    if r < MIN_LEASE_SECS {
        MIN_LEASE_SECS
    } else if r > MAX_LEASE_SECS {
        MAX_LEASE_SECS
    } else {
        r
    }
}

/// The granted lease: the requested one (or the default) within bounds.
pub fn clamp_lease(requested: Option<u64>) -> (r: u64)
    ensures
        r == clamp_lease_spec(requested),
        MIN_LEASE_SECS <= r <= MAX_LEASE_SECS,
{
    let r = match requested {
        Some(x) => x,
        None => DEFAULT_LEASE_SECS,
    };
    if r < MIN_LEASE_SECS {
        MIN_LEASE_SECS
    } else if r > MAX_LEASE_SECS {
        MAX_LEASE_SECS
    } else {
        r
    }
}

// ---------------------------------------------------------------------------
// callback URLs and challenges
// ---------------------------------------------------------------------------

/// Bytes a URL carries as they are: ASCII alphanumerics and `-` `.` `_` `~`.
pub open spec fn url_unreserved(b: u8) -> bool {
    (48 <= b <= 57) || (65 <= b <= 90) || (97 <= b <= 122) || b == 45 || b == 46 || b == 95 || b == 126
}

/// An uppercase hex digit.
pub open spec fn upper_hex(d: nat) -> char {
    if d < 10 {
        (d + 48) as char
    } else {
        (d - 10 + 65) as char
    }
}

/// Percent-encoding of bytes: unreserved bytes as themselves, every other
/// byte as '%' and two uppercase hex digits.
pub open spec fn url_encode_bytes(bs: Seq<u8>) -> Seq<char>
    decreases bs.len(),
{
    if bs.len() == 0 {
        Seq::empty()
    } else {
        let b = bs.last();
        url_encode_bytes(bs.drop_last()) + if url_unreserved(b) {
            seq![b as char]
        } else {
            seq!['%', upper_hex((b / 16) as nat), upper_hex((b % 16) as nat)]
        }
    }
}

/// `urlencoding::encode`: the percent-encoding of the text's UTF-8 bytes.
pub open spec fn url_encoded(s: Seq<char>) -> Seq<char> {
    url_encode_bytes(vstd::utf8::encode_utf8(s))
}

/// `urlencoding::encode(s)`, a function of `s` alone.
#[verifier::external_body]
fn url_encode(s: &str) -> (r: String)
    ensures
        r@ == url_encoded(s@),
{
    urlencoding::encode(s).into_owned()
}

/// The callback with `key=value` appended to its query string (existing
/// parameters are kept and never overwritten).
pub open spec fn append_query_spec(callback: Seq<char>, key: Seq<char>, value: Seq<char>) -> Seq<char> {
    callback + (if has_char(callback, '?') {
        seq!['&']
    } else {
        seq!['?']
    }) + key + seq!['='] + url_encoded(value)
}

pub fn append_query(callback: &str, key: &str, value: &str) -> (r: String)
    ensures
        r@ == append_query_spec(callback@, key@, value@),
        is_prefix(callback@, r@),
{
    let mut out = owned(callback);
    if crate::text::contains_char(callback, '?') {
        out.push('&');
    } else {
        out.push('?');
    }
    push_all(&mut out, key);
    out.push('=');
    let enc = url_encode(value);
    push_all(&mut out, enc.as_str());
    assert(out@.subrange(0, callback@.len() as int) =~= callback@);
    out
}

/// A uniformly drawn index below `n` (`rand::rng().random_range(0..n)`).
#[verifier::external_body]
fn random_below(n: usize) -> (r: usize)
    requires
        n > 0,
    ensures
        r < n,
{
    rand::Rng::random_range(&mut rand::rng(), 0..n)
}

/// The characters challenges are drawn from: ASCII alphanumerics, '-' and
/// '_' (a URL-safe subset of the set WebSub allows).
pub open spec fn challenge_charset(c: char) -> bool {
    ('A' <= c <= 'Z') || ('a' <= c <= 'z') || ('0' <= c <= '9') || c == '-' || c == '_'
}

/// The `d`-th character of the challenge alphabet.
pub open spec fn challenge_char(d: nat) -> char {
    if d < 26 {
        (('A' as nat) + d) as char
    } else if d < 52 {
        (('a' as nat) + (d - 26)) as char
    } else if d < 62 {
        (('0' as nat) + (d - 52)) as char
    } else if d == 62 {
        '-'
    } else {
        '_'
    }
}

/// The characters WebSub allows in a challenge: + - . / 0-9 = A-Z _ a-z.
pub open spec fn challenge_allowed(c: char) -> bool {
    c == '+' || ('-' <= c <= '9') || c == '=' || ('A' <= c <= 'Z') || c == '_' || ('a' <= c <= 'z')
}

fn challenge_char_exec(d: usize) -> (c: char)
    requires
        d < 64,
    ensures
        c == challenge_char(d as nat),
        challenge_charset(c),
        challenge_allowed(c),
{
    if d < 26 {
        ((65 + d) as u8) as char
    } else if d < 52 {
        ((97 + d - 26) as u8) as char
    } else if d < 62 {
        ((48 + d - 52) as u8) as char
    } else if d == 62 {
        '-'
    } else {
        '_'
    }
}

/// A random challenge of `len` characters, each ASCII alphanumeric, '-'
/// or '_'.
pub fn generate_challenge(len: usize) -> (r: String)
    ensures
        r@.len() == len,
        forall|i: int| 0 <= i < len ==> challenge_charset(#[trigger] r@[i]),
        forall|i: int| 0 <= i < len ==> challenge_allowed(#[trigger] r@[i]),
{
    let mut out = String::new();
    let mut i: usize = 0;
    while i < len
        invariant
            i <= len,
            out@.len() == i,
            forall|k: int| 0 <= k < i ==> challenge_charset(#[trigger] out@[k]),
            forall|k: int| 0 <= k < i ==> challenge_allowed(#[trigger] out@[k]),
        decreases len - i,
    {
        let d = random_below(64);
        let c = challenge_char_exec(d);
        out.push(c);
        i = i + 1;
    }
    out
}

/// Eight random bytes (`rand::rng().random()`).
#[verifier::external_body]
fn random_bytes8() -> (r: [u8; 8]) {
    rand::Rng::random(&mut rand::rng())
}

/// A random per-mutation event id: 16 lowercase hex digits.
pub fn random_event_id() -> (r: String)
    ensures
        exists|b: Seq<u8>| b.len() == 8 && r@ == #[trigger] crate::text::hex_of(b),
{
    let bytes = random_bytes8();
    let r = crate::text::hex(bytes.as_slice());
    assert(r@ == crate::text::hex_of(bytes@));
    r
}

// ---------------------------------------------------------------------------
// errors and request policy
// ---------------------------------------------------------------------------

/// Why the hub refused a request.
#[derive(Debug)]
pub enum HubError {
    /// A bad request, with a plain-text description.
    BadRequest(String),
    /// A topic the hub's policy refuses.
    UnknownTopic(String),
    /// The per-callback rate limit is exhausted.
    TooManyRequests,
}

/// Hub configuration.
pub struct HubConfig {
    pub queue_capacity: usize,
    pub workers: usize,
    /// External hubs advertised and notified on every mutation.
    pub external_hubs: Vec<String>,
    /// Accept third-party topics (any http(s) URL).
    pub open_hub: bool,
    /// Sharding: total replica count and this replica's index.
    pub replica_count: u64,
    pub replica_index: u64,
    /// Public base URL for absolute rel=self / rel=hub links.
    pub public_url: String,
    /// Require https:// callbacks when hub.secret is used.
    pub require_https_callbacks: bool,
    /// Allowed callback host suffixes (empty: allow all).
    pub callback_allowlist: Vec<String>,
}

/// The first refusal of a subscription request before rate limiting, if any.
pub open spec fn subscribe_refusal(
    topic: Seq<char>,
    callback: Seq<char>,
    has_secret: bool,
    open_hub: bool,
    require_https: bool,
    allowlist: Seq<Seq<char>>,
) -> Option<(bool, Seq<char>)> {
    if !topic_allowed_spec(topic, open_hub) {
        Some((false, "unknown topic: "@ + topic))
    } else if resolve_spec(topic) is None && !allowlist_spec(allowlist, topic) {
        Some((true, "topic URL host is not in the configured allowlist"@))
    } else if has_secret && require_https && !is_prefix("https://"@, callback) {
        Some((true, "hub.secret requires an https:// callback (hub policy)"@))
    } else if !allowlist_spec(allowlist, callback) {
        Some((true, "hub.callback host is not in the configured allowlist"@))
    } else {
        None
    }
}

/// The model of a hub error: (is a bad request, message), or None for
/// TooManyRequests.
pub open spec fn hub_error_model(e: HubError) -> Option<(bool, Seq<char>)> {
    match e {
        HubError::BadRequest(m) => Some((true, m@)),
        HubError::UnknownTopic(m) => Some((false, m@)),
        HubError::TooManyRequests => None,
    }
}

fn unknown_topic(topic: &str) -> (e: HubError)
    ensures
        hub_error_model(e) == Some((false, "unknown topic: "@ + topic@)),
{
    let mut m = owned("unknown topic: ");
    push_all(&mut m, topic);
    HubError::UnknownTopic(m)
}

/// The topic policy of subscribe and unsubscribe: the accepted topic, or
/// UnknownTopic.
pub fn check_topic(config: &HubConfig, topic: &str) -> (r: Result<String, HubError>)
    ensures
        r is Ok <==> topic_allowed_spec(topic@, config.open_hub),
        r matches Ok(t) ==> t@ == topic@,
        r matches Err(e) ==> hub_error_model(e) == Some((false, "unknown topic: "@ + topic@)),
{
    match topic_allowed(topic, config.open_hub) {
        Some(t) => Ok(t),
        None => Err(unknown_topic(topic)),
    }
}

/// The policy checks of a subscription request that come before rate
/// limiting: topic policy, third-party topic host allowlist, https
/// callbacks for secrets, callback host allowlist. Returns the accepted
/// topic.
pub fn check_subscribe(config: &HubConfig, topic: &str, callback: &str, has_secret: bool) -> (r: Result<
    String,
    HubError,
>)
    ensures
        r is Ok <==> subscribe_refusal(
            topic@,
            callback@,
            has_secret,
            config.open_hub,
            config.require_https_callbacks,
            texts_of(config.callback_allowlist@),
        ) is None,
        r matches Ok(t) ==> t@ == topic@,
        r matches Err(e) ==> hub_error_model(e) == subscribe_refusal(
            topic@,
            callback@,
            has_secret,
            config.open_hub,
            config.require_https_callbacks,
            texts_of(config.callback_allowlist@),
        ),
{
    let canonical = match topic_allowed(topic, config.open_hub) {
        Some(t) => t,
        None => {
            return Err(unknown_topic(topic));
        },
    };
    if resolve_topic(topic).is_none() && !allowlist_ok(config.callback_allowlist.as_slice(), topic) {
        return Err(HubError::BadRequest(owned("topic URL host is not in the configured allowlist")));
    }
    if has_secret && config.require_https_callbacks && !starts_with(callback, "https://") {
        return Err(HubError::BadRequest(owned("hub.secret requires an https:// callback (hub policy)")));
    }
    if !allowlist_ok(config.callback_allowlist.as_slice(), callback) {
        return Err(HubError::BadRequest(owned("hub.callback host is not in the configured allowlist")));
    }
    Ok(canonical)
}

/// hub.secret must be less than 200 bytes.
pub fn check_secret(secret: Option<&str>) -> (r: Result<(), HubError>)
    ensures
        r is Ok <==> (secret matches Some(s) ==> encode_utf8(s@).len() < 200),
        r matches Err(e) ==> hub_error_model(e) == Some((true, "hub.secret must be less than 200 bytes"@)),
{
    match secret {
        Some(s) => if s.as_bytes().len() >= 200 {
            Err(HubError::BadRequest(owned("hub.secret must be less than 200 bytes")))
        } else {
            Ok(())
        },
        None => Ok(()),
    }
}

/// The HTTP status and plain-text body answering a refused hub request.
pub fn hub_error(e: HubError) -> (r: (u16, String))
    ensures
        match hub_error_model(e) {
            Some((true, m)) => r.0 == 400 && r.1@ == m,
            Some((false, m)) => r.0 == 404 && r.1@ == m,
            None => r.0 == 429 && r.1@ == "subscription rate limit exceeded for this callback"@,
        },
{
    match e {
        HubError::UnknownTopic(m) => (404, m),
        HubError::BadRequest(m) => (400, m),
        HubError::TooManyRequests => (429, owned("subscription rate limit exceeded for this callback")),
    }
}

// ---------------------------------------------------------------------------
// the subscription table
// ---------------------------------------------------------------------------

/// One active subscription: the subscriber's secret (drives signed
/// distribution) and its lease deadline in Unix-epoch seconds.
#[derive(Clone)]
pub struct Subscription {
    pub secret: Option<String>,
    pub lease_expires_epoch: u64,
}

/// Model of a table entry: (topic, callback, secret, lease deadline).
pub type SubEntry = (Seq<char>, Seq<char>, Option<Seq<char>>, u64);

pub open spec fn opt_string_view(o: Option<String>) -> Option<Seq<char>> {
    match o {
        Some(s) => Some(s@),
        None => None,
    }
}

pub open spec fn entry_model(e: (String, String, Subscription)) -> SubEntry {
    (e.0@, e.1@, opt_string_view(e.2.secret), e.2.lease_expires_epoch)
}

/// Index of the entry for (topic, callback).
pub open spec fn key_index(es: Seq<SubEntry>, topic: Seq<char>, callback: Seq<char>) -> Option<int>
    decreases es.len(),
{
    if es.len() == 0 {
        None
    } else {
        match key_index(es.drop_last(), topic, callback) {
            Some(i) => Some(i),
            None => if es.last().0 == topic && es.last().1 == callback {
                Some(es.len() - 1)
            } else {
                None
            },
        }
    }
}

pub proof fn lemma_key_index(es: Seq<SubEntry>, topic: Seq<char>, callback: Seq<char>)
    ensures
        key_index(es, topic, callback) matches Some(i) ==> 0 <= i < es.len() && es[i].0 == topic
            && es[i].1 == callback && forall|j: int|
            0 <= j < i ==> !(es[j].0 == topic && es[j].1 == callback),
        key_index(es, topic, callback) is None ==> forall|j: int|
            0 <= j < es.len() ==> !(es[j].0 == topic && es[j].1 == callback),
    decreases es.len(),
{
    if es.len() > 0 {
        let d = es.drop_last();
        lemma_key_index(d, topic, callback);
        assert(forall|j: int| 0 <= j < d.len() ==> d[j] == es[j]);
    }
}

/// One entry per (topic, callback).
pub open spec fn keys_unique(es: Seq<SubEntry>) -> bool {
    forall|i: int, j: int|
        0 <= i < es.len() && 0 <= j < es.len() && i != j ==> !(es[i].0 == es[j].0 && es[i].1 == es[j].1)
}

/// Insert or replace the entry for its (topic, callback).
pub open spec fn upsert_spec(es: Seq<SubEntry>, e: SubEntry) -> Seq<SubEntry> {
    match key_index(es, e.0, e.1) {
        Some(i) => es.update(i, e),
        None => es.push(e),
    }
}

/// Remove the entry for (topic, callback), if any.
pub open spec fn delete_spec(es: Seq<SubEntry>, topic: Seq<char>, callback: Seq<char>) -> Seq<SubEntry> {
    match key_index(es, topic, callback) {
        Some(i) => es.remove(i),
        None => es,
    }
}

/// The subscription for (topic, callback): (secret, lease deadline).
pub open spec fn lookup_spec(es: Seq<SubEntry>, topic: Seq<char>, callback: Seq<char>) -> Option<
    (Option<Seq<char>>, u64),
> {
    match key_index(es, topic, callback) {
        Some(i) => Some((es[i].2, es[i].3)),
        None => None,
    }
}

/// The hub's subscriptions, keyed by the (topic, callback) tuple as
/// submitted.
pub struct SubscriptionTable {
    entries: Vec<(String, String, Subscription)>,
}

impl View for SubscriptionTable {
    type V = Seq<SubEntry>;

    closed spec fn view(&self) -> Seq<SubEntry> {
        self.entries@.map_values(|e: (String, String, Subscription)| entry_model(e))
    }
}

impl SubscriptionTable {
    pub open spec fn wf(&self) -> bool {
        keys_unique(self@)
    }

    pub fn new() -> (r: Self)
        ensures
            r@ == Seq::<SubEntry>::empty(),
            r.wf(),
    {
        let r = SubscriptionTable { entries: Vec::new() };
        assert(r@ =~= Seq::<SubEntry>::empty());
        r
    }

    pub fn len(&self) -> (r: usize)
        ensures
            r == self@.len(),
    {
        self.entries.len()
    }

    fn find(&self, topic: &str, callback: &str) -> (r: Option<usize>)
        ensures
            match r {
                Some(i) => key_index(self@, topic@, callback@) == Some(i as int),
                None => key_index(self@, topic@, callback@) is None,
            },
    {
        let ghost es = self@;
        proof {
            lemma_key_index(es, topic@, callback@);
        }
        let mut i: usize = 0;
        while i < self.entries.len()
            invariant
                i <= self.entries@.len(),
                es == self@,
                es.len() == self.entries@.len(),
                forall|j: int| 0 <= j < i ==> !(es[j].0 == topic@ && es[j].1 == callback@),
                key_index(es, topic@, callback@) matches Some(m) ==> 0 <= m < es.len() && es[m].0
                    == topic@ && es[m].1 == callback@ && forall|j: int|
                    0 <= j < m ==> !(es[j].0 == topic@ && es[j].1 == callback@),
                key_index(es, topic@, callback@) is None ==> forall|j: int|
                    0 <= j < es.len() ==> !(es[j].0 == topic@ && es[j].1 == callback@),
            decreases self.entries@.len() - i,
        {
            assert(es[i as int] == entry_model(self.entries@[i as int]));
            if str_eq(self.entries[i].0.as_str(), topic) && str_eq(self.entries[i].1.as_str(), callback) {
                proof {
                    if key_index(es, topic@, callback@) is Some {
                        let m = key_index(es, topic@, callback@)->0;
                        assert(m >= i);
                        assert(m <= i);
                    }
                }
                return Some(i);
            }
            i = i + 1;
        }
        None
    }

    /// The subscription for (topic, callback).
    pub fn get(&self, topic: &str, callback: &str) -> (r: Option<&Subscription>)
        ensures
            match r {
                Some(s) => lookup_spec(self@, topic@, callback@) == Some(
                    (opt_string_view(s.secret), s.lease_expires_epoch),
                ),
                None => lookup_spec(self@, topic@, callback@) is None,
            },
    {
        proof {
            lemma_key_index(self@, topic@, callback@);
        }
        assert(self@.len() == self.entries@.len());
        match self.find(topic, callback) {
            Some(i) => {
                assert(self@[i as int] == entry_model(self.entries@[i as int]));
                Some(&self.entries[i].2)
            },
            None => None,
        }
    }

    /// Creates or replaces the subscription for (topic, callback).
    pub fn insert(&mut self, topic: String, callback: String, sub: Subscription)
        requires
            old(self).wf(),
        ensures
            final(self).wf(),
            final(self)@ == upsert_spec(
                old(self)@,
                (topic@, callback@, opt_string_view(sub.secret), sub.lease_expires_epoch),
            ),
    {
        let ghost e = (topic@, callback@, opt_string_view(sub.secret), sub.lease_expires_epoch);
        let ghost es = self@;
        proof {
            lemma_key_index(es, topic@, callback@);
        }
        assert(es.len() == self.entries@.len());
        match self.find(topic.as_str(), callback.as_str()) {
            Some(i) => {
                self.entries.set(i, (topic, callback, sub));
                assert(self@ =~= es.update(i as int, e));
            },
            None => {
                self.entries.push((topic, callback, sub));
                assert(self@ =~= es.push(e));
            },
        }
    }

    /// Removes the subscription for (topic, callback), if any.
    pub fn remove(&mut self, topic: &str, callback: &str)
        requires
            old(self).wf(),
        ensures
            final(self).wf(),
            final(self)@ == delete_spec(old(self)@, topic@, callback@),
    {
        let ghost es = self@;
        proof {
            lemma_key_index(es, topic@, callback@);
        }
        assert(es.len() == self.entries@.len());
        match self.find(topic, callback) {
            Some(i) => {
                self.entries.remove(i);
                assert(self@ =~= es.remove(i as int));
            },
            None => {},
        }
    }
}

/// Whether this replica delivers for the entry: its topic matches the
/// publishing topic, its lease is live, and it is in this replica's shard.
pub open spec fn owned_pred(e: SubEntry, topic: Seq<char>, now: u64, count: u64, index: u64) -> bool {
    &&& topic_matches_spec(e.0, topic)
    &&& e.3 > now
    &&& owner_spec(persist_id_spec(e.0, e.1), count) == index
}

/// (callback, secret) of each owned live subscriber of `topic`, in table order.
pub open spec fn owned_spec(es: Seq<SubEntry>, topic: Seq<char>, now: u64, count: u64, index: u64) -> Seq<
    (Seq<char>, Option<Seq<char>>),
>
    decreases es.len(),
{
    if es.len() == 0 {
        Seq::empty()
    } else {
        let prev = owned_spec(es.drop_last(), topic, now, count, index);
        if owned_pred(es.last(), topic, now, count, index) {
            prev.push((es.last().1, es.last().2))
        } else {
            prev
        }
    }
}

/// Number of live subscriptions whose topic matches `topic`.
pub open spec fn live_count(es: Seq<SubEntry>, topic: Seq<char>, now: u64) -> nat
    decreases es.len(),
{
    if es.len() == 0 {
        0
    } else {
        live_count(es.drop_last(), topic, now) + if topic_matches_spec(es.last().0, topic)
            && es.last().3 > now {
            1nat
        } else {
            0nat
        }
    }
}

/// Ids of the expired subscriptions of this replica's shard, in table
/// order.
pub open spec fn expired_ids_spec(es: Seq<SubEntry>, now: u64, count: u64, index: u64) -> Seq<Seq<char>>
    decreases es.len(),
{
    if es.len() == 0 {
        Seq::empty()
    } else {
        let prev = expired_ids_spec(es.drop_last(), now, count, index);
        let id = persist_id_spec(es.last().0, es.last().1);
        if es.last().3 <= now && owner_spec(id, count) == index {
            prev.push(id)
        } else {
            prev
        }
    }
}

/// The entries a sweep keeps: live ones, and expired ones of other shards.
pub open spec fn swept_spec(es: Seq<SubEntry>, now: u64, count: u64, index: u64) -> Seq<SubEntry>
    decreases es.len(),
{
    if es.len() == 0 {
        Seq::empty()
    } else {
        let prev = swept_spec(es.drop_last(), now, count, index);
        let e = es.last();
        if e.3 > now || owner_spec(persist_id_spec(e.0, e.1), count) != index {
            prev.push(e)
        } else {
            prev
        }
    }
}

/// The topics with live subscriptions, each once, in order of first
/// appearance.
pub open spec fn live_topics(es: Seq<SubEntry>, now: u64) -> Seq<Seq<char>>
    decreases es.len(),
{
    if es.len() == 0 {
        Seq::empty()
    } else {
        let prev = live_topics(es.drop_last(), now);
        if es.last().3 > now && !prev.contains(es.last().0) {
            prev.push(es.last().0)
        } else {
            prev
        }
    }
}

/// Number of live subscriptions submitted with exactly the topic `t`.
pub open spec fn topic_live_count(es: Seq<SubEntry>, t: Seq<char>, now: u64) -> nat
    decreases es.len(),
{
    if es.len() == 0 {
        0
    } else {
        topic_live_count(es.drop_last(), t, now) + if es.last().0 == t && es.last().3 > now {
            1nat
        } else {
            0nat
        }
    }
}

proof fn lemma_live_topics_distinct(es: Seq<SubEntry>, now: u64)
    ensures
        live_topics(es, now).no_duplicates(),
    decreases es.len(),
{
    if es.len() > 0 {
        lemma_live_topics_distinct(es.drop_last(), now);
    }
}

proof fn lemma_live_topics_count(es: Seq<SubEntry>, now: u64, t: Seq<char>)
    ensures
        live_topics(es, now).contains(t) <==> topic_live_count(es, t, now) > 0,
    decreases es.len(),
{
    if es.len() > 0 {
        let d = es.drop_last();
        lemma_live_topics_count(d, now, t);
        let prev = live_topics(d, now);
        let x = es.last().0;
        let q = prev.push(x);
        if prev.contains(t) {
            let k = choose|k: int| 0 <= k < prev.len() && prev[k] == t;
            assert(q[k] == t);
        }
        if q.contains(t) && !prev.contains(t) {
            let k = choose|k: int| 0 <= k < q.len() && q[k] == t;
            assert(k == prev.len());
        }
        if x == t {
            assert(q[prev.len() as int] == t);
        }
    }
}

impl SubscriptionTable {
    /// (callback, secret) of the live subscribers of `topic` that this
    /// replica (`index` of `count`) owns.
    pub fn owned_subs(&self, topic: &str, now: u64, count: u64, index: u64) -> (r: Vec<
        (String, Option<String>),
    >)
        ensures
            r@.map_values(|p: (String, Option<String>)| (p.0@, opt_string_view(p.1))) == owned_spec(
                self@,
                topic@,
                now,
                count,
                index,
            ),
    {
        let ghost es = self@;
        let mut out: Vec<(String, Option<String>)> = Vec::new();
        let mut i: usize = 0;
        while i < self.entries.len()
            invariant
                i <= self.entries@.len(),
                es == self@,
                es.len() == self.entries@.len(),
                out@.map_values(|p: (String, Option<String>)| (p.0@, opt_string_view(p.1))) == owned_spec(
                    es.take(i as int),
                    topic@,
                    now,
                    count,
                    index,
                ),
            decreases self.entries@.len() - i,
        {
            let e = &self.entries[i];
            assert(es[i as int] == entry_model(self.entries@[i as int]));
            assert(es.take(i + 1).drop_last() =~= es.take(i as int));
            let ghost before = out@;
            if topic_matches(e.0.as_str(), topic) && e.2.lease_expires_epoch > now {
                let id = crate::store::subscription_persist_id(e.0.as_str(), e.1.as_str());
                if crate::store::owner_of(id.as_str(), count) == index {
                    let secret = match &e.2.secret {
                        Some(s) => Some(owned(s.as_str())),
                        None => None,
                    };
                    out.push((owned(e.1.as_str()), secret));
                    assert(out@.map_values(|p: (String, Option<String>)| (p.0@, opt_string_view(p.1)))
                        =~= before.map_values(|p: (String, Option<String>)| (p.0@, opt_string_view(p.1))).push(
                        (es[i as int].1, es[i as int].2),
                    ));
                }
            }
            i = i + 1;
        }
        assert(es.take(i as int) =~= es);
        out
    }

    /// Number of live subscriptions whose topic matches `topic`, on every
    /// replica's shard.
    pub fn live_total(&self, topic: &str, now: u64) -> (r: usize)
        ensures
            r == live_count(self@, topic@, now),
    {
        let ghost es = self@;
        let mut n: usize = 0;
        let mut i: usize = 0;
        while i < self.entries.len()
            invariant
                i <= self.entries@.len(),
                es == self@,
                es.len() == self.entries@.len(),
                n == live_count(es.take(i as int), topic@, now),
                n <= i,
            decreases self.entries@.len() - i,
        {
            assert(es[i as int] == entry_model(self.entries@[i as int]));
            assert(es.take(i + 1).drop_last() =~= es.take(i as int));
            if topic_matches(self.entries[i].0.as_str(), topic) && self.entries[i].2.lease_expires_epoch > now {
                n = n + 1;
            }
            i = i + 1;
        }
        assert(es.take(i as int) =~= es);
        n
    }

    /// One pass of the lease sweeper: removes the expired subscriptions of
    /// this replica's shard and returns their ids; other shards' entries
    /// stay for their own replicas.
    pub fn expire_sweep(&mut self, now: u64, count: u64, index: u64) -> (r: Vec<String>)
        requires
            old(self).wf(),
        ensures
            final(self).wf(),
            final(self)@ == swept_spec(old(self)@, now, count, index),
            r@.map_values(|s: String| s@) == expired_ids_spec(old(self)@, now, count, index),
    {
        let ghost es = self@;
        let mut kept: Vec<(String, String, Subscription)> = Vec::new();
        let mut ids: Vec<String> = Vec::new();
        let n = self.entries.len();
        let mut i: usize = 0;
        while i < n
            invariant
                i <= n,
                n == es.len(),
                es == self@,
                es.len() == self.entries@.len(),
                kept@.map_values(|e: (String, String, Subscription)| entry_model(e)) == swept_spec(
                    es.take(i as int),
                    now,
                    count,
                    index,
                ),
                ids@.map_values(|s: String| s@) == expired_ids_spec(es.take(i as int), now, count, index),
            decreases n - i,
        {
            let e = copy_entry(&self.entries[i]);
            assert(entry_model(self.entries@[i as int]) == es[i as int]);
            assert(es.take(i + 1).drop_last() =~= es.take(i as int));
            let id = crate::store::subscription_persist_id(e.0.as_str(), e.1.as_str());
            let expired = e.2.lease_expires_epoch <= now;
            let ghost kv = kept@;
            let ghost iv = ids@;
            let owned_here = crate::store::owner_of(id.as_str(), count) == index;
            let keep = !expired || !owned_here;
            if expired && owned_here {
                ids.push(id);
                assert(ids@.map_values(|s: String| s@) =~= iv.map_values(|s: String| s@).push(
                    persist_id_spec(es[i as int].0, es[i as int].1),
                ));
            }
            if keep {
                kept.push(e);
                assert(kept@.map_values(|e: (String, String, Subscription)| entry_model(e)) =~= kv.map_values(
                    |e: (String, String, Subscription)| entry_model(e),
                ).push(es[i as int]));
            }
            i = i + 1;
        }
        assert(es.take(i as int) =~= es);
        self.entries = kept;
        proof {
            lemma_swept_unique(es, now, count, index);
        }
        ids
    }
}

fn copy_entry(e: &(String, String, Subscription)) -> (r: (String, String, Subscription))
    ensures
        entry_model(r) == entry_model(*e),
{
    let secret = match &e.2.secret {
        Some(s) => Some(owned(s.as_str())),
        None => None,
    };
    (owned(e.0.as_str()), owned(e.1.as_str()), Subscription { secret, lease_expires_epoch: e.2.lease_expires_epoch })
}

proof fn lemma_swept_unique(es: Seq<SubEntry>, now: u64, count: u64, index: u64)
    requires
        keys_unique(es),
    ensures
        keys_unique(swept_spec(es, now, count, index)),
        forall|k: int|
            0 <= k < swept_spec(es, now, count, index).len() ==> es.contains(
                #[trigger] swept_spec(es, now, count, index)[k],
            ),
    decreases es.len(),
{
    if es.len() > 0 {
        let d = es.drop_last();
        assert(keys_unique(d));
        lemma_swept_unique(d, now, count, index);
        let p = swept_spec(d, now, count, index);
        assert forall|k: int| 0 <= k < p.len() implies es.contains(#[trigger] p[k]) by {
            let j = choose|j: int| 0 <= j < d.len() && d[j] == p[k];
            assert(es[j] == p[k]);
        }
        assert forall|k: int| 0 <= k < p.len() implies !(p[k].0 == es.last().0 && p[k].1 == es.last().1) by {
            let j = choose|j: int| 0 <= j < d.len() && d[j] == p[k];
            assert(es[j] == p[k]);
            assert(j != es.len() - 1);
        }
        assert(es.contains(es.last()) || true);
        assert(es[es.len() - 1] == es.last());
    }
}

pub open spec fn count_pairs(v: Seq<(String, usize)>) -> Seq<(Seq<char>, nat)> {
    v.map_values(|p: (String, usize)| (p.0@, p.1 as nat))
}

impl SubscriptionTable {
    /// Live subscription counts per submitted topic: each topic with a live
    /// subscription once, in order of first appearance, with its count.
    pub fn subscription_counts(&self, now: u64) -> (r: Vec<(String, usize)>)
        ensures
            count_pairs(r@).map_values(|p: (Seq<char>, nat)| p.0) == live_topics(self@, now),
            forall|k: int|
                0 <= k < r@.len() ==> (#[trigger] count_pairs(r@)[k]).1 == topic_live_count(
                    self@,
                    count_pairs(r@)[k].0,
                    now,
                ),
    {
        let ghost es = self@;
        let mut out: Vec<(String, usize)> = Vec::new();
        let mut i: usize = 0;
        assert(count_pairs(out@).map_values(|p: (Seq<char>, nat)| p.0) =~= live_topics(es.take(0), now));
        while i < self.entries.len()
            invariant
                i <= self.entries@.len(),
                es == self@,
                es.len() == self.entries@.len(),
                count_pairs(out@).map_values(|p: (Seq<char>, nat)| p.0) == live_topics(es.take(i as int), now),
                counts_match(count_pairs(out@), es.take(i as int), now, i as nat),
            decreases self.entries@.len() - i,
        {
            assert(es[i as int] == entry_model(self.entries@[i as int]));
            let ghost prev = es.take(i as int);
            let ghost next = es.take(i + 1);
            assert(next.drop_last() =~= prev);
            let ghost ov = out@;
            let ghost cp0 = count_pairs(ov);
            proof {
                lemma_live_topics_distinct(prev, now);
            }
            if self.entries[i].2.lease_expires_epoch > now {
                let t = self.entries[i].0.as_str();
                let mut j: usize = 0;
                let mut found = false;
                while j < out.len()
                    invariant_except_break
                        !found,
                    invariant
                        j <= out@.len(),
                        out@ == ov,
                        forall|k: int| 0 <= k < j ==> out@[k].0@ != t@,
                    ensures
                        found ==> j < out@.len() && out@[j as int].0@ == t@,
                        !found ==> j == out@.len(),
                    decreases out@.len() - j,
                {
                    if str_eq(out[j].0.as_str(), t) {
                        found = true;
                        break;
                    }
                    j = j + 1;
                }
                let ghost tops = cp0.map_values(|p: (Seq<char>, nat)| p.0);
                assert(tops.len() == ov.len());
                assert(forall|k: int| 0 <= k < ov.len() ==> #[trigger] tops[k] == ov[k].0@);
                if found {
                    assert(cp0[j as int].1 <= i);
                    let c = out[j].1;
                    let name = owned(out[j].0.as_str());
                    out.set(j, (name, c + 1));
                    let ghost cp = count_pairs(out@);
                    assert(tops[j as int] == t@);
                    assert(tops.contains(t@));
                    assert(live_topics(next, now) == live_topics(prev, now));
                    assert(cp.map_values(|p: (Seq<char>, nat)| p.0) =~= tops);
                    assert forall|k: int| 0 <= k < cp.len() implies (#[trigger] cp[k]).1 == topic_live_count(
                        next,
                        cp[k].0,
                        now,
                    ) && cp[k].1 <= i + 1 by {
                        assert(cp0[k].1 == topic_live_count(prev, cp0[k].0, now) && cp0[k].1 <= i);
                        if k != j {
                            assert(tops[k] != tops[j as int]);
                            assert(cp[k] == cp0[k]);
                        }
                    }
                    assert(counts_match(cp, next, now, (i + 1) as nat));
                } else {
                    out.push((owned(t), 1));
                    let ghost cp = count_pairs(out@);
                    assert(forall|k: int| 0 <= k < tops.len() ==> tops[k] != t@);
                    assert(!tops.contains(t@));
                    proof {
                        lemma_live_topics_count(prev, now, t@);
                    }
                    assert(cp.map_values(|p: (Seq<char>, nat)| p.0) =~= tops.push(t@));
                    assert forall|k: int| 0 <= k < cp.len() implies (#[trigger] cp[k]).1 == topic_live_count(
                        next,
                        cp[k].0,
                        now,
                    ) && cp[k].1 <= i + 1 by {
                        if k < ov.len() {
                            assert(cp0[k].1 == topic_live_count(prev, cp0[k].0, now) && cp0[k].1 <= i);
                            assert(tops[k] != t@);
                            assert(cp[k] == cp0[k]);
                        }
                    }
                    assert(counts_match(cp, next, now, (i + 1) as nat));
                }
            } else {
                let ghost cp = count_pairs(out@);
                assert(cp.map_values(|p: (Seq<char>, nat)| p.0) == live_topics(next, now));
                assert forall|k: int| 0 <= k < cp.len() implies (#[trigger] cp[k]).1 == topic_live_count(
                    next,
                    cp[k].0,
                    now,
                ) && cp[k].1 <= i + 1 by {
                    assert(cp0[k].1 == topic_live_count(prev, cp0[k].0, now) && cp0[k].1 <= i);
                }
                assert(counts_match(cp, next, now, (i + 1) as nat));
            }
            i = i + 1;
        }
        assert(es.take(i as int) =~= es);
        out
    }
}

/// Each counted topic has its live count, no count above `bound`.
pub open spec fn counts_match(c: Seq<(Seq<char>, nat)>, es: Seq<SubEntry>, now: u64, bound: nat) -> bool {
    forall|k: int| 0 <= k < c.len() ==> (#[trigger] c[k]).1 == topic_live_count(es, c[k].0, now) && c[k].1 <= bound
}

/// Reading a subscription back after it was stored gives what was
/// stored; every other (topic, callback) reads as before.
pub proof fn lemma_lookup_after_insert(es: Seq<SubEntry>, e: SubEntry, topic: Seq<char>, callback: Seq<char>)
    requires
        keys_unique(es),
    ensures
        lookup_spec(upsert_spec(es, e), e.0, e.1) == Some((e.2, e.3)),
        !(topic == e.0 && callback == e.1) ==> lookup_spec(upsert_spec(es, e), topic, callback)
            == lookup_spec(es, topic, callback),
        keys_unique(upsert_spec(es, e)),
{
    let u = upsert_spec(es, e);
    lemma_key_index(es, e.0, e.1);
    lemma_key_index(es, topic, callback);
    lemma_key_index(u, e.0, e.1);
    lemma_key_index(u, topic, callback);
    match key_index(es, e.0, e.1) {
        Some(i) => {
            assert(u[i] == e);
            if key_index(u, e.0, e.1) != Some(i) {
                let m = key_index(u, e.0, e.1)->0;
                assert(m < i);
                assert(u[m] == es[m]);
            }
        },
        None => {
            assert(u[es.len() as int] == e);
        },
    }
    if !(topic == e.0 && callback == e.1) {
        assert(forall|j: int| 0 <= j < es.len() ==> (#[trigger] u[j].0 == topic && u[j].1 == callback) == (
        es[j].0 == topic && es[j].1 == callback));
        match key_index(es, topic, callback) {
            Some(j) => {
                assert(u[j] == es[j]);
                if key_index(u, topic, callback) != Some(j) {
                    if key_index(u, topic, callback) is Some {
                        let m = key_index(u, topic, callback)->0;
                        assert(m < es.len());
                    }
                }
            },
            None => {
                if key_index(u, topic, callback) is Some {
                    let m = key_index(u, topic, callback)->0;
                    assert(m < es.len());
                }
            },
        }
    }
}

/// After removal a (topic, callback) reads as absent; every other one
/// reads as before.
pub proof fn lemma_lookup_after_remove(es: Seq<SubEntry>, t: Seq<char>, c: Seq<char>, topic: Seq<char>, callback: Seq<char>)
    requires
        keys_unique(es),
    ensures
        lookup_spec(delete_spec(es, t, c), t, c) is None,
        !(topic == t && callback == c) ==> lookup_spec(delete_spec(es, t, c), topic, callback) == lookup_spec(
            es,
            topic,
            callback,
        ),
        keys_unique(delete_spec(es, t, c)),
{
    let d = delete_spec(es, t, c);
    lemma_key_index(es, t, c);
    lemma_key_index(es, topic, callback);
    lemma_key_index(d, t, c);
    lemma_key_index(d, topic, callback);
    match key_index(es, t, c) {
        Some(i) => {
            assert(forall|j: int| 0 <= j < d.len() ==> #[trigger] d[j] == if j < i { es[j] } else { es[j + 1] });
            if key_index(d, t, c) is Some {
                let m = key_index(d, t, c)->0;
                if m >= i {
                    assert(d[m] == es[m + 1]);
                }
            }
            if !(topic == t && callback == c) {
                match key_index(es, topic, callback) {
                    Some(j) => {
                        assert(j != i);
                        let jj = if j < i { j } else { j - 1 };
                        assert(d[jj] == es[j]);
                        if key_index(d, topic, callback) != Some(jj) {
                            let m = key_index(d, topic, callback)->0;
                            assert(m < jj);
                            if m < i {
                                assert(d[m] == es[m]);
                            } else {
                                assert(d[m] == es[m + 1]);
                            }
                        }
                    },
                    None => {
                        if key_index(d, topic, callback) is Some {
                            let m = key_index(d, topic, callback)->0;
                            if m < i {
                                assert(d[m] == es[m]);
                            } else {
                                assert(d[m] == es[m + 1]);
                            }
                        }
                    },
                }
            }
        },
        None => {},
    }
}

/// After a sweep no subscription of this replica's shard is expired, and
/// every live subscription is still there.
pub proof fn lemma_sweep_effect(es: Seq<SubEntry>, now: u64, count: u64, index: u64)
    ensures
        forall|k: int|
            0 <= k < swept_spec(es, now, count, index).len() ==> ({
                let e = #[trigger] swept_spec(es, now, count, index)[k];
                e.3 > now || owner_spec(persist_id_spec(e.0, e.1), count) != index
            }),
        forall|k: int| 0 <= k < es.len() && #[trigger] es[k].3 > now ==> swept_spec(es, now, count, index).contains(es[k]),
    decreases es.len(),
{
    if es.len() > 0 {
        let d = es.drop_last();
        lemma_sweep_effect(d, now, count, index);
        let p = swept_spec(d, now, count, index);
        assert forall|k: int| 0 <= k < es.len() && #[trigger] es[k].3 > now implies swept_spec(es, now, count, index).contains(es[k]) by {
            if k < es.len() - 1 {
                assert(d[k] == es[k]);
                assert(p.contains(d[k]));
                let j = choose|j: int| 0 <= j < p.len() && p[j] == d[k];
                assert(swept_spec(es, now, count, index)[j] == p[j]);
            } else {
                assert(swept_spec(es, now, count, index)[p.len() as int] == es.last());
            }
        }
    }
}

// ---------------------------------------------------------------------------
// intent verification
// ---------------------------------------------------------------------------

/// A subscriber's requested action.
pub enum Intent {
    Subscribe { secret: Option<String>, lease: u64 },
    Unsubscribe,
}

/// What verification does first: deny (GET the denial URL) when the hub's
/// topic policy no longer accepts the topic, else GET the verification URL.
pub enum VerificationStep {
    Deny { url: String },
    Request { mode: String, url: String },
}

/// The denial notification URL.
pub open spec fn denied_url_spec(callback: Seq<char>, topic: Seq<char>, reason: Seq<char>) -> Seq<char> {
    append_query_spec(
        append_query_spec(append_query_spec(callback, "hub.mode"@, "denied"@), "hub.topic"@, topic),
        "hub.reason"@,
        reason,
    )
}

pub fn denied_url(callback: &str, topic: &str, reason: &str) -> (r: String)
    ensures
        r@ == denied_url_spec(callback@, topic@, reason@),
{
    let u1 = append_query(callback, "hub.mode", "denied");
    let u2 = append_query(u1.as_str(), "hub.topic", topic);
    append_query(u2.as_str(), "hub.reason", reason)
}

/// The verification URL: hub.mode, hub.topic and hub.challenge, and for
/// subscriptions hub.lease_seconds, appended to the callback.
pub open spec fn verify_url_spec(callback: Seq<char>, mode: Seq<char>, topic: Seq<char>, challenge: Seq<char>) -> Seq<
    char,
> {
    append_query_spec(
        append_query_spec(append_query_spec(callback, "hub.mode"@, mode), "hub.topic"@, topic),
        "hub.challenge"@,
        challenge,
    )
}

pub open spec fn step_model(st: VerificationStep) -> (bool, Seq<char>, Seq<char>) {
    match st {
        VerificationStep::Deny { url } => (false, Seq::empty(), url@),
        VerificationStep::Request { mode, url } => (true, mode@, url@),
    }
}

pub open spec fn verification_step_spec(
    topic: Seq<char>,
    open_hub: bool,
    callback: Seq<char>,
    lease: Option<u64>,
    challenge: Seq<char>,
) -> (bool, Seq<char>, Seq<char>) {
    if !topic_allowed_spec(topic, open_hub) {
        (false, Seq::empty(), denied_url_spec(callback, topic, "topic is no longer available"@))
    } else {
        match lease {
            Some(l) => (
                true,
                "subscribe"@,
                append_query_spec(
                    verify_url_spec(callback, "subscribe"@, topic, challenge),
                    "hub.lease_seconds"@,
                    crate::text::dec(l as nat),
                ),
            ),
            None => (true, "unsubscribe"@, verify_url_spec(callback, "unsubscribe"@, topic, challenge)),
        }
    }
}

pub open spec fn intent_lease(intent: &Intent) -> Option<u64> {
    match intent {
        Intent::Subscribe { lease, .. } => Some(*lease),
        Intent::Unsubscribe => None,
    }
}

/// The first step of verifying `intent` for (topic, callback) with the
/// given challenge, under the hub's topic policy (`open_hub`).
pub fn verification_step(
    submitted_topic: &str,
    open_hub: bool,
    callback: &str,
    intent: &Intent,
    challenge: &str,
) -> (r: VerificationStep)
    ensures
        step_model(r) == verification_step_spec(
            submitted_topic@,
            open_hub,
            callback@,
            intent_lease(intent),
            challenge@,
        ),
{
    if topic_allowed(submitted_topic, open_hub).is_none() {
        return VerificationStep::Deny { url: denied_url(callback, submitted_topic, "topic is no longer available") };
    }
    match intent {
        Intent::Subscribe { lease, .. } => {
            let u1 = append_query(callback, "hub.mode", "subscribe");
            let u2 = append_query(u1.as_str(), "hub.topic", submitted_topic);
            let u3 = append_query(u2.as_str(), "hub.challenge", challenge);
            let l = crate::text::u64_dec(*lease);
            let url = append_query(u3.as_str(), "hub.lease_seconds", l.as_str());
            VerificationStep::Request { mode: owned("subscribe"), url }
        },
        Intent::Unsubscribe => {
            let u1 = append_query(callback, "hub.mode", "unsubscribe");
            let u2 = append_query(u1.as_str(), "hub.topic", submitted_topic);
            let url = append_query(u2.as_str(), "hub.challenge", challenge);
            VerificationStep::Request { mode: owned("unsubscribe"), url }
        },
    }
}

/// A verification succeeds only on a 2xx answer whose body, trimmed, is
/// the challenge.
pub fn challenge_echoed(success: bool, body: &str, challenge: &str) -> (r: bool)
    ensures
        r == (success && crate::text::trim(body@) == challenge@),
{
    if !success {
        return false;
    }
    let t = crate::text::trimmed(body);
    str_eq(t.as_str(), challenge)
}

/// Commits a verified intent: a subscription (re)starts with the granted
/// lease from `now`; an unsubscription removes the entry.
pub fn commit_intent(table: &mut SubscriptionTable, topic: String, callback: String, intent: Intent, now: u64)
    requires
        old(table).wf(),
        intent matches Intent::Subscribe { lease, .. } ==> now + lease <= u64::MAX,
    ensures
        final(table).wf(),
        match intent {
            Intent::Subscribe { secret, lease } => final(table)@ == upsert_spec(
                old(table)@,
                (topic@, callback@, opt_string_view(secret), (now + lease) as u64),
            ),
            Intent::Unsubscribe => final(table)@ == delete_spec(old(table)@, topic@, callback@),
        },
{
    match intent {
        Intent::Subscribe { secret, lease } => {
            table.insert(topic, callback, Subscription { secret, lease_expires_epoch: now + lease });
        },
        Intent::Unsubscribe => {
            table.remove(topic.as_str(), callback.as_str());
        },
    }
}

/// Settles a verification: the intent is committed exactly when the
/// subscriber answered 2xx with the challenge; otherwise the table is left
/// as it was. Returns whether it was committed.
pub fn settle_verification(
    table: &mut SubscriptionTable,
    success: bool,
    body: &str,
    challenge: &str,
    topic: String,
    callback: String,
    intent: Intent,
    now: u64,
) -> (r: bool)
    requires
        old(table).wf(),
        intent matches Intent::Subscribe { lease, .. } ==> now + lease <= u64::MAX,
    ensures
        final(table).wf(),
        r == (success && crate::text::trim(body@) == challenge@),
        !r ==> final(table)@ == old(table)@,
        r ==> match intent {
            Intent::Subscribe { secret, lease } => final(table)@ == upsert_spec(
                old(table)@,
                (topic@, callback@, opt_string_view(secret), (now + lease) as u64),
            ),
            Intent::Unsubscribe => final(table)@ == delete_spec(old(table)@, topic@, callback@),
        },
{
    if !challenge_echoed(success, body, challenge) {
        return false;
    }
    commit_intent(table, topic, callback, intent, now);
    true
}

// ---------------------------------------------------------------------------
// distribution
// ---------------------------------------------------------------------------

/// How long a delivery's durable-log claim covers (longer than the worst
/// case of a delivery with all its retries).
pub const CLAIM_SECS: u64 = 180;

/// Seconds to wait before each retry of a failed distribution.
pub const RETRY_DELAYS: [u64; 3] = [1, 5, 15];

/// The retry delays as a sequence.
pub open spec fn retry_delays() -> Seq<u64> {
    seq![1u64, 5u64, 15u64]
}

/// The retry schedule in seconds.
pub fn retry_schedule() -> (r: Vec<u64>)
    ensures
        r@ == retry_delays(),
{
    let v: Vec<u64> = vec![1u64, 5u64, 15u64];
    assert(v@ =~= retry_delays());
    v
}

/// What a subscriber's answer to a distribution was.
pub enum DeliveryOutcome {
    /// 2xx.
    Acknowledged,
    /// 410 Gone.
    Gone,
    /// Any other status, or no answer.
    Failed,
}

/// What the worker does next.
pub enum DeliveryAction {
    /// Ack the durable-log entry; done.
    Done,
    /// Remove the subscription, ack the log entry; done.
    Terminate,
    /// Sleep this many seconds, then try again.
    RetryAfter(u64),
    /// Retries exhausted: ack the log entry and keep the subscription.
    GiveUp,
}

pub open spec fn delivery_action_spec(attempt: int, outcome: DeliveryOutcome) -> DeliveryAction {
    match outcome {
        DeliveryOutcome::Acknowledged => DeliveryAction::Done,
        DeliveryOutcome::Gone => DeliveryAction::Terminate,
        DeliveryOutcome::Failed => if attempt < retry_delays().len() {
            DeliveryAction::RetryAfter(retry_delays()[attempt])
        } else {
            DeliveryAction::GiveUp
        },
    }
}

/// The decision after distribution attempt number `attempt` (from 0).
pub fn delivery_action(attempt: usize, outcome: DeliveryOutcome) -> (r: DeliveryAction)
    requires
        attempt <= 3,
    ensures
        r == delivery_action_spec(attempt as int, outcome),
{
    match outcome {
        DeliveryOutcome::Acknowledged => DeliveryAction::Done,
        DeliveryOutcome::Gone => DeliveryAction::Terminate,
        DeliveryOutcome::Failed => {
            let delays = retry_schedule();
            if attempt < delays.len() {
                DeliveryAction::RetryAfter(delays[attempt])
            } else {
                DeliveryAction::GiveUp
            }
        },
    }
}

/// Delivery ends after at most four attempts, and a delivery with all its
/// waits fits well inside its claim.
pub proof fn lemma_delivery_bounded(outcome: DeliveryOutcome)
    ensures
        !(delivery_action_spec(3, outcome) is RetryAfter),
        retry_delays()[0] + retry_delays()[1] + retry_delays()[2] + 4 * 10 < CLAIM_SECS,
{
}

/// The Link header of a distribution: rel=self and rel=hub combined.
pub open spec fn link_header_spec(self_url: Seq<char>, hub_url: Seq<char>) -> Seq<char> {
    seq!['<'] + self_url + ">; rel=\"self\", <"@ + hub_url + ">; rel=\"hub\""@
}

pub fn link_header(self_url: &str, hub_url: &str) -> (r: String)
    ensures
        r@ == link_header_spec(self_url@, hub_url@),
{
    let mut out = String::new();
    out.push('<');
    push_all(&mut out, self_url);
    push_all(&mut out, ">; rel=\"self\", <");
    push_all(&mut out, hub_url);
    push_all(&mut out, ">; rel=\"hub\"");
    out
}

/// HMAC-SHA256 of a body keyed by the UTF-8 bytes of a secret.
pub uninterp spec fn hmac_sha256_of(key: Seq<char>, body: Seq<u8>) -> Seq<u8>;

/// `Hmac::<Sha256>::new_from_slice(key)`, `update(body)`, `finalize()`.
/// HMAC accepts keys of any length, so the key is never refused.
#[verifier::external_body]
fn hmac_sha256(key: &str, body: &[u8]) -> (r: Option<[u8; 32]>)
    ensures
        r is Some,
        r->0@ == hmac_sha256_of(key@, body@),
{
    let mut mac = <hmac::Hmac<sha2::Sha256> as hmac::Mac>::new_from_slice(key.as_bytes()).ok()?;
    hmac::Mac::update(&mut mac, body);
    Some(hmac::Mac::finalize(mac).into_bytes().into())
}

/// The authenticated-distribution header value: "sha256=" and the
/// lowercase hex HMAC of the body keyed by the subscriber's secret.
pub fn signature_header(secret: &str, body: &[u8]) -> (r: Option<String>)
    ensures
        r matches Some(h) && h@ == "sha256="@ + crate::text::hex_of(hmac_sha256_of(secret@, body@)),
{
    let digest = match hmac_sha256(secret, body) {
        Some(d) => d,
        None => {
            return None;
        },
    };
    let mut out = owned("sha256=");
    let h = crate::text::hex(digest.as_slice());
    push_all(&mut out, h.as_str());
    Some(out)
}

/// `s` without its trailing slashes.
pub open spec fn drop_trailing_slashes(s: Seq<char>) -> Seq<char>
    decreases s.len(),
{
    if s.len() > 0 && s.last() == '/' {
        drop_trailing_slashes(s.drop_last())
    } else {
        s
    }
}

/// The configured external hubs, trailing slashes dropped, without empty
/// entries and without this hub itself.
pub open spec fn external_hubs_spec(hubs: Seq<Seq<char>>, own_hub: Seq<char>) -> Seq<Seq<char>>
    decreases hubs.len(),
{
    if hubs.len() == 0 {
        Seq::empty()
    } else {
        let prev = external_hubs_spec(hubs.drop_last(), own_hub);
        let h = drop_trailing_slashes(hubs.last());
        if h.len() > 0 && h != own_hub {
            prev.push(h)
        } else {
            prev
        }
    }
}

pub fn without_trailing_slashes(s: &str) -> (r: String)
    ensures
        r@ == drop_trailing_slashes(s@),
{
    let v = chars_of(s);
    let mut end = v.len();
    assert(v@.take(end as int) =~= v@);
    while end > 0 && v[end - 1] == '/'
        invariant
            end <= v@.len(),
            v@ == s@,
            drop_trailing_slashes(s@) == drop_trailing_slashes(v@.take(end as int)),
        decreases end,
    {
        assert(v@.take(end as int).drop_last() =~= v@.take(end - 1));
        end = end - 1;
    }
    let r = string_of_range(&v, 0, end);
    assert(r@ =~= v@.take(end as int));
    r
}

/// This hub's own URL: the public URL followed by "/hub".
pub open spec fn own_hub_url(public_url: Seq<char>) -> Seq<char> {
    public_url + "/hub"@
}

pub fn hub_url(public_url: &str) -> (r: String)
    ensures
        r@ == own_hub_url(public_url@),
{
    let mut r = owned(public_url);
    push_all(&mut r, "/hub");
    r
}

impl HubConfig {
    /// External hub URLs to advertise and notify (ours excluded).
    pub fn external_hubs(&self) -> (r: Vec<String>)
        ensures
            texts_of(r@) == external_hubs_spec(texts_of(self.external_hubs@), own_hub_url(self.public_url@)),
    {
        let own = hub_url(self.public_url.as_str());
        let ghost hs = texts_of(self.external_hubs@);
        let mut out: Vec<String> = Vec::new();
        let mut i: usize = 0;
        while i < self.external_hubs.len()
            invariant
                i <= self.external_hubs@.len(),
                hs == texts_of(self.external_hubs@),
                own@ == own_hub_url(self.public_url@),
                texts_of(out@) == external_hubs_spec(hs.take(i as int), own@),
            decreases self.external_hubs@.len() - i,
        {
            assert(hs.take(i + 1).drop_last() =~= hs.take(i as int));
            assert(hs[i as int] == self.external_hubs@[i as int]@);
            let h = without_trailing_slashes(self.external_hubs[i].as_str());
            let ghost ov = out@;
            if h.as_str().unicode_len() > 0 && !str_eq(h.as_str(), own.as_str()) {
                let ghost hv = h@;
                out.push(h);
                assert(texts_of(out@) =~= texts_of(ov).push(hv));
            }
            i = i + 1;
        }
        assert(hs.take(i as int) =~= hs);
        out
    }
}

/// The rel=self URL of a distribution: canonical topics live under the
/// public URL; third-party topics are their own URL.
pub open spec fn self_url_spec(topic: Seq<char>, public_url: Seq<char>) -> Seq<char> {
    if resolve_spec(topic) is Some {
        public_url + topic
    } else {
        topic
    }
}

pub fn self_url_for(topic: &str, public_url: &str) -> (r: String)
    ensures
        r@ == self_url_spec(topic@, public_url@),
{
    if resolve_topic(topic).is_some() {
        let mut r = owned(public_url);
        push_all(&mut r, topic);
        r
    } else {
        owned(topic)
    }
}

/// The topic whose content a redelivery rebuilds: the canonical path of
/// a canonical topic, else the third-party URL itself.
pub fn content_topic(topic: &str) -> (r: String)
    ensures
        r@ == match resolve_spec(topic@) {
            Some(t) => t,
            None => topic@,
        },
{
    match resolve_topic(topic) {
        Some(t) => owned(t),
        None => owned(topic),
    }
}

/// A logged delivery is picked up again only when no live claim covers
/// it and it is at least a minute old.
pub open spec fn redeliver_spec(claimed_until: u64, enqueued_at: u64, now: u64) -> bool {
    !(claimed_until > now || (if now >= enqueued_at {
        now - enqueued_at
    } else {
        0
    }) < 60)
}

pub fn should_redeliver(claimed_until: u64, enqueued_at: u64, now: u64) -> (r: bool)
    ensures
        r == redeliver_spec(claimed_until, enqueued_at, now),
{
    !(claimed_until > now || now.saturating_sub(enqueued_at) < 60)
}

/// The claim deadline of a delivery taken at `now`.
pub fn claim_deadline(now: u64) -> (r: u64)
    requires
        now + CLAIM_SECS <= u64::MAX,
    ensures
        r == now + CLAIM_SECS,
{
    now + CLAIM_SECS
}

/// Live matching subscriptions that another replica delivers for.
pub fn routed_elsewhere(total_live: usize, owned: usize) -> (r: u64)
    ensures
        r == if total_live > owned {
            (total_live - owned) as u64
        } else {
            0
        },
{
    if total_live > owned {
        (total_live - owned) as u64
    } else {
        0
    }
}

/// The form body notifying an external hub of a publish.
pub fn external_publish_body(topic: &str) -> (r: String)
    ensures
        r@ == "hub.mode=publish&hub.url="@ + url_encoded(topic@),
{
    let mut r = owned("hub.mode=publish&hub.url=");
    let e = url_encode(topic);
    push_all(&mut r, e.as_str());
    r
}

// ---------------------------------------------------------------------------
// reloading persisted subscriptions
// ---------------------------------------------------------------------------

/// The secret of a persisted row after decryption.
pub open spec fn stored_secret_spec(key: Option<Seq<u8>>, stored: Option<Seq<char>>) -> Option<Seq<char>> {
    match stored {
        Some(s) => crate::crypto::decrypt_spec(key, s),
        None => None,
    }
}

/// Whether a persisted row replaces what the table holds: its lease is
/// live and later than the lease held for its (topic, callback), if any.
pub open spec fn refresh_wins(es: Seq<SubEntry>, topic: Seq<char>, callback: Seq<char>, expires: u64, now: u64) -> bool {
    expires > now && match lookup_spec(es, topic, callback) {
        Some(held) => held.1 < expires,
        None => true,
    }
}

fn decrypt_stored(crypto: &SecretCrypto, stored: Option<&str>) -> (r: Option<String>)
    ensures
        opt_string_view(r) == stored_secret_spec(
            crypto.key_bytes(),
            match stored {
                Some(s) => Some(s@),
                None => None,
            },
        ),
{
    match stored {
        Some(s) => crypto.decrypt(s),
        None => None,
    }
}

impl SubscriptionTable {
    /// Startup load of one persisted row: a live one is stored (with its
    /// secret decrypted); an expired one is dropped. Returns whether it
    /// was stored.
    pub fn load_row(
        &mut self,
        crypto: &SecretCrypto,
        topic: String,
        callback: String,
        stored_secret: Option<&str>,
        expires: u64,
        now: u64,
    ) -> (r: bool)
        requires
            old(self).wf(),
        ensures
            final(self).wf(),
            r == (expires > now),
            r ==> final(self)@ == upsert_spec(
                old(self)@,
                (
                    topic@,
                    callback@,
                    stored_secret_spec(
                        crypto.key_bytes(),
                        match stored_secret {
                            Some(s) => Some(s@),
                            None => None,
                        },
                    ),
                    expires,
                ),
            ),
            !r ==> final(self)@ == old(self)@,
    {
        if expires <= now {
            return false;
        }
        let secret = decrypt_stored(crypto, stored_secret);
        self.insert(topic, callback, Subscription { secret, lease_expires_epoch: expires });
        true
    }

    /// Periodic refresh from persistence for one row: newer live leases
    /// win; nothing is removed. Returns whether the row was stored.
    pub fn refresh_row(
        &mut self,
        crypto: &SecretCrypto,
        topic: String,
        callback: String,
        stored_secret: Option<&str>,
        expires: u64,
        now: u64,
    ) -> (r: bool)
        requires
            old(self).wf(),
        ensures
            final(self).wf(),
            r == refresh_wins(old(self)@, topic@, callback@, expires, now),
            r ==> final(self)@ == upsert_spec(
                old(self)@,
                (
                    topic@,
                    callback@,
                    stored_secret_spec(
                        crypto.key_bytes(),
                        match stored_secret {
                            Some(s) => Some(s@),
                            None => None,
                        },
                    ),
                    expires,
                ),
            ),
            !r ==> final(self)@ == old(self)@,
    {
        if expires <= now {
            return false;
        }
        match self.get(topic.as_str(), callback.as_str()) {
            Some(existing) => {
                if existing.lease_expires_epoch >= expires {
                    return false;
                }
            },
            None => {},
        }
        let secret = decrypt_stored(crypto, stored_secret);
        self.insert(topic, callback, Subscription { secret, lease_expires_epoch: expires });
        true
    }
}

/// A refresh never removes a subscription and never shortens a lease.
pub proof fn lemma_refresh_monotone(
    es: Seq<SubEntry>,
    e: SubEntry,
    now: u64,
    topic: Seq<char>,
    callback: Seq<char>,
)
    requires
        keys_unique(es),
        refresh_wins(es, e.0, e.1, e.3, now),
    ensures
        lookup_spec(es, topic, callback) matches Some(held) ==> lookup_spec(upsert_spec(es, e), topic, callback)
            matches Some(now_held) && now_held.1 >= held.1,
{
    lemma_lookup_after_insert(es, e, topic, callback);
}

// ---------------------------------------------------------------------------
// the change feed and the counters
// ---------------------------------------------------------------------------

/// An event of the SSE change feed: the notification header only.
#[derive(Debug, Clone)]
pub struct SseEvent {
    pub topic: String,
    pub event_id: String,
}

impl SseEvent {
    /// The event's JSON payload: {"topic", "event_id"}.
    pub fn payload(&self) -> (r: String)
        ensures
            r@ == crate::json::compact(
                JsonValue::Object(
                    seq![("topic"@, JsonValue::Str(self.topic@)), ("event_id"@, JsonValue::Str(self.event_id@))],
                ),
            ),
    {
        let mut es: Vec<(String, Json)> = Vec::new();
        es.push((owned("topic"), Json::string(self.topic.as_str())));
        es.push((owned("event_id"), Json::string(self.event_id.as_str())));
        proof {
            crate::json::lemma_object_view(es);
        }
        let j = Json::Object(es);
        assert(j@->Object_0 =~= seq![("topic"@, JsonValue::Str(self.topic@)), ("event_id"@, JsonValue::Str(self.event_id@))]);
        crate::json::to_compact(&j)
    }
}

/// The payload telling a feed client that it missed `missed` events.
pub fn lagged_payload(missed: u64) -> (r: String)
    ensures
        r@ == crate::json::compact(
            JsonValue::Object(
                seq![("error"@, JsonValue::Str("lagged"@)), ("missed"@, JsonValue::Str(crate::text::dec(missed as nat)))],
            ),
        ),
{
    let mut es: Vec<(String, Json)> = Vec::new();
    es.push((owned("error"), Json::string("lagged")));
    es.push((owned("missed"), Json::Str(crate::text::u64_dec(missed))));
    proof {
        crate::json::lemma_object_view(es);
    }
    let j = Json::Object(es);
    assert(j@->Object_0 =~= seq![("error"@, JsonValue::Str("lagged"@)), ("missed"@, JsonValue::Str(crate::text::dec(missed as nat)))]);
    crate::json::to_compact(&j)
}

/// The hub's observability counters.
pub struct HubMetrics {
    pub verifications_ok: u64,
    pub verifications_failed: u64,
    pub deliveries_ok: u64,
    pub deliveries_exhausted: u64,
    pub delivery_retries: u64,
    pub terminated_410: u64,
    pub denied_sent: u64,
    pub queue_dropped: u64,
    pub rate_limited: u64,
    /// Deliveries re-enqueued from the durable log.
    pub redelivered_on_restart: u64,
    /// Deliveries skipped because another replica owns the subscription.
    pub routed_to_other_replica: u64,
}

/// One exposition line: name, a space, the value, a newline.
pub open spec fn metric_line(name: Seq<char>, v: u64) -> Seq<char> {
    name + seq![' '] + crate::text::dec(v as nat) + seq!['\n']
}

/// The Prometheus text exposition of the counters.
pub open spec fn metrics_text_spec(m: &HubMetrics, active_total: u64, fragments_requests: u64, inserts_total: u64) -> Seq<char> {
    "# TYPE semweb_verifications_total counter\n"@
        + metric_line("semweb_verifications_total{result=\"ok\"}"@, m.verifications_ok)
        + metric_line("semweb_verifications_total{result=\"failed\"}"@, m.verifications_failed)
        + "# TYPE semweb_deliveries_total counter\n"@
        + metric_line("semweb_deliveries_total{result=\"success\"}"@, m.deliveries_ok)
        + metric_line("semweb_deliveries_total{result=\"exhausted\"}"@, m.deliveries_exhausted)
        + "# TYPE semweb_delivery_retries_total counter\n"@
        + metric_line("semweb_delivery_retries_total"@, m.delivery_retries)
        + "# TYPE semweb_terminations_410_total counter\n"@
        + metric_line("semweb_terminations_410_total"@, m.terminated_410)
        + "# TYPE semweb_denied_total counter\n"@
        + metric_line("semweb_denied_total"@, m.denied_sent)
        + "# TYPE semweb_queue_dropped_total counter\n"@
        + metric_line("semweb_queue_dropped_total"@, m.queue_dropped)
        + "# TYPE semweb_rate_limited_total counter\n"@
        + metric_line("semweb_rate_limited_total"@, m.rate_limited)
        + "# TYPE semweb_redelivered_on_restart_total counter\n"@
        + metric_line("semweb_redelivered_on_restart_total"@, m.redelivered_on_restart)
        + "# TYPE semweb_routed_to_other_replica_total counter\n"@
        + metric_line("semweb_routed_to_other_replica_total"@, m.routed_to_other_replica)
        + "# TYPE semweb_subscriptions_active gauge\n"@
        + metric_line("semweb_subscriptions_active"@, active_total)
        + "# TYPE semweb_fragments_requests_total counter\n"@
        + metric_line("semweb_fragments_requests_total"@, fragments_requests)
        + "# TYPE semweb_inserts_total counter\n"@
        + metric_line("semweb_inserts_total"@, inserts_total)
}

fn push_metric(out: &mut String, name: &str, v: u64)
    ensures
        final(out)@ == old(out)@ + metric_line(name@, v),
{
    push_all(out, name);
    out.push(' ');
    let d = crate::text::u64_dec(v);
    push_all(out, d.as_str());
    out.push('\n');
}

impl HubMetrics {
    /// All counters at zero.
    pub fn new() -> (r: Self)
        ensures
            r.verifications_ok == 0 && r.verifications_failed == 0 && r.deliveries_ok == 0
                && r.deliveries_exhausted == 0 && r.delivery_retries == 0 && r.terminated_410 == 0
                && r.denied_sent == 0 && r.queue_dropped == 0 && r.rate_limited == 0
                && r.redelivered_on_restart == 0 && r.routed_to_other_replica == 0,
    {
        HubMetrics {
            verifications_ok: 0,
            verifications_failed: 0,
            deliveries_ok: 0,
            deliveries_exhausted: 0,
            delivery_retries: 0,
            terminated_410: 0,
            denied_sent: 0,
            queue_dropped: 0,
            rate_limited: 0,
            redelivered_on_restart: 0,
            routed_to_other_replica: 0,
        }
    }

    /// The Prometheus text exposition, with the service-side numbers.
    pub fn render(&self, active_total: u64, fragments_requests: u64, inserts_total: u64) -> (r: String)
        ensures
            r@ == metrics_text_spec(self, active_total, fragments_requests, inserts_total),
    {
        let mut out = String::new();
        push_all(&mut out, "# TYPE semweb_verifications_total counter\n");
        push_metric(&mut out, "semweb_verifications_total{result=\"ok\"}", self.verifications_ok);
        push_metric(&mut out, "semweb_verifications_total{result=\"failed\"}", self.verifications_failed);
        push_all(&mut out, "# TYPE semweb_deliveries_total counter\n");
        push_metric(&mut out, "semweb_deliveries_total{result=\"success\"}", self.deliveries_ok);
        push_metric(&mut out, "semweb_deliveries_total{result=\"exhausted\"}", self.deliveries_exhausted);
        push_all(&mut out, "# TYPE semweb_delivery_retries_total counter\n");
        push_metric(&mut out, "semweb_delivery_retries_total", self.delivery_retries);
        push_all(&mut out, "# TYPE semweb_terminations_410_total counter\n");
        push_metric(&mut out, "semweb_terminations_410_total", self.terminated_410);
        push_all(&mut out, "# TYPE semweb_denied_total counter\n");
        push_metric(&mut out, "semweb_denied_total", self.denied_sent);
        push_all(&mut out, "# TYPE semweb_queue_dropped_total counter\n");
        push_metric(&mut out, "semweb_queue_dropped_total", self.queue_dropped);
        push_all(&mut out, "# TYPE semweb_rate_limited_total counter\n");
        push_metric(&mut out, "semweb_rate_limited_total", self.rate_limited);
        push_all(&mut out, "# TYPE semweb_redelivered_on_restart_total counter\n");
        push_metric(&mut out, "semweb_redelivered_on_restart_total", self.redelivered_on_restart);
        push_all(&mut out, "# TYPE semweb_routed_to_other_replica_total counter\n");
        push_metric(&mut out, "semweb_routed_to_other_replica_total", self.routed_to_other_replica);
        push_all(&mut out, "# TYPE semweb_subscriptions_active gauge\n");
        push_metric(&mut out, "semweb_subscriptions_active", active_total);
        push_all(&mut out, "# TYPE semweb_fragments_requests_total counter\n");
        push_metric(&mut out, "semweb_fragments_requests_total", fragments_requests);
        push_all(&mut out, "# TYPE semweb_inserts_total counter\n");
        push_metric(&mut out, "semweb_inserts_total", inserts_total);
        out
    }
}

// ---------------------------------------------------------------------------
// third-party topic content
// ---------------------------------------------------------------------------

/// Cap on third-party topic content fetched at publish time (16 MiB).
pub const MAX_EXTERNAL_CONTENT_BYTES: usize = 16777216;

/// The content type distributed for a third-party topic: the media type
/// of the publisher's Content-Type (before any ';', trimmed), or
/// "application/octet-stream" when it sent none.
pub open spec fn external_content_type_spec(header: Option<Seq<char>>) -> Seq<char> {
    match header {
        Some(v) => crate::text::trim(crate::text::split_all(v, ';')[0]),
        None => "application/octet-stream"@,
    }
}

pub fn external_content_type(header: Option<&str>) -> (r: String)
    ensures
        r@ == external_content_type_spec(match header {
            Some(v) => Some(v@),
            None => None,
        }),
{
    match header {
        Some(v) => {
            let pieces = crate::text::split_by(v, ';');
            proof {
                crate::text::lemma_split_all_nonempty(v@, ';');
            }
            assert(pieces@.map_values(|p: String| p@)[0] == pieces@[0]@);
            crate::text::trimmed(pieces[0].as_str())
        },
        None => owned("application/octet-stream"),
    }
}

/// Whether fetched content is within the cap.
pub fn external_content_fits(len: usize) -> (r: bool)
    ensures
        r == (len <= MAX_EXTERNAL_CONTENT_BYTES),
{
    len <= MAX_EXTERNAL_CONTENT_BYTES
}

/// The content of a canonical topic cannot be built for other topics.
pub fn unknown_topic_content(topic: &str) -> (r: String)
    ensures
        r@ == "unknown topic: "@ + topic@ + " (third-party topics are fetched at publish time, not here)"@,
{
    let mut m = owned("unknown topic: ");
    push_all(&mut m, topic);
    push_all(&mut m, " (third-party topics are fetched at publish time, not here)");
    m
}

/// Every topic matches itself, and a canonical topic path matches every
/// URL that resolves to it.
pub proof fn lemma_topic_matches_reflexive(t: Seq<char>, url: Seq<char>)
    ensures
        topic_matches_spec(t, t),
        resolve_spec(url) is Some ==> topic_matches_spec(url, resolve_spec(url)->0) && topic_matches_spec(
            resolve_spec(url)->0,
            url,
        ),
{
    reveal_strlit("/topics/data");
    reveal_strlit("/topics/schema");
    if resolve_spec(url) is Some {
        let c = resolve_spec(url)->0;
        assert(names_topic(c, c));
        if c == TOPIC_SCHEMA@ {
            assert(TOPIC_DATA@.len() != TOPIC_SCHEMA@.len());
            assert(!is_suffix(TOPIC_DATA@, c)) by {
                if is_suffix(TOPIC_DATA@, c) {
                    assert(c.subrange(c.len() - TOPIC_DATA@.len(), c.len() as int) == TOPIC_DATA@);
                    assert(c[1] == 't' && TOPIC_DATA@[0] == '/');
                    assert(c.subrange(c.len() - TOPIC_DATA@.len(), c.len() as int)[0] == c[2]);
                }
            }
            assert(!names_topic(c, TOPIC_DATA@));
        }
        assert(resolve_spec(c) == Some(c));
    }
}

} // verus!
