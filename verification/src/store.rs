//! The store boundary's own logic: SPARQL literal escaping, the update
//! texts the service sends, the raw bindings it builds and reads back,
//! the graphs it reserves for itself, and the stable identity and shard
//! owner of a hub subscription.
use vstd::prelude::*;

use crate::counts::{row_value, row_value_of, rows_view};
use crate::order::{sorted_unique, strictly_sorted, texts};
use crate::json::{str_eq, get_spec, get_str_spec, json_view, lemma_array_view, lemma_object_view, str_spec, Json, JsonValue};
use crate::text::{dec, u64_dec, chars_of, hex, hex_of, hex_pair, hex_value_of, is_prefix, lemma_hex_len, owned, pair_at, parse_u64, parse_unsigned, push_all, starts_with, string_of_range, last_index, rfind};

verus! {

/// An error reported by the store or on the way to it.
#[derive(Debug)]
pub struct StoreError(pub String);

/// Named graph where the hub persists subscriptions.
pub const HUB_GRAPH: &'static str = "http://semweb.dev/graph/hub/subscriptions";

/// Named graph holding the durable delivery log.
pub const HUB_DELIVERIES_GRAPH: &'static str = "http://semweb.dev/graph/hub/deliveries";

/// Named graph where SHACL shapes are loaded.
pub const SHAPES_GRAPH: &'static str = "http://semweb.dev/graph/shapes";

/// Graph URIs the service manages itself: the write path refuses them.
pub open spec fn reserved_graph_spec(graph: Seq<char>) -> bool {
    is_prefix("http://semweb.dev/graph/"@, graph)
}

pub fn is_reserved_graph(graph: &str) -> (r: bool)
    ensures
        r == reserved_graph_spec(graph@),
{
    starts_with(graph, "http://semweb.dev/graph/")
}

// ---------------------------------------------------------------------------
// SPARQL literals
// ---------------------------------------------------------------------------

/// The escaped form of one character: backslash, quote and newline get a
/// backslash escape.
pub open spec fn escape_char(c: char) -> Seq<char> {
    if c == '\\' {
        seq!['\\', '\\']
    } else if c == '"' {
        seq!['\\', '"']
    } else if c == '\n' {
        seq!['\\', 'n']
    } else {
        seq![c]
    }
}

pub open spec fn escape_body(s: Seq<char>) -> Seq<char>
    decreases s.len(),
{
    if s.len() == 0 {
        Seq::empty()
    } else {
        escape_body(s.drop_last()) + escape_char(s.last())
    }
}

/// A plain string as a quoted SPARQL literal.
pub open spec fn escape_literal_spec(s: Seq<char>) -> Seq<char> {
    seq!['"'] + escape_body(s) + seq!['"']
}

pub fn escape_literal(value: &str) -> (r: String)
    ensures
        r@ == escape_literal_spec(value@),
{
    let v = chars_of(value);
    let mut out = String::new();
    out.push('"');
    let mut i: usize = 0;
    while i < v.len()
        invariant
            i <= v@.len(),
            v@ == value@,
            out@ == seq!['"'] + escape_body(v@.take(i as int)),
        decreases v@.len() - i,
    {
        let c = v[i];
        if c == '\\' {
            out.push('\\');
            out.push('\\');
        } else if c == '"' {
            out.push('\\');
            out.push('"');
        } else if c == '\n' {
            out.push('\\');
            out.push('n');
        } else {
            out.push(c);
        }
        assert(v@.take(i + 1).drop_last() =~= v@.take(i as int));
        assert(out@ =~= seq!['"'] + escape_body(v@.take(i + 1)));
        i = i + 1;
    }
    assert(v@.take(i as int) =~= v@);
    out.push('"');
    out
}

// ---------------------------------------------------------------------------
// subscription identity and sharding
// ---------------------------------------------------------------------------

/// SHA-256 of the UTF-8 bytes of a text.
pub uninterp spec fn sha256_of(text: Seq<char>) -> Seq<u8>;

/// `sha2::Sha256::digest` of the text's UTF-8 bytes: 32 bytes, a function
/// of the text alone.
#[verifier::external_body]
pub(crate) fn sha256_text(text: &str) -> (r: [u8; 32])
    ensures
        r@ == sha256_of(text@),
{
    let digest = <sha2::Sha256 as sha2::Digest>::digest(text.as_bytes());
    digest.into()
}

/// Hex of the first 16 bytes of sha256(topic NUL callback).
pub open spec fn persist_id_spec(topic: Seq<char>, callback: Seq<char>) -> Seq<char> {
    hex_of(sha256_of(topic + seq!['\0'] + callback).take(16))
}

/// Stable identity of a (topic, callback) subscription: the persistence
/// key, the shard key and the delivery-log key.
pub fn subscription_persist_id(topic: &str, callback: &str) -> (r: String)
    ensures
        r@ == persist_id_spec(topic@, callback@),
        r@.len() == 32,
        forall|i: int| 0 <= i < r@.len() ==> (#[trigger] r@[i] as u32) < 128,
{
    let mut text = owned(topic);
    text.push('\0');
    push_all(&mut text, callback);
    let digest = sha256_text(text.as_str());
    let mut first: Vec<u8> = Vec::new();
    let mut i: usize = 0;
    while i < 16
        invariant
            i <= 16,
            digest@.len() == 32,
            digest@ == sha256_of(text@),
            text@ == topic@ + seq!['\0'] + callback@,
            first@ =~= digest@.take(i as int),
        decreases 16 - i,
    {
        first.push(digest[i]);
        i = i + 1;
    }
    let r = hex(first.as_slice());
    proof {
        lemma_hex_len(first@);
        lemma_hex_ascii(first@);
    }
    r
}

proof fn lemma_hex_ascii(bytes: Seq<u8>)
    ensures
        forall|i: int| 0 <= i < hex_of(bytes).len() ==> (#[trigger] hex_of(bytes)[i] as u32) < 128,
    decreases bytes.len(),
{
    if bytes.len() > 0 {
        lemma_hex_ascii(bytes.drop_last());
        lemma_hex_len(bytes.drop_last());
    }
}

/// The bytes of the first `k` hex pairs of `id` that parse.
pub open spec fn parsed_pairs(id: Seq<char>, k: int) -> Seq<u8>
    decreases k,
{
    if k <= 0 {
        Seq::empty()
    } else {
        let prev = parsed_pairs(id, k - 1);
        match pair_at(id, k - 1) {
            Some(b) => prev.push(b as u8),
            None => prev,
        }
    }
}

/// Big-endian value of bytes.
pub open spec fn be_value(bytes: Seq<u8>) -> nat
    decreases bytes.len(),
{
    if bytes.len() == 0 {
        0
    } else {
        be_value(bytes.drop_last()) * 256 + bytes.last() as nat
    }
}

pub open spec fn at_most(bytes: Seq<u8>, n: int) -> Seq<u8> {
    if bytes.len() <= n {
        bytes
    } else {
        bytes.take(n)
    }
}

/// Owner replica: the first eight parsable bytes of the id's first 16
/// hex pairs, big-endian, modulo the replica count (0 with no replicas).
pub open spec fn owner_spec(id: Seq<char>, replica_count: u64) -> u64 {
    if replica_count == 0 {
        0
    } else {
        (be_value(at_most(parsed_pairs(id, 16), 8)) % (replica_count as nat)) as u64
    }
}

pub open spec fn pow256(k: nat) -> nat
    decreases k,
{
    if k == 0 {
        1
    } else {
        256 * pow256((k - 1) as nat)
    }
}

proof fn lemma_be_bound(bytes: Seq<u8>)
    ensures
        be_value(bytes) < pow256(bytes.len()),
    decreases bytes.len(),
{
    if bytes.len() > 0 {
        lemma_be_bound(bytes.drop_last());
        let p = pow256((bytes.len() - 1) as nat);
        let a = be_value(bytes.drop_last());
        let b = bytes.last() as nat;
        assert(a * 256 + b < p * 256) by (nonlinear_arith)
            requires
                a < p,
                b < 256,
        ;
    }
}

/// Owner replica of a subscription id under `replica_count` shards.
pub fn owner_of(id: &str, replica_count: u64) -> (r: u64)
    requires
        id@.len() >= 32,
        forall|i: int| 0 <= i < 32 ==> (#[trigger] id@[i] as u32) < 128,
    ensures
        r == owner_spec(id@, replica_count),
        replica_count > 0 ==> r < replica_count,
        replica_count == 0 ==> r == 0,
{
    let v = chars_of(id);
    let mut bytes: Vec<u8> = Vec::new();
    let mut i: usize = 0;
    while i < 16
        invariant
            i <= 16,
            v@ == id@,
            v@.len() >= 32,
            bytes@ == parsed_pairs(id@, i as int),
            bytes@.len() <= i,
        decreases 16 - i,
    {
        let hi = if v[2 * i] == '+' {
            Some(0u8)
        } else {
            hex_value_of(v[2 * i])
        };
        let lo = hex_value_of(v[2 * i + 1]);
        match (hi, lo) {
            (Some(h), Some(l)) => {
                bytes.push(h * 16 + l);
            },
            _ => {},
        }
        i = i + 1;
    }
    let n: usize = if bytes.len() <= 8 {
        bytes.len()
    } else {
        8
    };
    let ghost first = at_most(bytes@, 8);
    assert(first.len() == n);
    let mut val: u64 = 0;
    let mut k: usize = 0;
    while k < n
        invariant
            k <= n,
            n <= 8,
            n == first.len(),
            n <= bytes@.len(),
            first =~= bytes@.take(n as int),
            val as nat == be_value(first.take(k as int)),
        decreases n - k,
    {
        proof {
            lemma_be_bound(first.take(k as int));
            reveal_with_fuel(pow256, 9);
            assert(pow256(8) == 18446744073709551616);
            lemma_pow256_mono(k as nat, 7);
        }
        assert(first.take(k + 1).drop_last() =~= first.take(k as int));
        val = val * 256 + bytes[k] as u64;
        k = k + 1;
    }
    assert(first.take(n as int) =~= first);
    if replica_count == 0 {
        0
    } else {
        val % replica_count
    }
}

proof fn lemma_pow256_mono(a: nat, b: nat)
    requires
        a <= b,
    ensures
        pow256(a) <= pow256(b),
    decreases b,
{
    if a < b {
        lemma_pow256_mono(a, (b - 1) as nat);
    }
}

// ---------------------------------------------------------------------------
// endpoints and writes
// ---------------------------------------------------------------------------

/// The SPARQL 1.1 Protocol endpoints of the store.
pub struct SparqlStore {
    pub query_url: String,
    pub update_url: String,
    pub graph_store_url: String,
}

/// The Graph Store endpoint next to the update endpoint: its last path
/// segment replaced by "store" (or "/store" appended when it has no '/').
pub open spec fn graph_store_spec(update_url: Seq<char>) -> Seq<char> {
    match last_index(update_url, '/') {
        Some(i) => update_url.take(i) + "/store"@,
        None => update_url + "/store"@,
    }
}

impl SparqlStore {
    pub fn new(query_url: String, update_url: String) -> (r: Self)
        ensures
            r.query_url@ == query_url@,
            r.update_url@ == update_url@,
            r.graph_store_url@ == graph_store_spec(update_url@),
    {
        let v = chars_of(update_url.as_str());
        let graph_store_url = match rfind(&v, '/') {
            Some(i) => {
                proof {
                    crate::text::lemma_last_before(v@, '/', v@.len() as int);
                }
                let mut g = string_of_range(&v, 0, i);
                assert(g@ =~= update_url@.take(i as int));
                push_all(&mut g, "/store");
                g
            },
            None => {
                let mut g = owned(update_url.as_str());
                push_all(&mut g, "/store");
                g
            },
        };
        SparqlStore { query_url, update_url, graph_store_url }
    }
}

/// The update emptying a named graph.
pub fn clear_graph_update(graph: &str) -> (r: String)
    ensures
        r@ == "DELETE WHERE { GRAPH <"@ + graph@ + "> { ?s ?p ?o } }"@,
{
    let mut r = owned("DELETE WHERE { GRAPH <");
    push_all(&mut r, graph);
    push_all(&mut r, "> { ?s ?p ?o } }");
    r
}

/// An object given as text is a URI when it has an http(s) scheme, else a
/// plain literal.
pub open spec fn object_is_uri(o: Seq<char>) -> bool {
    is_prefix("http://"@, o) || is_prefix("https://"@, o)
}

pub fn object_uri(object: &str) -> (r: Option<&str>)
    ensures
        r is Some <==> object_is_uri(object@),
        r matches Some(u) ==> u@ == object@,
{
    if starts_with(object, "http://") || starts_with(object, "https://") {
        Some(object)
    } else {
        None
    }
}

/// The object's term in SPARQL: <uri> or an escaped literal.
pub open spec fn object_sparql(o: Seq<char>) -> Seq<char> {
    if object_is_uri(o) {
        seq!['<'] + o + seq!['>']
    } else {
        escape_literal_spec(o)
    }
}

fn object_sparql_of(object: &str) -> (r: String)
    ensures
        r@ == object_sparql(object@),
{
    match object_uri(object) {
        Some(u) => {
            let mut r = String::new();
            r.push('<');
            push_all(&mut r, u);
            r.push('>');
            r
        },
        None => escape_literal(object),
    }
}

/// The triple as a SPARQL pattern, in a named graph when one is given.
pub open spec fn triple_pattern(s: Seq<char>, p: Seq<char>, o: Seq<char>, graph: Option<Seq<char>>) -> Seq<char> {
    let t = seq!['<'] + s + "> <"@ + p + "> "@ + object_sparql(o);
    match graph {
        Some(g) => "GRAPH <"@ + g + "> { "@ + t + " }"@,
        None => t,
    }
}

fn triple_pattern_of(subject: &str, predicate: &str, object: &str, graph: Option<&str>) -> (r: String)
    ensures
        r@ == triple_pattern(
            subject@,
            predicate@,
            object@,
            match graph {
                Some(g) => Some(g@),
                None => None,
            },
        ),
{
    let mut t = String::new();
    t.push('<');
    push_all(&mut t, subject);
    push_all(&mut t, "> <");
    push_all(&mut t, predicate);
    push_all(&mut t, "> ");
    let o = object_sparql_of(object);
    push_all(&mut t, o.as_str());
    match graph {
        Some(g) => {
            let mut r = owned("GRAPH <");
            push_all(&mut r, g);
            push_all(&mut r, "> { ");
            push_all(&mut r, t.as_str());
            push_all(&mut r, " }");
            r
        },
        None => t,
    }
}

/// The SPARQL UPDATE adding one triple.
pub fn insert_triple_update(subject: &str, predicate: &str, object: &str, graph: Option<&str>) -> (r: String)
    ensures
        r@ == "INSERT DATA { "@ + triple_pattern(
            subject@,
            predicate@,
            object@,
            match graph {
                Some(g) => Some(g@),
                None => None,
            },
        ) + " }"@,
{
    let t = triple_pattern_of(subject, predicate, object, graph);
    let mut r = owned("INSERT DATA { ");
    push_all(&mut r, t.as_str());
    push_all(&mut r, " }");
    r
}

/// The ASK query telling whether the triple is already stored.
pub fn triple_exists_query(subject: &str, predicate: &str, object: &str, graph: Option<&str>) -> (r: String)
    ensures
        r@ == "ASK { "@ + triple_pattern(
            subject@,
            predicate@,
            object@,
            match graph {
                Some(g) => Some(g@),
                None => None,
            },
        ) + " }"@,
{
    let t = triple_pattern_of(subject, predicate, object, graph);
    let mut r = owned("ASK { ");
    push_all(&mut r, t.as_str());
    push_all(&mut r, " }");
    r
}

/// The write path's texts: the INSERT DATA update and the ASK query hold
/// the subject and predicate as IRIs, and the object as an IRI only when
/// it has an http(s) scheme; any other object is a quoted, escaped string
/// literal, so a stored literal is asked for as that same literal.
pub proof fn lemma_write_texts(s: Seq<char>, p: Seq<char>, o: Seq<char>, graph: Option<Seq<char>>)
    ensures
        ({
            let literal = !is_prefix("http://"@, o) && !is_prefix("https://"@, o);
            let ot = if literal {
                escape_literal_spec(o)
            } else {
                seq!['<'] + o + seq!['>']
            };
            let t = seq!['<'] + s + seq!['>', ' ', '<'] + p + seq!['>', ' '] + ot;
            let inner = match graph {
                Some(g) => "GRAPH <"@ + g + "> { "@ + t + " }"@,
                None => t,
            };
            &&& literal ==> ot[0] == '"' && ot.last() == '"'
            &&& "INSERT DATA { "@ + triple_pattern(s, p, o, graph) + " }"@ == "INSERT DATA { "@ + inner + " }"@
            &&& "ASK { "@ + triple_pattern(s, p, o, graph) + " }"@ == "ASK { "@ + inner + " }"@
        }),
{
    reveal_strlit("> <");
    reveal_strlit("> ");
    let literal = !is_prefix("http://"@, o) && !is_prefix("https://"@, o);
    let ot = if literal {
        escape_literal_spec(o)
    } else {
        seq!['<'] + o + seq!['>']
    };
    assert(seq!['<'] + s + "> <"@ + p + "> "@ + object_sparql(o) =~= seq!['<'] + s + seq!['>', ' ', '<'] + p
        + seq!['>', ' '] + ot);
}

/// A raw SPARQL JSON term: {"type": kind, "value": value}.
pub open spec fn term_json(kind: Seq<char>, value: Seq<char>) -> JsonValue {
    JsonValue::Object(seq![("type"@, JsonValue::Str(kind)), ("value"@, JsonValue::Str(value))])
}

fn term_json_of(kind: &str, value: &str) -> (r: Json)
    ensures
        r@ == term_json(kind@, value@),
{
    let mut es: Vec<(String, Json)> = Vec::new();
    es.push((owned("type"), Json::string(kind)));
    es.push((owned("value"), Json::string(value)));
    proof {
        lemma_object_view(es);
    }
    let r = Json::Object(es);
    assert(r@->Object_0 =~= term_json(kind@, value@)->Object_0);
    r
}

/// The raw binding of an object given as text (uri or literal).
pub open spec fn object_binding_spec(o: Seq<char>) -> JsonValue {
    if object_is_uri(o) {
        term_json("uri"@, o)
    } else {
        term_json("literal"@, o)
    }
}

pub fn object_binding(object: &str) -> (r: Json)
    ensures
        r@ == object_binding_spec(object@),
{
    if object_uri(object).is_some() {
        term_json_of("uri", object)
    } else {
        term_json_of("literal", object)
    }
}

/// The raw binding (?s ?p ?o) of a written triple.
pub open spec fn triple_binding_spec(s: Seq<char>, p: Seq<char>, o: Seq<char>) -> JsonValue {
    JsonValue::Object(
        seq![("s"@, term_json("uri"@, s)), ("p"@, term_json("uri"@, p)), ("o"@, object_binding_spec(o))],
    )
}

pub fn triple_binding(subject: &str, predicate: &str, object: &str) -> (r: Json)
    ensures
        r@ == triple_binding_spec(subject@, predicate@, object@),
{
    let mut es: Vec<(String, Json)> = Vec::new();
    es.push((owned("s"), term_json_of("uri", subject)));
    es.push((owned("p"), term_json_of("uri", predicate)));
    es.push((owned("o"), object_binding(object)));
    proof {
        lemma_object_view(es);
    }
    let r = Json::Object(es);
    assert(r@->Object_0 =~= triple_binding_spec(subject@, predicate@, object@)->Object_0);
    r
}

// ---------------------------------------------------------------------------
// persistence updates
// ---------------------------------------------------------------------------

/// Subject of a persisted subscription.
pub open spec fn sub_subject(id: Seq<char>) -> Seq<char> {
    seq!['<'] + "urn:semweb:sub:"@ + id + seq!['>']
}

/// Subject of a logged delivery.
pub open spec fn delivery_subject(id: Seq<char>) -> Seq<char> {
    seq!['<'] + "urn:semweb:delivery:"@ + id + seq!['>']
}

/// A hub vocabulary predicate.
pub open spec fn hub_pred(name: Seq<char>) -> Seq<char> {
    "<http://semweb.dev/ns/hub#"@ + name + seq!['>']
}

/// One triple of a hub resource: subject, predicate, object.
pub open spec fn stmt(subj: Seq<char>, name: Seq<char>, obj: Seq<char>) -> Seq<char> {
    subj + seq![' '] + hub_pred(name) + seq![' '] + obj
}

fn stmt_of(subj: &str, name: &str, obj: &str) -> (r: String)
    ensures
        r@ == stmt(subj@, name@, obj@),
{
    let mut r = owned(subj);
    r.push(' ');
    push_all(&mut r, "<http://semweb.dev/ns/hub#");
    push_all(&mut r, name);
    r.push('>');
    r.push(' ');
    push_all(&mut r, obj);
    r
}

fn subject_of(prefix: &str, id: &str) -> (r: String)
    ensures
        r@ == seq!['<'] + prefix@ + id@ + seq!['>'],
{
    let mut r = String::new();
    r.push('<');
    push_all(&mut r, prefix);
    push_all(&mut r, id);
    r.push('>');
    r
}

/// The update persisting a subscription (secret already serialized).
pub open spec fn persist_subscription_spec(
    id: Seq<char>,
    topic: Seq<char>,
    callback: Seq<char>,
    secret: Option<Seq<char>>,
    expires: u64,
) -> Seq<char> {
    let subj = sub_subject(id);
    let secret_triple = match secret {
        Some(s) => stmt(subj, "secret"@, escape_literal_spec(s)) + " .\n"@,
        None => Seq::empty(),
    };
    "INSERT DATA { GRAPH <"@ + HUB_GRAPH@ + "> { "@ + stmt(subj, "topic"@, escape_literal_spec(topic)) + " . "@
        + stmt(subj, "callback"@, escape_literal_spec(callback)) + " . "@ + secret_triple + stmt(
        subj,
        "leaseExpires"@,
        dec(expires as nat),
    ) + " }}"@
}

pub fn persist_subscription_update(
    id: &str,
    topic: &str,
    callback: &str,
    secret: Option<&str>,
    expires_epoch: u64,
) -> (r: String)
    ensures
        r@ == persist_subscription_spec(
            id@,
            topic@,
            callback@,
            match secret {
                Some(s) => Some(s@),
                None => None,
            },
            expires_epoch,
        ),
{
    let subj = subject_of("urn:semweb:sub:", id);
    assert(subj@ =~= sub_subject(id@));
    let mut r = owned("INSERT DATA { GRAPH <");
    push_all(&mut r, HUB_GRAPH);
    push_all(&mut r, "> { ");
    let t = escape_literal(topic);
    let st = stmt_of(subj.as_str(), "topic", t.as_str());
    push_all(&mut r, st.as_str());
    push_all(&mut r, " . ");
    let c = escape_literal(callback);
    let sc = stmt_of(subj.as_str(), "callback", c.as_str());
    push_all(&mut r, sc.as_str());
    push_all(&mut r, " . ");
    match secret {
        Some(s) => {
            let e = escape_literal(s);
            let ss = stmt_of(subj.as_str(), "secret", e.as_str());
            push_all(&mut r, ss.as_str());
            push_all(&mut r, " .\n");
        },
        None => {},
    }
    let x = u64_dec(expires_epoch);
    let sx = stmt_of(subj.as_str(), "leaseExpires", x.as_str());
    push_all(&mut r, sx.as_str());
    push_all(&mut r, " }}");
    r
}

/// The update removing a persisted subscription.
pub fn delete_subscription_update(id: &str) -> (r: String)
    ensures
        r@ == "DELETE WHERE { GRAPH <"@ + HUB_GRAPH@ + "> { "@ + sub_subject(id@) + " ?p ?o } }"@,
{
    let subj = subject_of("urn:semweb:sub:", id);
    assert(subj@ =~= sub_subject(id@));
    let mut r = owned("DELETE WHERE { GRAPH <");
    push_all(&mut r, HUB_GRAPH);
    push_all(&mut r, "> { ");
    push_all(&mut r, subj.as_str());
    push_all(&mut r, " ?p ?o } }");
    r
}

/// The update claiming a logged delivery until a deadline.
pub fn claim_delivery_update(id: &str, until_epoch: u64) -> (r: String)
    ensures
        r@ == "INSERT DATA { GRAPH <"@ + HUB_DELIVERIES_GRAPH@ + "> { "@ + stmt(
            delivery_subject(id@),
            "claimedUntil"@,
            dec(until_epoch as nat),
        ) + " }}"@,
{
    let subj = subject_of("urn:semweb:delivery:", id);
    assert(subj@ =~= delivery_subject(id@));
    let mut r = owned("INSERT DATA { GRAPH <");
    push_all(&mut r, HUB_DELIVERIES_GRAPH);
    push_all(&mut r, "> { ");
    let x = u64_dec(until_epoch);
    let s = stmt_of(subj.as_str(), "claimedUntil", x.as_str());
    push_all(&mut r, s.as_str());
    push_all(&mut r, " }}");
    r
}

/// The update acknowledging (removing) a logged delivery.
pub fn delete_delivery_update(id: &str) -> (r: String)
    ensures
        r@ == "DELETE WHERE { GRAPH <"@ + HUB_DELIVERIES_GRAPH@ + "> { "@ + delivery_subject(id@)
            + " ?p ?o } }"@,
{
    let subj = subject_of("urn:semweb:delivery:", id);
    assert(subj@ =~= delivery_subject(id@));
    let mut r = owned("DELETE WHERE { GRAPH <");
    push_all(&mut r, HUB_DELIVERIES_GRAPH);
    push_all(&mut r, "> { ");
    push_all(&mut r, subj.as_str());
    push_all(&mut r, " ?p ?o } }");
    r
}

/// One durable-log delivery record.
pub struct DeliveryRecord {
    pub id: String,
    pub event_id: String,
    pub topic: String,
    pub callback: String,
    /// Already serialized (encrypted when a key is configured).
    pub secret: Option<String>,
    pub self_url: String,
    pub hub_url: String,
}

/// The update logging a delivery before it is queued.
pub open spec fn persist_delivery_spec(rec: &DeliveryRecord, enqueued_at: u64) -> Seq<char> {
    let subj = delivery_subject(rec.id@);
    let secret_triple = match rec.secret {
        Some(s) => stmt(subj, "secret"@, escape_literal_spec(s@)) + " .\n"@,
        None => Seq::empty(),
    };
    "INSERT DATA { GRAPH <"@ + HUB_DELIVERIES_GRAPH@ + "> { "@ + stmt(subj, "event"@, escape_literal_spec(rec.event_id@))
        + " . "@ + stmt(subj, "topic"@, escape_literal_spec(rec.topic@)) + " . "@ + stmt(
        subj,
        "callback"@,
        escape_literal_spec(rec.callback@),
    ) + " . "@ + stmt(subj, "selfUrl"@, escape_literal_spec(rec.self_url@)) + " . "@ + stmt(
        subj,
        "hubUrl"@,
        escape_literal_spec(rec.hub_url@),
    ) + " . "@ + secret_triple + stmt(subj, "enqueuedAt"@, dec(enqueued_at as nat)) + " }}"@
}

fn push_stmt(r: &mut String, subj: &str, name: &str, value: &str)
    ensures
        final(r)@ == old(r)@ + stmt(subj@, name@, escape_literal_spec(value@)) + " . "@,
{
    let e = escape_literal(value);
    let s = stmt_of(subj, name, e.as_str());
    push_all(r, s.as_str());
    push_all(r, " . ");
}

pub fn persist_delivery_update(rec: &DeliveryRecord, enqueued_at: u64) -> (r: String)
    ensures
        r@ == persist_delivery_spec(rec, enqueued_at),
{
    let subj = subject_of("urn:semweb:delivery:", rec.id.as_str());
    assert(subj@ =~= delivery_subject(rec.id@));
    let mut r = owned("INSERT DATA { GRAPH <");
    push_all(&mut r, HUB_DELIVERIES_GRAPH);
    push_all(&mut r, "> { ");
    push_stmt(&mut r, subj.as_str(), "event", rec.event_id.as_str());
    push_stmt(&mut r, subj.as_str(), "topic", rec.topic.as_str());
    push_stmt(&mut r, subj.as_str(), "callback", rec.callback.as_str());
    push_stmt(&mut r, subj.as_str(), "selfUrl", rec.self_url.as_str());
    push_stmt(&mut r, subj.as_str(), "hubUrl", rec.hub_url.as_str());
    match &rec.secret {
        Some(s) => {
            let e = escape_literal(s.as_str());
            let ss = stmt_of(subj.as_str(), "secret", e.as_str());
            push_all(&mut r, ss.as_str());
            push_all(&mut r, " .\n");
        },
        None => {},
    }
    let x = u64_dec(enqueued_at);
    let sx = stmt_of(subj.as_str(), "enqueuedAt", x.as_str());
    push_all(&mut r, sx.as_str());
    push_all(&mut r, " }}");
    r
}

// ---------------------------------------------------------------------------
// reading rows back
// ---------------------------------------------------------------------------

pub open spec fn parse_u64_spec(t: Seq<char>) -> Option<u64> {
    match parse_unsigned(t, u64::MAX as nat) {
        Some(n) => Some(n as u64),
        None => None,
    }
}

/// A persisted subscription row: (topic, callback, serialized secret,
/// lease deadline); `None` when a required part is missing or the
/// deadline does not parse.
pub open spec fn subscription_row_spec(row: JsonValue) -> Option<(Seq<char>, Seq<char>, Option<Seq<char>>, u64)> {
    match (row_value(row, "topic"@), row_value(row, "callback"@), row_value(row, "expires"@)) {
        (Some(t), Some(c), Some(e)) => match parse_u64_spec(e) {
            Some(x) => Some((t, c, row_value(row, "secret"@), x)),
            None => None,
        },
        _ => None,
    }
}

pub open spec fn subscription_rows_spec(rows: Seq<JsonValue>) -> Seq<(Seq<char>, Seq<char>, Option<Seq<char>>, u64)>
    decreases rows.len(),
{
    if rows.len() == 0 {
        Seq::empty()
    } else {
        let prev = subscription_rows_spec(rows.drop_last());
        match subscription_row_spec(rows.last()) {
            Some(x) => prev.push(x),
            None => prev,
        }
    }
}

fn owned_opt(o: Option<&String>) -> (r: Option<String>)
    ensures
        match r {
            Some(s) => o is Some && s@ == o->0@,
            None => o is None,
        },
{
    match o {
        Some(s) => Some(owned(s.as_str())),
        None => None,
    }
}

pub open spec fn opt_text_view(o: Option<String>) -> Option<Seq<char>> {
    match o {
        Some(s) => Some(s@),
        None => None,
    }
}

pub open spec fn sub_row_view(r: (String, String, Option<String>, u64)) -> (Seq<char>, Seq<char>, Option<Seq<char>>, u64) {
    (r.0@, r.1@, opt_text_view(r.2), r.3)
}

fn subscription_row(row: &Json) -> (r: Option<(String, String, Option<String>, u64)>)
    ensures
        match r {
            Some(x) => subscription_row_spec(row@) == Some(sub_row_view(x)),
            None => subscription_row_spec(row@) is None,
        },
{
    let t = match row_value_of(row, "topic") {
        Some(t) => t,
        None => {
            return None;
        },
    };
    let c = match row_value_of(row, "callback") {
        Some(c) => c,
        None => {
            return None;
        },
    };
    let secret = owned_opt(row_value_of(row, "secret"));
    let e = match row_value_of(row, "expires") {
        Some(e) => e,
        None => {
            return None;
        },
    };
    match parse_u64(e.as_str()) {
        Some(x) => Some((owned(t.as_str()), owned(c.as_str()), secret, x)),
        None => None,
    }
}

/// The persisted subscriptions in the rows of their SELECT query.
pub fn subscription_rows(rows: &[Json]) -> (r: Vec<(String, String, Option<String>, u64)>)
    ensures
        r@.map_values(|x: (String, String, Option<String>, u64)| sub_row_view(x)) == subscription_rows_spec(
            rows_view(rows@),
        ),
{
    let ghost rv = rows_view(rows@);
    let mut out: Vec<(String, String, Option<String>, u64)> = Vec::new();
    let mut i: usize = 0;
    while i < rows.len()
        invariant
            i <= rows@.len(),
            rv == rows_view(rows@),
            out@.map_values(|x: (String, String, Option<String>, u64)| sub_row_view(x)) == subscription_rows_spec(
                rv.take(i as int),
            ),
        decreases rows@.len() - i,
    {
        assert(rv.take(i + 1).drop_last() =~= rv.take(i as int));
        assert(rv[i as int] == rows@[i as int]@);
        let ghost before = out@.map_values(|x: (String, String, Option<String>, u64)| sub_row_view(x));
        match subscription_row(&rows[i]) {
            Some(x) => {
                let ghost xv = sub_row_view(x);
                out.push(x);
                assert(out@.map_values(|x: (String, String, Option<String>, u64)| sub_row_view(x)) =~= before.push(xv));
            },
            None => {},
        }
        i = i + 1;
    }
    assert(rv.take(i as int) =~= rv);
    out
}

/// A delivery still in the durable log.
pub struct PendingDelivery {
    pub id: String,
    pub event_id: String,
    pub topic: String,
    pub callback: String,
    /// Serialized (encrypted when a key is configured).
    pub secret: Option<String>,
    pub self_url: String,
    pub hub_url: String,
    pub enqueued_at: u64,
    /// 0 when unclaimed.
    pub claimed_until: u64,
}

/// Model of a pending delivery: the seven texts (the secret optional) and
/// the two times.
pub type PendingModel = (Seq<char>, Seq<char>, Seq<char>, Seq<char>, Option<Seq<char>>, Seq<char>, Seq<char>, u64, u64);

pub open spec fn pending_view(p: PendingDelivery) -> PendingModel {
    (p.id@, p.event_id@, p.topic@, p.callback@, opt_text_view(p.secret), p.self_url@, p.hub_url@, p.enqueued_at, p.claimed_until)
}

/// A delivery-log row; the claim deadline is 0 when absent or unparsable.
pub open spec fn delivery_row_spec(row: JsonValue) -> Option<PendingModel> {
    match (
        row_value(row, "id"@),
        row_value(row, "event"@),
        row_value(row, "topic"@),
        row_value(row, "callback"@),
        row_value(row, "selfUrl"@),
        row_value(row, "hubUrl"@),
        row_value(row, "at"@),
    ) {
        (Some(id), Some(ev), Some(t), Some(c), Some(su), Some(hu), Some(at)) => match parse_u64_spec(at) {
            Some(a) => Some(
                (
                    id,
                    ev,
                    t,
                    c,
                    row_value(row, "secret"@),
                    su,
                    hu,
                    a,
                    match row_value(row, "claimed"@) {
                        Some(cl) => match parse_u64_spec(cl) {
                            Some(x) => x,
                            None => 0,
                        },
                        None => 0,
                    },
                ),
            ),
            None => None,
        },
        _ => None,
    }
}

pub open spec fn delivery_rows_spec(rows: Seq<JsonValue>) -> Seq<PendingModel>
    decreases rows.len(),
{
    if rows.len() == 0 {
        Seq::empty()
    } else {
        let prev = delivery_rows_spec(rows.drop_last());
        match delivery_row_spec(rows.last()) {
            Some(x) => prev.push(x),
            None => prev,
        }
    }
}

fn required<'a>(row: &'a Json, var: &str) -> (r: Option<String>)
    ensures
        match r {
            Some(s) => row_value(row@, var@) == Some(s@),
            None => row_value(row@, var@) is None,
        },
{
    match row_value_of(row, var) {
        Some(s) => Some(owned(s.as_str())),
        None => None,
    }
}

fn delivery_row(row: &Json) -> (r: Option<PendingDelivery>)
    ensures
        match r {
            Some(x) => delivery_row_spec(row@) == Some(pending_view(x)),
            None => delivery_row_spec(row@) is None,
        },
{
    let id = required(row, "id");
    let ev = required(row, "event");
    let t = required(row, "topic");
    let c = required(row, "callback");
    let secret = owned_opt(row_value_of(row, "secret"));
    let su = required(row, "selfUrl");
    let hu = required(row, "hubUrl");
    let at = required(row, "at");
    match (id, ev, t, c, su, hu, at) {
        (Some(id), Some(event_id), Some(topic), Some(callback), Some(self_url), Some(hub_url), Some(at)) => {
            let enqueued_at = match parse_u64(at.as_str()) {
                Some(a) => a,
                None => {
                    return None;
                },
            };
            let claimed_until = match row_value_of(row, "claimed") {
                Some(cl) => match parse_u64(cl.as_str()) {
                    Some(x) => x,
                    None => 0,
                },
                None => 0,
            };
            Some(PendingDelivery { id, event_id, topic, callback, secret, self_url, hub_url, enqueued_at, claimed_until })
        },
        _ => None,
    }
}

/// The pending deliveries in the rows of the delivery-log SELECT query.
pub fn delivery_rows(rows: &[Json]) -> (r: Vec<PendingDelivery>)
    ensures
        r@.map_values(|x: PendingDelivery| pending_view(x)) == delivery_rows_spec(rows_view(rows@)),
{
    let ghost rv = rows_view(rows@);
    let mut out: Vec<PendingDelivery> = Vec::new();
    let mut i: usize = 0;
    while i < rows.len()
        invariant
            i <= rows@.len(),
            rv == rows_view(rows@),
            out@.map_values(|x: PendingDelivery| pending_view(x)) == delivery_rows_spec(rv.take(i as int)),
        decreases rows@.len() - i,
    {
        assert(rv.take(i + 1).drop_last() =~= rv.take(i as int));
        assert(rv[i as int] == rows@[i as int]@);
        let ghost before = out@.map_values(|x: PendingDelivery| pending_view(x));
        match delivery_row(&rows[i]) {
            Some(x) => {
                let ghost xv = pending_view(x);
                out.push(x);
                assert(out@.map_values(|x: PendingDelivery| pending_view(x)) =~= before.push(xv));
            },
            None => {},
        }
        i = i + 1;
    }
    assert(rv.take(i as int) =~= rv);
    out
}

/// The values of one variable in result rows (rows without it skipped).
pub open spec fn column_spec(rows: Seq<JsonValue>, var: Seq<char>) -> Seq<Seq<char>>
    decreases rows.len(),
{
    if rows.len() == 0 {
        Seq::empty()
    } else {
        let prev = column_spec(rows.drop_last(), var);
        match row_value(rows.last(), var) {
            Some(v) => prev.push(v),
            None => prev,
        }
    }
}

pub fn column_values(rows: &[Json], var: &str) -> (r: Vec<String>)
    ensures
        r@.map_values(|s: String| s@) == column_spec(rows_view(rows@), var@),
{
    let ghost rv = rows_view(rows@);
    let mut out: Vec<String> = Vec::new();
    let mut i: usize = 0;
    while i < rows.len()
        invariant
            i <= rows@.len(),
            rv == rows_view(rows@),
            out@.map_values(|s: String| s@) == column_spec(rv.take(i as int), var@),
        decreases rows@.len() - i,
    {
        assert(rv.take(i + 1).drop_last() =~= rv.take(i as int));
        assert(rv[i as int] == rows@[i as int]@);
        let ghost before = out@.map_values(|s: String| s@);
        match row_value_of(&rows[i], var) {
            Some(v) => {
                out.push(owned(v.as_str()));
                assert(out@.map_values(|s: String| s@) =~= before.push(v@));
            },
            None => {},
        }
        i = i + 1;
    }
    assert(rv.take(i as int) =~= rv);
    out
}

/// Class and predicate URIs currently in use.
pub struct SchemaInfo {
    pub class_uris: Vec<String>,
    pub predicate_uris: Vec<String>,
}

/// The schema from the rows of the two DISTINCT queries: each list
/// sorted, without duplicates.
pub fn schema_info(class_rows: &[Json], pred_rows: &[Json]) -> (r: SchemaInfo)
    ensures
        strictly_sorted(texts(r.class_uris@)),
        texts(r.class_uris@).to_set() == column_spec(rows_view(class_rows@), "class"@).to_set(),
        strictly_sorted(texts(r.predicate_uris@)),
        texts(r.predicate_uris@).to_set() == column_spec(rows_view(pred_rows@), "p"@).to_set(),
{
    let classes = column_values(class_rows, "class");
    let preds = column_values(pred_rows, "p");
    SchemaInfo { class_uris: sorted_unique(&classes), predicate_uris: sorted_unique(&preds) }
}

// ---------------------------------------------------------------------------
// SHACL shapes
// ---------------------------------------------------------------------------

/// A SHACL property shape of a target class.
#[derive(Debug, Clone)]
pub struct Shape {
    pub target_class: String,
    pub path: String,
    pub min_count: Option<u64>,
    pub max_count: Option<u64>,
    pub datatype: Option<String>,
}

pub type ShapeModel = (Seq<char>, Seq<char>, Option<u64>, Option<u64>, Option<Seq<char>>);

pub open spec fn shape_view(s: Shape) -> ShapeModel {
    (s.target_class@, s.path@, s.min_count, s.max_count, opt_text_view(s.datatype))
}

pub open spec fn opt_count(o: Option<Seq<char>>) -> Option<u64> {
    match o {
        Some(t) => parse_u64_spec(t),
        None => None,
    }
}

/// The shape a row describes (rows without class or path are skipped).
pub open spec fn shape_row_spec(row: JsonValue) -> Option<ShapeModel> {
    match (row_value(row, "class"@), row_value(row, "path"@)) {
        (Some(c), Some(p)) => Some(
            (c, p, opt_count(row_value(row, "min"@)), opt_count(row_value(row, "max"@)), row_value(row, "datatype"@)),
        ),
        _ => None,
    }
}

pub open spec fn shape_rows_spec(rows: Seq<JsonValue>) -> Seq<ShapeModel>
    decreases rows.len(),
{
    if rows.len() == 0 {
        Seq::empty()
    } else {
        let prev = shape_rows_spec(rows.drop_last());
        match shape_row_spec(rows.last()) {
            Some(x) => prev.push(x),
            None => prev,
        }
    }
}

/// The target classes, each once, in order of first appearance.
pub open spec fn shape_classes(es: Seq<ShapeModel>) -> Seq<Seq<char>>
    decreases es.len(),
{
    if es.len() == 0 {
        Seq::empty()
    } else {
        let prev = shape_classes(es.drop_last());
        if prev.contains(es.last().0) {
            prev
        } else {
            prev.push(es.last().0)
        }
    }
}

/// The shapes of one class, in row order.
pub open spec fn class_shapes(es: Seq<ShapeModel>, c: Seq<char>) -> Seq<ShapeModel>
    decreases es.len(),
{
    if es.len() == 0 {
        Seq::empty()
    } else {
        let prev = class_shapes(es.drop_last(), c);
        if es.last().0 == c {
            prev.push(es.last())
        } else {
            prev
        }
    }
}

proof fn lemma_shape_classes(es: Seq<ShapeModel>, c: Seq<char>)
    ensures
        shape_classes(es).no_duplicates(),
        shape_classes(es).contains(c) <==> class_shapes(es, c).len() > 0,
    decreases es.len(),
{
    if es.len() > 0 {
        let d = es.drop_last();
        lemma_shape_classes(d, c);
        let prev = shape_classes(d);
        let x = es.last().0;
        let q = prev.push(x);
        if prev.contains(c) {
            let k = choose|k: int| 0 <= k < prev.len() && prev[k] == c;
            assert(q[k] == c);
        }
        if q.contains(c) && !prev.contains(c) {
            let k = choose|k: int| 0 <= k < q.len() && q[k] == c;
            assert(k == prev.len());
        }
        if x == c {
            assert(q[prev.len() as int] == c);
        }
    }
}

fn shape_row(row: &Json) -> (r: Option<Shape>)
    ensures
        match r {
            Some(x) => shape_row_spec(row@) == Some(shape_view(x)),
            None => shape_row_spec(row@) is None,
        },
{
    let class = match required(row, "class") {
        Some(c) => c,
        None => {
            return None;
        },
    };
    let path = match required(row, "path") {
        Some(p) => p,
        None => {
            return None;
        },
    };
    let min_count = match row_value_of(row, "min") {
        Some(t) => parse_u64(t.as_str()),
        None => None,
    };
    let max_count = match row_value_of(row, "max") {
        Some(t) => parse_u64(t.as_str()),
        None => None,
    };
    let datatype = owned_opt(row_value_of(row, "datatype"));
    Some(Shape { target_class: class, path, min_count, max_count, datatype })
}

pub open spec fn groups_classes(g: Seq<(String, Vec<Shape>)>) -> Seq<Seq<char>> {
    g.map_values(|e: (String, Vec<Shape>)| e.0@)
}

pub open spec fn group_shapes(e: (String, Vec<Shape>)) -> Seq<ShapeModel> {
    e.1@.map_values(|s: Shape| shape_view(s))
}

/// The property shapes in the rows of the shapes query, grouped by target
/// class (classes in order of first appearance, shapes in row order).
pub fn shapes_by_class(rows: &[Json]) -> (r: Vec<(String, Vec<Shape>)>)
    ensures
        groups_classes(r@) == shape_classes(shape_rows_spec(rows_view(rows@))),
        forall|k: int| 0 <= k < r@.len() ==> group_shapes(#[trigger] r@[k]) == class_shapes(
            shape_rows_spec(rows_view(rows@)),
            r@[k].0@,
        ),
{
    let ghost rv = rows_view(rows@);
    let mut out: Vec<(String, Vec<Shape>)> = Vec::new();
    let mut i: usize = 0;
    while i < rows.len()
        invariant
            i <= rows@.len(),
            rv == rows_view(rows@),
            groups_classes(out@) == shape_classes(shape_rows_spec(rv.take(i as int))),
            forall|k: int| 0 <= k < out@.len() ==> group_shapes(#[trigger] out@[k]) == class_shapes(
                shape_rows_spec(rv.take(i as int)),
                out@[k].0@,
            ),
        decreases rows@.len() - i,
    {
        assert(rv.take(i + 1).drop_last() =~= rv.take(i as int));
        assert(rv[i as int] == rows@[i as int]@);
        let ghost prev = shape_rows_spec(rv.take(i as int));
        let ghost ov = out@;
        proof {
            lemma_shape_classes(prev, Seq::empty());
        }
        match shape_row(&rows[i]) {
            Some(shape) => {
                let ghost sv = shape_view(shape);
                let ghost next = prev.push(sv);
                assert(shape_rows_spec(rv.take(i + 1)) == next);
                assert(next.drop_last() =~= prev);
                let mut j: usize = 0;
                let mut found = false;
                while j < out.len()
                    invariant_except_break
                        !found,
                    invariant
                        j <= out@.len(),
                        out@ == ov,
                        shape.target_class@ == sv.0,
                        forall|k: int| 0 <= k < j ==> out@[k].0@ != sv.0,
                    ensures
                        found ==> j < out@.len() && out@[j as int].0@ == sv.0,
                        !found ==> j == out@.len(),
                    decreases out@.len() - j,
                {
                    if str_eq(out[j].0.as_str(), shape.target_class.as_str()) {
                        found = true;
                        break;
                    }
                    j = j + 1;
                }
                let ghost cls = groups_classes(ov);
                assert(forall|k: int| 0 <= k < ov.len() ==> #[trigger] cls[k] == ov[k].0@);
                proof {
                    lemma_shape_classes(prev, sv.0);
                }
                if found {
                    let mut group = out.remove(j);
                    let ghost gv = group_shapes(group);
                    assert(gv == class_shapes(prev, sv.0));
                    group.1.push(shape);
                    assert(group_shapes(group) =~= gv.push(sv));
                    out.insert(j, group);
                    assert(cls[j as int] == sv.0);
                    assert(cls.contains(sv.0));
                    assert(groups_classes(out@) =~= cls);
                    assert forall|k: int| 0 <= k < out@.len() implies group_shapes(#[trigger] out@[k]) == class_shapes(
                        next,
                        out@[k].0@,
                    ) by {
                        if k != j {
                            assert(out@[k] == ov[k]);
                            assert(cls[k] != cls[j as int]);
                        }
                    }
                } else {
                    let c = owned(shape.target_class.as_str());
                    let mut g: Vec<Shape> = Vec::new();
                    g.push(shape);
                    assert(forall|k: int| 0 <= k < cls.len() ==> cls[k] != sv.0);
                    assert(!cls.contains(sv.0));
                    assert(class_shapes(prev, sv.0).len() == 0);
                    assert(class_shapes(prev, sv.0) =~= Seq::<ShapeModel>::empty());
                    assert(group_shapes((c, g)) =~= seq![sv]);
                    out.push((c, g));
                    assert(groups_classes(out@) =~= cls.push(sv.0));
                    assert forall|k: int| 0 <= k < out@.len() implies group_shapes(#[trigger] out@[k]) == class_shapes(
                        next,
                        out@[k].0@,
                    ) by {
                        if k < ov.len() {
                            assert(out@[k] == ov[k]);
                            assert(cls[k] != sv.0);
                        }
                    }
                }
            },
            None => {
                assert(shape_rows_spec(rv.take(i + 1)) == prev);
            },
        }
        i = i + 1;
    }
    assert(rv.take(i as int) =~= rv);
    out
}

} // verus!
