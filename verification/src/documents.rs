//! The JSON documents the service serves: topic contents, the
//! self-description, the agent manifest, the DID document, and the hub
//! and health status.
use vstd::prelude::*;

use crate::context::{compact_spec, namespaces_of, prefix_spec, PrefixMap};
use crate::counts::{row_value, row_value_of, rows_view, CountMap};
use crate::json::{array_of, compact, get_spec, items_view, members_view, object_of, string_array, to_compact, with_member, Json, JsonValue};
use crate::jsonld::{binding_to_line, line_spec};
use crate::order::texts;
use crate::store::{group_shapes, groups_classes, SchemaInfo, Shape, ShapeModel};
use crate::text::{dec, owned, push_all, u64_dec};
use crate::trust::SigningIdentity;

verus! {

pub open spec fn jstr(s: Seq<char>) -> JsonValue {
    JsonValue::Str(s)
}

pub open spec fn strs(xs: Seq<Seq<char>>) -> JsonValue {
    JsonValue::Array(xs.map_values(|s: Seq<char>| JsonValue::Str(s)))
}

pub open spec fn topics_json() -> JsonValue {
    strs(seq![crate::hub::TOPIC_DATA@, crate::hub::TOPIC_SCHEMA@])
}

fn topics_array() -> (r: Json)
    ensures
        r@ == topics_json(),
{
    let v: Vec<String> = vec![owned(crate::hub::TOPIC_DATA), owned(crate::hub::TOPIC_SCHEMA)];
    let r = string_array(v.as_slice());
    assert(r@->Array_0 =~= topics_json()->Array_0);
    r
}

// ---------------------------------------------------------------------------
// topic contents
// ---------------------------------------------------------------------------

/// The data topic: one compacted JSON-LD line per binding that holds a
/// triple, each followed by a newline (NDJSON).
pub open spec fn data_body_spec(extra: Seq<(Seq<char>, Seq<char>)>, bindings: Seq<JsonValue>) -> Seq<char>
    decreases bindings.len(),
{
    if bindings.len() == 0 {
        Seq::empty()
    } else {
        let prev = data_body_spec(extra, bindings.drop_last());
        match line_spec(extra, bindings.last()) {
            Some(l) => prev + compact(l) + seq!['\n'],
            None => prev,
        }
    }
}

pub fn data_topic_body(bindings: &[Json], prefixes: &PrefixMap) -> (r: String)
    ensures
        r@ == data_body_spec(prefixes@, rows_view(bindings@)),
{
    let ghost bv = rows_view(bindings@);
    let mut body = String::new();
    let mut i: usize = 0;
    while i < bindings.len()
        invariant
            i <= bindings@.len(),
            bv == rows_view(bindings@),
            body@ == data_body_spec(prefixes@, bv.take(i as int)),
        decreases bindings@.len() - i,
    {
        assert(bv.take(i + 1).drop_last() =~= bv.take(i as int));
        assert(bv[i as int] == bindings@[i as int]@);
        match binding_to_line(&bindings[i], prefixes) {
            Some(line) => {
                let t = to_compact(&line);
                push_all(&mut body, t.as_str());
                body.push('\n');
            },
            None => {},
        }
        i = i + 1;
    }
    assert(bv.take(i as int) =~= bv);
    body
}

/// The URIs compacted through the prefix map.
pub open spec fn compacted(extra: Seq<(Seq<char>, Seq<char>)>, uris: Seq<Seq<char>>) -> Seq<Seq<char>> {
    uris.map_values(|u: Seq<char>| compact_spec(extra, u))
}

pub fn compact_all(prefixes: &PrefixMap, uris: &[String]) -> (r: Vec<String>)
    ensures
        texts(r@) == compacted(prefixes@, texts(uris@)),
{
    let mut out: Vec<String> = Vec::new();
    let mut i: usize = 0;
    while i < uris.len()
        invariant
            i <= uris@.len(),
            texts(out@) == compacted(prefixes@, texts(uris@).take(i as int)),
        decreases uris@.len() - i,
    {
        let ghost before = texts(out@);
        let c = prefixes.compact(uris[i].as_str());
        let ghost cv = c@;
        out.push(c);
        assert(texts(out@) =~= before.push(cv));
        assert(texts(uris@).take(i + 1) =~= texts(uris@).take(i as int).push(uris@[i as int]@));
        assert(compacted(prefixes@, texts(uris@).take(i + 1)) =~= compacted(prefixes@, texts(uris@).take(i as int)).push(cv));
        i = i + 1;
    }
    assert(texts(uris@).take(i as int) =~= texts(uris@));
    out
}

/// The links of the schema topic's controls.
pub open spec fn schema_controls() -> JsonValue {
    JsonValue::Object(
        seq![
            ("fragments"@, jstr("/fragments{?subject,predicate,object,after,limit,offset,graph}"@)),
            ("sparql"@, jstr("/sparql{?query}"@)),
            ("manifest"@, jstr("/manifest"@)),
            ("hub"@, jstr("/hub"@)),
            ("topics"@, topics_json()),
        ],
    )
}

/// The schema topic's document.
pub open spec fn schema_doc_spec(extra: Seq<(Seq<char>, Seq<char>)>, classes: Seq<Seq<char>>, predicates: Seq<Seq<char>>, fingerprint: Seq<char>) -> JsonValue {
    JsonValue::Object(
        seq![
            ("@context"@, jstr("/context.jsonld"@)),
            ("generatedFrom"@, jstr("live store state (not a cached build)"@)),
            ("schemaFingerprint"@, jstr(fingerprint)),
            ("classes"@, strs(compacted(extra, classes))),
            ("predicates"@, strs(compacted(extra, predicates))),
            ("controls"@, schema_controls()),
        ],
    )
}

fn str_json(s: &str) -> (r: Json)
    ensures
        r@ == jstr(s@),
{
    Json::string(s)
}

fn pair(k: &str, v: Json) -> (r: (String, Json))
    ensures
        r.0@ == k@,
        r.1@ == v@,
{
    (owned(k), v)
}

pub fn schema_topic_document(info: &SchemaInfo, prefixes: &PrefixMap) -> (r: Json)
    ensures
        r@ == schema_doc_spec(
            prefixes@,
            texts(info.class_uris@),
            texts(info.predicate_uris@),
            "sha256:"@ + crate::text::hex_of(
                crate::store::sha256_of(
                    crate::util::fingerprint_text(texts(info.class_uris@), texts(info.predicate_uris@)),
                ),
            ),
        ),
{
    let fp = crate::util::schema_fingerprint(info.class_uris.as_slice(), info.predicate_uris.as_slice());
    let classes = compact_all(prefixes, info.class_uris.as_slice());
    let preds = compact_all(prefixes, info.predicate_uris.as_slice());
    let mut controls: Vec<(String, Json)> = Vec::new();
    controls.push(pair("fragments", str_json("/fragments{?subject,predicate,object,after,limit,offset,graph}")));
    controls.push(pair("sparql", str_json("/sparql{?query}")));
    controls.push(pair("manifest", str_json("/manifest")));
    controls.push(pair("hub", str_json("/hub")));
    controls.push(pair("topics", topics_array()));
    let controls_json = object_of(controls);
    assert(controls_json@->Object_0 =~= schema_controls()->Object_0);
    let cj = string_array(classes.as_slice());
    let pj = string_array(preds.as_slice());
    assert(cj@->Array_0 =~= strs(texts(classes@))->Array_0);
    assert(pj@->Array_0 =~= strs(texts(preds@))->Array_0);
    let mut es: Vec<(String, Json)> = Vec::new();
    es.push(pair("@context", str_json("/context.jsonld")));
    es.push(pair("generatedFrom", str_json("live store state (not a cached build)")));
    es.push(pair("schemaFingerprint", Json::Str(fp)));
    es.push(pair("classes", cj));
    es.push(pair("predicates", pj));
    es.push(pair("controls", controls_json));
    let r = object_of(es);
    assert(r@->Object_0 =~= schema_doc_spec(
        prefixes@,
        texts(info.class_uris@),
        texts(info.predicate_uris@),
        "sha256:"@ + crate::text::hex_of(
            crate::store::sha256_of(
                crate::util::fingerprint_text(texts(info.class_uris@), texts(info.predicate_uris@)),
            ),
        ),
    )->Object_0);
    r
}

// ---------------------------------------------------------------------------
// self-description, hub status, health, DID document
// ---------------------------------------------------------------------------

/// The controls of the root self-description.
pub open spec fn root_controls() -> JsonValue {
    JsonValue::Object(
        seq![
            ("fragments"@, jstr("/fragments{?subject,predicate,object,after,limit,offset,graph}"@)),
            ("sparql"@, jstr("/sparql{?query}"@)),
            ("manifest"@, jstr("/manifest"@)),
            ("mcp"@, jstr("/mcp"@)),
            ("events"@, jstr("/events{?topic}"@)),
            ("hub"@, jstr("/hub"@)),
            ("topics"@, topics_json()),
        ],
    )
}

pub open spec fn root_doc_spec(extra: Seq<(Seq<char>, Seq<char>)>, classes: Seq<Seq<char>>, predicates: Seq<Seq<char>>) -> JsonValue {
    JsonValue::Object(
        seq![
            ("@context"@, jstr("/context.jsonld"@)),
            ("generatedFrom"@, jstr("live store state (not a cached build)"@)),
            ("storeMode"@, jstr("sparql-rust"@)),
            ("classes"@, strs(compacted(extra, classes))),
            ("predicates"@, strs(compacted(extra, predicates))),
            ("controls"@, root_controls()),
        ],
    )
}

/// The live self-description (GET /).
pub fn root_document(info: &SchemaInfo, prefixes: &PrefixMap) -> (r: Json)
    ensures
        r@ == root_doc_spec(prefixes@, texts(info.class_uris@), texts(info.predicate_uris@)),
{
    let classes = compact_all(prefixes, info.class_uris.as_slice());
    let preds = compact_all(prefixes, info.predicate_uris.as_slice());
    let mut controls: Vec<(String, Json)> = Vec::new();
    controls.push(pair("fragments", str_json("/fragments{?subject,predicate,object,after,limit,offset,graph}")));
    controls.push(pair("sparql", str_json("/sparql{?query}")));
    controls.push(pair("manifest", str_json("/manifest")));
    controls.push(pair("mcp", str_json("/mcp")));
    controls.push(pair("events", str_json("/events{?topic}")));
    controls.push(pair("hub", str_json("/hub")));
    controls.push(pair("topics", topics_array()));
    let controls_json = object_of(controls);
    assert(controls_json@->Object_0 =~= root_controls()->Object_0);
    let cj = string_array(classes.as_slice());
    let pj = string_array(preds.as_slice());
    assert(cj@->Array_0 =~= strs(texts(classes@))->Array_0);
    assert(pj@->Array_0 =~= strs(texts(preds@))->Array_0);
    let mut es: Vec<(String, Json)> = Vec::new();
    es.push(pair("@context", str_json("/context.jsonld")));
    es.push(pair("generatedFrom", str_json("live store state (not a cached build)")));
    es.push(pair("storeMode", str_json("sparql-rust")));
    es.push(pair("classes", cj));
    es.push(pair("predicates", pj));
    es.push(pair("controls", controls_json));
    let r = object_of(es);
    assert(r@->Object_0 =~= root_doc_spec(prefixes@, texts(info.class_uris@), texts(info.predicate_uris@))->Object_0);
    r
}

/// The subscription counts object: each topic with its count.
pub open spec fn counts_object(counts: Seq<(Seq<char>, nat)>) -> JsonValue
    decreases counts.len(),
{
    if counts.len() == 0 {
        JsonValue::Object(Seq::empty())
    } else {
        with_member(
            counts_object(counts.drop_last()),
            counts.last().0,
            JsonValue::Number(dec(counts.last().1)),
        )
    }
}

/// GET /hub: the topics and the live subscription counts.
pub fn hub_status_document(counts: &Vec<(String, usize)>) -> (r: Json)
    ensures
        r@ == JsonValue::Object(
            seq![("topics"@, topics_json()), ("subscriptions"@, counts_object(crate::hub::count_pairs(counts@)))],
        ),
{
    let ghost cv = crate::hub::count_pairs(counts@);
    let mut subs = Json::empty_object();
    let mut i: usize = 0;
    while i < counts.len()
        invariant
            i <= counts@.len(),
            cv == crate::hub::count_pairs(counts@),
            subs@ == counts_object(cv.take(i as int)),
        decreases counts@.len() - i,
    {
        assert(cv.take(i + 1).drop_last() =~= cv.take(i as int));
        assert(cv[i as int] == (counts@[i as int].0@, counts@[i as int].1 as nat));
        let n = crate::text::u64_dec(counts[i].1 as u64);
        subs.insert(counts[i].0.as_str(), Json::Number(n));
        i = i + 1;
    }
    assert(cv.take(i as int) =~= cv);
    let mut es: Vec<(String, Json)> = Vec::new();
    es.push(pair("topics", topics_array()));
    es.push(pair("subscriptions", subs));
    let r = object_of(es);
    assert(r@->Object_0 =~= seq![("topics"@, topics_json()), ("subscriptions"@, counts_object(cv))]);
    r
}

/// GET /health.
pub fn health_document(reachable: bool) -> (r: Json)
    ensures
        r@ == JsonValue::Object(
            seq![
                ("status"@, jstr(if reachable { "ok"@ } else { "degraded"@ })),
                ("store"@, jstr(if reachable { "reachable"@ } else { "unreachable"@ })),
            ],
        ),
{
    let mut es: Vec<(String, Json)> = Vec::new();
    es.push(pair("status", str_json(if reachable { "ok" } else { "degraded" })));
    es.push(pair("store", str_json(if reachable { "reachable" } else { "unreachable" })));
    let r = object_of(es);
    assert(r@->Object_0 =~= seq![
        ("status"@, jstr(if reachable { "ok"@ } else { "degraded"@ })),
        ("store"@, jstr(if reachable { "reachable"@ } else { "unreachable"@ })),
    ]);
    r
}

/// The DID document of this deployment's identity.
pub open spec fn did_doc_spec(did: Seq<char>, multibase: Seq<char>, issuers: nat, revoked: nat) -> JsonValue {
    let key = did + "#key-1"@;
    JsonValue::Object(
        seq![
            ("@context"@, strs(seq!["https://www.w3.org/ns/did/v1"@])),
            ("id"@, jstr(did)),
            ("verificationMethod"@, JsonValue::Array(seq![JsonValue::Object(seq![
                ("id"@, jstr(key)),
                ("type"@, jstr("Multikey"@)),
                ("controller"@, jstr(did)),
                ("publicKeyMultibase"@, jstr(multibase)),
            ])])),
            ("assertionMethod"@, strs(seq![key])),
            ("authentication"@, strs(seq![key])),
            ("trust"@, JsonValue::Object(seq![
                ("trustedIssuers"@, JsonValue::Number(dec(issuers))),
                ("revokedCredentials"@, JsonValue::Number(dec(revoked))),
            ])),
        ],
    )
}

fn single_string(s: &str) -> (r: Json)
    ensures
        r@ == strs(seq![s@]),
{
    let mut xs: Vec<Json> = Vec::new();
    xs.push(Json::string(s));
    let r = array_of(xs);
    assert(r@->Array_0 =~= strs(seq![s@])->Array_0);
    r
}

pub fn did_document(identity: &SigningIdentity, issuer_count: usize, revoked_count: usize) -> (r: Json)
    ensures
        r@ == did_doc_spec(identity.did@, identity.public_key_multibase@, issuer_count as nat, revoked_count as nat),
{
    let did = identity.did.as_str();
    let mut key = owned(did);
    push_all(&mut key, "#key-1");
    let mut vm: Vec<(String, Json)> = Vec::new();
    vm.push(pair("id", str_json(key.as_str())));
    vm.push(pair("type", str_json("Multikey")));
    vm.push(pair("controller", str_json(did)));
    vm.push(pair("publicKeyMultibase", str_json(identity.public_key_multibase.as_str())));
    let vmj = object_of(vm);
    let ghost expected = did_doc_spec(identity.did@, identity.public_key_multibase@, issuer_count as nat, revoked_count as nat);
    assert(vmj@->Object_0 =~= expected->Object_0[2].1->Array_0[0]->Object_0);
    let mut vms: Vec<Json> = Vec::new();
    vms.push(vmj);
    let vmsj = array_of(vms);
    assert(vmsj@->Array_0 =~= expected->Object_0[2].1->Array_0);
    let mut trust: Vec<(String, Json)> = Vec::new();
    trust.push(pair("trustedIssuers", Json::Number(u64_dec(issuer_count as u64))));
    trust.push(pair("revokedCredentials", Json::Number(u64_dec(revoked_count as u64))));
    let trustj = object_of(trust);
    assert(trustj@->Object_0 =~= expected->Object_0[5].1->Object_0);
    let mut es: Vec<(String, Json)> = Vec::new();
    es.push(pair("@context", single_string("https://www.w3.org/ns/did/v1")));
    es.push(pair("id", str_json(did)));
    es.push(pair("verificationMethod", vmsj));
    es.push(pair("assertionMethod", single_string(key.as_str())));
    es.push(pair("authentication", single_string(key.as_str())));
    es.push(pair("trust", trustj));
    let r = object_of(es);
    assert(r@->Object_0 =~= expected->Object_0);
    r
}

/// The 404 body when signing is not configured.
pub fn did_not_configured() -> (r: Json)
    ensures
        r@ == JsonValue::Object(
            seq![
                ("error"@, jstr("signing not configured"@)),
                ("hint"@, jstr("set SEMWEB_SIGNING_KEY (64 hex chars) to enable the trust layer; optionally SEMWEB_DID to override the did:web identity"@)),
            ],
        ),
{
    let mut es: Vec<(String, Json)> = Vec::new();
    es.push(pair("error", str_json("signing not configured")));
    es.push(pair("hint", str_json("set SEMWEB_SIGNING_KEY (64 hex chars) to enable the trust layer; optionally SEMWEB_DID to override the did:web identity")));
    let r = object_of(es);
    assert(r@->Object_0 =~= seq![
        ("error"@, jstr("signing not configured"@)),
        ("hint"@, jstr("set SEMWEB_SIGNING_KEY (64 hex chars) to enable the trust layer; optionally SEMWEB_DID to override the did:web identity"@)),
    ]);
    r
}

// ---------------------------------------------------------------------------
// the agent manifest
// ---------------------------------------------------------------------------

/// (term, text) of each description row, in row order.
pub open spec fn description_pairs(rows: Seq<JsonValue>) -> Seq<(Seq<char>, Seq<char>)>
    decreases rows.len(),
{
    if rows.len() == 0 {
        Seq::empty()
    } else {
        let prev = description_pairs(rows.drop_last());
        match (row_value(rows.last(), "term"@), row_value(rows.last(), "text"@)) {
            (Some(t), Some(x)) => prev.push((t, x)),
            _ => prev,
        }
    }
}

/// The (term, text) pairs of the descriptions query; a term described
/// twice reads as its last description.
pub fn descriptions_from_rows(rows: &[Json]) -> (r: Vec<(String, String)>)
    ensures
        crate::api::pairs_view(r@) == description_pairs(rows_view(rows@)),
{
    let ghost rv = rows_view(rows@);
    let mut out: Vec<(String, String)> = Vec::new();
    let mut i: usize = 0;
    while i < rows.len()
        invariant
            i <= rows@.len(),
            rv == rows_view(rows@),
            crate::api::pairs_view(out@) == description_pairs(rv.take(i as int)),
        decreases rows@.len() - i,
    {
        assert(rv.take(i + 1).drop_last() =~= rv.take(i as int));
        assert(rv[i as int] == rows@[i as int]@);
        let ghost before = crate::api::pairs_view(out@);
        match (row_value_of(&rows[i], "term"), row_value_of(&rows[i], "text")) {
            (Some(t), Some(x)) => {
                out.push((owned(t.as_str()), owned(x.as_str())));
                assert(crate::api::pairs_view(out@) =~= before.push((t@, x@)));
            },
            _ => {},
        }
        i = i + 1;
    }
    assert(rv.take(i as int) =~= rv);
    out
}

pub open spec fn count_or_zero(m: Map<Seq<char>, u64>, k: Seq<char>) -> JsonValue {
    JsonValue::Number(dec(if m.contains_key(k) { m[k] as nat } else { 0 }))
}

pub open spec fn description_json(descs: Seq<(Seq<char>, Seq<char>)>, k: Seq<char>) -> JsonValue {
    match crate::api::last_param(descs, k) {
        Some(t) => JsonValue::Str(t),
        None => JsonValue::Null,
    }
}

pub open spec fn opt_number(o: Option<u64>) -> JsonValue {
    match o {
        Some(n) => JsonValue::Number(dec(n as nat)),
        None => JsonValue::Null,
    }
}

pub open spec fn opt_string(o: Option<Seq<char>>) -> JsonValue {
    match o {
        Some(t) => JsonValue::Str(t),
        None => JsonValue::Null,
    }
}

pub open spec fn shape_json(s: ShapeModel) -> JsonValue {
    JsonValue::Object(
        seq![
            ("path"@, JsonValue::Str(s.1)),
            ("minCount"@, opt_number(s.2)),
            ("maxCount"@, opt_number(s.3)),
            ("datatype"@, opt_string(s.4)),
        ],
    )
}

/// The first group of a class.
pub open spec fn group_for(groups: Seq<(String, Vec<Shape>)>, c: Seq<char>) -> Option<Seq<ShapeModel>>
    decreases groups.len(),
{
    if groups.len() == 0 {
        None
    } else {
        match group_for(groups.drop_last(), c) {
            Some(g) => Some(g),
            None => if groups.last().0@ == c {
                Some(group_shapes(groups.last()))
            } else {
                None
            },
        }
    }
}

pub open spec fn shapes_json(groups: Seq<(String, Vec<Shape>)>, c: Seq<char>) -> JsonValue {
    match group_for(groups, c) {
        Some(g) => JsonValue::Array(g.map_values(|s: ShapeModel| shape_json(s))),
        None => JsonValue::Null,
    }
}

/// A class entry of the manifest.
pub open spec fn class_entry(
    extra: Seq<(Seq<char>, Seq<char>)>,
    counts: Map<Seq<char>, u64>,
    descs: Seq<(Seq<char>, Seq<char>)>,
    groups: Seq<(String, Vec<Shape>)>,
    uri: Seq<char>,
) -> JsonValue {
    JsonValue::Object(
        seq![
            ("uri"@, JsonValue::Str(uri)),
            ("compact"@, JsonValue::Str(compact_spec(extra, uri))),
            ("instances"@, count_or_zero(counts, uri)),
            ("description"@, description_json(descs, uri)),
            ("shapes"@, shapes_json(groups, uri)),
            ("exampleQuery"@, JsonValue::Str("SELECT ?s WHERE { ?s a <"@ + uri + "> } LIMIT 10"@)),
        ],
    )
}

/// A predicate entry of the manifest.
pub open spec fn predicate_entry(
    extra: Seq<(Seq<char>, Seq<char>)>,
    counts: Map<Seq<char>, u64>,
    descs: Seq<(Seq<char>, Seq<char>)>,
    uri: Seq<char>,
) -> JsonValue {
    JsonValue::Object(
        seq![
            ("uri"@, JsonValue::Str(uri)),
            ("compact"@, JsonValue::Str(compact_spec(extra, uri))),
            ("triples"@, count_or_zero(counts, uri)),
            ("description"@, description_json(descs, uri)),
        ],
    )
}

/// The prefixes to declare: each namespace in use that has a prefix.
pub open spec fn prefix_object(extra: Seq<(Seq<char>, Seq<char>)>, nss: Seq<Seq<char>>) -> JsonValue
    decreases nss.len(),
{
    if nss.len() == 0 {
        JsonValue::Object(Seq::empty())
    } else {
        let prev = prefix_object(extra, nss.drop_last());
        match prefix_spec(extra, nss.last()) {
            Some(p) => with_member(prev, p, JsonValue::Str(nss.last())),
            None => prev,
        }
    }
}

pub open spec fn manifest_controls() -> JsonValue {
    JsonValue::Object(
        seq![
            ("fragments"@, jstr("/fragments{?subject,predicate,object,after,limit,offset,graph}"@)),
            ("sparql"@, jstr("/sparql{?query}"@)),
            ("hub"@, jstr("/hub"@)),
            ("events"@, jstr("/events{?topic}"@)),
        ],
    )
}

fn count_json(m: &CountMap, k: &str) -> (r: Json)
    requires
        m.wf(),
    ensures
        r@ == count_or_zero(m@, k@),
{
    let n = match m.get(k) {
        Some(c) => c,
        None => 0,
    };
    Json::Number(u64_dec(n))
}

fn description_of(descs: &[(String, String)], k: &str) -> (r: Json)
    ensures
        r@ == description_json(crate::api::pairs_view(descs@), k@),
{
    match crate::api::last_param_of(descs, k) {
        Some(t) => Json::string(t.as_str()),
        None => Json::Null,
    }
}

fn shape_entry(s: &Shape) -> (r: Json)
    ensures
        r@ == shape_json(crate::store::shape_view(*s)),
{
    let mut es: Vec<(String, Json)> = Vec::new();
    es.push(pair("path", Json::string(s.path.as_str())));
    es.push(pair("minCount", match s.min_count { Some(n) => Json::Number(u64_dec(n)), None => Json::Null }));
    es.push(pair("maxCount", match s.max_count { Some(n) => Json::Number(u64_dec(n)), None => Json::Null }));
    es.push(pair("datatype", match &s.datatype { Some(d) => Json::string(d.as_str()), None => Json::Null }));
    let r = object_of(es);
    assert(r@->Object_0 =~= shape_json(crate::store::shape_view(*s))->Object_0);
    r
}

fn shapes_of(groups: &Vec<(String, Vec<Shape>)>, c: &str) -> (r: Json)
    ensures
        r@ == shapes_json(groups@, c@),
{
    let mut i: usize = 0;
    while i < groups.len()
        invariant
            i <= groups@.len(),
            group_for(groups@.take(i as int), c@) is None,
        decreases groups@.len() - i,
    {
        assert(groups@.take(i + 1).drop_last() =~= groups@.take(i as int));
        if crate::json::str_eq(groups[i].0.as_str(), c) {
            proof {
                lemma_group_for(groups@, c@, i as int);
            }
            let g = &groups[i].1;
            let mut xs: Vec<Json> = Vec::new();
            let mut k: usize = 0;
            while k < g.len()
                invariant
                    k <= g@.len(),
                    items_view(xs@) == g@.take(k as int).map_values(|s: Shape| shape_json(crate::store::shape_view(s))),
                decreases g@.len() - k,
            {
                let ghost before = xs@;
                let e = shape_entry(&g[k]);
                let ghost ev = e@;
                xs.push(e);
                assert(items_view(xs@) =~= items_view(before).push(ev));
                assert(g@.take(k + 1).map_values(|s: Shape| shape_json(crate::store::shape_view(s))) =~= g@.take(k as int).map_values(
                    |s: Shape| shape_json(crate::store::shape_view(s)),
                ).push(ev));
                k = k + 1;
            }
            assert(g@.take(k as int) =~= g@);
            let r = array_of(xs);
            assert(r@->Array_0 =~= group_shapes(groups@[i as int]).map_values(|s: ShapeModel| shape_json(s)));
            return r;
        }
        i = i + 1;
    }
    assert(groups@.take(i as int) =~= groups@);
    Json::Null
}

proof fn lemma_group_for(groups: Seq<(String, Vec<Shape>)>, c: Seq<char>, i: int)
    requires
        0 <= i < groups.len(),
        group_for(groups.take(i), c) is None,
        groups[i].0@ == c,
    ensures
        group_for(groups, c) == Some(group_shapes(groups[i])),
    decreases groups.len(),
{
    assert(groups.take(i + 1).drop_last() =~= groups.take(i));
    if i + 1 < groups.len() {
        assert(groups.drop_last().take(i) =~= groups.take(i));
        lemma_group_for(groups.drop_last(), c, i);
    } else {
        assert(groups.take(i + 1) =~= groups);
    }
}

/// The agent manifest: fingerprint, prefixes of the namespaces in use,
/// classes and predicates with their counts, descriptions and shapes,
/// topics and controls.
pub open spec fn manifest_spec(
    extra: Seq<(Seq<char>, Seq<char>)>,
    classes: Seq<Seq<char>>,
    predicates: Seq<Seq<char>>,
    descs: Seq<(Seq<char>, Seq<char>)>,
    class_counts: Map<Seq<char>, u64>,
    predicate_counts: Map<Seq<char>, u64>,
    groups: Seq<(String, Vec<Shape>)>,
    namespaces: Seq<Seq<char>>,
) -> JsonValue {
    JsonValue::Object(
        seq![
            ("@context"@, jstr("/context.jsonld"@)),
            ("kind"@, jstr("agent-manifest"@)),
            ("generatedFrom"@, jstr("live store state (not a cached build)"@)),
            ("schemaFingerprint"@, jstr("sha256:"@ + crate::text::hex_of(crate::store::sha256_of(crate::util::fingerprint_text(classes, predicates))))),
            ("prefixes"@, prefix_object(extra, namespaces)),
            ("classes"@, JsonValue::Array(classes.map_values(|u: Seq<char>| class_entry(extra, class_counts, descs, groups, u)))),
            ("predicates"@, JsonValue::Array(predicates.map_values(|u: Seq<char>| predicate_entry(extra, predicate_counts, descs, u)))),
            ("topics"@, topics_json()),
            ("controls"@, manifest_controls()),
        ],
    )
}

/// The manifest lists the schema's classes and predicates in order; each
/// class entry reports as "instances" that class's count in the class
/// counters, and each predicate entry as "triples" that predicate's count
/// in the predicate counters (0 when the counters hold none for it).
pub proof fn lemma_manifest_counts(
    extra: Seq<(Seq<char>, Seq<char>)>,
    classes: Seq<Seq<char>>,
    predicates: Seq<Seq<char>>,
    descs: Seq<(Seq<char>, Seq<char>)>,
    class_counts: Map<Seq<char>, u64>,
    predicate_counts: Map<Seq<char>, u64>,
    groups: Seq<(String, Vec<Shape>)>,
    namespaces: Seq<Seq<char>>,
)
    ensures
        ({
            let m = manifest_spec(extra, classes, predicates, descs, class_counts, predicate_counts, groups, namespaces);
            let cs = get_spec(m, "classes"@);
            let ps = get_spec(m, "predicates"@);
            &&& cs is Some && cs->0 is Array && cs->0->Array_0.len() == classes.len()
            &&& ps is Some && ps->0 is Array && ps->0->Array_0.len() == predicates.len()
            &&& forall|i: int|
                0 <= i < classes.len() ==> {
                    let e = #[trigger] cs->0->Array_0[i];
                    let u = classes[i];
                    &&& get_spec(e, "uri"@) == Some(JsonValue::Str(u))
                    &&& get_spec(e, "instances"@) == Some(
                        JsonValue::Number(
                            dec(
                                if class_counts.contains_key(u) {
                                    class_counts[u] as nat
                                } else {
                                    0
                                },
                            ),
                        ),
                    )
                }
            &&& forall|i: int|
                0 <= i < predicates.len() ==> {
                    let e = #[trigger] ps->0->Array_0[i];
                    let u = predicates[i];
                    &&& get_spec(e, "uri"@) == Some(JsonValue::Str(u))
                    &&& get_spec(e, "triples"@) == Some(
                        JsonValue::Number(
                            dec(
                                if predicate_counts.contains_key(u) {
                                    predicate_counts[u] as nat
                                } else {
                                    0
                                },
                            ),
                        ),
                    )
                }
        }),
{
    reveal_strlit("@context");
    reveal_strlit("kind");
    reveal_strlit("generatedFrom");
    reveal_strlit("schemaFingerprint");
    reveal_strlit("prefixes");
    reveal_strlit("classes");
    reveal_strlit("predicates");
    reveal_strlit("uri");
    reveal_strlit("compact");
    reveal_strlit("instances");
    reveal_strlit("triples");
    let m = manifest_spec(extra, classes, predicates, descs, class_counts, predicate_counts, groups, namespaces);
    let es = m->Object_0;
    assert(es[0].0 != "classes"@ && es[1].0 != "classes"@ && es[2].0 != "classes"@ && es[3].0 != "classes"@
        && es[4].0 != "classes"@) by {
        assert(es[0].0[0] != "classes"@[0]);
        assert(es[1].0[0] != "classes"@[0]);
        assert(es[2].0[0] != "classes"@[0]);
        assert(es[3].0[0] != "classes"@[0]);
        assert(es[4].0[0] != "classes"@[0]);
    }
    crate::json::lemma_member_index_at(es, "classes"@, 5);
    assert(es[0].0 != "predicates"@ && es[1].0 != "predicates"@ && es[2].0 != "predicates"@ && es[3].0
        != "predicates"@ && es[4].0 != "predicates"@ && es[5].0 != "predicates"@) by {
        assert(es[0].0[0] != "predicates"@[0]);
        assert(es[1].0[0] != "predicates"@[0]);
        assert(es[2].0[0] != "predicates"@[0]);
        assert(es[3].0[0] != "predicates"@[0]);
        assert(es[4].0.len() != "predicates"@.len());
        assert(es[5].0[0] != "predicates"@[0]);
    }
    crate::json::lemma_member_index_at(es, "predicates"@, 6);
    assert forall|i: int| 0 <= i < classes.len() implies {
        let e = #[trigger] get_spec(m, "classes"@)->0->Array_0[i];
        let u = classes[i];
        &&& get_spec(e, "uri"@) == Some(JsonValue::Str(u))
        &&& get_spec(e, "instances"@) == Some(
            JsonValue::Number(
                dec(
                    if class_counts.contains_key(u) {
                        class_counts[u] as nat
                    } else {
                        0
                    },
                ),
            ),
        )
    } by {
        let e = class_entry(extra, class_counts, descs, groups, classes[i]);
        let ces = e->Object_0;
        crate::json::lemma_member_index_at(ces, "uri"@, 0);
        assert(ces[0].0[0] != "instances"@[0] && ces[1].0[0] != "instances"@[0]);
        crate::json::lemma_member_index_at(ces, "instances"@, 2);
    }
    assert forall|i: int| 0 <= i < predicates.len() implies {
        let e = #[trigger] get_spec(m, "predicates"@)->0->Array_0[i];
        let u = predicates[i];
        &&& get_spec(e, "uri"@) == Some(JsonValue::Str(u))
        &&& get_spec(e, "triples"@) == Some(
            JsonValue::Number(
                dec(
                    if predicate_counts.contains_key(u) {
                        predicate_counts[u] as nat
                    } else {
                        0
                    },
                ),
            ),
        )
    } by {
        let e = predicate_entry(extra, predicate_counts, descs, predicates[i]);
        let pes = e->Object_0;
        crate::json::lemma_member_index_at(pes, "uri"@, 0);
        assert(pes[0].0[0] != "triples"@[0] && pes[1].0[0] != "triples"@[0]);
        crate::json::lemma_member_index_at(pes, "triples"@, 2);
    }
}

/// `namespaces` are the namespaces in use (see `namespaces_of`).
pub fn manifest_document(
    info: &SchemaInfo,
    descriptions: &[(String, String)],
    class_counts: &CountMap,
    predicate_counts: &CountMap,
    shapes: &Vec<(String, Vec<Shape>)>,
    namespaces: &[String],
    prefixes: &PrefixMap,
) -> (r: Json)
    requires
        class_counts.wf(),
        predicate_counts.wf(),
    ensures
        r@ == manifest_spec(
            prefixes@,
            texts(info.class_uris@),
            texts(info.predicate_uris@),
            crate::api::pairs_view(descriptions@),
            class_counts@,
            predicate_counts@,
            shapes@,
            texts(namespaces@),
        ),
{
    let ghost descs = crate::api::pairs_view(descriptions@);
    let fp = crate::util::schema_fingerprint(info.class_uris.as_slice(), info.predicate_uris.as_slice());
    // classes
    let ghost cu = texts(info.class_uris@);
    let mut classes: Vec<Json> = Vec::new();
    let mut i: usize = 0;
    while i < info.class_uris.len()
        invariant
            i <= info.class_uris@.len(),
            cu == texts(info.class_uris@),
            class_counts.wf(),
            descs == crate::api::pairs_view(descriptions@),
            items_view(classes@) == cu.take(i as int).map_values(|u: Seq<char>| class_entry(prefixes@, class_counts@, descs, shapes@, u)),
        decreases info.class_uris@.len() - i,
    {
        let uri = info.class_uris[i].as_str();
        let mut es: Vec<(String, Json)> = Vec::new();
        es.push(pair("uri", Json::string(uri)));
        es.push(pair("compact", Json::Str(prefixes.compact(uri))));
        es.push(pair("instances", count_json(class_counts, uri)));
        es.push(pair("description", description_of(descriptions, uri)));
        es.push(pair("shapes", shapes_of(shapes, uri)));
        let mut q = owned("SELECT ?s WHERE { ?s a <");
        push_all(&mut q, uri);
        push_all(&mut q, "> } LIMIT 10");
        es.push(pair("exampleQuery", Json::Str(q)));
        let e = object_of(es);
        let ghost ev = class_entry(prefixes@, class_counts@, descs, shapes@, uri@);
        assert(e@->Object_0 =~= ev->Object_0);
        let ghost before = classes@;
        classes.push(e);
        assert(items_view(classes@) =~= items_view(before).push(ev));
        assert(cu.take(i + 1) =~= cu.take(i as int).push(uri@));
        assert(cu.take(i + 1).map_values(|u: Seq<char>| class_entry(prefixes@, class_counts@, descs, shapes@, u)) =~= cu.take(i as int).map_values(
            |u: Seq<char>| class_entry(prefixes@, class_counts@, descs, shapes@, u),
        ).push(ev));
        i = i + 1;
    }
    assert(cu.take(i as int) =~= cu);
    // predicates
    let ghost pu = texts(info.predicate_uris@);
    let mut preds: Vec<Json> = Vec::new();
    let mut j: usize = 0;
    while j < info.predicate_uris.len()
        invariant
            j <= info.predicate_uris@.len(),
            pu == texts(info.predicate_uris@),
            predicate_counts.wf(),
            descs == crate::api::pairs_view(descriptions@),
            items_view(preds@) == pu.take(j as int).map_values(|u: Seq<char>| predicate_entry(prefixes@, predicate_counts@, descs, u)),
        decreases info.predicate_uris@.len() - j,
    {
        let uri = info.predicate_uris[j].as_str();
        let mut es: Vec<(String, Json)> = Vec::new();
        es.push(pair("uri", Json::string(uri)));
        es.push(pair("compact", Json::Str(prefixes.compact(uri))));
        es.push(pair("triples", count_json(predicate_counts, uri)));
        es.push(pair("description", description_of(descriptions, uri)));
        let e = object_of(es);
        let ghost ev = predicate_entry(prefixes@, predicate_counts@, descs, uri@);
        assert(e@->Object_0 =~= ev->Object_0);
        let ghost before = preds@;
        preds.push(e);
        assert(items_view(preds@) =~= items_view(before).push(ev));
        assert(pu.take(j + 1) =~= pu.take(j as int).push(uri@));
        assert(pu.take(j + 1).map_values(|u: Seq<char>| predicate_entry(prefixes@, predicate_counts@, descs, u)) =~= pu.take(j as int).map_values(
            |u: Seq<char>| predicate_entry(prefixes@, predicate_counts@, descs, u),
        ).push(ev));
        j = j + 1;
    }
    assert(pu.take(j as int) =~= pu);
    // prefixes
    let ghost nv = texts(namespaces@);
    let mut pobj = Json::empty_object();
    let mut k: usize = 0;
    while k < namespaces.len()
        invariant
            k <= namespaces@.len(),
            nv == texts(namespaces@),
            pobj@ == prefix_object(prefixes@, nv.take(k as int)),
        decreases namespaces@.len() - k,
    {
        assert(nv.take(k + 1).drop_last() =~= nv.take(k as int));
        assert(nv[k as int] == namespaces@[k as int]@);
        match prefixes.prefix_for(namespaces[k].as_str()) {
            Some(p) => {
                pobj.insert(p.as_str(), Json::string(namespaces[k].as_str()));
            },
            None => {},
        }
        k = k + 1;
    }
    assert(nv.take(k as int) =~= nv);
    let mut controls: Vec<(String, Json)> = Vec::new();
    controls.push(pair("fragments", str_json("/fragments{?subject,predicate,object,after,limit,offset,graph}")));
    controls.push(pair("sparql", str_json("/sparql{?query}")));
    controls.push(pair("hub", str_json("/hub")));
    controls.push(pair("events", str_json("/events{?topic}")));
    let controls_json = object_of(controls);
    assert(controls_json@->Object_0 =~= manifest_controls()->Object_0);
    let cj = array_of(classes);
    let pj = array_of(preds);
    let mut es: Vec<(String, Json)> = Vec::new();
    es.push(pair("@context", str_json("/context.jsonld")));
    es.push(pair("kind", str_json("agent-manifest")));
    es.push(pair("generatedFrom", str_json("live store state (not a cached build)")));
    es.push(pair("schemaFingerprint", Json::Str(fp)));
    es.push(pair("prefixes", pobj));
    es.push(pair("classes", cj));
    es.push(pair("predicates", pj));
    es.push(pair("topics", topics_array()));
    es.push(pair("controls", controls_json));
    let r = object_of(es);
    assert(r@->Object_0 =~= manifest_spec(
        prefixes@,
        texts(info.class_uris@),
        texts(info.predicate_uris@),
        descs,
        class_counts@,
        predicate_counts@,
        shapes@,
        texts(namespaces@),
    )->Object_0);
    r
}

} // verus!
