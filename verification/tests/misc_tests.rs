use semweb::api::bearer_ok;
use semweb::context::{PrefixMap, RDF_TYPE};
use semweb::crypto::SecretCrypto;
use semweb::json::{to_compact, Json};
use semweb::jsonld::binding_to_line;
use semweb::util::schema_fingerprint;

const KEY: Option<[u8; 32]> = Some([7u8; 32]);

fn obj(pairs: Vec<(&str, Json)>) -> Json {
    Json::Object(pairs.into_iter().map(|(k, v)| (k.to_string(), v)).collect())
}

fn s(t: &str) -> Json {
    Json::string(t)
}

#[test]
fn bearer_ok_requires_the_exact_token() {
    let ungated: Option<String> = None;
    assert!(bearer_ok(ungated.as_deref(), None));

    let tok = Some("secret-token".to_string());
    assert!(!bearer_ok(tok.as_deref(), None));
    assert!(!bearer_ok(tok.as_deref(), Some("Basic secret-token")));
    assert!(!bearer_ok(tok.as_deref(), Some("Bearer secret-toke")));
    assert!(!bearer_ok(tok.as_deref(), Some("Bearer  secret-token")));
    assert!(bearer_ok(tok.as_deref(), Some("Bearer secret-token")));
}

#[test]
fn roundtrip_without_key_is_plaintext() {
    let c = SecretCrypto::new(None);
    assert!(!c.enabled());
    assert_eq!(c.encrypt("hunter2"), "hunter2");
    assert_eq!(c.decrypt("hunter2"), Some("hunter2".to_string()));
}

#[test]
fn roundtrip_with_key_is_encrypted_and_reversible() {
    let c = SecretCrypto::new(KEY);
    assert!(c.enabled());
    let stored = c.encrypt("hunter2");
    assert!(stored.starts_with("enc:v1:"));
    assert!(!stored.contains("hunter"));
    assert_eq!(c.decrypt(&stored).as_deref(), Some("hunter2"));
}

#[test]
fn decrypt_accepts_legacy_plaintext_and_rejects_tampering() {
    let c = SecretCrypto::new(KEY);
    assert_eq!(c.decrypt("legacy-plain").as_deref(), Some("legacy-plain"));
    let stored = c.encrypt("hunter");
    let ct_start = stored.rfind(':').unwrap() + 1;
    let mut tampered = stored.clone();
    let ch = tampered.as_bytes()[ct_start];
    let flipped = if ch == b'A' { b'B' } else { b'A' };
    tampered.replace_range(ct_start..ct_start + 1, &(flipped as char).to_string());
    assert_ne!(tampered, stored);
    assert_eq!(c.decrypt(&tampered), None);
}

#[test]
fn type_triples_compact_to_at_type() {
    let b = obj(vec![
        ("s", obj(vec![("type", s("uri")), ("value", s("http://example.org/alice"))])),
        ("p", obj(vec![("type", s("uri")), ("value", s(RDF_TYPE))])),
        ("o", obj(vec![("type", s("uri")), ("value", s("http://xmlns.com/foaf/0.1/Person"))])),
    ]);
    let line = binding_to_line(&b, &PrefixMap::from_config(None)).unwrap();
    assert_eq!(
        to_compact(&line),
        r#"{"@id":"http://example.org/alice","@type":"foaf:Person"}"#
    );
}

#[test]
fn typed_literals_keep_datatype_compacted() {
    let b = obj(vec![
        ("s", obj(vec![("type", s("uri")), ("value", s("http://example.org/acme"))])),
        ("p", obj(vec![("type", s("uri")), ("value", s("http://schema.org/foundingDate"))])),
        (
            "o",
            obj(vec![
                ("type", s("literal")),
                ("value", s("2001-04-03")),
                ("datatype", s("http://www.w3.org/2001/XMLSchema#date")),
            ]),
        ),
    ]);
    let line = binding_to_line(&b, &PrefixMap::from_config(None)).unwrap();
    assert_eq!(
        to_compact(&line),
        r#"{"@id":"http://example.org/acme","schema:foundingDate":{"@value":"2001-04-03","@type":"xsd:date"}}"#
    );
}

#[test]
fn unknown_namespaces_stay_full_uris() {
    let b = obj(vec![
        ("s", obj(vec![("type", s("uri")), ("value", s("http://example.org/dave"))])),
        ("p", obj(vec![("type", s("uri")), ("value", s("http://example.org/vocab/age"))])),
        ("o", obj(vec![("type", s("literal")), ("value", s("30"))])),
    ]);
    let line = binding_to_line(&b, &PrefixMap::from_config(None)).unwrap();
    let v = line.get("http://example.org/vocab/age").unwrap();
    assert_eq!(to_compact(v), r#""30""#);
}

#[test]
fn bnodes_and_lang_literals_are_preserved() {
    let pm = PrefixMap::empty();
    let b = obj(vec![
        ("s", obj(vec![("type", s("bnode")), ("value", s("b0"))])),
        ("p", obj(vec![("type", s("uri")), ("value", s("http://xmlns.com/foaf/0.1/name"))])),
        (
            "o",
            obj(vec![("type", s("literal")), ("value", s("X")), ("xml:lang", s("en"))]),
        ),
    ]);
    let line = binding_to_line(&b, &pm).unwrap();
    assert_eq!(to_compact(line.get("@id").unwrap()), r#""_:b0""#);
    assert_eq!(
        to_compact(line.get("foaf:name").unwrap()),
        r#"{"@value":"X","@language":"en"}"#
    );
}

#[test]
fn fingerprint_is_stable_and_order_insensitive_within_sorted_input() {
    let a = schema_fingerprint(&["http://x/A".into()], &["http://x/p".into()]);
    let b = schema_fingerprint(&["http://x/A".into()], &["http://x/p".into()]);
    assert_eq!(a, b);
    let c = schema_fingerprint(&["http://x/B".into()], &["http://x/p".into()]);
    assert_ne!(a, c);
    assert!(a.starts_with("sha256:"));
}
