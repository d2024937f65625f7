use semweb::api::{bearer_ok, form_query_param, parse_hub_form, sparql_post_query, HubRequest};
use semweb::base58::{b58_decode, b58_encode, multikey_decode, multikey_encode};
use semweb::clock::now_epoch;
use semweb::crypto::SecretCrypto;
use semweb::dates::{parse_rfc3339, rfc3339, rfc3339_parsable_check};
use semweb::fragments::Cursor;
use semweb::hub::{
    clamp_lease, delivery_action, random_event_id, retry_schedule, signature_header,
    DeliveryAction, DeliveryOutcome, Subscription, SubscriptionTable,
};
use semweb::json::{canonical_json, to_compact, Json};
use semweb::registry::TrustedIssuers;
use semweb::store::{escape_literal, owner_of, subscription_persist_id};
use semweb::trust::{
    attach_proof, did_web, verify_document, verify_document_checked, SigningIdentity,
    TrustContext,
};
use semweb::util::schema_fingerprint;

fn obj(pairs: Vec<(&str, Json)>) -> Json {
    Json::Object(pairs.into_iter().map(|(k, v)| (k.to_string(), v)).collect())
}

fn sub(secret: Option<&str>, expires: u64) -> Subscription {
    Subscription {
        secret: secret.map(str::to_string),
        lease_expires_epoch: expires,
    }
}

#[test]
fn table_reads_back_what_was_stored() {
    let mut t = SubscriptionTable::new();
    t.insert("/topics/data".into(), "http://a/cb".into(), sub(Some("s1"), 100));
    t.insert("/topics/data".into(), "http://b/cb".into(), sub(None, 200));
    t.insert("/topics/data".into(), "http://a/cb".into(), sub(Some("s2"), 300));
    assert_eq!(t.len(), 2);
    let s = t.get("/topics/data", "http://a/cb").unwrap();
    assert_eq!(s.secret.as_deref(), Some("s2"));
    assert_eq!(s.lease_expires_epoch, 300);
    assert_eq!(t.get("/topics/data", "http://b/cb").unwrap().lease_expires_epoch, 200);
    t.remove("/topics/data", "http://a/cb");
    assert!(t.get("/topics/data", "http://a/cb").is_none());
    assert!(t.get("/topics/data", "http://b/cb").is_some());
}

#[test]
fn sweep_drops_only_expired_subscriptions_of_this_shard() {
    let mut t = SubscriptionTable::new();
    t.insert("/topics/data".into(), "http://live/cb".into(), sub(None, 1_000));
    t.insert("/topics/data".into(), "http://dead/cb".into(), sub(None, 10));
    let ids = t.expire_sweep(500, 1, 0);
    assert_eq!(ids, vec![subscription_persist_id("/topics/data", "http://dead/cb")]);
    assert!(t.get("/topics/data", "http://live/cb").is_some());
    assert!(t.get("/topics/data", "http://dead/cb").is_none());
}

#[test]
fn sweep_keeps_expired_subscriptions_of_other_shards() {
    let mut t = SubscriptionTable::new();
    t.insert("/topics/data".into(), "http://c/1".into(), sub(None, 10));
    let id = subscription_persist_id("/topics/data", "http://c/1");
    let other = (owner_of(&id, 2) + 1) % 2;
    let ids = t.expire_sweep(500, 2, other);
    assert!(ids.is_empty());
    assert!(t.get("/topics/data", "http://c/1").is_some());
    let own = owner_of(&id, 2);
    let ids = t.expire_sweep(500, 2, own);
    assert_eq!(ids, vec![id]);
    assert!(t.get("/topics/data", "http://c/1").is_none());
}

#[test]
fn refresh_keeps_the_later_lease() {
    let crypto = SecretCrypto::new(None);
    let mut t = SubscriptionTable::new();
    t.insert("/topics/data".into(), "http://a/cb".into(), sub(None, 900));
    assert!(!t.refresh_row(&crypto, "/topics/data".into(), "http://a/cb".into(), None, 800, 100));
    assert_eq!(t.get("/topics/data", "http://a/cb").unwrap().lease_expires_epoch, 900);
    assert!(t.refresh_row(&crypto, "/topics/data".into(), "http://a/cb".into(), Some("x"), 950, 100));
    let s = t.get("/topics/data", "http://a/cb").unwrap();
    assert_eq!(s.lease_expires_epoch, 950);
    assert_eq!(s.secret.as_deref(), Some("x"));
    assert!(!t.refresh_row(&crypto, "/topics/data".into(), "http://b/cb".into(), None, 50, 100));
}

#[test]
fn owned_subscribers_are_live_and_matching() {
    let mut t = SubscriptionTable::new();
    t.insert("/topics/data".into(), "http://a/cb".into(), sub(Some("k"), 1_000));
    t.insert("http://x/topics/data".into(), "http://b/cb".into(), sub(None, 1_000));
    t.insert("/topics/schema".into(), "http://c/cb".into(), sub(None, 1_000));
    t.insert("/topics/data".into(), "http://d/cb".into(), sub(None, 5));
    let owned = t.owned_subs("/topics/data", 100, 1, 0);
    assert_eq!(
        owned,
        vec![
            ("http://a/cb".to_string(), Some("k".to_string())),
            ("http://b/cb".to_string(), None)
        ]
    );
    assert_eq!(t.live_total("/topics/data", 100), 2);
    let counts = t.subscription_counts(100);
    assert_eq!(
        counts,
        vec![
            ("/topics/data".to_string(), 1),
            ("http://x/topics/data".to_string(), 1),
            ("/topics/schema".to_string(), 1)
        ]
    );
}

#[test]
fn canonical_form_ignores_member_order() {
    let a = obj(vec![("x", Json::string("1")), ("y", Json::Null), ("a", Json::Bool(true))]);
    let b = obj(vec![("a", Json::Bool(true)), ("x", Json::string("1")), ("y", Json::Null)]);
    assert_eq!(canonical_json(&a), canonical_json(&b));
    assert_eq!(canonical_json(&a), r#"{"a":true,"x":"1","y":null}"#);
    assert_eq!(to_compact(&a), r#"{"x":"1","y":null,"a":true}"#);
}

#[test]
fn canonical_form_ignores_nested_member_order() {
    let a = obj(vec![
        ("k", obj(vec![("b", Json::Number("2".into())), ("a", Json::Array(vec![Json::Null]))])),
        ("j", Json::string("v")),
    ]);
    let b = obj(vec![
        ("j", Json::string("v")),
        ("k", obj(vec![("a", Json::Array(vec![Json::Null])), ("b", Json::Number("2".into()))])),
    ]);
    assert_eq!(canonical_json(&a), canonical_json(&b));
    assert_eq!(canonical_json(&a), r#"{"j":"v","k":{"a":[null],"b":2}}"#);
}

#[test]
fn json_strings_are_escaped() {
    assert_eq!(to_compact(&Json::string("a\"b\\c\n")), r#""a\"b\\c\n""#);
    assert_eq!(to_compact(&Json::string("\u{1}\t\u{7f}é")), "\"\\u0001\\t\u{7f}é\"");
}

#[test]
fn signed_by_a_registered_issuer_verifies_without_self_identity() {
    let id = SigningIdentity::from_seed("did:web:issuer.example".into(), [3u8; 32]);
    let mut doc = obj(vec![("claim", Json::string("x"))]);
    attach_proof(&mut doc, &id);
    let mut reg = TrustedIssuers::new();
    reg.insert(id.did.clone(), id.public_key_multibase.clone()).unwrap();
    let ctx = TrustContext {
        registry: &reg,
        self_identity: None,
        now: 0,
    };
    let v = verify_document(&doc, &ctx);
    assert!(v.shape_ok && v.signature_ok && v.issuer_trusted && v.verified);
    assert_eq!(v.issuer.as_deref(), Some("did:web:issuer.example"));
    assert!(v.details.is_empty());
    let j = to_compact(&v.to_json());
    assert!(j.starts_with(r#"{"verified":true,"gates":{"shape":true"#));
}

#[test]
fn malformed_proof_reports_the_quoted_fields() {
    let id = SigningIdentity::from_seed("did:web:x".into(), [1u8; 32]);
    let reg = TrustedIssuers::new();
    let doc = obj(vec![(
        "proof",
        obj(vec![
            ("proofValue", Json::string("zabc")),
            ("verificationMethod", Json::string("did:web:x#key-1")),
            ("cryptosuite", Json::string("a\"b")),
        ]),
    )]);
    let ctx = TrustContext {
        registry: &reg,
        self_identity: Some(&id),
        now: 0,
    };
    let v = verify_document(&doc, &ctx);
    assert!(!v.shape_ok);
    assert_eq!(v.details, vec![r#"malformed proof (cryptosuite="a\"b", purpose="")"#.to_string()]);
}

#[test]
fn overflowing_validity_bounds_are_refused_by_the_checked_verifier() {
    let id = SigningIdentity::from_seed("did:web:x".into(), [1u8; 32]);
    let reg = TrustedIssuers::new();
    let mut doc = obj(vec![
        ("type", Json::Array(vec![Json::string("VerifiableCredential")])),
        ("validFrom", Json::string("9223372036854775807-01-01T00:00:00Z")),
    ]);
    attach_proof(&mut doc, &id);
    let ctx = TrustContext {
        registry: &reg,
        self_identity: Some(&id),
        now: 0,
    };
    assert!(verify_document_checked(&doc, &ctx).is_none());
    assert!(!rfc3339_parsable_check("9223372036854775807-01-01T00:00:00Z"));
    assert!(rfc3339_parsable_check("2023-11-14T22:13:20Z"));
}

#[test]
fn ed25519_public_key_matches_the_rfc8032_vector() {
    let mut seed = [0u8; 32];
    let hexs = "9d61b19deffd5a60ba844af492ec2cc44449c5697b326919703bac031cae7f60";
    for i in 0..32 {
        seed[i] = u8::from_str_radix(&hexs[2 * i..2 * i + 2], 16).unwrap();
    }
    let id = SigningIdentity::from_seed("did:web:t".into(), seed);
    let hexp: String = id.public_key.iter().map(|b| format!("{b:02x}")).collect();
    assert_eq!(hexp, "d75a980182b10ab7d54bfed3c964073a0ee172f3daa62325af021a68f707511a");
    assert_eq!(multikey_decode(&multikey_encode(&id.public_key)), Some(id.public_key));
}

#[test]
fn base58_known_values_and_roundtrip() {
    assert_eq!(b58_encode(b"Hello World!"), "2NEpo7TZRRrLZSi2U");
    assert_eq!(b58_encode(&[0, 0, 1]), "112");
    assert_eq!(b58_encode(&[]), "1");
    assert_eq!(b58_decode("2NEpo7TZRRrLZSi2U"), Some(b"Hello World!".to_vec()));
    assert_eq!(b58_decode("0OIl"), None);
    let bytes = [0u8, 7, 255, 3];
    assert_eq!(b58_decode(&b58_encode(&bytes)), Some(bytes.to_vec()));
}

#[test]
fn rfc3339_formats_and_parses_exactly() {
    assert_eq!(rfc3339(-1), "1969-12-31T23:59:59Z");
    assert_eq!(rfc3339(951_782_400), "2000-02-29T00:00:00Z");
    assert_eq!(parse_rfc3339("2000-02-29T00:00:00Z"), Some(951_782_400));
    assert_eq!(parse_rfc3339("1970-01-01T00:00:00-01:30"), Some(5_400));
    assert_eq!(parse_rfc3339("1970-01-01"), None);
    assert_eq!(parse_rfc3339(&rfc3339(1_234_567_890)), Some(1_234_567_890));
}

#[test]
fn signature_header_is_hmac_sha256_hex() {
    assert_eq!(
        signature_header("key", b"The quick brown fox jumps over the lazy dog"),
        Some("sha256=f7bc83f430538424b13298e6aa6fb143ef4d59a14946175997479dbc2d1a3cd8".to_string())
    );
}

#[test]
fn subscription_id_is_the_sha256_prefix() {
    assert_eq!(
        subscription_persist_id("/topics/data", "http://c/1"),
        "05cd3f89965ef07e7e732db1fb054dc0"
    );
    let id = subscription_persist_id("/topics/data", "http://c/1");
    assert_eq!(owner_of(&id, 2), 0);
    assert_eq!(owner_of(&id, 0), 0);
    for n in 1..7u64 {
        assert!(owner_of(&id, n) < n);
    }
}

#[test]
fn fingerprint_known_value() {
    assert_eq!(
        schema_fingerprint(&["http://x/A".into()], &["http://x/p".into()]),
        "sha256:9d4ea3e928a518126456c8f9bfab442569f2b904625900724ef6078d3da1d721"
    );
}

#[test]
fn cursor_token_is_base64_of_the_json_array() {
    let c = Cursor {
        s: "a".into(),
        p: "b".into(),
        o: "c".into(),
    };
    assert_eq!(c.encode(), "WyJhIiwiYiIsImMiXQ");
    assert!(Cursor::decode("WyJhIiwiYiJd").is_none());
    assert!(Cursor::decode("_w").is_none());
    assert_eq!(
        c.filter_expression(),
        r#"FILTER(?sv > "a" || (?sv = "a" && (?pv > "b" || (?pv = "b" && ?ov > "c"))))"#
    );
}

#[test]
fn sparql_literals_are_escaped() {
    assert_eq!(escape_literal("a\"b\\c\nd"), r#""a\"b\\c\nd""#);
}

#[test]
fn encryption_is_randomised_but_reversible() {
    let c = SecretCrypto::new(Some([5u8; 32]));
    let a = c.encrypt("s3cret");
    let b = c.encrypt("s3cret");
    assert_ne!(a, b);
    assert_eq!(c.decrypt(&a).as_deref(), Some("s3cret"));
    assert_eq!(c.decrypt(&b).as_deref(), Some("s3cret"));
    assert_eq!(SecretCrypto::new(None).decrypt(&a), None);
    assert_eq!(c.decrypt("enc:v1:nocolon"), None);
}

#[test]
fn lease_and_retry_policy() {
    assert_eq!(retry_schedule(), vec![1, 5, 15]);
    assert!(matches!(delivery_action(0, DeliveryOutcome::Failed), DeliveryAction::RetryAfter(1)));
    assert!(matches!(delivery_action(2, DeliveryOutcome::Failed), DeliveryAction::RetryAfter(15)));
    assert!(matches!(delivery_action(3, DeliveryOutcome::Failed), DeliveryAction::GiveUp));
    assert!(matches!(delivery_action(3, DeliveryOutcome::Gone), DeliveryAction::Terminate));
    assert!(matches!(delivery_action(1, DeliveryOutcome::Acknowledged), DeliveryAction::Done));
    for x in [0u64, 59, 60, 61, 864_001, u64::MAX] {
        let l = clamp_lease(Some(x));
        assert!((60..=864_000).contains(&l));
    }
}

#[test]
fn event_ids_are_sixteen_hex_digits() {
    let id = random_event_id();
    assert_eq!(id.len(), 16);
    assert!(id.chars().all(|c| c.is_ascii_hexdigit() && !c.is_ascii_uppercase()));
    assert!(now_epoch() > 1_600_000_000);
}

#[test]
fn did_web_derives_from_the_public_url() {
    assert_eq!(did_web("http://example.org:8080/x"), "did:web:example.org%3A8080");
    assert_eq!(did_web("https://example.org"), "did:web:example.org");
    assert_eq!(did_web("not a url"), "did:web:localhost");
    let id = SigningIdentity::from_config(
        Some("0000000000000000000000000000000000000000000000000000000000000001"),
        None,
        "http://localhost:8484",
    )
    .unwrap();
    assert_eq!(id.did, "did:web:localhost%3A8484");
    assert!(SigningIdentity::from_config(Some("abc"), None, "http://x").is_none());
}

#[test]
fn form_bodies_and_content_types() {
    assert_eq!(form_query_param(b"a=1&query=SELECT+%3Fs"), Some("SELECT ?s".to_string()));
    assert_eq!(form_query_param(b"noequals&query=x"), Some("x".to_string()));
    assert_eq!(form_query_param(b"flag&query=SELECT+1"), Some("SELECT 1".to_string()));
    assert_eq!(form_query_param(b"%FF=1&query=ASK+%7B%7D"), Some("ASK {}".to_string()));
    assert_eq!(form_query_param(b"flag&other=1"), None);
    assert_eq!(
        sparql_post_query("Application/SPARQL-Query; charset=utf-8", b"  ASK {}  "),
        Ok("ASK {}".to_string())
    );
    assert_eq!(
        sparql_post_query("application/sparql-update", b"DROP ALL"),
        Err("SPARQL updates are not accepted on /sparql (read-only execution plane)".to_string())
    );
    assert_eq!(
        sparql_post_query("text/plain", b"x"),
        Err("unsupported content type 'text/plain': use GET ?query=, form-encoded POST, or Content-Type: application/sparql-query".to_string())
    );
    assert!(bearer_ok(None, Some("anything")));
}

#[test]
fn percent_encoding_and_decoding() {
    assert_eq!(
        semweb::hub::append_query("http://x/cb", "k", "\u{e9} ~"),
        "http://x/cb?k=%C3%A9%20~"
    );
    assert_eq!(semweb::api::form_decode("%C3%A9+%4G%"), Some("\u{e9} %4G%".to_string()));
    assert_eq!(semweb::api::form_decode("%FF"), None);
    assert_eq!(semweb::subscriber::challenge_response(Some("hub.mode=subscribe&hub.challenge=a%2Bb")), "a+b");
    assert_eq!(semweb::subscriber::challenge_response(None), "");
    assert!(semweb::subscriber::signature_valid(
        "key",
        b"The quick brown fox jumps over the lazy dog",
        Some("sha256=f7bc83f430538424b13298e6aa6fb143ef4d59a14946175997479dbc2d1a3cd8")
    ));
    assert!(!semweb::subscriber::signature_valid("key", b"x", None));
}

#[test]
fn hub_forms_use_the_last_value_of_a_parameter() {
    let pairs = vec![
        ("hub.mode".to_string(), "subscribe".to_string()),
        ("hub.topic".to_string(), "/topics/data".to_string()),
        ("hub.callback".to_string(), "http://a/cb".to_string()),
        ("hub.lease_seconds".to_string(), "abc".to_string()),
        ("hub.lease_seconds".to_string(), "120".to_string()),
        ("other".to_string(), "ignored".to_string()),
    ];
    match parse_hub_form(&pairs) {
        Ok(HubRequest::Subscribe { topic, callback, secret, lease }) => {
            assert_eq!(topic, "/topics/data");
            assert_eq!(callback, "http://a/cb");
            assert_eq!(secret, None);
            assert_eq!(lease, Some(120));
        }
        _ => panic!("expected a subscription"),
    }
    let publish = vec![
        ("hub.mode".to_string(), "publish".to_string()),
        ("hub.url".to_string(), "http://x/topics/schema".to_string()),
    ];
    assert!(matches!(parse_hub_form(&publish), Ok(HubRequest::Publish { topic: "/topics/schema" })));
    let bad = vec![("hub.mode".to_string(), "nope".to_string())];
    assert_eq!(
        parse_hub_form(&bad).err(),
        Some("hub.mode must be 'subscribe', 'unsubscribe' or 'publish'".to_string())
    );
}
