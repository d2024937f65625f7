use semweb::base58::{multikey_decode, multikey_encode};
use semweb::dates::{parse_rfc3339, rfc3339};
use semweb::json::{canonical_json, Json};
use semweb::registry::TrustedIssuers;
use semweb::trust::{attach_proof, issue_credential, verify_document, SigningIdentity, TrustContext};

fn obj(pairs: Vec<(&str, Json)>) -> Json {
    Json::Object(pairs.into_iter().map(|(k, v)| (k.to_string(), v)).collect())
}

fn num(n: &str) -> Json {
    Json::Number(n.to_string())
}

fn identity() -> SigningIdentity {
    SigningIdentity::from_seed("did:web:test".into(), [9u8; 32])
}

fn ctx<'a>(id: &'a SigningIdentity, registry: &'a TrustedIssuers, now: i64) -> TrustContext<'a> {
    TrustContext {
        registry,
        self_identity: Some(id),
        now,
    }
}

fn now_secs() -> i64 {
    std::time::SystemTime::now()
        .duration_since(std::time::UNIX_EPOCH)
        .unwrap()
        .as_secs() as i64
}

#[test]
fn canonical_json_sorts_keys_recursively() {
    let doc = obj(vec![
        ("b", num("1")),
        (
            "a",
            obj(vec![
                ("z", Json::Array(vec![num("3"), num("1")])),
                ("y", Json::string("x")),
            ]),
        ),
        ("c", Json::Null),
    ]);
    assert_eq!(canonical_json(&doc), r#"{"a":{"y":"x","z":[3,1]},"b":1,"c":null}"#);
}

#[test]
fn rfc3339_roundtrip_known_values() {
    assert_eq!(rfc3339(0), "1970-01-01T00:00:00Z");
    assert_eq!(rfc3339(1_700_000_000), "2023-11-14T22:13:20Z");
    assert_eq!(parse_rfc3339("2023-11-14T22:13:20Z"), Some(1_700_000_000));
    assert_eq!(parse_rfc3339("2023-11-15T00:13:20+02:00"), Some(1_700_000_000));
    assert_eq!(parse_rfc3339("2023-11-14 22:13:20.5Z"), Some(1_700_000_000));
    assert_eq!(parse_rfc3339("not-a-date"), None);
}

#[test]
fn multikey_roundtrip() {
    let id = identity();
    let mk = id.public_key_multibase.clone();
    assert!(mk.starts_with("z6Mk"));
    assert_eq!(multikey_decode(&mk), Some(id.verifying_key_bytes()));
}

#[test]
fn sign_verify_roundtrip_and_tamper_rejection() {
    let id = identity();
    let mut doc = obj(vec![
        ("kind", Json::string("agent-manifest")),
        ("schemaFingerprint", Json::string("sha256:abc")),
    ]);
    attach_proof(&mut doc, &id);

    let registry = TrustedIssuers::default();
    let verdict = verify_document(&doc, &ctx(&id, &registry, 0));
    assert!(verdict.shape_ok);
    assert!(verdict.signature_ok, "signature gate: {:?}", verdict.details);
    assert!(verdict.verified, "{:?}", verdict.details);
    assert_eq!(verdict.temporal_ok, None);
    assert_eq!(verdict.revocation_ok, None);

    doc.insert("schemaFingerprint", Json::string("sha256:evil"));
    let verdict = verify_document(&doc, &ctx(&id, &registry, 0));
    assert!(!verdict.signature_ok);
    assert!(!verdict.verified);
}

#[test]
fn unsigned_document_is_rejected() {
    let id = identity();
    let registry = TrustedIssuers::default();
    let doc = obj(vec![("hello", Json::string("world"))]);
    let verdict = verify_document(&doc, &ctx(&id, &registry, 0));
    assert!(!verdict.shape_ok);
    assert!(!verdict.verified);
}

#[test]
fn vc_gates_trust_temporal_and_revocation() {
    let id = identity();
    let now = now_secs();
    let mut registry = TrustedIssuers::default();
    registry
        .insert(id.did.clone(), id.public_key_multibase.clone())
        .unwrap();

    let vc = issue_credential(
        &id,
        obj(vec![
            ("id", Json::string("urn:claim:1")),
            ("says", Json::string("hello")),
        ]),
        Some(rfc3339(now + 3600)),
        None,
        Some("urn:claim:1".into()),
    );
    let verdict = verify_document(&vc, &ctx(&id, &registry, now));
    assert_eq!(verdict.temporal_ok, Some(true));
    assert!(verdict.verified, "{:?}", verdict.details);

    let vc = issue_credential(&id, obj(vec![]), Some(rfc3339(now - 60)), None, None);
    let verdict = verify_document(&vc, &ctx(&id, &registry, now));
    assert_eq!(verdict.temporal_ok, Some(false));
    assert!(!verdict.verified);

    let vc = issue_credential(&id, obj(vec![]), None, None, Some("urn:claim:2".into()));
    registry.revoke("urn:claim:2");
    let verdict = verify_document(&vc, &ctx(&id, &registry, now));
    assert_eq!(verdict.revocation_ok, Some(false));
    assert!(!verdict.verified);

    let vc = issue_credential(
        &id,
        obj(vec![("supersededBy", Json::string("urn:claim:3"))]),
        None,
        None,
        None,
    );
    let verdict = verify_document(&vc, &ctx(&id, &registry, now));
    assert_eq!(verdict.revocation_ok, Some(false));
    assert!(!verdict.verified);
}

#[test]
fn untrusted_issuer_is_rejected_even_with_valid_signature() {
    let id = identity();
    let registry = TrustedIssuers::default();
    let mut spoof = obj(vec![("says", Json::string("spoofed"))]);
    attach_proof(&mut spoof, &id);
    let ctx = TrustContext {
        registry: &registry,
        self_identity: None,
        now: 0,
    };
    let verdict = verify_document(&spoof, &ctx);
    assert!(!verdict.issuer_trusted);
    assert!(!verdict.verified);
}

fn mk() -> String {
    let mut key = [0u8; 32];
    key[0] = 1;
    multikey_encode(&key)
}

#[test]
fn insert_validates_multikey_shape() {
    let mut reg = TrustedIssuers::new();
    assert!(reg.insert("did:web:x".into(), "z6MkNotAKey".into()).is_err());
    assert!(reg.insert("did:web:x".into(), mk()).is_ok());
    assert_eq!(reg.public_key_for("did:web:x"), Some(mk().as_str()));
    assert_eq!(reg.public_key_for("did:web:other"), None);
}

#[test]
fn revocation_membership() {
    let mut reg = TrustedIssuers::new();
    reg.revoke("urn:claim:1");
    assert!(reg.is_revoked("urn:claim:1"));
    assert!(!reg.is_revoked("urn:claim:2"));
}
