//! Verifiable provenance: Data Integrity-style Ed25519 proofs on JSON
//! documents, W3C VC 2.0-shaped credentials, and the four verification
//! gates (shape and signature, issuer trust, temporal window,
//! revocation / supersession).
//!
//! Signature bytes are canonical_json(doc without "proof") followed by
//! canonical_json(proof without "proofValue"), both in the sorted-key compact
//! form of `json::canon`.
use vstd::prelude::*;

use crate::base58::{lemma_multikey_roundtrip, b58_decode, b58_decode_spec, b58_encode, b58_spec, lemma_b58_roundtrip, multikey_decode, multikey_decode_spec, multikey_encode, multikey_spec};
use crate::dates::{parse_rfc3339, parse_rfc3339_spec, rfc3339_parsable, now_rfc3339, rfc3339_spec};
use crate::json::{canon, canonical_json, copy_of, lemma_get_with_same, lemma_get_with_other, lemma_without_with, lemma_member_index_at, get_spec, get_str_spec, json_view, lemma_array_view, lemma_object_view, member_index, lemma_member_index, str_eq, str_spec, with_member, without_member, insert_spec, remove_spec, Json, JsonValue};
use crate::registry::TrustedIssuers;
use crate::text::{chars_of, find_from, first_index, first_from, lemma_first_from, owned, push_all, string_of_range, has_char};

verus! {

/// Proof cryptosuite identifier.
pub const CRYPTOSUITE: &'static str = "ed25519-canonicaljson-2025-prototype";

/// The VC 2.0 context.
pub const CONTEXT_CREDENTIALS: &'static str = "https://www.w3.org/ns/credentials/v2";

// ---------------------------------------------------------------------------
// Ed25519 (ed25519-dalek)
// ---------------------------------------------------------------------------

/// The Ed25519 public key of a 32-byte secret key.
pub uninterp spec fn ed25519_public(seed: Seq<u8>) -> Seq<u8>;

/// The (deterministic) Ed25519 signature of a message's UTF-8 bytes.
pub uninterp spec fn ed25519_signature(seed: Seq<u8>, message: Seq<char>) -> Seq<u8>;

/// Whether 32 bytes are the compressed form of a curve point.
pub uninterp spec fn ed25519_point_valid(public_key: Seq<u8>) -> bool;

/// Whether a signature verifies for a message's UTF-8 bytes under a
/// public key given by its 32 bytes.
pub uninterp spec fn ed25519_verifies(public_key: Seq<u8>, message: Seq<char>, signature: Seq<u8>) -> bool;

/// `SigningKey::from_bytes(seed).verifying_key().to_bytes()`: the public
/// key, a function of the seed alone. It is the compressed form of a
/// curve point, so it decompresses.
#[verifier::external_body]
fn ed25519_public_key(seed: &[u8; 32]) -> (r: [u8; 32])
    ensures
        r@ == ed25519_public(seed@),
        ed25519_point_valid(r@),
{
    ed25519_dalek::SigningKey::from_bytes(seed).verifying_key().to_bytes()
}

/// `Signer::sign` of `SigningKey::from_bytes(seed)` over the message's
/// UTF-8 bytes. Ed25519 signing is deterministic (RFC 8032), so the
/// signature is a function of the seed and the message, and it verifies
/// for that message under the seed's public key.
#[verifier::external_body]
fn ed25519_sign(seed: &[u8; 32], message: &str) -> (r: [u8; 64])
    ensures
        r@ == ed25519_signature(seed@, message@),
        ed25519_verifies(ed25519_public(seed@), message@, r@),
{
    let key = ed25519_dalek::SigningKey::from_bytes(seed);
    ed25519_dalek::Signer::sign(&key, message.as_bytes()).to_bytes()
}

/// `VerifyingKey::from_bytes(public_key).is_ok()`: the bytes decompress
/// to a curve point.
#[verifier::external_body]
fn ed25519_key_valid(public_key: &[u8; 32]) -> (r: bool)
    ensures
        r == ed25519_point_valid(public_key@),
{
    ed25519_dalek::VerifyingKey::from_bytes(public_key).is_ok()
}

/// `VerifyingKey::from_bytes(public_key)` followed by `Verifier::verify`
/// of the message's UTF-8 bytes against `Signature::from_bytes(signature)`;
/// false when the key bytes are not a point.
#[verifier::external_body]
fn ed25519_verify(public_key: &[u8; 32], message: &str, signature: &[u8; 64]) -> (r: bool)
    ensures
        r == ed25519_verifies(public_key@, message@, signature@),
{
    let sig = ed25519_dalek::Signature::from_bytes(signature);
    match ed25519_dalek::VerifyingKey::from_bytes(public_key) {
        Ok(vk) => ed25519_dalek::Verifier::verify(&vk, message.as_bytes(), &sig).is_ok(),
        Err(_) => false,
    }
}

// ---------------------------------------------------------------------------
// signing identity
// ---------------------------------------------------------------------------

/// This deployment's own identity: a DID and an Ed25519 key.
pub struct SigningIdentity {
    pub did: String,
    /// The 32-byte Ed25519 secret key.
    pub key: [u8; 32],
    /// The public key of `key`.
    pub public_key: [u8; 32],
    /// `public_key` as a Multikey string.
    pub public_key_multibase: String,
}

impl SigningIdentity {
    /// The public fields agree with the secret key.
    pub open spec fn wf(&self) -> bool {
        &&& self.public_key@ == ed25519_public(self.key@)
        &&& ed25519_point_valid(self.public_key@)
        &&& self.public_key_multibase@ == multikey_spec(self.public_key@)
    }

    pub fn from_seed(did: String, seed: [u8; 32]) -> (r: Self)
        ensures
            r.wf(),
            r.did@ == did@,
            r.key@ == seed@,
    {
        let public_key = ed25519_public_key(&seed);
        let public_key_multibase = multikey_encode(&public_key);
        SigningIdentity { did, key: seed, public_key, public_key_multibase }
    }

    /// The public key bytes.
    pub fn verifying_key_bytes(&self) -> (r: [u8; 32])
        ensures
            r@ == self.public_key@,
    {
        self.public_key
    }
}

// ---------------------------------------------------------------------------
// proof creation
// ---------------------------------------------------------------------------

/// The text that is signed: canonical_json(doc without "proof") followed by
/// canonical_json(proof without "proofValue").
pub open spec fn signing_text(doc: JsonValue, proof: JsonValue) -> Seq<char> {
    canon(without_member(doc, "proof"@)) + canon(without_member(proof, "proofValue"@))
}

fn signing_bytes(doc: &Json, proof: &Json) -> (r: String)
    ensures
        r@ == signing_text(doc@, proof@),
{
    let mut doc_sans = copy_of(doc);
    doc_sans.remove("proof");
    let mut proof_sans = copy_of(proof);
    proof_sans.remove("proofValue");
    let mut bytes = canonical_json(&doc_sans);
    let tail = canonical_json(&proof_sans);
    push_all(&mut bytes, tail.as_str());
    bytes
}

/// The proof object before its value is added.
pub open spec fn proof_base_spec(did: Seq<char>, created: Seq<char>) -> JsonValue {
    JsonValue::Object(
        seq![
            ("type"@, JsonValue::Str("DataIntegrityProof"@)),
            ("cryptosuite"@, JsonValue::Str(CRYPTOSUITE@)),
            ("verificationMethod"@, JsonValue::Str(did + "#key-1"@)),
            ("created"@, JsonValue::Str(created)),
            ("proofPurpose"@, JsonValue::Str("assertionMethod"@)),
        ],
    )
}

/// The signature a signer with secret key `seed` puts on `doc`.
pub open spec fn proof_signature(doc: JsonValue, did: Seq<char>, seed: Seq<u8>, created: Seq<char>) -> Seq<u8> {
    ed25519_signature(seed, signing_text(doc, proof_base_spec(did, created)))
}

/// The complete proof object.
pub open spec fn proof_spec(doc: JsonValue, did: Seq<char>, seed: Seq<u8>, created: Seq<char>) -> JsonValue {
    with_member(
        proof_base_spec(did, created),
        "proofValue"@,
        JsonValue::Str(seq!['z'] + b58_spec(proof_signature(doc, did, seed, created))),
    )
}

/// `doc` with its proof attached (objects only; other values unchanged).
pub open spec fn signed_spec(doc: JsonValue, did: Seq<char>, seed: Seq<u8>, created: Seq<char>) -> JsonValue {
    with_member(doc, "proof"@, proof_spec(doc, did, seed, created))
}

fn proof_base(did: &str, created: &str) -> (r: Json)
    ensures
        r@ == proof_base_spec(did@, created@),
{
    let mut vm = owned(did);
    push_all(&mut vm, "#key-1");
    let mut es: Vec<(String, Json)> = Vec::new();
    es.push((owned("type"), Json::string("DataIntegrityProof")));
    es.push((owned("cryptosuite"), Json::string(CRYPTOSUITE)));
    es.push((owned("verificationMethod"), Json::Str(vm)));
    es.push((owned("created"), Json::string(created)));
    es.push((owned("proofPurpose"), Json::string("assertionMethod")));
    proof {
        lemma_object_view(es);
    }
    let r = Json::Object(es);
    assert(r@->Object_0 =~= proof_base_spec(did@, created@)->Object_0);
    r
}

/// `doc` carries a well-formed proof by `signer`'s DID whose signature
/// verifies under `signer`'s public key.
pub open spec fn signed_by(doc: JsonValue, signer: &SigningIdentity) -> bool {
    &&& shape_spec(doc)
    &&& doc_did(doc) == signer.did@
    &&& signature_spec(doc, Some(signer.public_key@))
}

/// Builds the proof for `doc` with creation time `created` and attaches
/// it as the member "proof" (objects only). A JSON object signed by a
/// consistent identity whose DID has no '#' is `signed_by` it.
pub fn attach_proof_at(doc: &mut Json, signer: &SigningIdentity, created: &str)
    ensures
        final(doc)@ == signed_spec(old(doc)@, signer.did@, signer.key@, created@),
        signer.wf() && old(doc)@ is Object && !has_char(signer.did@, '#') ==> signed_by(
            final(doc)@,
            signer,
        ),
{
    let proof = proof_base(signer.did.as_str(), created);
    let msg = signing_bytes(doc, &proof);
    let sig = ed25519_sign(&signer.key, msg.as_str());
    let mut value = owned("z");
    proof {
        reveal_strlit("z");
    }
    let body = b58_encode(sig.as_slice());
    push_all(&mut value, body.as_str());
    let ghost d0 = doc@;
    assert(msg@ == signing_text(d0, proof_base_spec(signer.did@, created@)));
    assert(sig@ == proof_signature(d0, signer.did@, signer.key@, created@));
    assert(value@ == seq!['z'] + b58_spec(sig@));
    let mut proof_obj = proof;
    proof_obj.insert("proofValue", Json::Str(value));
    let ghost pv = proof_obj@;
    assert(pv == proof_spec(d0, signer.did@, signer.key@, created@));
    doc.insert("proof", proof_obj);
    proof {
        if signer.wf() && d0 is Object && !has_char(signer.did@, '#') {
            lemma_signed(d0, signer, created@, sig@);
        }
    }
}

proof fn lemma_signed(d0: JsonValue, signer: &SigningIdentity, created: Seq<char>, sig: Seq<u8>)
    requires
        signer.wf(),
        d0 is Object,
        !has_char(signer.did@, '#'),
        sig == proof_signature(d0, signer.did@, signer.key@, created),
        sig.len() == 64,
        ed25519_verifies(
            ed25519_public(signer.key@),
            signing_text(d0, proof_base_spec(signer.did@, created)),
            sig,
        ),
    ensures
        signed_by(signed_spec(d0, signer.did@, signer.key@, created), signer),
{
    let did = signer.did@;
    let base = proof_base_spec(did, created);
    let zv = JsonValue::Str(seq!['z'] + b58_spec(sig));
    let p = with_member(base, "proofValue"@, zv);
    let fin = with_member(d0, "proof"@, p);
    assert(p == proof_spec(d0, did, signer.key@, created));
    assert(fin == signed_spec(d0, did, signer.key@, created));
    lemma_get_with_same(d0, "proof"@, p);
    assert(proof_of(fin) == p);
    lemma_get_with_same(base, "proofValue"@, zv);
    reveal_strlit("#key-1");
    reveal_strlit("proofValue");
    reveal_strlit("type");
    reveal_strlit("cryptosuite");
    reveal_strlit("verificationMethod");
    reveal_strlit("created");
    reveal_strlit("proofPurpose");
    let es = base->Object_0;
    assert("proofValue"@.len() == 10 && "proofPurpose"@.len() == 12);
    assert(es[0].0.len() == 4 && es[1].0.len() == 11 && es[2].0.len() == 18 && es[3].0.len() == 7);
    assert(es[0].0 != "cryptosuite"@ && es[0].0 != "verificationMethod"@ && es[1].0 != "verificationMethod"@);
    lemma_member_index_at(es, "cryptosuite"@, 1);
    lemma_member_index_at(es, "verificationMethod"@, 2);
    lemma_member_index_at(es, "proofPurpose"@, 4);
    lemma_get_with_other(base, "proofValue"@, zv, "cryptosuite"@);
    lemma_get_with_other(base, "proofValue"@, zv, "verificationMethod"@);
    lemma_get_with_other(base, "proofValue"@, zv, "proofPurpose"@);
    assert(proof_field(fin, "proofValue"@) == seq!['z'] + b58_spec(sig));
    assert(get_spec(base, "cryptosuite"@) == Some(JsonValue::Str(CRYPTOSUITE@)));
    assert(proof_field(fin, "cryptosuite"@) == CRYPTOSUITE@);
    assert(proof_field(fin, "proofPurpose"@) == "assertionMethod"@);
    assert(proof_field(fin, "verificationMethod"@) == did + "#key-1"@);
    assert(proof_of(fin) is Object);
    assert(shape_spec(fin));
    // the DID is the verification method up to its '#'
    let vm = did + "#key-1"@;
    assert(vm[did.len() as int] == '#');
    lemma_first_from(vm, '#', 0);
    assert(forall|k: int| 0 <= k < did.len() ==> vm[k] == did[k]);
    assert(first_index(vm, '#') == Some(did.len() as int));
    assert(vm.take(did.len() as int) =~= did);
    assert(doc_did(fin) == did);
    // the signature decodes and verifies over the same text
    assert(strip_z_spec(seq!['z'] + b58_spec(sig)) =~= b58_spec(sig));
    lemma_b58_roundtrip(sig);
    lemma_without_with(d0, "proof"@, p);
    lemma_without_with(base, "proofValue"@, zv);
    assert(signing_text(fin, p) == signing_text(d0, base));
}

/// Attaches a proof created now.
pub fn attach_proof(doc: &mut Json, signer: &SigningIdentity)
    ensures
        exists|t: i64|
            final(doc)@ == signed_spec(old(doc)@, signer.did@, signer.key@, #[trigger] rfc3339_spec(t as int)),
        signer.wf() && old(doc)@ is Object && !has_char(signer.did@, '#') ==> signed_by(
            final(doc)@,
            signer,
        ),
{
    let created = now_rfc3339();
    let ghost t = choose|t: i64| created@ == rfc3339_spec(t as int);
    attach_proof_at(doc, signer, created.as_str());
    assert(doc@ == signed_spec(old(doc)@, signer.did@, signer.key@, rfc3339_spec(t as int)));
}

// ---------------------------------------------------------------------------
// credentials
// ---------------------------------------------------------------------------

pub open spec fn opt_text(o: Option<String>) -> Option<Seq<char>> {
    match o {
        Some(s) => Some(s@),
        None => None,
    }
}

/// The unsigned VerifiableCredential (VC 2.0 shape): context, type,
/// issuer, validFrom and subject, then "id" and "validUntil" when given;
/// a superseded credential's id goes into the subject as "supersedes".
pub open spec fn credential_spec(
    did: Seq<char>,
    subject: JsonValue,
    valid_until: Option<Seq<char>>,
    supersedes: Option<Seq<char>>,
    id: Option<Seq<char>>,
    valid_from: Seq<char>,
) -> JsonValue {
    let subj = match supersedes {
        Some(s) => with_member(subject, "supersedes"@, JsonValue::Str(s)),
        None => subject,
    };
    let base = JsonValue::Object(
        seq![
            ("@context"@, JsonValue::Array(seq![JsonValue::Str(CONTEXT_CREDENTIALS@)])),
            ("type"@, JsonValue::Array(seq![JsonValue::Str("VerifiableCredential"@)])),
            ("issuer"@, JsonValue::Str(did)),
            ("validFrom"@, JsonValue::Str(valid_from)),
            ("credentialSubject"@, subj),
        ],
    );
    let with_id = match id {
        Some(i) => with_member(base, "id"@, JsonValue::Str(i)),
        None => base,
    };
    match valid_until {
        Some(u) => with_member(with_id, "validUntil"@, JsonValue::Str(u)),
        None => with_id,
    }
}

fn single_str_array(s: &str) -> (r: Json)
    ensures
        r@ == JsonValue::Array(seq![JsonValue::Str(s@)]),
{
    let mut xs: Vec<Json> = Vec::new();
    xs.push(Json::string(s));
    proof {
        lemma_array_view(xs);
    }
    let r = Json::Array(xs);
    assert(r@->Array_0 =~= seq![JsonValue::Str(s@)]);
    r
}

/// The unsigned credential with validity starting at `valid_from`.
pub fn unsigned_credential(
    signer: &SigningIdentity,
    credential_subject: Json,
    valid_until: Option<String>,
    supersedes: Option<String>,
    id: Option<String>,
    valid_from: &str,
) -> (r: Json)
    ensures
        r@ == credential_spec(
            signer.did@,
            credential_subject@,
            opt_text(valid_until),
            opt_text(supersedes),
            opt_text(id),
            valid_from@,
        ),
{
    let mut subject = credential_subject;
    match supersedes {
        Some(s) => {
            subject.insert("supersedes", Json::Str(s));
        },
        None => {},
    }
    let mut es: Vec<(String, Json)> = Vec::new();
    es.push((owned("@context"), single_str_array(CONTEXT_CREDENTIALS)));
    es.push((owned("type"), single_str_array("VerifiableCredential")));
    es.push((owned("issuer"), Json::string(signer.did.as_str())));
    es.push((owned("validFrom"), Json::string(valid_from)));
    es.push((owned("credentialSubject"), subject));
    proof {
        lemma_object_view(es);
    }
    let mut vc = Json::Object(es);
    let ghost subj = subject@;
    assert(vc@->Object_0 =~= seq![
        ("@context"@, JsonValue::Array(seq![JsonValue::Str(CONTEXT_CREDENTIALS@)])),
        ("type"@, JsonValue::Array(seq![JsonValue::Str("VerifiableCredential"@)])),
        ("issuer"@, JsonValue::Str(signer.did@)),
        ("validFrom"@, JsonValue::Str(valid_from@)),
        ("credentialSubject"@, subj),
    ]);
    match id {
        Some(i) => {
            vc.insert("id", Json::Str(i));
        },
        None => {},
    }
    match valid_until {
        Some(u) => {
            vc.insert("validUntil", Json::Str(u));
        },
        None => {},
    }
    vc
}

/// Wraps a claim into a signed VerifiableCredential, valid from now.
pub fn issue_credential(
    signer: &SigningIdentity,
    credential_subject: Json,
    valid_until: Option<String>,
    supersedes: Option<String>,
    id: Option<String>,
) -> (r: Json)
    ensures
        exists|t1: i64, t2: i64|
            r@ == signed_spec(
                credential_spec(
                    signer.did@,
                    credential_subject@,
                    opt_text(valid_until),
                    opt_text(supersedes),
                    opt_text(id),
                    #[trigger] rfc3339_spec(t1 as int),
                ),
                signer.did@,
                signer.key@,
                #[trigger] rfc3339_spec(t2 as int),
            ),
        signer.wf() && !has_char(signer.did@, '#') ==> signed_by(r@, signer),
{
    let valid_from = now_rfc3339();
    let ghost t1 = choose|t: i64| valid_from@ == rfc3339_spec(t as int);
    let mut vc = unsigned_credential(signer, credential_subject, valid_until, supersedes, id, valid_from.as_str());
    let ghost v0 = vc@;
    assert(v0 is Object);
    attach_proof(&mut vc, signer);
    let ghost t2 = choose|t: i64| vc@ == signed_spec(v0, signer.did@, signer.key@, rfc3339_spec(t as int));
    assert(vc@ == signed_spec(v0, signer.did@, signer.key@, rfc3339_spec(t2 as int)));
    vc
}

// ---------------------------------------------------------------------------
// verification: the four gates
// ---------------------------------------------------------------------------

/// The outcome of verifying a document.
#[derive(Debug, Clone)]
pub struct Verdict {
    pub verified: bool,
    pub shape_ok: bool,
    pub signature_ok: bool,
    pub issuer_trusted: bool,
    /// None: not applicable (no validity window on the document).
    pub temporal_ok: Option<bool>,
    /// None: not applicable (no id or supersession data on the document).
    pub revocation_ok: Option<bool>,
    pub issuer: Option<String>,
    pub details: Vec<String>,
}

/// Mathematical model of a verdict.
pub struct VerdictModel {
    pub verified: bool,
    pub shape_ok: bool,
    pub signature_ok: bool,
    pub issuer_trusted: bool,
    pub temporal_ok: Option<bool>,
    pub revocation_ok: Option<bool>,
    pub issuer: Option<Seq<char>>,
    pub details: Seq<Seq<char>>,
}

pub open spec fn texts(v: Seq<String>) -> Seq<Seq<char>> {
    v.map_values(|s: String| s@)
}

impl View for Verdict {
    type V = VerdictModel;

    open spec fn view(&self) -> VerdictModel {
        VerdictModel {
            verified: self.verified,
            shape_ok: self.shape_ok,
            signature_ok: self.signature_ok,
            issuer_trusted: self.issuer_trusted,
            temporal_ok: self.temporal_ok,
            revocation_ok: self.revocation_ok,
            issuer: opt_text(self.issuer),
            details: texts(self.details@),
        }
    }
}

/// What the verifier knows: the local trust registry plus, optionally,
/// this deployment's own identity, which is trusted by definition.
pub struct TrustContext<'a> {
    pub registry: &'a TrustedIssuers,
    pub self_identity: Option<&'a SigningIdentity>,
    pub now: i64,
}

/// The DID and public key of the verifier's own identity, if any.
pub open spec fn self_model(id: Option<&SigningIdentity>) -> Option<(Seq<char>, Seq<u8>)> {
    match id {
        Some(s) => Some((s.did@, s.public_key@)),
        None => None,
    }
}

/// `Rust's Debug` rendering of a string: quoted, with escapes.
pub uninterp spec fn debug_quoted(s: Seq<char>) -> Seq<char>;

/// `format!("{:?}", s)` for a string slice.
#[verifier::external_body]
fn debug_quote(s: &str) -> (r: String)
    ensures
        r@ == debug_quoted(s@),
{
    format!("{:?}", s)
}

pub open spec fn text_or_empty(o: Option<Seq<char>>) -> Seq<char> {
    match o {
        Some(s) => s,
        None => Seq::empty(),
    }
}

/// The document's "proof" member (Null when there is none).
pub open spec fn proof_of(doc: JsonValue) -> JsonValue {
    match get_spec(doc, "proof"@) {
        Some(p) => p,
        None => JsonValue::Null,
    }
}

/// A string member of the proof ("" when absent or not a string).
pub open spec fn proof_field(doc: JsonValue, k: Seq<char>) -> Seq<char> {
    text_or_empty(get_str_spec(proof_of(doc), k))
}

/// Gate 1: a well-formed DataIntegrityProof is present.
pub open spec fn shape_spec(doc: JsonValue) -> bool {
    &&& proof_of(doc) is Object
    &&& proof_field(doc, "proofValue"@).len() > 0
    &&& proof_field(doc, "verificationMethod"@).len() > 0
    &&& proof_field(doc, "cryptosuite"@) == CRYPTOSUITE@
    &&& proof_field(doc, "proofPurpose"@) == "assertionMethod"@
}

/// The DID of a verification method: the part before the first '#'.
pub open spec fn did_of(vm: Seq<char>) -> Seq<char> {
    match first_index(vm, '#') {
        Some(i) => vm.take(i),
        None => vm,
    }
}

pub open spec fn doc_did(doc: JsonValue) -> Seq<char> {
    did_of(proof_field(doc, "verificationMethod"@))
}

/// Gate 2: the key the verifier trusts for `did`: its own public key when
/// `did` is its own DID, else the registry's Multikey for `did` when that
/// decodes to a curve point.
pub open spec fn key_for(
    issuers: Map<Seq<char>, Seq<char>>,
    self_id: Option<(Seq<char>, Seq<u8>)>,
    did: Seq<char>,
) -> Option<Seq<u8>> {
    let own = match self_id {
        Some(pair) => if pair.0 == did {
            Some(pair.1)
        } else {
            None
        },
        None => None,
    };
    if own is Some {
        own
    } else if issuers.contains_key(did) {
        match multikey_decode_spec(issuers[did]) {
            Some(k) => if ed25519_point_valid(k) {
                Some(k)
            } else {
                None
            },
            None => None,
        }
    } else {
        None
    }
}

/// A proof value without its multibase 'z'.
pub open spec fn strip_z_spec(s: Seq<char>) -> Seq<char> {
    if s.len() > 0 && s[0] == 'z' {
        s.drop_first()
    } else {
        s
    }
}

/// Gate 3: the proof value decodes to 64 bytes that verify over the
/// signing text under the trusted key.
pub open spec fn signature_spec(doc: JsonValue, key: Option<Seq<u8>>) -> bool {
    match key {
        Some(pk) => match b58_decode_spec(strip_z_spec(proof_field(doc, "proofValue"@))) {
            Some(sig) => sig.len() == 64 && ed25519_verifies(pk, signing_text(doc, proof_of(doc)), sig),
            None => false,
        },
        None => false,
    }
}

/// The "type" array lists "VerifiableCredential".
pub open spec fn is_vc_spec(doc: JsonValue) -> bool {
    match get_spec(doc, "type"@) {
        Some(JsonValue::Array(xs)) => exists|i: int|
            0 <= i < xs.len() && xs[i] == JsonValue::Str("VerifiableCredential"@),
        _ => false,
    }
}

/// "validFrom", or (when that member is absent) "issuanceDate", as a string.
pub open spec fn valid_from_spec(doc: JsonValue) -> Option<Seq<char>> {
    match get_spec(doc, "validFrom"@) {
        Some(v) => str_spec(Some(v)),
        None => get_str_spec(doc, "issuanceDate"@),
    }
}

/// "validUntil", or (when that member is absent) "expirationDate", as a string.
pub open spec fn valid_until_spec(doc: JsonValue) -> Option<Seq<char>> {
    match get_spec(doc, "validUntil"@) {
        Some(v) => str_spec(Some(v)),
        None => get_str_spec(doc, "expirationDate"@),
    }
}

/// The validity bounds stay within the timestamp parser's arithmetic.
pub open spec fn dates_parsable(doc: JsonValue) -> bool {
    &&& (valid_from_spec(doc) matches Some(s) ==> rfc3339_parsable(s))
    &&& (valid_until_spec(doc) matches Some(s) ==> rfc3339_parsable(s))
}

pub open spec fn from_ok_spec(t: Option<Seq<char>>, now: int) -> bool {
    match t {
        Some(s) => match parse_rfc3339_spec(s) {
            Some(x) => x <= now,
            None => false,
        },
        None => true,
    }
}

pub open spec fn until_ok_spec(t: Option<Seq<char>>, now: int) -> bool {
    match t {
        Some(s) => match parse_rfc3339_spec(s) {
            Some(x) => x > now,
            None => false,
        },
        None => true,
    }
}

/// Gate 4a: a credential with a validity window must contain `now`.
pub open spec fn temporal_spec(doc: JsonValue, now: int) -> Option<bool> {
    if is_vc_spec(doc) {
        if valid_from_spec(doc) is None && valid_until_spec(doc) is None {
            None
        } else {
            Some(from_ok_spec(valid_from_spec(doc), now) && until_ok_spec(valid_until_spec(doc), now))
        }
    } else {
        None
    }
}

/// A non-empty "supersededBy" string of the credential subject.
pub open spec fn superseded_spec(doc: JsonValue) -> Option<Seq<char>> {
    match get_spec(doc, "credentialSubject"@) {
        Some(s) => match get_str_spec(s, "supersededBy"@) {
            Some(t) => if t.len() > 0 {
                Some(t)
            } else {
                None
            },
            None => None,
        },
        None => None,
    }
}

/// Gate 4b: a document with an id or a successor is neither revoked
/// nor superseded.
pub open spec fn revocation_spec(doc: JsonValue, revoked: Set<Seq<char>>) -> Option<bool> {
    let id = get_str_spec(doc, "id"@);
    if id is Some || superseded_spec(doc) is Some {
        Some(!((id is Some && revoked.contains(id->0)) || superseded_spec(doc) is Some))
    } else {
        None
    }
}

pub open spec fn or_true(o: Option<bool>) -> bool {
    match o {
        Some(b) => b,
        None => true,
    }
}

pub open spec fn line_if(b: bool, line: Seq<char>) -> Seq<Seq<char>> {
    if b {
        seq![line]
    } else {
        Seq::empty()
    }
}

pub open spec fn malformed_line(doc: JsonValue) -> Seq<char> {
    "malformed proof (cryptosuite="@ + debug_quoted(proof_field(doc, "cryptosuite"@)) + ", purpose="@
        + debug_quoted(proof_field(doc, "proofPurpose"@)) + ")"@
}

pub open spec fn untrusted_line(did: Seq<char>) -> Seq<char> {
    "issuer "@ + did + " is not in the trusted registry (and not this deployment)"@
}

/// The verdict on `doc` of a verifier with the given registry (issuers
/// and revoked ids), own identity and clock.
pub open spec fn verdict_spec(
    doc: JsonValue,
    issuers: Map<Seq<char>, Seq<char>>,
    revoked: Set<Seq<char>>,
    self_id: Option<(Seq<char>, Seq<u8>)>,
    now: int,
) -> VerdictModel {
    if !(proof_of(doc) is Object) {
        VerdictModel {
            verified: false,
            shape_ok: false,
            signature_ok: false,
            issuer_trusted: false,
            temporal_ok: None,
            revocation_ok: None,
            issuer: None,
            details: seq!["no proof object present; document is unsigned"@],
        }
    } else if !shape_spec(doc) {
        VerdictModel {
            verified: false,
            shape_ok: false,
            signature_ok: false,
            issuer_trusted: false,
            temporal_ok: None,
            revocation_ok: None,
            issuer: get_str_spec(doc, "issuer"@),
            details: seq![malformed_line(doc)],
        }
    } else {
        let did = doc_did(doc);
        let key = key_for(issuers, self_id, did);
        let trusted = key is Some;
        let sig = signature_spec(doc, key);
        let temporal = temporal_spec(doc, now);
        let revocation = revocation_spec(doc, revoked);
        let issuer = text_or_empty(
            if get_str_spec(doc, "issuer"@) is Some {
                get_str_spec(doc, "issuer"@)
            } else {
                Some(did)
            },
        );
        VerdictModel {
            verified: sig && trusted && or_true(temporal) && or_true(revocation),
            shape_ok: true,
            signature_ok: sig,
            issuer_trusted: trusted,
            temporal_ok: temporal,
            revocation_ok: revocation,
            issuer: if issuer.len() > 0 {
                Some(issuer)
            } else {
                None
            },
            details: line_if(!trusted, untrusted_line(did)) + line_if(
                is_vc_spec(doc) && get_str_spec(doc, "issuer"@) != Some(did),
                "issuer field disagrees with proof verificationMethod"@,
            ) + line_if(!sig, "signature does not verify over canonical bytes"@) + line_if(
                temporal == Some(false),
                "validity window does not contain the current time"@,
            ) + line_if(revocation == Some(false), "credential is revoked or superseded"@),
        }
    }
}

fn field_text(j: &Json, key: &str) -> (r: String)
    ensures
        r@ == text_or_empty(get_str_spec(j@, key@)),
{
    match j.get_str(key) {
        Some(s) => owned(s.as_str()),
        None => String::new(),
    }
}

fn did_part(vm: &str) -> (r: String)
    ensures
        r@ == did_of(vm@),
{
    let v = chars_of(vm);
    proof {
        lemma_first_from(v@, '#', 0);
    }
    match find_from(&v, '#', 0) {
        Some(i) => {
            let r = string_of_range(&v, 0, i);
            assert(r@ =~= vm@.take(i as int));
            r
        },
        None => owned(vm),
    }
}

fn strip_z(s: &str) -> (r: String)
    ensures
        r@ == strip_z_spec(s@),
{
    let v = chars_of(s);
    if v.len() > 0 && v[0] == 'z' {
        let r = string_of_range(&v, 1, v.len());
        assert(r@ =~= s@.drop_first());
        r
    } else {
        owned(s)
    }
}

fn is_vc(doc: &Json) -> (r: bool)
    ensures
        r == is_vc_spec(doc@),
{
    match doc.get("type") {
        Some(Json::Array(xs)) => {
            proof {
                lemma_array_view(*xs);
            }
            let ghost gxs = json_view(Json::Array(*xs))->Array_0;
            assert(get_spec(doc@, "type"@) == Some(JsonValue::Array(gxs)));
            let mut i: usize = 0;
            while i < xs.len()
                invariant
                    i <= xs@.len(),
                    gxs == json_view(Json::Array(*xs))->Array_0,
                    gxs.len() == xs@.len(),
                    get_spec(doc@, "type"@) == Some(JsonValue::Array(gxs)),
                    forall|t: int| 0 <= t < xs@.len() ==> #[trigger] gxs[t] == json_view(xs@[t]),
                    forall|t: int| 0 <= t < i ==> gxs[t] != JsonValue::Str("VerifiableCredential"@),
                decreases xs@.len() - i,
            {
                match &xs[i] {
                    Json::Str(t) => {
                        if str_eq(t.as_str(), "VerifiableCredential") {
                            assert(gxs[i as int] == JsonValue::Str("VerifiableCredential"@));
                            return true;
                        }
                    },
                    _ => {},
                }
                i = i + 1;
            }
            false
        },
        _ => false,
    }
}

fn valid_from(doc: &Json) -> (r: Option<&String>)
    ensures
        opt_ref_text(r) == valid_from_spec(doc@),
{
    match doc.get("validFrom") {
        Some(v) => v.as_str(),
        None => doc.get_str("issuanceDate"),
    }
}

fn valid_until(doc: &Json) -> (r: Option<&String>)
    ensures
        opt_ref_text(r) == valid_until_spec(doc@),
{
    match doc.get("validUntil") {
        Some(v) => v.as_str(),
        None => doc.get_str("expirationDate"),
    }
}

pub open spec fn opt_ref_text(o: Option<&String>) -> Option<Seq<char>> {
    match o {
        Some(s) => Some(s@),
        None => None,
    }
}

fn from_ok(t: Option<&String>, now: i64) -> (r: bool)
    requires
        t matches Some(s) ==> rfc3339_parsable(s@),
    ensures
        r == from_ok_spec(opt_ref_text(t), now as int),
{
    match t {
        Some(s) => match parse_rfc3339(s.as_str()) {
            Some(x) => x <= now,
            None => false,
        },
        None => true,
    }
}

fn until_ok(t: Option<&String>, now: i64) -> (r: bool)
    requires
        t matches Some(s) ==> rfc3339_parsable(s@),
    ensures
        r == until_ok_spec(opt_ref_text(t), now as int),
{
    match t {
        Some(s) => match parse_rfc3339(s.as_str()) {
            Some(x) => x > now,
            None => false,
        },
        None => true,
    }
}

fn superseded_by(doc: &Json) -> (r: Option<&String>)
    ensures
        opt_ref_text(r) == superseded_spec(doc@),
{
    match doc.get("credentialSubject") {
        Some(s) => match s.get_str("supersededBy") {
            Some(t) => if t.as_str().unicode_len() > 0 {
                Some(t)
            } else {
                None
            },
            None => None,
        },
        None => None,
    }
}

fn signature_array(v: &Vec<u8>) -> (r: [u8; 64])
    requires
        v@.len() == 64,
    ensures
        r@ == v@,
{
    let mut a = [0u8; 64];
    let mut i: usize = 0;
    while i < 64
        invariant
            i <= 64,
            v@.len() == 64,
            a@.len() == 64,
            forall|k: int| 0 <= k < i ==> a@[k] == v@[k],
        decreases 64 - i,
    {
        a[i] = v[i];
        i = i + 1;
    }
    assert(a@ =~= v@);
    a
}

fn push_line(details: &mut Vec<String>, line: String)
    ensures
        texts(final(details)@) == texts(old(details)@).push(line@),
{
    let ghost line_text = line@;
    details.push(line);
    assert(texts(details@) =~= texts(old(details)@).push(line_text));
}

fn unsigned_verdict(issuer: Option<String>, line: String) -> (r: Verdict)
    ensures
        r@ == (VerdictModel {
            verified: false,
            shape_ok: false,
            signature_ok: false,
            issuer_trusted: false,
            temporal_ok: None,
            revocation_ok: None,
            issuer: opt_text(issuer),
            details: seq![line@],
        }),
{
    let mut details: Vec<String> = Vec::new();
    assert(texts(details@) =~= Seq::<Seq<char>>::empty());
    push_line(&mut details, line);
    assert(texts(details@) =~= seq![line@]);
    Verdict {
        verified: false,
        shape_ok: false,
        signature_ok: false,
        issuer_trusted: false,
        temporal_ok: None,
        revocation_ok: None,
        issuer,
        details,
    }
}

/// Verifies a Data Integrity-signed JSON document (a credential or the
/// signed manifest) against the four gates.
pub fn verify_document(doc: &Json, ctx: &TrustContext) -> (r: Verdict)
    requires
        ctx.registry.wf(),
        ctx.self_identity matches Some(s) ==> s.wf(),
        shape_spec(doc@) && is_vc_spec(doc@) ==> dates_parsable(doc@),
    ensures
        r@ == verdict_spec(doc@, ctx.registry@.0, ctx.registry@.1, self_model(ctx.self_identity), ctx.now as int),
{
    let proof = match doc.get("proof") {
        Some(p) => p,
        None => {
            return unsigned_verdict(None, owned("no proof object present; document is unsigned"));
        },
    };
    if !proof.is_object() {
        return unsigned_verdict(None, owned("no proof object present; document is unsigned"));
    }
    assert(proof@ == proof_of(doc@));
    let proof_value = field_text(proof, "proofValue");
    let vm = field_text(proof, "verificationMethod");
    let cryptosuite = field_text(proof, "cryptosuite");
    let purpose = field_text(proof, "proofPurpose");
    let shape_ok = proof_value.as_str().unicode_len() > 0 && vm.as_str().unicode_len() > 0 && str_eq(
        cryptosuite.as_str(),
        CRYPTOSUITE,
    ) && str_eq(purpose.as_str(), "assertionMethod");
    if !shape_ok {
        let mut line = owned("malformed proof (cryptosuite=");
        let q1 = debug_quote(cryptosuite.as_str());
        push_all(&mut line, q1.as_str());
        push_all(&mut line, ", purpose=");
        let q2 = debug_quote(purpose.as_str());
        push_all(&mut line, q2.as_str());
        push_all(&mut line, ")");
        let issuer = match doc.get_str("issuer") {
            Some(s) => Some(owned(s.as_str())),
            None => None,
        };
        return unsigned_verdict(issuer, line);
    }
    let ghost d = doc@;
    assert(shape_spec(d));
    let mut details: Vec<String> = Vec::new();
    assert(texts(details@) =~= Seq::<Seq<char>>::empty());

    // Gate 2: issuer trust.
    let did = did_part(vm.as_str());
    let issuer_field = doc.get_str("issuer");
    let issuer = match issuer_field {
        Some(s) => owned(s.as_str()),
        None => owned(did.as_str()),
    };
    let self_match = match ctx.self_identity {
        Some(s) => str_eq(s.did.as_str(), did.as_str()),
        None => false,
    };
    let verifying_key: Option<[u8; 32]> = if self_match {
        match ctx.self_identity {
            Some(s) => Some(s.public_key),
            None => None,
        }
    } else {
        match ctx.registry.public_key_for(did.as_str()) {
            Some(mk) => match multikey_decode(mk) {
                Some(bytes) => if ed25519_key_valid(&bytes) {
                    Some(bytes)
                } else {
                    None
                },
                None => None,
            },
            None => None,
        }
    };
    let ghost key = match verifying_key {
        Some(k) => Some(k@),
        None => None,
    };
    assert(key == key_for(ctx.registry@.0, self_model(ctx.self_identity), did@));
    assert(did@ == doc_did(d));
    let issuer_trusted = verifying_key.is_some();
    if !issuer_trusted {
        let mut line = owned("issuer ");
        push_all(&mut line, did.as_str());
        push_all(&mut line, " is not in the trusted registry (and not this deployment)");
        push_line(&mut details, line);
    }
    let ghost l1 = line_if(!issuer_trusted, untrusted_line(did@));
    assert(texts(details@) =~= l1);
    let vc = is_vc(doc);
    let disagrees = match issuer_field {
        Some(s) => !str_eq(s.as_str(), did.as_str()),
        None => true,
    };
    if vc && disagrees {
        push_line(&mut details, owned("issuer field disagrees with proof verificationMethod"));
    }

    let ghost l2 = l1 + line_if(
        is_vc_spec(d) && get_str_spec(d, "issuer"@) != Some(did@),
        "issuer field disagrees with proof verificationMethod"@,
    );
    assert(texts(details@) =~= l2);
    // Gate 3: signature over the canonical bytes.
    let stripped = strip_z(proof_value.as_str());
    let decoded = b58_decode(stripped.as_str());
    let signature_ok = match verifying_key {
        Some(pk) => match decoded {
            Some(sig) => if sig.len() == 64 {
                let arr = signature_array(&sig);
                let msg = signing_bytes(doc, proof);
                ed25519_verify(&pk, msg.as_str(), &arr)
            } else {
                false
            },
            None => false,
        },
        None => false,
    };
    assert(signature_ok == signature_spec(d, key));
    if !signature_ok {
        push_line(&mut details, owned("signature does not verify over canonical bytes"));
    }

    let ghost l3 = l2 + line_if(!signature_ok, "signature does not verify over canonical bytes"@);
    assert(texts(details@) =~= l3);
    // Gate 4a: temporal window.
    let temporal_ok: Option<bool> = if vc {
        let vf = valid_from(doc);
        let vu = valid_until(doc);
        if vf.is_none() && vu.is_none() {
            None
        } else {
            let a = from_ok(vf, ctx.now);
            let b = until_ok(vu, ctx.now);
            Some(a && b)
        }
    } else {
        None
    };
    assert(temporal_ok == temporal_spec(d, ctx.now as int));
    if temporal_ok == Some(false) {
        push_line(&mut details, owned("validity window does not contain the current time"));
    }

    let ghost l4 = l3 + line_if(temporal_ok == Some(false), "validity window does not contain the current time"@);
    assert(texts(details@) =~= l4);
    // Gate 4b: revocation / supersession.
    let doc_id = doc.get_str("id");
    let sup = superseded_by(doc);
    let revocation_ok: Option<bool> = if doc_id.is_some() || sup.is_some() {
        let by_id = match doc_id {
            Some(id) => ctx.registry.is_revoked(id.as_str()),
            None => false,
        };
        let revoked = by_id || sup.is_some();
        if revoked {
            push_line(&mut details, owned("credential is revoked or superseded"));
        }
        Some(!revoked)
    } else {
        None
    };
    assert(revocation_ok == revocation_spec(d, ctx.registry@.1));
    let verified = shape_ok && signature_ok && issuer_trusted && match temporal_ok {
        Some(b) => b,
        None => true,
    } && match revocation_ok {
        Some(b) => b,
        None => true,
    };
    let issuer_out = if issuer.as_str().unicode_len() > 0 {
        Some(issuer)
    } else {
        None
    };
    assert(texts(details@) =~= l4 + line_if(revocation_ok == Some(false), "credential is revoked or superseded"@));
    let r = Verdict {
        verified,
        shape_ok,
        signature_ok,
        issuer_trusted,
        temporal_ok,
        revocation_ok,
        issuer: issuer_out,
        details,
    };
    r
}

/// A document signed by an identity passes the shape, issuer-trust and
/// signature gates of a verifier that has that identity as its own, and
/// of one without an own identity whose registry lists the identity's
/// DID with its Multikey; it is then verified exactly when its temporal
/// and revocation gates do not fail. A document without a proof object
/// is never verified.
pub proof fn lemma_signed_document_passes(
    doc: JsonValue,
    signer: &SigningIdentity,
    issuers: Map<Seq<char>, Seq<char>>,
    revoked: Set<Seq<char>>,
    now: int,
)
    requires
        signer.wf(),
        signed_by(doc, signer),
    ensures
        ({
            let v = verdict_spec(doc, issuers, revoked, Some((signer.did@, signer.public_key@)), now);
            &&& v.shape_ok && v.signature_ok && v.issuer_trusted
            &&& v.verified == (or_true(temporal_spec(doc, now)) && or_true(revocation_spec(doc, revoked)))
        }),
        issuers.contains_key(signer.did@) && issuers[signer.did@] == signer.public_key_multibase@ ==> ({
            let v = verdict_spec(doc, issuers, revoked, None, now);
            &&& v.shape_ok && v.signature_ok && v.issuer_trusted
            &&& v.verified == (or_true(temporal_spec(doc, now)) && or_true(revocation_spec(doc, revoked)))
        }),
{
    if issuers.contains_key(signer.did@) && issuers[signer.did@] == signer.public_key_multibase@ {
        lemma_multikey_roundtrip(signer.public_key@);
        assert(key_for(issuers, None, signer.did@) == Some(signer.public_key@));
    }
}

/// No verifier verifies a document that carries no proof object.
pub proof fn lemma_unsigned_never_verified(
    doc: JsonValue,
    issuers: Map<Seq<char>, Seq<char>>,
    revoked: Set<Seq<char>>,
    self_id: Option<(Seq<char>, Seq<u8>)>,
    now: int,
)
    requires
        !(proof_of(doc) is Object),
    ensures
        !verdict_spec(doc, issuers, revoked, self_id, now).shape_ok,
        !verdict_spec(doc, issuers, revoked, self_id, now).verified,
{
}

/// A verified document passed every gate.
pub proof fn lemma_verified_passed_all_gates(
    doc: JsonValue,
    issuers: Map<Seq<char>, Seq<char>>,
    revoked: Set<Seq<char>>,
    self_id: Option<(Seq<char>, Seq<u8>)>,
    now: int,
)
    ensures
        ({
            let v = verdict_spec(doc, issuers, revoked, self_id, now);
            v.verified ==> v.shape_ok && v.signature_ok && v.issuer_trusted && v.temporal_ok != Some(false)
                && v.revocation_ok != Some(false)
        }),
{
}

/// The verdict's gates: a document is verified exactly when it passed the
/// shape, signature and issuer-trust gates and failed neither the
/// temporal nor the revocation gate; the shape gate passes exactly on a
/// well-formed DataIntegrityProof; a document that fails it gets neither
/// a signature nor a trusted issuer.
pub proof fn lemma_verdict_gates(
    doc: JsonValue,
    issuers: Map<Seq<char>, Seq<char>>,
    revoked: Set<Seq<char>>,
    self_id: Option<(Seq<char>, Seq<u8>)>,
    now: int,
)
    ensures
        ({
            let v = verdict_spec(doc, issuers, revoked, self_id, now);
            &&& v.verified == (v.shape_ok && v.signature_ok && v.issuer_trusted && v.temporal_ok != Some(false)
                && v.revocation_ok != Some(false))
            &&& v.shape_ok == shape_spec(doc)
            &&& !v.shape_ok ==> !v.signature_ok && !v.issuer_trusted
        }),
{
}

/// An issuer that is neither the verifier's own identity nor in its
/// registry is not trusted, and its documents are not verified, however
/// valid their signature.
pub proof fn lemma_unknown_issuer_rejected(
    doc: JsonValue,
    issuers: Map<Seq<char>, Seq<char>>,
    revoked: Set<Seq<char>>,
    self_id: Option<(Seq<char>, Seq<u8>)>,
    now: int,
)
    requires
        !issuers.contains_key(doc_did(doc)),
        self_id matches Some(pair) ==> pair.0 != doc_did(doc),
    ensures
        !verdict_spec(doc, issuers, revoked, self_id, now).issuer_trusted,
        !verdict_spec(doc, issuers, revoked, self_id, now).verified,
{
    assert(key_for(issuers, self_id, doc_did(doc)) is None);
}

/// The validity window of a credential with a well-formed proof: it is in
/// force from its validFrom (else issuanceDate) instant on, and before its
/// validUntil (else expirationDate) instant, both read as RFC 3339 against
/// the verifier's clock; a bound that does not parse is not met. A
/// credential outside its window (one not yet valid among them) fails the
/// temporal gate, is not verified, and the verdict says why.
pub proof fn lemma_validity_window(
    doc: JsonValue,
    issuers: Map<Seq<char>, Seq<char>>,
    revoked: Set<Seq<char>>,
    self_id: Option<(Seq<char>, Seq<u8>)>,
    now: int,
)
    requires
        is_vc_spec(doc),
        shape_spec(doc),
        valid_from_spec(doc) is Some || valid_until_spec(doc) is Some,
    ensures
        ({
            let v = verdict_spec(doc, issuers, revoked, self_id, now);
            let started = match valid_from_spec(doc) {
                Some(t) => (parse_rfc3339_spec(t) matches Some(x) && x <= now),
                None => true,
            };
            let not_ended = match valid_until_spec(doc) {
                Some(t) => (parse_rfc3339_spec(t) matches Some(x) && now < x),
                None => true,
            };
            &&& v.temporal_ok == Some(started && not_ended)
            &&& !(started && not_ended) ==> !v.verified && v.details.contains(
                "validity window does not contain the current time"@,
            )
        }),
{
    let v = verdict_spec(doc, issuers, revoked, self_id, now);
    let did = doc_did(doc);
    let key = key_for(issuers, self_id, did);
    let trusted = key is Some;
    let sig = signature_spec(doc, key);
    let temporal = temporal_spec(doc, now);
    if temporal == Some(false) {
        let pre = line_if(!trusted, untrusted_line(did)) + line_if(
            is_vc_spec(doc) && get_str_spec(doc, "issuer"@) != Some(did),
            "issuer field disagrees with proof verificationMethod"@,
        ) + line_if(!sig, "signature does not verify over canonical bytes"@);
        assert(v.details[pre.len() as int] == "validity window does not contain the current time"@);
    }
}

/// The revocation gate: a well-formed signed document whose string "id"
/// is revoked, or whose credential subject names a successor in
/// "supersededBy", fails it and is not verified; a document with neither
/// a string "id" nor a successor skips it.
pub proof fn lemma_revoked_or_superseded_fails(
    doc: JsonValue,
    issuers: Map<Seq<char>, Seq<char>>,
    revoked: Set<Seq<char>>,
    self_id: Option<(Seq<char>, Seq<u8>)>,
    now: int,
)
    ensures
        ({
            let v = verdict_spec(doc, issuers, revoked, self_id, now);
            let id = get_str_spec(doc, "id"@);
            &&& proof_of(doc) is Object && shape_spec(doc) && ((id is Some && revoked.contains(id->0))
                || superseded_spec(doc) is Some) ==> v.revocation_ok == Some(false) && !v.verified
            &&& id is None && superseded_spec(doc) is None ==> v.revocation_ok is None
        }),
{
}

fn shape_holds(doc: &Json) -> (r: bool)
    ensures
        r == shape_spec(doc@),
{
    let proof = match doc.get("proof") {
        Some(p) => p,
        None => {
            return false;
        },
    };
    if !proof.is_object() {
        return false;
    }
    let proof_value = field_text(proof, "proofValue");
    let vm = field_text(proof, "verificationMethod");
    let cryptosuite = field_text(proof, "cryptosuite");
    let purpose = field_text(proof, "proofPurpose");
    proof_value.as_str().unicode_len() > 0 && vm.as_str().unicode_len() > 0 && str_eq(cryptosuite.as_str(), CRYPTOSUITE)
        && str_eq(purpose.as_str(), "assertionMethod")
}

fn bound_parsable(t: Option<&String>) -> (r: bool)
    ensures
        r == (opt_ref_text(t) matches Some(s) ==> crate::dates::rfc3339_parsable(s)),
{
    match t {
        Some(s) => crate::dates::rfc3339_parsable_check(s.as_str()),
        None => true,
    }
}

/// Verifies `doc` unless one of its validity bounds would overflow the
/// timestamp parser's arithmetic, which gives None.
pub fn verify_document_checked(doc: &Json, ctx: &TrustContext) -> (r: Option<Verdict>)
    requires
        ctx.registry.wf(),
        ctx.self_identity matches Some(s) ==> s.wf(),
    ensures
        r is Some <==> (shape_spec(doc@) && is_vc_spec(doc@) ==> dates_parsable(doc@)),
        r matches Some(v) ==> v@ == verdict_spec(
            doc@,
            ctx.registry@.0,
            ctx.registry@.1,
            self_model(ctx.self_identity),
            ctx.now as int,
        ),
{
    if shape_holds(doc) && is_vc(doc) {
        let a = bound_parsable(valid_from(doc));
        let b = bound_parsable(valid_until(doc));
        if !(a && b) {
            return None;
        }
    }
    Some(verify_document(doc, ctx))
}

/// A credential signed by the verifier's own identity, whose validity
/// window (bounds rendered by `rfc3339`, from year 0 on) contains the
/// verifier's clock, and which is neither revoked nor superseded, is
/// verified.
#[verifier::rlimit(40)]
pub proof fn lemma_valid_credential_verifies(
    doc: JsonValue,
    signer: &SigningIdentity,
    issuers: Map<Seq<char>, Seq<char>>,
    revoked: Set<Seq<char>>,
    from: int,
    until: Option<int>,
    now: int,
)
    requires
        signer.wf(),
        signed_by(doc, signer),
        is_vc_spec(doc),
        valid_from_spec(doc) == Some(rfc3339_spec(from)),
        valid_until_spec(doc) == match until {
            Some(u) => Some(rfc3339_spec(u)),
            None => None::<Seq<char>>,
        },
        -62167219200 <= from <= now <= 9223372036854775807,
        until matches Some(u) ==> now < u <= 9223372036854775807,
        get_str_spec(doc, "id"@) matches Some(id) ==> !revoked.contains(id),
        superseded_spec(doc) is None,
    ensures
        dates_parsable(doc),
        verdict_spec(doc, issuers, revoked, Some((signer.did@, signer.public_key@)), now).verified,
        verdict_spec(doc, issuers, revoked, Some((signer.did@, signer.public_key@)), now).temporal_ok == Some(
            true,
        ),
{
    crate::dates::lemma_rfc3339_roundtrip(from);
    if until is Some {
        crate::dates::lemma_rfc3339_roundtrip(until->0);
    }
    assert(from_ok_spec(valid_from_spec(doc), now));
    assert(until_ok_spec(valid_until_spec(doc), now));
    assert(temporal_spec(doc, now) == Some(true));
    assert(or_true(revocation_spec(doc, revoked)));
    lemma_signed_document_passes(doc, signer, issuers, revoked, now);
}

/// The members of an unsigned credential read back as given.
proof fn lemma_credential_members(
    did: Seq<char>,
    subject: JsonValue,
    until: Option<Seq<char>>,
    id: Option<Seq<char>>,
    vf: Seq<char>,
)
    ensures
        ({
            let vc = credential_spec(did, subject, until, None, id, vf);
            &&& vc is Object
            &&& get_spec(vc, "type"@) == Some(JsonValue::Array(seq![JsonValue::Str("VerifiableCredential"@)]))
            &&& get_spec(vc, "validFrom"@) == Some(JsonValue::Str(vf))
            &&& get_spec(vc, "credentialSubject"@) == Some(subject)
            &&& get_str_spec(vc, "validUntil"@) == until
            &&& (until is None ==> get_spec(vc, "validUntil"@) is None && get_spec(vc, "expirationDate"@) is None)
            &&& get_str_spec(vc, "id"@) == id
        }),
{
    reveal_strlit("@context");
    reveal_strlit("type");
    reveal_strlit("issuer");
    reveal_strlit("validFrom");
    reveal_strlit("credentialSubject");
    reveal_strlit("validUntil");
    reveal_strlit("expirationDate");
    reveal_strlit("id");
    let base = JsonValue::Object(
        seq![
            ("@context"@, JsonValue::Array(seq![JsonValue::Str(CONTEXT_CREDENTIALS@)])),
            ("type"@, JsonValue::Array(seq![JsonValue::Str("VerifiableCredential"@)])),
            ("issuer"@, JsonValue::Str(did)),
            ("validFrom"@, JsonValue::Str(vf)),
            ("credentialSubject"@, subject),
        ],
    );
    let es = base->Object_0;
    assert(es[0].0.len() == 8 && es[1].0.len() == 4 && es[2].0.len() == 6 && es[3].0.len() == 9 && es[4].0.len() == 17);
    assert("validUntil"@.len() == 10 && "expirationDate"@.len() == 14 && "id"@.len() == 2);
    lemma_member_index_at(es, "type"@, 1);
    lemma_member_index_at(es, "validFrom"@, 3);
    lemma_member_index_at(es, "credentialSubject"@, 4);
    lemma_member_index(es, "validUntil"@);
    lemma_member_index(es, "expirationDate"@);
    lemma_member_index(es, "id"@);
    assert(get_spec(base, "validUntil"@) is None);
    assert(get_spec(base, "expirationDate"@) is None);
    assert(get_spec(base, "id"@) is None);
    let with_id = match id {
        Some(i) => with_member(base, "id"@, JsonValue::Str(i)),
        None => base,
    };
    if id is Some {
        lemma_get_with_same(base, "id"@, JsonValue::Str(id->0));
        lemma_get_with_other(base, "id"@, JsonValue::Str(id->0), "type"@);
        lemma_get_with_other(base, "id"@, JsonValue::Str(id->0), "validFrom"@);
        lemma_get_with_other(base, "id"@, JsonValue::Str(id->0), "credentialSubject"@);
        lemma_get_with_other(base, "id"@, JsonValue::Str(id->0), "validUntil"@);
        lemma_get_with_other(base, "id"@, JsonValue::Str(id->0), "expirationDate"@);
    }
    assert(with_id is Object);
    if until is Some {
        let x = JsonValue::Str(until->0);
        lemma_get_with_same(with_id, "validUntil"@, x);
        lemma_get_with_other(with_id, "validUntil"@, x, "type"@);
        lemma_get_with_other(with_id, "validUntil"@, x, "validFrom"@);
        lemma_get_with_other(with_id, "validUntil"@, x, "credentialSubject"@);
        lemma_get_with_other(with_id, "validUntil"@, x, "id"@);
    }
}

/// The verification-relevant fields of a signed credential.
proof fn lemma_signed_credential_fields(
    did: Seq<char>,
    subject: JsonValue,
    until: Option<Seq<char>>,
    id: Option<Seq<char>>,
    vf: Seq<char>,
    seed: Seq<u8>,
    created: Seq<char>,
)
    requires
        match get_str_spec(subject, "supersededBy"@) {
            Some(t) => t.len() == 0,
            None => true,
        },
    ensures
        ({
            let doc = signed_spec(credential_spec(did, subject, until, None, id, vf), did, seed, created);
            &&& is_vc_spec(doc)
            &&& valid_from_spec(doc) == Some(vf)
            &&& valid_until_spec(doc) == until
            &&& get_str_spec(doc, "id"@) == id
            &&& superseded_spec(doc) is None
        }),
{
    let vc = credential_spec(did, subject, until, None, id, vf);
    let p = proof_spec(vc, did, seed, created);
    let doc = signed_spec(vc, did, seed, created);
    lemma_credential_members(did, subject, until, id, vf);
    reveal_strlit("proof");
    reveal_strlit("type");
    reveal_strlit("validFrom");
    reveal_strlit("validUntil");
    reveal_strlit("expirationDate");
    reveal_strlit("credentialSubject");
    reveal_strlit("id");
    assert("proof"@.len() == 5 && "type"@.len() == 4 && "validFrom"@.len() == 9 && "validUntil"@.len() == 10);
    assert("expirationDate"@.len() == 14 && "credentialSubject"@.len() == 17 && "id"@.len() == 2);
    lemma_get_with_other(vc, "proof"@, p, "type"@);
    lemma_get_with_other(vc, "proof"@, p, "validFrom"@);
    lemma_get_with_other(vc, "proof"@, p, "validUntil"@);
    lemma_get_with_other(vc, "proof"@, p, "expirationDate"@);
    lemma_get_with_other(vc, "proof"@, p, "credentialSubject"@);
    lemma_get_with_other(vc, "proof"@, p, "id"@);
    let ty = seq![JsonValue::Str("VerifiableCredential"@)];
    assert(ty[0] == JsonValue::Str("VerifiableCredential"@));
    assert(is_vc_spec(doc));
}

/// A credential issued by the verifier's own identity (`issue_credential`),
/// valid from `from` and, when given, until `until`, whose window contains
/// the verifier's clock, which is not revoked and whose subject names no
/// successor, is verified.
pub proof fn lemma_issued_credential_verifies(
    signer: &SigningIdentity,
    subject: JsonValue,
    until: Option<int>,
    id: Option<Seq<char>>,
    from: int,
    created: Seq<char>,
    issuers: Map<Seq<char>, Seq<char>>,
    revoked: Set<Seq<char>>,
    now: int,
)
    requires
        signer.wf(),
        signed_by(
            signed_spec(
                credential_spec(
                    signer.did@,
                    subject,
                    match until {
                        Some(u) => Some(rfc3339_spec(u)),
                        None => None::<Seq<char>>,
                    },
                    None,
                    id,
                    rfc3339_spec(from),
                ),
                signer.did@,
                signer.key@,
                created,
            ),
            signer,
        ),
        -62167219200 <= from <= now <= 9223372036854775807,
        until matches Some(u) ==> now < u <= 9223372036854775807,
        id matches Some(i) ==> !revoked.contains(i),
        match get_str_spec(subject, "supersededBy"@) {
            Some(t) => t.len() == 0,
            None => true,
        },
    ensures
        verdict_spec(
            signed_spec(
                credential_spec(
                    signer.did@,
                    subject,
                    match until {
                        Some(u) => Some(rfc3339_spec(u)),
                        None => None::<Seq<char>>,
                    },
                    None,
                    id,
                    rfc3339_spec(from),
                ),
                signer.did@,
                signer.key@,
                created,
            ),
            issuers,
            revoked,
            Some((signer.did@, signer.public_key@)),
            now,
        ).verified,
{
    let u_text = match until {
        Some(u) => Some(rfc3339_spec(u)),
        None => None::<Seq<char>>,
    };
    let vc = credential_spec(signer.did@, subject, u_text, None, id, rfc3339_spec(from));
    let doc = signed_spec(vc, signer.did@, signer.key@, created);
    lemma_signed_credential_fields(signer.did@, subject, u_text, id, rfc3339_spec(from), signer.key@, created);
    lemma_valid_credential_verifies(doc, signer, issuers, revoked, from, until, now);
}

pub open spec fn opt_bool_json(o: Option<bool>) -> JsonValue {
    match o {
        Some(b) => JsonValue::Bool(b),
        None => JsonValue::Null,
    }
}

/// The JSON report of a verdict.
pub open spec fn verdict_json(v: VerdictModel) -> JsonValue {
    JsonValue::Object(
        seq![
            ("verified"@, JsonValue::Bool(v.verified)),
            ("gates"@, JsonValue::Object(
                seq![
                    ("shape"@, JsonValue::Bool(v.shape_ok)),
                    ("signature"@, JsonValue::Bool(v.signature_ok)),
                    ("issuerTrusted"@, JsonValue::Bool(v.issuer_trusted)),
                    ("temporal"@, opt_bool_json(v.temporal_ok)),
                    ("revocation"@, opt_bool_json(v.revocation_ok)),
                ],
            )),
            ("issuer"@, match v.issuer {
                Some(s) => JsonValue::Str(s),
                None => JsonValue::Null,
            }),
            ("details"@, JsonValue::Array(v.details.map_values(|d: Seq<char>| JsonValue::Str(d)))),
        ],
    )
}

fn opt_bool_to_json(o: Option<bool>) -> (r: Json)
    ensures
        r@ == opt_bool_json(o),
{
    match o {
        Some(b) => Json::Bool(b),
        None => Json::Null,
    }
}

impl Verdict {
    pub fn to_json(&self) -> (r: Json)
        ensures
            r@ == verdict_json(self@),
    {
        let mut gates: Vec<(String, Json)> = Vec::new();
        gates.push((owned("shape"), Json::Bool(self.shape_ok)));
        gates.push((owned("signature"), Json::Bool(self.signature_ok)));
        gates.push((owned("issuerTrusted"), Json::Bool(self.issuer_trusted)));
        gates.push((owned("temporal"), opt_bool_to_json(self.temporal_ok)));
        gates.push((owned("revocation"), opt_bool_to_json(self.revocation_ok)));
        proof {
            lemma_object_view(gates);
        }
        let gates_json = Json::Object(gates);
        let ghost gv = self@;
        assert(gates_json@->Object_0 =~= verdict_json(gv)->Object_0[1].1->Object_0);
        let issuer = match &self.issuer {
            Some(s) => Json::string(s.as_str()),
            None => Json::Null,
        };
        let mut details: Vec<Json> = Vec::new();
        let mut i: usize = 0;
        while i < self.details.len()
            invariant
                i <= self.details@.len(),
                details@.len() == i,
                forall|k: int| 0 <= k < i ==> #[trigger] json_view(details@[k]) == JsonValue::Str(self.details@[k]@),
            decreases self.details@.len() - i,
        {
            details.push(Json::string(self.details[i].as_str()));
            i = i + 1;
        }
        proof {
            lemma_array_view(details);
        }
        let details_json = Json::Array(details);
        assert(details_json@->Array_0 =~= verdict_json(gv)->Object_0[3].1->Array_0);
        let mut es: Vec<(String, Json)> = Vec::new();
        es.push((owned("verified"), Json::Bool(self.verified)));
        es.push((owned("gates"), gates_json));
        es.push((owned("issuer"), issuer));
        es.push((owned("details"), details_json));
        proof {
            lemma_object_view(es);
        }
        let r = Json::Object(es);
        assert(r@->Object_0 =~= verdict_json(gv)->Object_0);
        r
    }
}

// ---------------------------------------------------------------------------
// configured identity
// ---------------------------------------------------------------------------

/// A URL's host and explicit (non-default) port, when it parses.
pub uninterp spec fn url_host_port(url: Seq<char>) -> Option<(Option<Seq<char>>, Option<u16>)>;

/// `reqwest::Url::parse(url)`, then `host_str()` and `port()` (the port
/// only when it is not the scheme's default).
#[verifier::external_body]
fn parse_host_port(url: &str) -> (r: Option<(Option<String>, Option<u16>)>)
    ensures
        match r {
            Some((h, p)) => url_host_port(url@) == Some(
                (
                    match h {
                        Some(x) => Some(x@),
                        None => None,
                    },
                    p,
                ),
            ),
            None => url_host_port(url@) is None,
        },
{
    let u = reqwest::Url::parse(url).ok()?;
    Some((u.host_str().map(|h| h.to_string()), u.port()))
}

/// The did:web identity of a public base URL: its host ("localhost" when
/// it has none) and, for a non-default port, "%3A" and the port.
pub open spec fn did_web_spec(public_url: Seq<char>) -> Seq<char> {
    let (host, port) = match url_host_port(public_url) {
        Some((h, p)) => (
            match h {
                Some(x) => x,
                None => "localhost"@,
            },
            p,
        ),
        None => ("localhost"@, None),
    };
    "did:web:"@ + host + match port {
        Some(p) => "%3A"@ + crate::text::dec(p as nat),
        None => Seq::empty(),
    }
}

pub fn did_web(public_url: &str) -> (r: String)
    ensures
        r@ == did_web_spec(public_url@),
{
    let (host, port) = match parse_host_port(public_url) {
        Some((h, p)) => (
            match h {
                Some(x) => x,
                None => owned("localhost"),
            },
            p,
        ),
        None => (owned("localhost"), None),
    };
    let mut r = owned("did:web:");
    push_all(&mut r, host.as_str());
    match port {
        Some(p) => {
            push_all(&mut r, "%3A");
            let d = crate::text::u64_dec(p as u64);
            push_all(&mut r, d.as_str());
        },
        None => {},
    }
    r
}

impl SigningIdentity {
    /// The identity configured by a 64-hex-character key (signing is off
    /// without one, or when it does not parse) and an optional DID, which
    /// otherwise derives did:web style from the public base URL.
    pub fn from_config(key_hex: Option<&str>, did_override: Option<&str>, public_url: &str) -> (r: Option<Self>)
        ensures
            match key_hex {
                Some(h) => match crate::text::key_hex_spec(h@) {
                    Some(seed) => r matches Some(id) && id.wf() && id.key@ == seed && id.did@ == match did_override {
                        Some(d) => if d@.len() > 0 {
                            d@
                        } else {
                            did_web_spec(public_url@)
                        },
                        None => did_web_spec(public_url@),
                    },
                    None => r is None,
                },
                None => r is None,
            },
    {
        let h = match key_hex {
            Some(h) => h,
            None => {
                return None;
            },
        };
        let seed = match crate::text::parse_key_hex(h) {
            Some(s) => s,
            None => {
                return None;
            },
        };
        let did = match did_override {
            Some(d) => if d.unicode_len() > 0 {
                owned(d)
            } else {
                did_web(public_url)
            },
            None => did_web(public_url),
        };
        Some(SigningIdentity::from_seed(did, seed))
    }
}

} // verus!
