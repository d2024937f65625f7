//! Local trust registry: which issuer DIDs this deployment trusts (with
//! their Multikey public keys) and which credential ids are revoked.
//!
//! Sources, merged in this order (later entries win on conflict):
//! inline `did=zMk...` pairs, a registry document
//! `{"issuers": {did: multibase}, "revoked": [credential ids]}`, and
//! inline revoked ids. Malformed entries are skipped.
use vstd::prelude::*;

use crate::base58::{multikey_decode, multikey_decode_spec};
use crate::json::{get_spec, json_view, lemma_array_view, lemma_object_view, str_eq, Json, JsonValue};
use crate::text::{owned, split_all, split_by, split_once, split_once_spec, trim, trimmed};

verus! {

pub open spec fn entry_view(e: (String, String)) -> (Seq<char>, Seq<char>) {
    (e.0@, e.1@)
}

/// The map that a list of (key, value) entries describes.
pub open spec fn entries_map(es: Seq<(Seq<char>, Seq<char>)>) -> Map<Seq<char>, Seq<char>>
    decreases es.len(),
{
    if es.len() == 0 {
        Map::empty()
    } else {
        entries_map(es.drop_last()).insert(es.last().0, es.last().1)
    }
}

pub open spec fn keys_distinct(es: Seq<(Seq<char>, Seq<char>)>) -> bool {
    forall|i: int, j: int| 0 <= i < j < es.len() ==> es[i].0 != es[j].0
}

pub proof fn lemma_entries_map(es: Seq<(Seq<char>, Seq<char>)>)
    requires
        keys_distinct(es),
    ensures
        forall|i: int| 0 <= i < es.len() ==> #[trigger] entries_map(es).contains_key(es[i].0)
            && entries_map(es)[es[i].0] == es[i].1,
        forall|k: Seq<char>| #[trigger]
            entries_map(es).contains_key(k) ==> exists|i: int| 0 <= i < es.len() && es[i].0 == k,
        entries_map(es).dom().finite(),
        entries_map(es).dom().len() == es.len(),
    decreases es.len(),
{
    if es.len() > 0 {
        let d = es.drop_last();
        assert(keys_distinct(d));
        lemma_entries_map(d);
        assert(!entries_map(d).contains_key(es.last().0)) by {
            if entries_map(d).contains_key(es.last().0) {
                let i = choose|i: int| 0 <= i < d.len() && d[i].0 == es.last().0;
                assert(es[i].0 == es[es.len() - 1].0);
            }
        }
        assert forall|k: Seq<char>| #[trigger]
            entries_map(es).contains_key(k) implies exists|i: int| 0 <= i < es.len() && es[i].0
            == k by {
            if k != es.last().0 {
                let i = choose|i: int| 0 <= i < d.len() && d[i].0 == k;
                assert(es[i] == d[i]);
            } else {
                assert(es[es.len() - 1].0 == k);
            }
        }
        assert forall|i: int| 0 <= i < es.len() implies #[trigger] entries_map(es).contains_key(
            es[i].0,
        ) && entries_map(es)[es[i].0] == es[i].1 by {
            if i < es.len() - 1 {
                assert(es[i] == d[i]);
            }
        }
    }
}

pub proof fn lemma_entries_update(es: Seq<(Seq<char>, Seq<char>)>, i: int, v: Seq<char>)
    requires
        keys_distinct(es),
        0 <= i < es.len(),
    ensures
        entries_map(es.update(i, (es[i].0, v))) == entries_map(es).insert(es[i].0, v),
        keys_distinct(es.update(i, (es[i].0, v))),
    decreases es.len(),
{
    let u = es.update(i, (es[i].0, v));
    if i == es.len() - 1 {
        assert(u.drop_last() =~= es.drop_last());
        lemma_entries_map(es.drop_last());
        assert(entries_map(es.drop_last()).insert(es[i].0, v) =~= entries_map(es).insert(es[i].0, v));
    } else {
        let d = es.drop_last();
        assert(keys_distinct(d));
        lemma_entries_update(d, i, v);
        assert(u.drop_last() =~= d.update(i, (d[i].0, v)));
        assert(es[i].0 != es.last().0);
        assert(entries_map(u) =~= entries_map(es).insert(es[i].0, v));
    }
}

/// The trusted issuers (DID -> Multikey) and the revoked credential ids.
pub struct TrustedIssuers {
    issuers: Vec<(String, String)>,
    revoked: Vec<String>,
}

impl View for TrustedIssuers {
    type V = (Map<Seq<char>, Seq<char>>, Set<Seq<char>>);

    closed spec fn view(&self) -> (Map<Seq<char>, Seq<char>>, Set<Seq<char>>) {
        (
            entries_map(self.issuers@.map_values(|e: (String, String)| entry_view(e))),
            self.revoked@.map_values(|s: String| s@).to_set(),
        )
    }
}

impl Default for TrustedIssuers {
    fn default() -> (r: Self)
        ensures
            r.wf(),
            r@.0 == Map::<Seq<char>, Seq<char>>::empty(),
            r@.1 == Set::<Seq<char>>::empty(),
    {
        TrustedIssuers::new()
    }
}

impl TrustedIssuers {
    spec fn es(&self) -> Seq<(Seq<char>, Seq<char>)> {
        self.issuers@.map_values(|e: (String, String)| entry_view(e))
    }

    spec fn rs(&self) -> Seq<Seq<char>> {
        self.revoked@.map_values(|s: String| s@)
    }

    /// Internal consistency: one entry per DID, one per revoked id.
    pub closed spec fn wf(&self) -> bool {
        &&& keys_distinct(self.es())
        &&& self.rs().no_duplicates()
    }

    /// A well-formed registry trusts finitely many issuers and has revoked
    /// finitely many credential ids.
    pub proof fn lemma_finite(&self)
        requires
            self.wf(),
        ensures
            self@.0.dom().finite(),
            self@.1.finite(),
    {
        lemma_entries_map(self.es());
        self.rs().unique_seq_to_set();
    }

    /// Empty registry (self-identity, when configured, is still trusted).
    pub fn new() -> (r: Self)
        ensures
            r.wf(),
            r@.0 == Map::<Seq<char>, Seq<char>>::empty(),
            r@.1 == Set::<Seq<char>>::empty(),
    {
        let r = TrustedIssuers { issuers: Vec::new(), revoked: Vec::new() };
        assert(r.es() =~= Seq::<(Seq<char>, Seq<char>)>::empty());
        assert(r.rs() =~= Seq::<Seq<char>>::empty());
        assert(r@.1 =~= Set::<Seq<char>>::empty());
        r
    }

    /// Trusts `did` with `public_key_multibase`, replacing any earlier key
    /// for it; refuses (leaving the registry unchanged) a string that is
    /// not an Ed25519 Multikey.
    pub fn insert(&mut self, did: String, public_key_multibase: String) -> (r: Result<(), String>)
        requires
            old(self).wf(),
        ensures
            final(self).wf(),
            r is Ok <==> multikey_decode_spec(public_key_multibase@) is Some,
            r is Ok ==> final(self)@ == (old(self)@.0.insert(did@, public_key_multibase@), old(self)@.1),
            r is Err ==> final(self)@ == old(self)@,
            r matches Err(m) ==> m@ == "not a valid Ed25519 Multikey (expected z-base58btc, 34 bytes): "@
                + public_key_multibase@,
    {
        let decoded = multikey_decode(public_key_multibase.as_str());
        if decoded.is_none() {
            let mut msg = owned(
                "not a valid Ed25519 Multikey (expected z-base58btc, 34 bytes): ",
            );
            msg.append(public_key_multibase.as_str());
            assert(self.issuers@ == old(self).issuers@);
            return Err(msg);
        }
        let ghost es0 = self.es();
        proof {
            lemma_entries_map(es0);
        }
        let mut i: usize = 0;
        while i < self.issuers.len()
            invariant
                i <= self.issuers@.len(),
                es0 == self.es(),
                self.wf(),
                self.issuers@ == old(self).issuers@,
                self.revoked@ == old(self).revoked@,
                multikey_decode_spec(public_key_multibase@) is Some,
                forall|j: int| 0 <= j < i ==> es0[j].0 != did@,
            decreases self.issuers@.len() - i,
        {
            if str_eq(self.issuers[i].0.as_str(), did.as_str()) {
                let ghost k = es0[i as int].0;
                self.issuers.set(i, (did, public_key_multibase));
                proof {
                    lemma_entries_update(es0, i as int, public_key_multibase@);
                    assert(self.es() =~= es0.update(i as int, (k, public_key_multibase@)));
                }
                return Ok(());
            }
            i = i + 1;
        }
        let ghost dv = did@;
        let ghost pv = public_key_multibase@;
        self.issuers.push((did, public_key_multibase));
        proof {
            assert(self.es() =~= es0.push((dv, pv)));
            assert(self.es().drop_last() =~= es0);
        }
        Ok(())
    }

    /// Marks a credential id revoked.
    pub fn revoke(&mut self, credential_id: &str)
        requires
            old(self).wf(),
        ensures
            final(self).wf(),
            final(self)@ == (old(self)@.0, old(self)@.1.insert(credential_id@)),
            final(self)@.1.finite(),
            final(self)@.1.len() == old(self)@.1.len() + if old(self)@.1.contains(credential_id@) {
                0nat
            } else {
                1nat
            },
    {
        proof {
            self.lemma_finite();
        }
        let ghost rs0 = self.rs();
        let mut i: usize = 0;
        while i < self.revoked.len()
            invariant
                i <= self.revoked@.len(),
                rs0 == self.rs(),
                self.wf(),
                self.issuers@ == old(self).issuers@,
                self.revoked@ == old(self).revoked@,
                forall|j: int| 0 <= j < i ==> rs0[j] != credential_id@,
            decreases self.revoked@.len() - i,
        {
            if str_eq(self.revoked[i].as_str(), credential_id) {
                proof {
                    assert(rs0.to_set().contains(credential_id@)) by {
                        assert(rs0[i as int] == credential_id@);
                    }
                    assert(self@.1.insert(credential_id@) =~= self@.1);
                }
                return ;
            }
            i = i + 1;
        }
        self.revoked.push(owned(credential_id));
        proof {
            assert(self.rs() =~= rs0.push(credential_id@));
            rs0.lemma_push_to_set_commute(credential_id@);
            assert(self.rs().to_set() =~= rs0.to_set().insert(credential_id@));
        }
    }

    /// The trusted key for `did`, if any.
    pub fn public_key_for(&self, did: &str) -> (r: Option<&str>)
        requires
            self.wf(),
        ensures
            match r {
                Some(k) => self@.0.contains_key(did@) && self@.0[did@] == k@,
                None => !self@.0.contains_key(did@),
            },
    {
        let ghost es = self.es();
        proof {
            lemma_entries_map(es);
        }
        let mut i: usize = 0;
        while i < self.issuers.len()
            invariant
                i <= self.issuers@.len(),
                es == self.es(),
                keys_distinct(es),
                forall|j: int| 0 <= j < i ==> es[j].0 != did@,
            decreases self.issuers@.len() - i,
        {
            if str_eq(self.issuers[i].0.as_str(), did) {
                assert(es[i as int] == entry_view(self.issuers@[i as int]));
                proof {
                    lemma_entries_map(es);
                }
                assert(entries_map(es).contains_key(es[i as int].0));
                return Some(self.issuers[i].1.as_str());
            }
            i = i + 1;
        }
        None
    }

    /// Is `credential_id` revoked?
    pub fn is_revoked(&self, credential_id: &str) -> (r: bool)
        ensures
            r == self@.1.contains(credential_id@),
    {
        let ghost rs = self.rs();
        let mut i: usize = 0;
        while i < self.revoked.len()
            invariant
                i <= self.revoked@.len(),
                rs == self.rs(),
                forall|j: int| 0 <= j < i ==> rs[j] != credential_id@,
            decreases self.revoked@.len() - i,
        {
            if str_eq(self.revoked[i].as_str(), credential_id) {
                assert(rs[i as int] == credential_id@);
                return true;
            }
            i = i + 1;
        }
        false
    }

    /// Number of trusted issuers.
    pub fn issuer_count(&self) -> (r: usize)
        requires
            self.wf(),
        ensures
            self@.0.dom().finite(),
            r == self@.0.dom().len(),
    {
        proof {
            lemma_entries_map(self.es());
        }
        self.issuers.len()
    }

    /// Number of revoked credential ids.
    pub fn revoked_count(&self) -> (r: usize)
        requires
            self.wf(),
        ensures
            self@.1.finite(),
            r == self@.1.len(),
    {
        proof {
            self.lemma_finite();
            self.rs().unique_seq_to_set();
        }
        self.revoked.len()
    }
}

// ---------------------------------------------------------------------------
// building from configuration sources
// ---------------------------------------------------------------------------

/// One inline `did=multibase` entry (already split at ','): trimmed;
/// empty entries, entries without '=' or with an empty DID, and keys that
/// are not Multikeys are skipped.
pub open spec fn inline_issuer_step(m: Map<Seq<char>, Seq<char>>, piece: Seq<char>) -> Map<
    Seq<char>,
    Seq<char>,
> {
    let e = trim(piece);
    if e.len() == 0 {
        m
    } else {
        match split_once_spec(e, '=') {
            Some(p) => if p.0.len() > 0 && multikey_decode_spec(p.1) is Some {
                m.insert(p.0, p.1)
            } else {
                m
            },
            None => m,
        }
    }
}

pub open spec fn fold_inline_issuers(m: Map<Seq<char>, Seq<char>>, pieces: Seq<Seq<char>>) -> Map<
    Seq<char>,
    Seq<char>,
>
    decreases pieces.len(),
{
    if pieces.len() == 0 {
        m
    } else {
        inline_issuer_step(fold_inline_issuers(m, pieces.drop_last()), pieces.last())
    }
}

/// Registry-document issuers: members whose value is a Multikey string.
pub open spec fn fold_doc_issuers(
    m: Map<Seq<char>, Seq<char>>,
    es: Seq<(Seq<char>, JsonValue)>,
) -> Map<Seq<char>, Seq<char>>
    decreases es.len(),
{
    if es.len() == 0 {
        m
    } else {
        let prev = fold_doc_issuers(m, es.drop_last());
        match es.last().1 {
            JsonValue::Str(pk) => if multikey_decode_spec(pk) is Some {
                prev.insert(es.last().0, pk)
            } else {
                prev
            },
            _ => prev,
        }
    }
}

/// Registry-document revoked ids: the string items.
pub open spec fn fold_doc_revoked(r: Set<Seq<char>>, xs: Seq<JsonValue>) -> Set<Seq<char>>
    decreases xs.len(),
{
    if xs.len() == 0 {
        r
    } else {
        let prev = fold_doc_revoked(r, xs.drop_last());
        match xs.last() {
            JsonValue::Str(id) => prev.insert(id),
            _ => prev,
        }
    }
}

/// Inline revoked ids (already split at ','), trimmed, empty ones skipped.
pub open spec fn fold_inline_revoked(r: Set<Seq<char>>, pieces: Seq<Seq<char>>) -> Set<Seq<char>>
    decreases pieces.len(),
{
    if pieces.len() == 0 {
        r
    } else {
        let prev = fold_inline_revoked(r, pieces.drop_last());
        if trim(pieces.last()).len() == 0 {
            prev
        } else {
            prev.insert(trim(pieces.last()))
        }
    }
}

/// `doc["issuers"]` members when it is an object.
pub open spec fn doc_issuers(doc: Option<JsonValue>) -> Seq<(Seq<char>, JsonValue)> {
    match doc {
        Some(d) => match get_spec(d, "issuers"@) {
            Some(JsonValue::Object(es)) => es,
            _ => Seq::empty(),
        },
        None => Seq::empty(),
    }
}

/// `doc["revoked"]` items when it is an array.
pub open spec fn doc_revoked(doc: Option<JsonValue>) -> Seq<JsonValue> {
    match doc {
        Some(d) => match get_spec(d, "revoked"@) {
            Some(JsonValue::Array(xs)) => xs,
            _ => Seq::empty(),
        },
        None => Seq::empty(),
    }
}

pub open spec fn opt_view(doc: Option<&Json>) -> Option<JsonValue> {
    match doc {
        Some(d) => Some(d@),
        None => None,
    }
}

impl TrustedIssuers {
    /// Builds the registry from its three sources: inline
    /// "did=multibase,did2=multibase" pairs, the parsed registry document
    /// (when one was configured and readable), and inline
    /// "urn:..,urn:.." revoked ids.
    pub fn from_sources(inline_issuers: &str, registry_doc: Option<&Json>, inline_revoked: &str) -> (r: Self)
        ensures
            r.wf(),
            r@.0 == fold_doc_issuers(
                fold_inline_issuers(Map::empty(), split_all(inline_issuers@, ',')),
                doc_issuers(opt_view(registry_doc)),
            ),
            r@.1 == fold_inline_revoked(
                fold_doc_revoked(Set::empty(), doc_revoked(opt_view(registry_doc))),
                split_all(inline_revoked@, ','),
            ),
    {
        let mut reg = TrustedIssuers::new();
        let pieces = split_by(inline_issuers, ',');
        let ghost pv = pieces@.map_values(|p: String| p@);
        let mut i: usize = 0;
        assert(pv.take(0) =~= Seq::<Seq<char>>::empty());
        while i < pieces.len()
            invariant
                i <= pieces@.len(),
                pv == pieces@.map_values(|p: String| p@),
                reg.wf(),
                reg@.1 == Set::<Seq<char>>::empty(),
                reg@.0 == fold_inline_issuers(Map::empty(), pv.take(i as int)),
            decreases pieces@.len() - i,
        {
            let e = trimmed(pieces[i].as_str());
            assert(pv.take(i + 1).drop_last() =~= pv.take(i as int));
            if e.as_str().unicode_len() > 0 {
                match split_once(e.as_str(), '=') {
                    Some((did, pk)) => {
                        if did.as_str().unicode_len() > 0 {
                            let _ = reg.insert(did, pk);
                        }
                    },
                    None => {},
                }
            }
            i = i + 1;
        }
        assert(pv.take(i as int) =~= pv);
        let ghost after_inline = reg@.0;
        match registry_doc {
            Some(doc) => {
                match doc.get("issuers") {
                    Some(Json::Object(es)) => {
                        let ghost ges = json_view(Json::Object(*es))->Object_0;
                        proof {
                            lemma_object_view(*es);
                        }
                        let mut k: usize = 0;
                        assert(ges.take(0) =~= Seq::<(Seq<char>, JsonValue)>::empty());
                        while k < es.len()
                            invariant
                                k <= es@.len(),
                                ges == json_view(Json::Object(*es))->Object_0,
                                ges.len() == es@.len(),
                                forall|t: int|
                                    0 <= t < es@.len() ==> #[trigger] ges[t] == (
                                        es@[t].0@,
                                        json_view(es@[t].1),
                                    ),
                                reg.wf(),
                                reg@.1 == Set::<Seq<char>>::empty(),
                                reg@.0 == fold_doc_issuers(after_inline, ges.take(k as int)),
                            decreases es@.len() - k,
                        {
                            assert(ges.take(k + 1).drop_last() =~= ges.take(k as int));
                            match &es[k].1 {
                                Json::Str(pk) => {
                                    let _ = reg.insert(owned(es[k].0.as_str()), owned(pk.as_str()));
                                },
                                _ => {},
                            }
                            k = k + 1;
                        }
                        assert(ges.take(k as int) =~= ges);
                    },
                    _ => {},
                }
            },
            None => {},
        }
        let ghost after_doc = reg@.0;
        match registry_doc {
            Some(doc) => {
                match doc.get("revoked") {
                    Some(Json::Array(xs)) => {
                        let ghost gxs = json_view(Json::Array(*xs))->Array_0;
                        proof {
                            lemma_array_view(*xs);
                        }
                        let mut k: usize = 0;
                        assert(gxs.take(0) =~= Seq::<JsonValue>::empty());
                        while k < xs.len()
                            invariant
                                k <= xs@.len(),
                                gxs == json_view(Json::Array(*xs))->Array_0,
                                gxs.len() == xs@.len(),
                                forall|t: int|
                                    0 <= t < xs@.len() ==> #[trigger] gxs[t] == json_view(xs@[t]),
                                reg.wf(),
                                reg@.0 == after_doc,
                                reg@.1 == fold_doc_revoked(Set::empty(), gxs.take(k as int)),
                            decreases xs@.len() - k,
                        {
                            assert(gxs.take(k + 1).drop_last() =~= gxs.take(k as int));
                            match &xs[k] {
                                Json::Str(id) => {
                                    reg.revoke(id.as_str());
                                },
                                _ => {},
                            }
                            k = k + 1;
                        }
                        assert(gxs.take(k as int) =~= gxs);
                    },
                    _ => {},
                }
            },
            None => {},
        }
        let ghost after_doc_revoked = reg@.1;
        let rpieces = split_by(inline_revoked, ',');
        let ghost rv = rpieces@.map_values(|p: String| p@);
        let mut j: usize = 0;
        assert(rv.take(0) =~= Seq::<Seq<char>>::empty());
        while j < rpieces.len()
            invariant
                j <= rpieces@.len(),
                rv == rpieces@.map_values(|p: String| p@),
                reg.wf(),
                reg@.0 == after_doc,
                reg@.1 == fold_inline_revoked(after_doc_revoked, rv.take(j as int)),
            decreases rpieces@.len() - j,
        {
            let e = trimmed(rpieces[j].as_str());
            assert(rv.take(j + 1).drop_last() =~= rv.take(j as int));
            if e.as_str().unicode_len() > 0 {
                reg.revoke(e.as_str());
            }
            j = j + 1;
        }
        assert(rv.take(j as int) =~= rv);
        reg
    }
}

/// After a successful `insert`, `public_key_for` gives back the inserted
/// key for that DID and what it gave before for every other DID; after
/// `revoke`, the id is revoked and every id revoked before still is.
pub proof fn lemma_registry_read_after_write(
    before: (Map<Seq<char>, Seq<char>>, Set<Seq<char>>),
    did: Seq<char>,
    key: Seq<char>,
    id: Seq<char>,
    other: Seq<char>,
)
    ensures
        before.0.insert(did, key).contains_key(did) && before.0.insert(did, key)[did] == key,
        other != did ==> (before.0.insert(did, key).contains_key(other) == before.0.contains_key(other)
            && (before.0.contains_key(other) ==> before.0.insert(did, key)[other] == before.0[other])),
        before.1.insert(id).contains(id),
        before.1.contains(other) ==> before.1.insert(id).contains(other),
{
}

/// The registry document wins on conflict: a DID the document lists with
/// a Multikey string is trusted with that key, whatever the inline
/// configuration `m` said of it.
pub proof fn lemma_registry_file_wins(m: Map<Seq<char>, Seq<char>>, es: Seq<(Seq<char>, JsonValue)>, i: int)
    requires
        0 <= i < es.len(),
        es[i].1 is Str,
        multikey_decode_spec(es[i].1->Str_0) is Some,
        forall|j: int| i < j < es.len() ==> es[j].0 != es[i].0,
    ensures
        fold_doc_issuers(m, es).contains_key(es[i].0),
        fold_doc_issuers(m, es)[es[i].0] == es[i].1->Str_0,
    decreases es.len(),
{
    if i < es.len() - 1 {
        let d = es.drop_last();
        assert(d[i] == es[i]);
        assert forall|j: int| i < j < d.len() implies d[j].0 != d[i].0 by {
            assert(d[j] == es[j]);
        }
        lemma_registry_file_wins(m, d, i);
        assert(es.last().0 != es[i].0);
    }
}

/// Revocations accumulate: an id revoked by an earlier source stays
/// revoked after the later ones are read.
pub proof fn lemma_revocations_accumulate(r: Set<Seq<char>>, xs: Seq<JsonValue>, pieces: Seq<Seq<char>>)
    ensures
        r.subset_of(fold_doc_revoked(r, xs)),
        r.subset_of(fold_inline_revoked(r, pieces)),
    decreases xs.len() + pieces.len(),
{
    if xs.len() > 0 {
        lemma_revocations_accumulate(r, xs.drop_last(), pieces);
    }
    if pieces.len() > 0 {
        lemma_revocations_accumulate(r, xs, pieces.drop_last());
    }
}

} // verus!
