//! Namespace prefixes: compaction of URIs to `prefix:local` for the
//! conventional prefixes of standard vocabularies and for prefixes
//! configured at run time, and the JSON-LD `@context` of the namespaces
//! in use.
use vstd::prelude::*;

use crate::json::{str_eq, with_member, Json, JsonValue};
use crate::order::{sorted_unique, strictly_sorted, texts};
use crate::text::{chars_of, is_prefix, last_index, lemma_last_before, owned, push_all, rfind, split_all, split_by, split_once, split_once_spec, starts_with, string_of_range, trim, trimmed};

verus! {

pub const RDF_NS: &'static str = "http://www.w3.org/1999/02/22-rdf-syntax-ns#";

pub const RDFS_NS: &'static str = "http://www.w3.org/2000/01/rdf-schema#";

pub const OWL_NS: &'static str = "http://www.w3.org/2002/07/owl#";

pub const XSD_NS: &'static str = "http://www.w3.org/2001/XMLSchema#";

pub const SHACL_NS: &'static str = "http://www.w3.org/ns/shacl#";

pub const FOAF_NS: &'static str = "http://xmlns.com/foaf/0.1/";

pub const SCHEMA_NS: &'static str = "http://schema.org/";

pub const DCTERMS_NS: &'static str = "http://purl.org/dc/terms/";

pub const SKOS_NS: &'static str = "http://www.w3.org/2004/02/skos/core#";

/// rdf:type, written "@type" in JSON-LD.
pub const RDF_TYPE: &'static str = "http://www.w3.org/1999/02/22-rdf-syntax-ns#type";

/// The conventional prefixes of standard namespaces, in lookup order.
pub open spec fn std_prefixes() -> Seq<(Seq<char>, Seq<char>)> {
    seq![
        ("rdf"@, RDF_NS@),
        ("rdfs"@, RDFS_NS@),
        ("owl"@, OWL_NS@),
        ("xsd"@, XSD_NS@),
        ("sh"@, SHACL_NS@),
        ("foaf"@, FOAF_NS@),
        ("schema"@, SCHEMA_NS@),
        ("dcterms"@, DCTERMS_NS@),
        ("skos"@, SKOS_NS@),
    ]
}

fn std_prefix_table() -> (r: Vec<(&'static str, &'static str)>)
    ensures
        r@.map_values(|e: (&'static str, &'static str)| (e.0@, e.1@)) == std_prefixes(),
{
    let r: Vec<(&'static str, &'static str)> = vec![
        ("rdf", RDF_NS),
        ("rdfs", RDFS_NS),
        ("owl", OWL_NS),
        ("xsd", XSD_NS),
        ("sh", SHACL_NS),
        ("foaf", FOAF_NS),
        ("schema", SCHEMA_NS),
        ("dcterms", DCTERMS_NS),
        ("skos", SKOS_NS),
    ];
    assert(r@.map_values(|e: (&'static str, &'static str)| (e.0@, e.1@)) =~= std_prefixes());
    r
}

/// The name of the first entry whose namespace is `ns`.
pub open spec fn lookup_ns(table: Seq<(Seq<char>, Seq<char>)>, ns: Seq<char>) -> Option<Seq<char>>
    decreases table.len(),
{
    if table.len() == 0 {
        None
    } else {
        match lookup_ns(table.drop_last(), ns) {
            Some(n) => Some(n),
            None => if table.last().1 == ns {
                Some(table.last().0)
            } else {
                None
            },
        }
    }
}

/// The prefix of a namespace: standard prefixes first, then the extras.
pub open spec fn prefix_spec(extra: Seq<(Seq<char>, Seq<char>)>, ns: Seq<char>) -> Option<Seq<char>> {
    match lookup_ns(std_prefixes(), ns) {
        Some(n) => Some(n),
        None => lookup_ns(extra, ns),
    }
}

/// (namespace, local name) of a URI: split after the last '#' when
/// something follows it, else after the last '/' when something follows
/// that; otherwise none.
pub open spec fn split_uri_spec(u: Seq<char>) -> Option<(Seq<char>, Seq<char>)> {
    match last_index(u, '#') {
        Some(i) if i + 1 < u.len() => Some((u.take(i + 1), u.skip(i + 1))),
        _ => match last_index(u, '/') {
            Some(i) if i + 1 < u.len() => Some((u.take(i + 1), u.skip(i + 1))),
            _ => None,
        },
    }
}

/// `prefix:local` when the namespace has a prefix, else the URI itself.
pub open spec fn compact_spec(extra: Seq<(Seq<char>, Seq<char>)>, u: Seq<char>) -> Seq<char> {
    match split_uri_spec(u) {
        Some((ns, local)) => match prefix_spec(extra, ns) {
            Some(name) => name + seq![':'] + local,
            None => u,
        },
        None => u,
    }
}

pub fn split_uri(uri: &str) -> (r: Option<(String, String)>)
    ensures
        match r {
            Some((ns, local)) => split_uri_spec(uri@) == Some((ns@, local@)),
            None => split_uri_spec(uri@) is None,
        },
{
    let v = chars_of(uri);
    proof {
        lemma_last_before(v@, '#', v@.len() as int);
        lemma_last_before(v@, '/', v@.len() as int);
    }
    match rfind(&v, '#') {
        Some(i) => {
            if i < v.len() - 1 {
                let ns = string_of_range(&v, 0, i + 1);
                let local = string_of_range(&v, i + 1, v.len());
                assert(ns@ =~= uri@.take(i + 1));
                assert(local@ =~= uri@.skip(i + 1));
                return Some((ns, local));
            }
        },
        None => {},
    }
    match rfind(&v, '/') {
        Some(i) => {
            if i < v.len() - 1 {
                let ns = string_of_range(&v, 0, i + 1);
                let local = string_of_range(&v, i + 1, v.len());
                assert(ns@ =~= uri@.take(i + 1));
                assert(local@ =~= uri@.skip(i + 1));
                return Some((ns, local));
            }
        },
        None => {},
    }
    None
}

/// The prefix table: standard prefixes plus configured extras.
pub struct PrefixMap {
    extra: Vec<(String, String)>,
}

pub open spec fn pairs_view(v: Seq<(String, String)>) -> Seq<(Seq<char>, Seq<char>)> {
    v.map_values(|e: (String, String)| (e.0@, e.1@))
}

/// The extras a "name=namespace,..." configuration gives: trimmed,
/// non-empty entries with a non-empty name and a namespace starting
/// "http"; others are skipped.
pub open spec fn extras_spec(pieces: Seq<Seq<char>>) -> Seq<(Seq<char>, Seq<char>)>
    decreases pieces.len(),
{
    if pieces.len() == 0 {
        Seq::empty()
    } else {
        let prev = extras_spec(pieces.drop_last());
        let e = trim(pieces.last());
        if e.len() == 0 {
            prev
        } else {
            match split_once_spec(e, '=') {
                Some((name, ns)) => if name.len() > 0 && is_prefix("http"@, ns) {
                    prev.push((name, ns))
                } else {
                    prev
                },
                None => prev,
            }
        }
    }
}

impl View for PrefixMap {
    type V = Seq<(Seq<char>, Seq<char>)>;

    closed spec fn view(&self) -> Seq<(Seq<char>, Seq<char>)> {
        pairs_view(self.extra@)
    }
}

impl PrefixMap {
    /// No extras.
    pub fn empty() -> (r: Self)
        ensures
            r@ == Seq::<(Seq<char>, Seq<char>)>::empty(),
    {
        let r = PrefixMap { extra: Vec::new() };
        assert(r@ =~= Seq::<(Seq<char>, Seq<char>)>::empty());
        r
    }

    /// From the configured "name=namespace,name=namespace" text, if any.
    pub fn from_config(raw: Option<&str>) -> (r: Self)
        ensures
            r@ == match raw {
                Some(t) => extras_spec(split_all(t@, ',')),
                None => Seq::empty(),
            },
    {
        let mut extra: Vec<(String, String)> = Vec::new();
        match raw {
            Some(t) => {
                let pieces = split_by(t, ',');
                let ghost pv = pieces@.map_values(|p: String| p@);
                let mut i: usize = 0;
                assert(pairs_view(extra@) =~= extras_spec(pv.take(0)));
                while i < pieces.len()
                    invariant
                        i <= pieces@.len(),
                        pv == pieces@.map_values(|p: String| p@),
                        pairs_view(extra@) == extras_spec(pv.take(i as int)),
                    decreases pieces@.len() - i,
                {
                    assert(pv.take(i + 1).drop_last() =~= pv.take(i as int));
                    assert(pv[i as int] == pieces@[i as int]@);
                    let e = trimmed(pieces[i].as_str());
                    let ghost before = pairs_view(extra@);
                    if e.as_str().unicode_len() > 0 {
                        match split_once(e.as_str(), '=') {
                            Some((name, ns)) => {
                                if name.as_str().unicode_len() > 0 && starts_with(ns.as_str(), "http") {
                                    let ghost item = (name@, ns@);
                                    extra.push((name, ns));
                                    assert(pairs_view(extra@) =~= before.push(item));
                                }
                            },
                            None => {},
                        }
                    }
                    i = i + 1;
                }
                assert(pv.take(i as int) =~= pv);
            },
            None => {
                assert(pairs_view(extra@) =~= Seq::<(Seq<char>, Seq<char>)>::empty());
            },
        }
        PrefixMap { extra }
    }

    /// The prefix registered for a namespace.
    pub fn prefix_for(&self, ns: &str) -> (r: Option<String>)
        ensures
            match r {
                Some(n) => prefix_spec(self@, ns@) == Some(n@),
                None => prefix_spec(self@, ns@) is None,
            },
    {
        let table = std_prefix_table();
        let ghost tv = table@.map_values(|e: (&'static str, &'static str)| (e.0@, e.1@));
        let mut i: usize = 0;
        while i < table.len()
            invariant
                i <= table@.len(),
                tv == table@.map_values(|e: (&'static str, &'static str)| (e.0@, e.1@)),
                tv == std_prefixes(),
                lookup_ns(tv.take(i as int), ns@) is None,
            decreases table@.len() - i,
        {
            assert(tv.take(i + 1).drop_last() =~= tv.take(i as int));
            assert(tv[i as int] == (table@[i as int].0@, table@[i as int].1@));
            if str_eq(table[i].1, ns) {
                proof {
                    lemma_lookup_prefix(tv, ns@, (i + 1) as int);
                }
                return Some(owned(table[i].0));
            }
            i = i + 1;
        }
        assert(tv.take(i as int) =~= tv);
        let ghost ev = pairs_view(self.extra@);
        let mut j: usize = 0;
        while j < self.extra.len()
            invariant
                j <= self.extra@.len(),
                ev == pairs_view(self.extra@),
                ev == self@,
                lookup_ns(std_prefixes(), ns@) is None,
                lookup_ns(ev.take(j as int), ns@) is None,
            decreases self.extra@.len() - j,
        {
            assert(ev.take(j + 1).drop_last() =~= ev.take(j as int));
            assert(ev[j as int] == (self.extra@[j as int].0@, self.extra@[j as int].1@));
            if str_eq(self.extra[j].1.as_str(), ns) {
                proof {
                    lemma_lookup_prefix(ev, ns@, (j + 1) as int);
                }
                return Some(owned(self.extra[j].0.as_str()));
            }
            j = j + 1;
        }
        assert(ev.take(j as int) =~= ev);
        None
    }

    /// `prefix:local` when the URI's namespace has a prefix, else the URI.
    pub fn compact(&self, uri: &str) -> (r: String)
        ensures
            r@ == compact_spec(self@, uri@),
    {
        match split_uri(uri) {
            Some((ns, local)) => match self.prefix_for(ns.as_str()) {
                Some(name) => {
                    let mut r = name;
                    r.push(':');
                    push_all(&mut r, local.as_str());
                    r
                },
                None => owned(uri),
            },
            None => owned(uri),
        }
    }

    /// The JSON-LD `@context` document for the namespaces in use: "type"
    /// as "@type", and each namespace that has a prefix under it.
    pub fn context_document(&self, namespaces: &[String]) -> (r: Json)
        ensures
            r@ == JsonValue::Object(
                seq![("@context"@, context_map(self@, texts(namespaces@)))],
            ),
    {
        let mut map = Json::empty_object();
        map.insert("type", Json::string("@type"));
        let ghost nv = texts(namespaces@);
        let mut i: usize = 0;
        assert(nv.take(0) =~= Seq::<Seq<char>>::empty());
        while i < namespaces.len()
            invariant
                i <= namespaces@.len(),
                nv == texts(namespaces@),
                map@ == context_fold(
                    with_member(JsonValue::Object(Seq::empty()), "type"@, JsonValue::Str("@type"@)),
                    self@,
                    nv.take(i as int),
                ),
            decreases namespaces@.len() - i,
        {
            assert(nv.take(i + 1).drop_last() =~= nv.take(i as int));
            assert(nv[i as int] == namespaces@[i as int]@);
            match self.prefix_for(namespaces[i].as_str()) {
                Some(prefix) => {
                    map.insert(prefix.as_str(), Json::string(namespaces[i].as_str()));
                },
                None => {},
            }
            i = i + 1;
        }
        assert(nv.take(i as int) =~= nv);
        let mut es: Vec<(String, Json)> = Vec::new();
        es.push((owned("@context"), map));
        proof {
            crate::json::lemma_object_view(es);
        }
        let r = Json::Object(es);
        assert(r@->Object_0 =~= seq![("@context"@, context_map(self@, nv))]);
        r
    }
}

proof fn lemma_lookup_prefix(t: Seq<(Seq<char>, Seq<char>)>, ns: Seq<char>, k: int)
    requires
        0 < k <= t.len(),
        lookup_ns(t.take(k - 1), ns) is None,
        t[k - 1].1 == ns,
    ensures
        lookup_ns(t, ns) == Some(t[k - 1].0),
    decreases t.len(),
{
    assert(t.take(k).drop_last() =~= t.take(k - 1));
    if k < t.len() {
        assert(t.drop_last().take(k - 1) =~= t.take(k - 1));
        lemma_lookup_prefix(t.drop_last(), ns, k);
    } else {
        assert(t.take(k) =~= t);
    }
}

/// The context map after adding each namespace that has a prefix.
pub open spec fn context_fold(m: JsonValue, extra: Seq<(Seq<char>, Seq<char>)>, nss: Seq<Seq<char>>) -> JsonValue
    decreases nss.len(),
{
    if nss.len() == 0 {
        m
    } else {
        let prev = context_fold(m, extra, nss.drop_last());
        match prefix_spec(extra, nss.last()) {
            Some(p) => with_member(prev, p, JsonValue::Str(nss.last())),
            None => prev,
        }
    }
}

pub open spec fn context_map(extra: Seq<(Seq<char>, Seq<char>)>, nss: Seq<Seq<char>>) -> JsonValue {
    context_fold(with_member(JsonValue::Object(Seq::empty()), "type"@, JsonValue::Str("@type"@)), extra, nss)
}

/// The namespaces of URIs (those that split), in order.
pub open spec fn namespaces_spec(uris: Seq<Seq<char>>) -> Seq<Seq<char>>
    decreases uris.len(),
{
    if uris.len() == 0 {
        Seq::empty()
    } else {
        let prev = namespaces_spec(uris.drop_last());
        match split_uri_spec(uris.last()) {
            Some((ns, _)) => prev.push(ns),
            None => prev,
        }
    }
}

/// The distinct namespaces of the class and predicate URIs, sorted.
pub fn namespaces_of(class_uris: &[String], predicate_uris: &[String]) -> (r: Vec<String>)
    ensures
        strictly_sorted(texts(r@)),
        texts(r@).to_set() == namespaces_spec(texts(class_uris@) + texts(predicate_uris@)).to_set(),
{
    let ghost all = texts(class_uris@) + texts(predicate_uris@);
    let mut ns: Vec<String> = Vec::new();
    let n1 = class_uris.len();
    let mut i: usize = 0;
    assert(texts(ns@) =~= namespaces_spec(all.take(0)));
    while i < n1
        invariant
            n1 == class_uris@.len(),
            i <= n1,
            all == texts(class_uris@) + texts(predicate_uris@),
            texts(ns@) == namespaces_spec(all.take(i as int)),
        decreases n1 - i,
    {
        assert(all.take(i + 1).drop_last() =~= all.take(i as int));
        assert(all[i as int] == class_uris@[i as int]@);
        let ghost before = texts(ns@);
        match split_uri(class_uris[i].as_str()) {
            Some((n, _)) => {
                let ghost nvw = n@;
                ns.push(n);
                assert(texts(ns@) =~= before.push(nvw));
            },
            None => {},
        }
        i = i + 1;
    }
    let mut j: usize = 0;
    while j < predicate_uris.len()
        invariant
            n1 == class_uris@.len(),
            j <= predicate_uris@.len(),
            all == texts(class_uris@) + texts(predicate_uris@),
            texts(ns@) == namespaces_spec(all.take(n1 + j)),
        decreases predicate_uris@.len() - j,
    {
        assert(all.take(n1 + j + 1).drop_last() =~= all.take(n1 + j));
        assert(all[n1 + j] == predicate_uris@[j as int]@);
        let ghost before = texts(ns@);
        match split_uri(predicate_uris[j].as_str()) {
            Some((n, _)) => {
                let ghost nvw = n@;
                ns.push(n);
                assert(texts(ns@) =~= before.push(nvw));
            },
            None => {},
        }
        j = j + 1;
    }
    assert(all.take(n1 + j) =~= all);
    sorted_unique(&ns)
}

} // verus!
