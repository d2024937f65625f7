//! SPARQL JSON bindings to compacted JSON-LD lines: one triple per line,
//! predicates, classes and datatypes compacted through the prefix map,
//! datatypes and languages of literals kept.
use vstd::prelude::*;

use crate::context::{compact_spec, PrefixMap, RDF_TYPE, XSD_NS};
use crate::json::{copy_of, get_spec, get_str_spec, lemma_object_view, str_eq, str_spec, with_member, Json, JsonValue};
use crate::text::{owned, push_all};

verus! {

pub open spec fn text_or_empty(o: Option<Seq<char>>) -> Seq<char> {
    match o {
        Some(s) => s,
        None => Seq::empty(),
    }
}

/// {k: v}
pub open spec fn obj1(k: Seq<char>, v: JsonValue) -> JsonValue {
    JsonValue::Object(seq![(k, v)])
}

/// {k1: v1, k2: v2}
pub open spec fn obj2(k1: Seq<char>, v1: JsonValue, k2: Seq<char>, v2: JsonValue) -> JsonValue {
    JsonValue::Object(seq![(k1, v1), (k2, v2)])
}

/// The xsd:string datatype, which plain strings carry implicitly.
pub open spec fn xsd_string() -> Seq<char> {
    "http://www.w3.org/2001/XMLSchema#string"@
}

/// The JSON-LD form of an object term: {"@id"} for URIs and blank nodes,
/// {"@value","@language"} for language-tagged literals, {"@value","@type"}
/// for typed literals other than xsd:string, else the bare value.
pub open spec fn object_value_spec(extra: Seq<(Seq<char>, Seq<char>)>, obj: JsonValue) -> JsonValue {
    let tt = text_or_empty(get_str_spec(obj, "type"@));
    let value = match get_spec(obj, "value"@) {
        Some(v) => v,
        None => JsonValue::Null,
    };
    let vtext = text_or_empty(str_spec(Some(value)));
    if tt == "uri"@ {
        obj1("@id"@, JsonValue::Str(vtext))
    } else if tt == "bnode"@ {
        obj1("@id"@, JsonValue::Str("_:"@ + vtext))
    } else {
        match get_str_spec(obj, "xml:lang"@) {
            Some(lang) => obj2("@value"@, value, "@language"@, JsonValue::Str(lang)),
            None => match get_str_spec(obj, "datatype"@) {
                Some(dt) => if dt != xsd_string() {
                    obj2("@value"@, value, "@type"@, JsonValue::Str(compact_spec(extra, dt)))
                } else {
                    value
                },
                None => value,
            },
        }
    }
}

/// The subject's id: the URI, or "_:" and the blank node label.
pub open spec fn subject_id_spec(s: JsonValue) -> Option<Seq<char>> {
    match get_str_spec(s, "type"@) {
        Some(t) => if t == "uri"@ {
            get_str_spec(s, "value"@)
        } else if t == "bnode"@ {
            match get_str_spec(s, "value"@) {
                Some(v) => Some("_:"@ + v),
                None => None,
            }
        } else {
            None
        },
        None => None,
    }
}

/// The JSON-LD line of a binding (?s ?p ?o): rdf:type triples with a URI
/// object become {"@id", "@type"}; others {"@id", compacted predicate:
/// object value}. None when the binding is not a triple.
pub open spec fn line_spec(extra: Seq<(Seq<char>, Seq<char>)>, b: JsonValue) -> Option<JsonValue> {
    match (get_spec(b, "s"@), get_spec(b, "p"@), get_spec(b, "o"@)) {
        (Some(s), Some(p), Some(o)) => match subject_id_spec(s) {
            Some(sid) => match get_str_spec(p, "value"@) {
                Some(pu) => if pu == RDF_TYPE@ && get_str_spec(o, "type"@) == Some("uri"@) {
                    match get_str_spec(o, "value"@) {
                        Some(ov) => Some(
                            obj2("@id"@, JsonValue::Str(sid), "@type"@, JsonValue::Str(compact_spec(extra, ov))),
                        ),
                        None => None,
                    }
                } else {
                    Some(with_member(obj1("@id"@, JsonValue::Str(sid)), compact_spec(extra, pu), object_value_spec(extra, o)))
                },
                None => None,
            },
            None => None,
        },
        _ => None,
    }
}

/// What a JSON-LD line says of a triple binding (?s ?p ?o) whose subject
/// has an id: an rdf:type triple with a URI object is the subject's id with
/// its compacted class as "@type"; any other triple puts the object under
/// the compacted predicate: a URI object as {"@id": uri}, a blank node as
/// {"@id": "_:" + label}, a language-tagged literal as {"@value",
/// "@language"}, a literal typed other than xsd:string as {"@value",
/// "@type": compacted datatype}, and any other literal as its bare value.
pub proof fn lemma_line_object(extra: Seq<(Seq<char>, Seq<char>)>, b: JsonValue, sid: Seq<char>, pu: Seq<char>)
    requires
        get_spec(b, "s"@) is Some,
        get_spec(b, "p"@) is Some,
        get_spec(b, "o"@) is Some,
        subject_id_spec(get_spec(b, "s"@)->0) == Some(sid),
        get_str_spec(get_spec(b, "p"@)->0, "value"@) == Some(pu),
    ensures
        ({
            let o = get_spec(b, "o"@)->0;
            let ot = get_str_spec(o, "type"@);
            let ov = get_str_spec(o, "value"@);
            let line = line_spec(extra, b);
            let typing = pu == RDF_TYPE@ && ot == Some("uri"@);
            let at_pred = get_spec(line->0, compact_spec(extra, pu));
            &&& typing && ov is Some ==> line == Some(
                JsonValue::Object(seq![("@id"@, JsonValue::Str(sid)), ("@type"@, JsonValue::Str(compact_spec(extra, ov->0)))]),
            )
            &&& !typing ==> line is Some
            &&& !typing && ot == Some("uri"@) && ov is Some ==> at_pred == Some(
                JsonValue::Object(seq![("@id"@, JsonValue::Str(ov->0))]),
            )
            &&& !typing && ot == Some("bnode"@) && ov is Some ==> at_pred == Some(
                JsonValue::Object(seq![("@id"@, JsonValue::Str("_:"@ + ov->0))]),
            )
            &&& !typing && ot == Some("literal"@) && get_spec(o, "value"@) is Some && get_spec(o, "xml:lang"@) is None
                && get_spec(o, "datatype"@) is None ==> at_pred == get_spec(o, "value"@)
            &&& !typing && ot == Some("literal"@) && get_spec(o, "value"@) is Some && get_str_spec(o, "xml:lang"@)
                is Some ==> at_pred == Some(
                JsonValue::Object(
                    seq![
                        ("@value"@, get_spec(o, "value"@)->0),
                        ("@language"@, JsonValue::Str(get_str_spec(o, "xml:lang"@)->0)),
                    ],
                ),
            )
            &&& !typing && ot == Some("literal"@) && get_spec(o, "value"@) is Some && get_spec(o, "xml:lang"@) is None
                && get_str_spec(o, "datatype"@) is Some ==> at_pred == if get_str_spec(o, "datatype"@)->0
                == "http://www.w3.org/2001/XMLSchema#string"@ {
                get_spec(o, "value"@)
            } else {
                Some(
                    JsonValue::Object(
                        seq![
                            ("@value"@, get_spec(o, "value"@)->0),
                            ("@type"@, JsonValue::Str(compact_spec(extra, get_str_spec(o, "datatype"@)->0))),
                        ],
                    ),
                )
            }
        }),
{
    let o = get_spec(b, "o"@)->0;
    let pu_c = compact_spec(extra, pu);
    crate::json::lemma_get_with_same(obj1("@id"@, JsonValue::Str(sid)), pu_c, object_value_spec(extra, o));
    reveal_strlit("uri");
    reveal_strlit("bnode");
    reveal_strlit("literal");
    assert("bnode"@[0] != "uri"@[0]);
    assert("literal"@[0] != "uri"@[0] && "literal"@[0] != "bnode"@[0]);
}

fn json_obj1(k: &str, v: Json) -> (r: Json)
    ensures
        r@ == obj1(k@, v@),
{
    let mut es: Vec<(String, Json)> = Vec::new();
    es.push((owned(k), v));
    proof {
        lemma_object_view(es);
    }
    let r = Json::Object(es);
    assert(r@->Object_0 =~= obj1(k@, v@)->Object_0);
    r
}

fn json_obj2(k1: &str, v1: Json, k2: &str, v2: Json) -> (r: Json)
    ensures
        r@ == obj2(k1@, v1@, k2@, v2@),
{
    let mut es: Vec<(String, Json)> = Vec::new();
    es.push((owned(k1), v1));
    es.push((owned(k2), v2));
    proof {
        lemma_object_view(es);
    }
    let r = Json::Object(es);
    assert(r@->Object_0 =~= obj2(k1@, v1@, k2@, v2@)->Object_0);
    r
}

fn str_field(j: &Json, key: &str) -> (r: String)
    ensures
        r@ == text_or_empty(get_str_spec(j@, key@)),
{
    match j.get_str(key) {
        Some(s) => owned(s.as_str()),
        None => String::new(),
    }
}

/// The JSON-LD form of an object term.
pub fn object_value(obj: &Json, prefixes: &PrefixMap) -> (r: Json)
    ensures
        r@ == object_value_spec(prefixes@, obj@),
{
    let term_type = str_field(obj, "type");
    let value = match obj.get("value") {
        Some(v) => copy_of(v),
        None => Json::Null,
    };
    let vtext = match value.as_str() {
        Some(s) => owned(s.as_str()),
        None => String::new(),
    };
    if str_eq(term_type.as_str(), "uri") {
        json_obj1("@id", Json::Str(vtext))
    } else if str_eq(term_type.as_str(), "bnode") {
        let mut id = owned("_:");
        push_all(&mut id, vtext.as_str());
        json_obj1("@id", Json::Str(id))
    } else {
        match obj.get_str("xml:lang") {
            Some(lang) => json_obj2("@value", value, "@language", Json::string(lang.as_str())),
            None => match obj.get_str("datatype") {
                Some(dt) => if !str_eq(dt.as_str(), "http://www.w3.org/2001/XMLSchema#string") {
                    let c = prefixes.compact(dt.as_str());
                    json_obj2("@value", value, "@type", Json::Str(c))
                } else {
                    value
                },
                None => value,
            },
        }
    }
}

fn subject_id(s: &Json) -> (r: Option<String>)
    ensures
        match r {
            Some(x) => subject_id_spec(s@) == Some(x@),
            None => subject_id_spec(s@) is None,
        },
{
    match s.get_str("type") {
        Some(t) => if str_eq(t.as_str(), "uri") {
            match s.get_str("value") {
                Some(v) => Some(owned(v.as_str())),
                None => None,
            }
        } else if str_eq(t.as_str(), "bnode") {
            match s.get_str("value") {
                Some(v) => {
                    let mut id = owned("_:");
                    push_all(&mut id, v.as_str());
                    Some(id)
                },
                None => None,
            }
        } else {
            None
        },
        None => None,
    }
}

/// The compacted JSON-LD line of one binding, or None when it does not
/// hold a triple.
pub fn binding_to_line(binding: &Json, prefixes: &PrefixMap) -> (r: Option<Json>)
    ensures
        match r {
            Some(x) => line_spec(prefixes@, binding@) == Some(x@),
            None => line_spec(prefixes@, binding@) is None,
        },
{
    let subject = match binding.get("s") {
        Some(x) => x,
        None => {
            return None;
        },
    };
    let predicate = match binding.get("p") {
        Some(x) => x,
        None => {
            return None;
        },
    };
    let object = match binding.get("o") {
        Some(x) => x,
        None => {
            return None;
        },
    };
    let sid = match subject_id(subject) {
        Some(x) => x,
        None => {
            return None;
        },
    };
    let pred_uri = match predicate.get_str("value") {
        Some(x) => x,
        None => {
            return None;
        },
    };
    let object_is_uri = match object.get_str("type") {
        Some(t) => str_eq(t.as_str(), "uri"),
        None => false,
    };
    if str_eq(pred_uri.as_str(), RDF_TYPE) && object_is_uri {
        let ov = match object.get_str("value") {
            Some(x) => x,
            None => {
                return None;
            },
        };
        let short = prefixes.compact(ov.as_str());
        return Some(json_obj2("@id", Json::Str(sid), "@type", Json::Str(short)));
    }
    let short_pred = prefixes.compact(pred_uri.as_str());
    let mut line = json_obj1("@id", Json::Str(sid));
    line.insert(short_pred.as_str(), object_value(object, prefixes));
    Some(line)
}

} // verus!
