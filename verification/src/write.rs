//! The write path's decisions. Once the store has said whether the triple
//! is already there, a duplicate is answered at once (nothing stored,
//! counted or announced); a new triple is stored, counted and announced on
//! the data topic, and on the schema topic when it changes the schema.
//! Also the answer of the admin insert endpoint.
use vstd::prelude::*;

use crate::context::PrefixMap;
use crate::json::{copy_of, object_of, Json, JsonValue};
use crate::jsonld::{binding_to_line, line_spec};
use crate::store::{triple_binding, triple_binding_spec};
use crate::text::{dec, owned, u64_dec};

verus! {

/// The statement reported for a triple: its JSON-LD line, or the raw
/// binding when it has none.
pub open spec fn reported_triple_spec(extra: Seq<(Seq<char>, Seq<char>)>, s: Seq<char>, p: Seq<char>, o: Seq<char>) -> JsonValue {
    match line_spec(extra, triple_binding_spec(s, p, o)) {
        Some(l) => l,
        None => triple_binding_spec(s, p, o),
    }
}

pub fn reported_triple(subject: &str, predicate: &str, object: &str, prefixes: &PrefixMap) -> (r: Json)
    ensures
        r@ == reported_triple_spec(prefixes@, subject@, predicate@, object@),
{
    let binding = triple_binding(subject, predicate, object);
    match binding_to_line(&binding, prefixes) {
        Some(line) => line,
        None => binding,
    }
}

/// What an insert did: the event id it was announced under, the reported
/// statement, how many subscribers each topic reached, whether the schema
/// changed, and whether the triple was already stored.
pub struct InsertOutcome {
    pub event_id: String,
    pub triple: Json,
    pub data_notified: usize,
    pub schema_changed: bool,
    pub schema_notified: usize,
    pub duplicate: bool,
}

/// The step after the existence check: the answer when the triple was
/// already stored, `None` when it is to be stored.
pub fn duplicate_answer(
    existed: bool,
    event_id: &str,
    subject: &str,
    predicate: &str,
    object: &str,
    prefixes: &PrefixMap,
) -> (r: Option<InsertOutcome>)
    ensures
        r is Some <==> existed,
        r matches Some(o) ==> {
            &&& o.duplicate
            &&& o.data_notified == 0
            &&& !o.schema_changed
            &&& o.schema_notified == 0
            &&& o.event_id@ == event_id@
            &&& o.triple@ == reported_triple_spec(prefixes@, subject@, predicate@, object@)
        },
{
    if !existed {
        return None;
    }
    Some(
        InsertOutcome {
            event_id: owned(event_id),
            triple: reported_triple(subject, predicate, object, prefixes),
            data_notified: 0,
            schema_changed: false,
            schema_notified: 0,
            duplicate: true,
        },
    )
}

/// The outcome of storing a new triple: the schema topic counts only when
/// the schema changed (it is announced only then).
pub fn stored_outcome(
    event_id: String,
    subject: &str,
    predicate: &str,
    object: &str,
    prefixes: &PrefixMap,
    data_notified: usize,
    schema_changed: bool,
    schema_notified: usize,
) -> (r: InsertOutcome)
    ensures
        !r.duplicate,
        r.event_id@ == event_id@,
        r.triple@ == reported_triple_spec(prefixes@, subject@, predicate@, object@),
        r.data_notified == data_notified,
        r.schema_changed == schema_changed,
        r.schema_notified == if schema_changed {
            schema_notified
        } else {
            0
        },
{
    InsertOutcome {
        event_id,
        triple: reported_triple(subject, predicate, object, prefixes),
        data_notified,
        schema_changed,
        schema_notified: if schema_changed {
            schema_notified
        } else {
            0
        },
        duplicate: false,
    }
}

/// The admin insert endpoint's answer.
pub open spec fn insert_response_spec(o: InsertOutcome) -> JsonValue {
    JsonValue::Object(
        seq![
            ("event_id"@, JsonValue::Str(o.event_id@)),
            ("inserted"@, o.triple@),
            ("duplicate"@, JsonValue::Bool(o.duplicate)),
            ("data_subscribers_notified"@, JsonValue::Number(dec(o.data_notified as nat))),
            ("schema_changed"@, JsonValue::Bool(o.schema_changed)),
            ("schema_subscribers_notified"@, JsonValue::Number(dec(o.schema_notified as nat))),
        ],
    )
}

pub fn insert_response(o: &InsertOutcome) -> (r: Json)
    ensures
        r@ == insert_response_spec(*o),
{
    let mut es: Vec<(String, Json)> = Vec::new();
    es.push((owned("event_id"), Json::string(o.event_id.as_str())));
    es.push((owned("inserted"), copy_of(&o.triple)));
    es.push((owned("duplicate"), Json::Bool(o.duplicate)));
    es.push((owned("data_subscribers_notified"), Json::Number(u64_dec(o.data_notified as u64))));
    es.push((owned("schema_changed"), Json::Bool(o.schema_changed)));
    es.push((owned("schema_subscribers_notified"), Json::Number(u64_dec(o.schema_notified as u64))));
    let r = object_of(es);
    assert(r@->Object_0 =~= insert_response_spec(*o)->Object_0);
    r
}

} // verus!
