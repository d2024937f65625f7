//! Counters keyed by URI, and the maintained cardinalities of the store
//! (per class, per predicate, per subject, and in total) that answer
//! fragment count estimates without a round trip.
use vstd::prelude::*;

use crate::json::{get_spec, get_str_spec, json_view, lemma_array_view, str_eq, Json, JsonValue};
use crate::text::{owned, parse_u64, parse_unsigned};

verus! {

/// A counter per key (one entry per key).
pub struct CountMap {
    entries: Vec<(String, u64)>,
}

pub open spec fn count_entries_map(es: Seq<(Seq<char>, u64)>) -> Map<Seq<char>, u64>
    decreases es.len(),
{
    if es.len() == 0 {
        Map::empty()
    } else {
        count_entries_map(es.drop_last()).insert(es.last().0, es.last().1)
    }
}

pub open spec fn count_keys_unique(es: Seq<(Seq<char>, u64)>) -> bool {
    forall|i: int, j: int| 0 <= i < es.len() && 0 <= j < es.len() && i != j ==> es[i].0 != es[j].0
}

proof fn lemma_count_entries_map(es: Seq<(Seq<char>, u64)>)
    requires
        count_keys_unique(es),
    ensures
        forall|i: int| 0 <= i < es.len() ==> #[trigger] count_entries_map(es).contains_key(es[i].0)
            && count_entries_map(es)[es[i].0] == es[i].1,
        forall|k: Seq<char>| #[trigger]
            count_entries_map(es).contains_key(k) ==> exists|i: int| 0 <= i < es.len() && es[i].0 == k,
        count_entries_map(es).dom().finite(),
        count_entries_map(es).dom().len() == es.len(),
    decreases es.len(),
{
    if es.len() > 0 {
        let d = es.drop_last();
        assert(count_keys_unique(d));
        lemma_count_entries_map(d);
        assert(!count_entries_map(d).contains_key(es.last().0)) by {
            if count_entries_map(d).contains_key(es.last().0) {
                let i = choose|i: int| 0 <= i < d.len() && d[i].0 == es.last().0;
                assert(es[i].0 == es[es.len() - 1].0);
            }
        }
        assert forall|k: Seq<char>| #[trigger]
            count_entries_map(es).contains_key(k) implies exists|i: int| 0 <= i < es.len() && es[i].0
            == k by {
            if k != es.last().0 {
                let i = choose|i: int| 0 <= i < d.len() && d[i].0 == k;
                assert(es[i] == d[i]);
            } else {
                assert(es[es.len() - 1].0 == k);
            }
        }
        assert forall|i: int| 0 <= i < es.len() implies #[trigger] count_entries_map(es).contains_key(
            es[i].0,
        ) && count_entries_map(es)[es[i].0] == es[i].1 by {
            if i < es.len() - 1 {
                assert(es[i] == d[i]);
            }
        }
    }
}

proof fn lemma_count_update(es: Seq<(Seq<char>, u64)>, i: int, v: u64)
    requires
        count_keys_unique(es),
        0 <= i < es.len(),
    ensures
        count_entries_map(es.update(i, (es[i].0, v))) == count_entries_map(es).insert(es[i].0, v),
        count_keys_unique(es.update(i, (es[i].0, v))),
    decreases es.len(),
{
    let u = es.update(i, (es[i].0, v));
    if i == es.len() - 1 {
        assert(u.drop_last() =~= es.drop_last());
        assert(count_entries_map(es.drop_last()).insert(es[i].0, v) =~= count_entries_map(es).insert(es[i].0, v));
    } else {
        let d = es.drop_last();
        assert(count_keys_unique(d));
        lemma_count_update(d, i, v);
        assert(u.drop_last() =~= d.update(i, (d[i].0, v)));
        assert(es[i].0 != es.last().0);
        assert(count_entries_map(u) =~= count_entries_map(es).insert(es[i].0, v));
    }
}

impl View for CountMap {
    type V = Map<Seq<char>, u64>;

    closed spec fn view(&self) -> Map<Seq<char>, u64> {
        count_entries_map(self.entries@.map_values(|e: (String, u64)| (e.0@, e.1)))
    }
}

impl CountMap {
    spec fn es(&self) -> Seq<(Seq<char>, u64)> {
        self.entries@.map_values(|e: (String, u64)| (e.0@, e.1))
    }

    pub closed spec fn wf(&self) -> bool {
        count_keys_unique(self.es())
    }

    pub fn new() -> (r: Self)
        ensures
            r.wf(),
            r@ == Map::<Seq<char>, u64>::empty(),
    {
        let r = CountMap { entries: Vec::new() };
        assert(r.es() =~= Seq::<(Seq<char>, u64)>::empty());
        r
    }

    fn position(&self, key: &str) -> (r: Option<usize>)
        requires
            self.wf(),
        ensures
            match r {
                Some(i) => i < self.entries@.len() && self.es()[i as int].0 == key@,
                None => !self@.contains_key(key@),
            },
    {
        proof {
            lemma_count_entries_map(self.es());
        }
        let mut i: usize = 0;
        while i < self.entries.len()
            invariant
                i <= self.entries@.len(),
                self.wf(),
                forall|j: int| 0 <= j < i ==> self.es()[j].0 != key@,
            decreases self.entries@.len() - i,
        {
            assert(self.es()[i as int].0 == self.entries@[i as int].0@);
            if str_eq(self.entries[i].0.as_str(), key) {
                return Some(i);
            }
            i = i + 1;
        }
        None
    }

    /// The count of `key`, if it has one.
    pub fn get(&self, key: &str) -> (r: Option<u64>)
        requires
            self.wf(),
        ensures
            match r {
                Some(c) => self@.contains_key(key@) && self@[key@] == c,
                None => !self@.contains_key(key@),
            },
    {
        proof {
            lemma_count_entries_map(self.es());
        }
        match self.position(key) {
            Some(i) => {
                assert(self.es()[i as int].1 == self.entries@[i as int].1);
                assert(self@ == count_entries_map(self.es()));
                assert(count_entries_map(self.es()).contains_key(self.es()[i as int].0));
                Some(self.entries[i].1)
            },
            None => None,
        }
    }

    pub fn contains_key(&self, key: &str) -> (r: bool)
        requires
            self.wf(),
        ensures
            r == self@.contains_key(key@),
    {
        self.get(key).is_some()
    }

    /// Sets the count of `key`.
    pub fn set(&mut self, key: &str, value: u64)
        requires
            old(self).wf(),
        ensures
            final(self).wf(),
            final(self)@ == old(self)@.insert(key@, value),
    {
        let ghost es0 = self.es();
        proof {
            lemma_count_entries_map(es0);
        }
        match self.position(key) {
            Some(i) => {
                self.entries.set(i, (owned(key), value));
                let ghost es1 = self.es();
                assert(es1 =~= es0.update(i as int, (es0[i as int].0, value)));
                proof {
                    lemma_count_update(es0, i as int, value);
                }
            },
            None => {
                self.entries.push((owned(key), value));
                let ghost es1 = self.es();
                assert(es1 =~= es0.push((key@, value)));
                assert(es1.drop_last() =~= es0);
                assert forall|a: int, b: int| 0 <= a < es1.len() && 0 <= b < es1.len() && a != b implies es1[a].0 != es1[b].0 by {
                    if a < es0.len() && b < es0.len() {
                        assert(es1[a] == es0[a] && es1[b] == es0[b]);
                    } else if a < es0.len() {
                        assert(es1[a] == es0[a]);
                        assert(count_entries_map(es0).contains_key(es0[a].0));
                    } else {
                        assert(es1[b] == es0[b]);
                        assert(count_entries_map(es0).contains_key(es0[b].0));
                    }
                }
            },
        }
    }

    /// Adds one to the count of `key` (a new key starts at 0).
    pub fn increment(&mut self, key: &str)
        requires
            old(self).wf(),
            old(self)@.contains_key(key@) ==> old(self)@[key@] < u64::MAX,
        ensures
            final(self).wf(),
            final(self)@ == old(self)@.insert(
                key@,
                (if old(self)@.contains_key(key@) {
                    old(self)@[key@] + 1
                } else {
                    1
                }) as u64,
            ),
    {
        let next = match self.get(key) {
            Some(c) => c + 1,
            None => 1,
        };
        self.set(key, next);
    }

    /// The (key, count) pairs.
    pub fn to_vec(&self) -> (r: Vec<(String, u64)>)
        requires
            self.wf(),
        ensures
            r@.len() == self@.dom().len(),
            forall|i: int| 0 <= i < r@.len() ==> #[trigger] self@.contains_key(r@[i].0@) && self@[r@[i].0@] == r@[i].1,
            forall|i: int, j: int| 0 <= i < r@.len() && 0 <= j < r@.len() && i != j ==> r@[i].0@ != r@[j].0@,
            forall|k: Seq<char>| #[trigger] self@.contains_key(k) ==> exists|i: int| 0 <= i < r@.len() && r@[i].0@ == k,
    {
        proof {
            lemma_count_entries_map(self.es());
        }
        let mut out: Vec<(String, u64)> = Vec::new();
        let mut i: usize = 0;
        while i < self.entries.len()
            invariant
                i <= self.entries@.len(),
                out@.len() == i,
                forall|k: int| 0 <= k < i ==> #[trigger] out@[k].0@ == self.es()[k].0 && out@[k].1 == self.es()[k].1,
            decreases self.entries@.len() - i,
        {
            assert(self.es()[i as int] == (self.entries@[i as int].0@, self.entries@[i as int].1));
            out.push((owned(self.entries[i].0.as_str()), self.entries[i].1));
            i = i + 1;
        }
        assert(self@ == count_entries_map(self.es()));
        assert forall|k: Seq<char>| #[trigger] self@.contains_key(k) implies exists|i: int|
            0 <= i < out@.len() && out@[i].0@ == k by {
            let i = choose|i: int| 0 <= i < self.es().len() && self.es()[i].0 == k;
            assert(out@[i].0@ == k);
        }
        assert forall|i: int| 0 <= i < out@.len() implies #[trigger] self@.contains_key(out@[i].0@) && self@[out@[i].0@] == out@[i].1 by {
            assert(count_entries_map(self.es()).contains_key(self.es()[i].0));
        }
        out
    }
}

// ---------------------------------------------------------------------------
// SPARQL result rows
// ---------------------------------------------------------------------------

/// `row.pointer("/var/value")` as a string: the value of a binding.
pub open spec fn row_value(row: JsonValue, var: Seq<char>) -> Option<Seq<char>> {
    match get_spec(row, var) {
        Some(term) => get_str_spec(term, "value"@),
        None => None,
    }
}

/// The count in a row's "c" binding, when it parses as a `u64`.
pub open spec fn row_count(row: JsonValue) -> Option<u64> {
    match row_value(row, "c"@) {
        Some(t) => match parse_unsigned(t, u64::MAX as nat) {
            Some(n) => Some(n as u64),
            None => None,
        },
        None => None,
    }
}

/// The counts of COUNT query rows (`var` -> count); a later row for the
/// same key wins; rows without both parts are skipped.
pub open spec fn binding_counts_spec(rows: Seq<JsonValue>, var: Seq<char>) -> Map<Seq<char>, u64>
    decreases rows.len(),
{
    if rows.len() == 0 {
        Map::empty()
    } else {
        let prev = binding_counts_spec(rows.drop_last(), var);
        match (row_value(rows.last(), var), row_count(rows.last())) {
            (Some(k), Some(c)) => prev.insert(k, c),
            _ => prev,
        }
    }
}

pub fn row_value_of<'a>(row: &'a Json, var: &str) -> (r: Option<&'a String>)
    ensures
        match r {
            Some(s) => row_value(row@, var@) == Some(s@),
            None => row_value(row@, var@) is None,
        },
{
    match row.get(var) {
        Some(term) => term.get_str("value"),
        None => None,
    }
}

pub fn row_count_of(row: &Json) -> (r: Option<u64>)
    ensures
        r == row_count(row@),
{
    match row_value_of(row, "c") {
        Some(t) => parse_u64(t.as_str()),
        None => None,
    }
}

pub open spec fn rows_view(rows: Seq<Json>) -> Seq<JsonValue> {
    rows.map_values(|r: Json| r@)
}

/// Maps COUNT query rows ({var: {value}, c: {value}}) to var -> count.
pub fn binding_counts(rows: &[Json], var: &str) -> (r: CountMap)
    ensures
        r.wf(),
        r@ == binding_counts_spec(rows_view(rows@), var@),
{
    let ghost rv = rows_view(rows@);
    let mut m = CountMap::new();
    let mut i: usize = 0;
    while i < rows.len()
        invariant
            i <= rows@.len(),
            rv == rows_view(rows@),
            m.wf(),
            m@ == binding_counts_spec(rv.take(i as int), var@),
        decreases rows@.len() - i,
    {
        assert(rv.take(i + 1).drop_last() =~= rv.take(i as int));
        assert(rv[i as int] == rows@[i as int]@);
        match (row_value_of(&rows[i], var), row_count_of(&rows[i])) {
            (Some(k), Some(c)) => {
                m.set(k.as_str(), c);
            },
            _ => {},
        }
        i = i + 1;
    }
    assert(rv.take(i as int) =~= rv);
    m
}

/// The count of the first row, 0 when there is none or it does not parse.
pub open spec fn first_count_spec(rows: Seq<JsonValue>) -> u64 {
    if rows.len() > 0 && row_count(rows[0]) is Some {
        row_count(rows[0])->0
    } else {
        0
    }
}

pub fn first_count(rows: &[Json]) -> (r: u64)
    ensures
        r == first_count_spec(rows_view(rows@)),
{
    if rows.len() == 0 {
        return 0;
    }
    assert(rows_view(rows@)[0] == rows@[0]@);
    match row_count_of(&rows[0]) {
        Some(c) => c,
        None => 0,
    }
}

// ---------------------------------------------------------------------------
// maintained cardinalities
// ---------------------------------------------------------------------------

/// Per-class instance counts, per-predicate and per-subject triple
/// counts, and the total: exact for writes through this service.
pub struct Cardinality {
    classes: CountMap,
    predicates: CountMap,
    subjects: CountMap,
    total_triples: u64,
}

/// Model: (classes, predicates, subjects, total).
pub type CardinalityModel = (Map<Seq<char>, u64>, Map<Seq<char>, u64>, Map<Seq<char>, u64>, u64);

pub open spec fn bumped(m: Map<Seq<char>, u64>, k: Seq<char>) -> Map<Seq<char>, u64> {
    m.insert(
        k,
        (if m.contains_key(k) {
            m[k] + 1
        } else {
            1
        }) as u64,
    )
}

pub open spec fn below_max(m: Map<Seq<char>, u64>, k: Seq<char>) -> bool {
    m.contains_key(k) ==> m[k] < u64::MAX
}

/// The estimate the counters give for a fragment pattern, if they cover
/// it: all triples, a predicate's triples, or a subject's triples.
pub open spec fn estimate_spec(c: CardinalityModel, s: Option<Seq<char>>, p: Option<Seq<char>>, o: Option<Seq<char>>) -> Option<u64> {
    match (s, p, o) {
        (None, None, None) => Some(c.3),
        (None, Some(pk), None) => if c.1.contains_key(pk) {
            Some(c.1[pk])
        } else {
            None
        },
        (Some(sk), None, None) => if c.2.contains_key(sk) {
            Some(c.2[sk])
        } else {
            None
        },
        _ => None,
    }
}

pub open spec fn opt_str_view(o: Option<&str>) -> Option<Seq<char>> {
    match o {
        Some(s) => Some(s@),
        None => None,
    }
}

/// The counters after one recorded insert of (s, p, o), where `rdf` is
/// the rdf:type predicate.
pub open spec fn record_model(
    c: CardinalityModel,
    s: Seq<char>,
    p: Seq<char>,
    o: Option<Seq<char>>,
    rdf: Seq<char>,
) -> CardinalityModel {
    (
        if p == rdf && o is Some {
            bumped(c.0, o->0)
        } else {
            c.0
        },
        bumped(c.1, p),
        bumped(c.2, s),
        (c.3 + 1) as u64,
    )
}

/// The counters after recording each insert of `xs` in turn.
pub open spec fn records(
    c: CardinalityModel,
    xs: Seq<(Seq<char>, Seq<char>, Option<Seq<char>>)>,
    rdf: Seq<char>,
) -> CardinalityModel
    decreases xs.len(),
{
    if xs.len() == 0 {
        c
    } else {
        let x = xs.last();
        record_model(records(c, xs.drop_last(), rdf), x.0, x.1, x.2, rdf)
    }
}

impl View for Cardinality {
    type V = CardinalityModel;

    closed spec fn view(&self) -> CardinalityModel {
        (self.classes@, self.predicates@, self.subjects@, self.total_triples)
    }
}

impl Default for Cardinality {
    fn default() -> (r: Self)
        ensures
            r.wf(),
            r@ == (Map::<Seq<char>, u64>::empty(), Map::<Seq<char>, u64>::empty(), Map::<Seq<char>, u64>::empty(), 0u64),
    {
        Cardinality::new()
    }
}

impl Cardinality {
    pub closed spec fn wf(&self) -> bool {
        self.classes.wf() && self.predicates.wf() && self.subjects.wf()
    }

    /// All counters empty.
    pub fn new() -> (r: Self)
        ensures
            r.wf(),
            r@ == (Map::<Seq<char>, u64>::empty(), Map::<Seq<char>, u64>::empty(), Map::<Seq<char>, u64>::empty(), 0u64),
    {
        Cardinality { classes: CountMap::new(), predicates: CountMap::new(), subjects: CountMap::new(), total_triples: 0 }
    }

    /// Counters seeded from the results of the GROUP BY queries (classes,
    /// predicates, subjects) and of the total COUNT query.
    pub fn from_rows(class_rows: &[Json], pred_rows: &[Json], subj_rows: &[Json], total_rows: &[Json]) -> (r: Self)
        ensures
            r.wf(),
            r@ == (
                binding_counts_spec(rows_view(class_rows@), "class"@),
                binding_counts_spec(rows_view(pred_rows@), "p"@),
                binding_counts_spec(rows_view(subj_rows@), "s"@),
                first_count_spec(rows_view(total_rows@)),
            ),
    {
        Cardinality {
            classes: binding_counts(class_rows, "class"),
            predicates: binding_counts(pred_rows, "p"),
            subjects: binding_counts(subj_rows, "s"),
            total_triples: first_count(total_rows),
        }
    }

    /// Counts one inserted triple: the predicate and the subject gain one,
    /// the class gains an instance when the predicate is rdf:type, and the
    /// total grows.
    pub fn record_insert(&mut self, subject_uri: &str, predicate_uri: &str, object_uri: Option<&str>, rdf_type_uri: &str)
        requires
            old(self).wf(),
            predicate_uri@ == rdf_type_uri@ && object_uri is Some ==> below_max(old(self)@.0, object_uri->0@),
            below_max(old(self)@.1, predicate_uri@),
            below_max(old(self)@.2, subject_uri@),
            old(self)@.3 < u64::MAX,
        ensures
            final(self).wf(),
            final(self)@.0 == if predicate_uri@ == rdf_type_uri@ && object_uri is Some {
                bumped(old(self)@.0, object_uri->0@)
            } else {
                old(self)@.0
            },
            final(self)@.1 == bumped(old(self)@.1, predicate_uri@),
            final(self)@.2 == bumped(old(self)@.2, subject_uri@),
            final(self)@.3 == old(self)@.3 + 1,
            final(self)@ == record_model(
                old(self)@,
                subject_uri@,
                predicate_uri@,
                opt_str_view(object_uri),
                rdf_type_uri@,
            ),
    {
        if str_eq(predicate_uri, rdf_type_uri) {
            match object_uri {
                Some(class) => {
                    self.classes.increment(class);
                },
                None => {},
            }
        }
        self.predicates.increment(predicate_uri);
        self.subjects.increment(subject_uri);
        self.total_triples = self.total_triples + 1;
    }

    /// The count estimate for a fragment pattern, when the counters cover
    /// it (else the caller counts on the server).
    pub fn estimate_for(&self, subject: Option<&str>, predicate: Option<&str>, object: Option<&str>) -> (r: Option<u64>)
        requires
            self.wf(),
        ensures
            r == estimate_spec(self@, opt_str_view(subject), opt_str_view(predicate), opt_str_view(object)),
    {
        match (subject, predicate, object) {
            (None, None, None) => Some(self.total_triples),
            (None, Some(p), None) => self.predicates.get(p),
            (Some(s), None, None) => self.subjects.get(s),
            _ => None,
        }
    }

    /// Whether the predicate has been seen.
    pub fn has_predicate(&self, uri: &str) -> (r: bool)
        requires
            self.wf(),
        ensures
            r == self@.1.contains_key(uri@),
    {
        self.predicates.contains_key(uri)
    }

    /// The instance count of a class, if it has one.
    pub fn class_count(&self, uri: &str) -> (r: Option<u64>)
        requires
            self.wf(),
        ensures
            match r {
                Some(c) => self@.0.contains_key(uri@) && self@.0[uri@] == c,
                None => !self@.0.contains_key(uri@),
            },
    {
        self.classes.get(uri)
    }

    /// Whether the class has been seen.
    pub fn has_class(&self, uri: &str) -> (r: bool)
        requires
            self.wf(),
        ensures
            r == self@.0.contains_key(uri@),
    {
        self.classes.contains_key(uri)
    }
}

/// After recording a triple, the counters cover its predicate and its
/// subject, and the whole-store estimate is one larger.
pub proof fn lemma_record_then_estimate(before: CardinalityModel, after: CardinalityModel, s: Seq<char>, p: Seq<char>)
    requires
        after.1 == bumped(before.1, p),
        after.2 == bumped(before.2, s),
        after.3 == before.3 + 1,
    ensures
        estimate_spec(after, None, Some(p), None) == Some(
            (if before.1.contains_key(p) {
                before.1[p] + 1
            } else {
                1
            }) as u64,
        ),
        estimate_spec(after, Some(s), None, None) == Some(
            (if before.2.contains_key(s) {
                before.2[s] + 1
            } else {
                1
            }) as u64,
        ),
        estimate_spec(after, None, None, None) == Some(after.3),
        after.3 == before.3 + 1,
{
}

/// Over any run of recorded inserts, a predicate is covered exactly when
/// it was covered before or some insert used it, and a class exactly when
/// it was covered before or some rdf:type insert named it. From empty
/// counters: `has_predicate(u)` holds exactly when an insert used `u`.
pub proof fn lemma_records_cover(
    c: CardinalityModel,
    xs: Seq<(Seq<char>, Seq<char>, Option<Seq<char>>)>,
    rdf: Seq<char>,
    u: Seq<char>,
)
    ensures
        records(c, xs, rdf).1.contains_key(u) <==> (c.1.contains_key(u) || exists|i: int|
            0 <= i < xs.len() && #[trigger] xs[i].1 == u),
        records(c, xs, rdf).0.contains_key(u) <==> (c.0.contains_key(u) || exists|i: int|
            0 <= i < xs.len() && #[trigger] xs[i].1 == rdf && xs[i].2 == Some(u)),
    decreases xs.len(),
{
    if xs.len() > 0 {
        let d = xs.drop_last();
        let n = xs.len() - 1;
        lemma_records_cover(c, d, rdf, u);
        assert forall|i: int| 0 <= i < d.len() implies d[i] == xs[i] by {}
        if exists|i: int| 0 <= i < d.len() && #[trigger] d[i].1 == u {
            let i = choose|i: int| 0 <= i < d.len() && #[trigger] d[i].1 == u;
            assert(xs[i].1 == u);
        }
        if exists|i: int| 0 <= i < xs.len() && #[trigger] xs[i].1 == u {
            let i = choose|i: int| 0 <= i < xs.len() && #[trigger] xs[i].1 == u;
            if i < n {
                assert(d[i].1 == u);
            }
        }
        if exists|i: int| 0 <= i < d.len() && #[trigger] d[i].1 == rdf && d[i].2 == Some(u) {
            let i = choose|i: int| 0 <= i < d.len() && #[trigger] d[i].1 == rdf && d[i].2 == Some(u);
            assert(xs[i].1 == rdf && xs[i].2 == Some(u));
        }
        if exists|i: int| 0 <= i < xs.len() && #[trigger] xs[i].1 == rdf && xs[i].2 == Some(u) {
            let i = choose|i: int| 0 <= i < xs.len() && #[trigger] xs[i].1 == rdf && xs[i].2 == Some(u);
            if i < n {
                assert(d[i].1 == rdf && d[i].2 == Some(u));
            }
        }
    }
}

} // verus!
