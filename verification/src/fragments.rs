//! Triple Pattern Fragments: the pagination cursor, the SPARQL of a
//! fragment page and of its count, and the page assembled from the
//! results.
use vstd::prelude::*;

use crate::counts::{first_count_spec, row_count_of, rows_view, Cardinality, estimate_spec, opt_str_view};
use crate::crypto::{b64_char, b64_decode, b64_decoded, b64_encode, b64_encoded, utf8_decode};
use crate::json::{json_quote, json_quoted, Json};
use crate::store::{escape_literal, escape_literal_spec};
use crate::text::{dec, is_prefix, owned, push_all, starts_with, u64_dec};
use vstd::utf8::{decode_utf8, encode_utf8, valid_utf8};

verus! {

/// A pagination cursor: the string forms of the last-seen triple.
#[derive(Debug, Clone)]
pub struct Cursor {
    pub s: String,
    pub p: String,
    pub o: String,
}

/// The positional "after this triple" filter over ?sv ?pv ?ov.
pub open spec fn filter_spec(s: Seq<char>, p: Seq<char>, o: Seq<char>) -> Seq<char> {
    let (s, p, o) = (escape_literal_spec(s), escape_literal_spec(p), escape_literal_spec(o));
    "FILTER(?sv > "@ + s + " || (?sv = "@ + s + " && (?pv > "@ + p + " || (?pv = "@ + p + " && ?ov > "@
        + o + "))))"@
}

/// The cursor's JSON text: `[s, p, o]` as a compact JSON array.
pub open spec fn cursor_json(s: Seq<char>, p: Seq<char>, o: Seq<char>) -> Seq<char> {
    seq!['['] + json_quoted(s) + seq![','] + json_quoted(p) + seq![','] + json_quoted(o) + seq![']']
}

/// The opaque cursor token: URL-safe base64 of the cursor's JSON text.
pub open spec fn cursor_token(s: Seq<char>, p: Seq<char>, o: Seq<char>) -> Seq<char> {
    b64_encoded(encode_utf8(cursor_json(s, p, o)))
}

/// A JSON array of exactly three strings, parsed.
pub uninterp spec fn json_string_triple(text: Seq<char>) -> Option<(Seq<char>, Seq<char>, Seq<char>)>;

/// `serde_json::from_str::<[String; 3]>(text).ok()`. What
/// `serde_json::to_string` writes for three strings parses back to them;
/// a text without any '[' (the empty text among them) holds no array and
/// is refused.
#[verifier::external_body]
fn parse_string_triple(text: &str) -> (r: Option<(String, String, String)>)
    ensures
        match r {
            Some(t) => json_string_triple(text@) == Some((t.0@, t.1@, t.2@)),
            None => json_string_triple(text@) is None,
        },
        forall|a: Seq<char>, b: Seq<char>, c: Seq<char>|
            text@ == #[trigger] cursor_json(a, b, c) ==> r is Some && (r->0).0@ == a && (r->0).1@ == b && (r->0).2@ == c,
        !text@.contains('[') ==> r is None,
{
    let arr: [String; 3] = serde_json::from_str(text).ok()?;
    let [s, p, o] = arr;
    Some((s, p, o))
}

/// What decoding a cursor token gives.
pub open spec fn cursor_decode_spec(token: Seq<char>) -> Option<(Seq<char>, Seq<char>, Seq<char>)> {
    match b64_decoded(token) {
        Some(bytes) => if valid_utf8(bytes) {
            json_string_triple(decode_utf8(bytes))
        } else {
            None
        },
        None => None,
    }
}

impl Cursor {
    pub open spec fn model(&self) -> (Seq<char>, Seq<char>, Seq<char>) {
        (self.s@, self.p@, self.o@)
    }

    /// The "after this triple" filter, over the STR() forms the fragment
    /// query binds as ?sv ?pv ?ov.
    pub fn filter_expression(&self) -> (r: String)
        ensures
            r@ == filter_spec(self.s@, self.p@, self.o@),
    {
        let s = escape_literal(self.s.as_str());
        let p = escape_literal(self.p.as_str());
        let o = escape_literal(self.o.as_str());
        let mut r = owned("FILTER(?sv > ");
        push_all(&mut r, s.as_str());
        push_all(&mut r, " || (?sv = ");
        push_all(&mut r, s.as_str());
        push_all(&mut r, " && (?pv > ");
        push_all(&mut r, p.as_str());
        push_all(&mut r, " || (?pv = ");
        push_all(&mut r, p.as_str());
        push_all(&mut r, " && ?ov > ");
        push_all(&mut r, o.as_str());
        push_all(&mut r, "))))");
        r
    }

    /// The opaque token: base64 of the JSON array [s, p, o].
    pub fn encode(&self) -> (r: String)
        ensures
            r@ == cursor_token(self.s@, self.p@, self.o@),
    {
        let mut doc = String::new();
        doc.push('[');
        let q = json_quote(self.s.as_str());
        push_all(&mut doc, q.as_str());
        doc.push(',');
        let q = json_quote(self.p.as_str());
        push_all(&mut doc, q.as_str());
        doc.push(',');
        let q = json_quote(self.o.as_str());
        push_all(&mut doc, q.as_str());
        doc.push(']');
        assert(doc@ == cursor_json(self.s@, self.p@, self.o@));
        b64_encode(doc.as_str().as_bytes())
    }

    /// Reads a cursor token back; a token this service issued reads back
    /// as the cursor it encodes.
    pub fn decode(encoded: &str) -> (r: Option<Cursor>)
        ensures
            match r {
                Some(c) => cursor_decode_spec(encoded@) == Some(c.model()),
                None => cursor_decode_spec(encoded@) is None,
            },
            forall|a: Seq<char>, b: Seq<char>, c: Seq<char>|
                encoded@ == #[trigger] cursor_token(a, b, c) ==> r is Some && r->0.model() == (a, b, c),
            encoded@.len() == 0 ==> r is None,
            (exists|i: int| 0 <= i < encoded@.len() && !b64_char(#[trigger] encoded@[i])) ==> r is None,
    {
        let bytes = match b64_decode(encoded) {
            Some(b) => b,
            None => {
                return None;
            },
        };
        let ghost bv = bytes@;
        proof {
            assert forall|a: Seq<char>, b: Seq<char>, c: Seq<char>|
                encoded@ == #[trigger] cursor_token(a, b, c) implies valid_utf8(bv) by {
                vstd::utf8::encode_utf8_valid_utf8(cursor_json(a, b, c));
            }
        }
        let text = match utf8_decode(bytes) {
            Some(t) => t,
            None => {
                return None;
            },
        };
        let parsed = parse_string_triple(text.as_str());
        proof {
            if encoded@.len() == 0 {
                assert(bv.len() == 0);
                assert(text@ =~= Seq::<char>::empty());
                assert(!text@.contains('['));
            }
            assert forall|a: Seq<char>, b: Seq<char>, c: Seq<char>|
                encoded@ == #[trigger] cursor_token(a, b, c) implies parsed is Some && (parsed->0).0@ == a
                && (parsed->0).1@ == b && (parsed->0).2@ == c by {
                let j = cursor_json(a, b, c);
                vstd::utf8::encode_utf8_decode_utf8(j);
                assert(bv == encode_utf8(j));
                assert(text@ == j);
            }
        }
        match parsed {
            Some((s, p, o)) => Some(Cursor { s, p, o }),
            None => None,
        }
    }
}

// ---------------------------------------------------------------------------
// fragment queries
// ---------------------------------------------------------------------------

/// A concrete term in a pattern: URIs in angle brackets; objects without
/// an http(s) scheme are plain literals.
pub open spec fn uri_term(u: Seq<char>) -> Seq<char> {
    seq!['<'] + u + seq!['>']
}

pub open spec fn object_term(o: Seq<char>) -> Seq<char> {
    if is_prefix("http://"@, o) || is_prefix("https://"@, o) {
        uri_term(o)
    } else {
        escape_literal_spec(o)
    }
}

/// The three positions of a pattern: concrete terms, or the variables
/// ?s ?p ?o for wildcards.
pub open spec fn pattern_parts_spec(s: Option<Seq<char>>, p: Option<Seq<char>>, o: Option<Seq<char>>) -> Seq<
    (Seq<char>, Seq<char>),
> {
    seq![
        ("s"@, match s {
            Some(x) => uri_term(x),
            None => "?s"@,
        }),
        ("p"@, match p {
            Some(x) => uri_term(x),
            None => "?p"@,
        }),
        ("o"@, match o {
            Some(x) => object_term(x),
            None => "?o"@,
        }),
    ]
}

fn uri_term_of(u: &str) -> (r: String)
    ensures
        r@ == uri_term(u@),
{
    let mut r = String::new();
    r.push('<');
    push_all(&mut r, u);
    r.push('>');
    r
}

pub fn pattern_parts(subject: Option<&str>, predicate: Option<&str>, object: Option<&str>) -> (r: Vec<
    (&'static str, String),
>)
    ensures
        r@.map_values(|e: (&'static str, String)| (e.0@, e.1@)) == pattern_parts_spec(
            opt_str_view(subject),
            opt_str_view(predicate),
            opt_str_view(object),
        ),
{
    let s = match subject {
        Some(x) => uri_term_of(x),
        None => owned("?s"),
    };
    let p = match predicate {
        Some(x) => uri_term_of(x),
        None => owned("?p"),
    };
    let o = match object {
        Some(x) => if starts_with(x, "http://") || starts_with(x, "https://") {
            uri_term_of(x)
        } else {
            escape_literal(x)
        },
        None => owned("?o"),
    };
    let r: Vec<(&'static str, String)> = vec![("s", s), ("p", p), ("o", o)];
    assert(r@.map_values(|e: (&'static str, String)| (e.0@, e.1@)) =~= pattern_parts_spec(
        opt_str_view(subject),
        opt_str_view(predicate),
        opt_str_view(object),
    ));
    r
}

/// Strings joined with single spaces.
pub open spec fn join_spaces(xs: Seq<Seq<char>>) -> Seq<char>
    decreases xs.len(),
{
    if xs.len() == 0 {
        Seq::empty()
    } else if xs.len() == 1 {
        xs[0]
    } else {
        join_spaces(xs.drop_last()) + seq![' '] + xs.last()
    }
}

pub fn join_with_spaces(xs: &Vec<String>) -> (r: String)
    ensures
        r@ == join_spaces(xs@.map_values(|s: String| s@)),
{
    let ghost v = xs@.map_values(|s: String| s@);
    let mut out = String::new();
    let mut i: usize = 0;
    while i < xs.len()
        invariant
            i <= xs@.len(),
            v == xs@.map_values(|s: String| s@),
            out@ == join_spaces(v.take(i as int)),
        decreases xs@.len() - i,
    {
        assert(v.take(i + 1).drop_last() =~= v.take(i as int));
        assert(v[i as int] == xs@[i as int]@);
        if i > 0 {
            out.push(' ');
        } else {
            assert(out@ =~= Seq::<char>::empty());
        }
        push_all(&mut out, xs[i].as_str());
        i = i + 1;
    }
    assert(v.take(i as int) =~= v);
    out
}

/// The BIND of a concrete position to its variable.
pub open spec fn bind_of(part: (Seq<char>, Seq<char>)) -> Seq<char> {
    "BIND("@ + part.1 + " AS ?"@ + part.0 + seq![')']
}

/// The BINDs and filter of a fragment query: concrete positions bound to
/// their variables, the string forms of the three terms, then the cursor
/// filter when paging after a cursor.
pub open spec fn concrete_binds(parts: Seq<(Seq<char>, Seq<char>)>) -> Seq<Seq<char>>
    decreases parts.len(),
{
    if parts.len() == 0 {
        Seq::empty()
    } else {
        let prev = concrete_binds(parts.drop_last());
        let e = parts.last();
        if e.1.len() > 0 && e.1[0] == '?' {
            prev
        } else {
            prev.push(bind_of(e))
        }
    }
}

pub open spec fn binds_spec(parts: Seq<(Seq<char>, Seq<char>)>, filter: Option<Seq<char>>) -> Seq<Seq<char>> {
    let concrete = concrete_binds(parts);
    let strs = seq!["BIND(STR(?s) AS ?sv)"@, "BIND(STR(?p) AS ?pv)"@, "BIND(STR(?o) AS ?ov)"@];
    match filter {
        Some(f) => concrete + strs + seq![f],
        None => concrete + strs,
    }
}

/// The triple pattern: the three terms.
pub open spec fn terms_spec(parts: Seq<(Seq<char>, Seq<char>)>) -> Seq<char> {
    parts[0].1 + seq![' '] + parts[1].1 + seq![' '] + parts[2].1
}

/// The graph pattern, in a named graph when one is given.
pub open spec fn in_graph(graph: Option<Seq<char>>, body: Seq<char>) -> Seq<char> {
    match graph {
        Some(g) => "GRAPH <"@ + g + "> { "@ + body + " }"@,
        None => "{ "@ + body + " }"@,
    }
}

/// The COUNT query of a pattern.
pub open spec fn count_query_spec(parts: Seq<(Seq<char>, Seq<char>)>, graph: Option<Seq<char>>) -> Seq<char> {
    "SELECT (COUNT(*) AS ?c) WHERE { "@ + in_graph(graph, terms_spec(parts)) + " }"@
}

/// The page query: ordered by the terms' string forms, one row more than
/// the limit (to tell whether more follow).
pub open spec fn page_query_spec(
    parts: Seq<(Seq<char>, Seq<char>)>,
    graph: Option<Seq<char>>,
    filter: Option<Seq<char>>,
    limit: nat,
    offset: nat,
) -> Seq<char> {
    "SELECT ?s ?p ?o WHERE { "@ + in_graph(
        graph,
        terms_spec(parts) + seq![' '] + join_spaces(binds_spec(parts, filter)),
    ) + " } ORDER BY ?sv ?pv ?ov LIMIT "@ + dec(limit + 1) + " OFFSET "@ + dec(offset)
}

/// A pattern's object is an IRI (in angle brackets) only when it has an
/// http(s) scheme; any other object is a quoted, escaped string literal.
/// Subject and predicate are IRIs, and absent positions the variables ?s
/// ?p ?o. The count query counts exactly that pattern, and the page query
/// selects over the same pattern.
pub proof fn lemma_pattern_terms(
    s: Option<Seq<char>>,
    p: Option<Seq<char>>,
    o: Seq<char>,
    graph: Option<Seq<char>>,
    filter: Option<Seq<char>>,
    limit: nat,
    offset: nat,
)
    ensures
        ({
            let parts = pattern_parts_spec(s, p, Some(o));
            let st = match s {
                Some(x) => seq!['<'] + x + seq!['>'],
                None => "?s"@,
            };
            let pt = match p {
                Some(x) => seq!['<'] + x + seq!['>'],
                None => "?p"@,
            };
            let literal = !is_prefix("http://"@, o) && !is_prefix("https://"@, o);
            let ot = if literal {
                escape_literal_spec(o)
            } else {
                seq!['<'] + o + seq!['>']
            };
            let pattern = st + seq![' '] + pt + seq![' '] + ot;
            let open = match graph {
                Some(g) => "GRAPH <"@ + g + "> { "@,
                None => "{ "@,
            };
            &&& parts[2].1 == ot
            &&& literal ==> ot[0] == '"' && ot.last() == '"'
            &&& count_query_spec(parts, graph) == "SELECT (COUNT(*) AS ?c) WHERE { "@ + open + pattern + " }"@
                + " }"@
            &&& is_prefix(
                "SELECT ?s ?p ?o WHERE { "@ + open + pattern + seq![' '],
                page_query_spec(parts, graph, filter, limit, offset),
            )
        }),
{
    let parts = pattern_parts_spec(s, p, Some(o));
    let pattern = terms_spec(parts);
    let open = match graph {
        Some(g) => "GRAPH <"@ + g + "> { "@,
        None => "{ "@,
    };
    let head = "SELECT ?s ?p ?o WHERE { "@ + open + pattern + seq![' '];
    let page = page_query_spec(parts, graph, filter, limit, offset);
    let body = join_spaces(binds_spec(parts, filter));
    let tail = " } ORDER BY ?sv ?pv ?ov LIMIT "@ + dec(limit + 1) + " OFFSET "@ + dec(offset);
    assert(page =~= head + (body + " }"@ + tail));
    assert(count_query_spec(parts, graph) =~= "SELECT (COUNT(*) AS ?c) WHERE { "@ + open + pattern + " }"@ + " }"@);
    assert(page.subrange(0, head.len() as int) =~= head);
}

fn in_graph_of(graph: Option<&str>, body: &str) -> (r: String)
    ensures
        r@ == in_graph(opt_str_view(graph), body@),
{
    match graph {
        Some(g) => {
            let mut r = owned("GRAPH <");
            push_all(&mut r, g);
            push_all(&mut r, "> { ");
            push_all(&mut r, body);
            push_all(&mut r, " }");
            r
        },
        None => {
            let mut r = owned("{ ");
            push_all(&mut r, body);
            push_all(&mut r, " }");
            r
        },
    }
}

pub open spec fn parts_view(v: Seq<(&'static str, String)>) -> Seq<(Seq<char>, Seq<char>)> {
    v.map_values(|e: (&'static str, String)| (e.0@, e.1@))
}

pub open spec fn cursor_filter(after: Option<&Cursor>) -> Option<Seq<char>> {
    match after {
        Some(c) => Some(filter_spec(c.s@, c.p@, c.o@)),
        None => None,
    }
}

/// The COUNT query and the page query of a fragment.
pub fn fragment_queries(
    subject: Option<&str>,
    predicate: Option<&str>,
    object: Option<&str>,
    graph: Option<&str>,
    limit: u64,
    offset: u64,
    after: Option<&Cursor>,
) -> (r: (String, String))
    requires
        limit < u64::MAX,
    ensures
        ({
            let parts = pattern_parts_spec(opt_str_view(subject), opt_str_view(predicate), opt_str_view(object));
            &&& r.0@ == count_query_spec(parts, opt_str_view(graph))
            &&& r.1@ == page_query_spec(parts, opt_str_view(graph), cursor_filter(after), limit as nat, offset as nat)
        }),
{
    let parts = pattern_parts(subject, predicate, object);
    let ghost pv = parts_view(parts@);
    assert(pv.len() == 3);
    let mut binds: Vec<String> = Vec::new();
    let mut i: usize = 0;
    while i < 3
        invariant
            i <= 3,
            parts@.len() == 3,
            pv == parts_view(parts@),
            binds@.map_values(|s: String| s@) == concrete_binds(pv.take(i as int)),
        decreases 3 - i,
    {
        let ghost before = binds@.map_values(|s: String| s@);
        assert(pv.take(i + 1).drop_last() =~= pv.take(i as int));
        assert(pv[i as int] == (parts@[i as int].0@, parts@[i as int].1@));
        let q = starts_with(parts[i].1.as_str(), "?");
        proof {
            reveal_strlit("?");
            let t = pv[i as int].1;
            if t.len() > 0 {
                assert(t.subrange(0, 1)[0] == t[0]);
                if t[0] == '?' {
                    assert(t.subrange(0, 1) =~= "?"@);
                }
            }
            assert(q == (t.len() > 0 && t[0] == '?'));
        }
        if !q {
            let mut b = owned("BIND(");
            push_all(&mut b, parts[i].1.as_str());
            push_all(&mut b, " AS ?");
            push_all(&mut b, parts[i].0);
            b.push(')');
            assert(b@ == bind_of(pv[i as int]));
            binds.push(b);
            assert(binds@.map_values(|s: String| s@) =~= before.push(bind_of(pv[i as int])));
        } else {
            assert(binds@.map_values(|s: String| s@) =~= before);
        }
        i = i + 1;
    }
    assert(pv.take(3) =~= pv);
    let ghost concrete = binds@.map_values(|s: String| s@);
    binds.push(owned("BIND(STR(?s) AS ?sv)"));
    binds.push(owned("BIND(STR(?p) AS ?pv)"));
    binds.push(owned("BIND(STR(?o) AS ?ov)"));
    match after {
        Some(c) => {
            binds.push(c.filter_expression());
        },
        None => {},
    }
    assert(binds@.map_values(|s: String| s@) =~= binds_spec(pv, cursor_filter(after)));
    let binds_str = join_with_spaces(&binds);
    let mut terms = owned(parts[0].1.as_str());
    terms.push(' ');
    push_all(&mut terms, parts[1].1.as_str());
    terms.push(' ');
    push_all(&mut terms, parts[2].1.as_str());
    assert(terms@ == terms_spec(pv));
    let mut body = owned(terms.as_str());
    body.push(' ');
    push_all(&mut body, binds_str.as_str());
    let pattern_where = in_graph_of(graph, body.as_str());
    let pattern_plain = in_graph_of(graph, terms.as_str());
    let mut count_q = owned("SELECT (COUNT(*) AS ?c) WHERE { ");
    push_all(&mut count_q, pattern_plain.as_str());
    push_all(&mut count_q, " }");
    let mut page_q = owned("SELECT ?s ?p ?o WHERE { ");
    push_all(&mut page_q, pattern_where.as_str());
    push_all(&mut page_q, " } ORDER BY ?sv ?pv ?ov LIMIT ");
    let l = u64_dec(limit + 1);
    push_all(&mut page_q, l.as_str());
    push_all(&mut page_q, " OFFSET ");
    let o = u64_dec(offset);
    push_all(&mut page_q, o.as_str());
    (count_q, page_q)
}

/// The maintained estimate is used for the total only when it covers the
/// pattern and the request pages neither after a cursor nor in a named
/// graph.
pub fn usable_estimate(
    cardinality: Option<&Cardinality>,
    subject: Option<&str>,
    predicate: Option<&str>,
    object: Option<&str>,
    graph: Option<&str>,
    after: Option<&Cursor>,
) -> (r: Option<u64>)
    requires
        cardinality matches Some(c) ==> c.wf(),
    ensures
        r == match cardinality {
            Some(c) => if after is None && graph is None {
                estimate_spec(c@, opt_str_view(subject), opt_str_view(predicate), opt_str_view(object))
            } else {
                None
            },
            None => None,
        },
{
    match cardinality {
        Some(c) => {
            let est = c.estimate_for(subject, predicate, object);
            if after.is_none() && graph.is_none() {
                est
            } else {
                None
            }
        },
        None => None,
    }
}

/// One page of a fragment.
pub struct FragmentPage {
    /// Raw SPARQL bindings (?s ?p ?o) of this page.
    pub bindings: Vec<Json>,
    /// Exact total, or the maintained estimate when one covers the pattern.
    pub total: u64,
    pub has_more: bool,
}

/// The page from the rows of the page query (at most `limit + 1`) and the
/// total: more rows than the limit means more pages follow; the page
/// holds the first `limit` rows.
pub fn assemble_page(rows: Vec<Json>, limit: u64, total: u64) -> (r: FragmentPage)
    ensures
        r.total == total,
        r.has_more == (rows@.len() > limit),
        r.bindings@ == if rows@.len() > limit {
            rows@.take(limit as int)
        } else {
            rows@
        },
{
    let has_more = rows.len() as u64 > limit;
    let mut bindings = rows;
    if has_more {
        bindings.truncate(limit as usize);
    }
    FragmentPage { bindings, total, has_more }
}

/// The total from the COUNT query's rows (0 when they hold no count).
pub fn total_from_rows(rows: &[Json]) -> (r: u64)
    ensures
        r == first_count_spec(rows_view(rows@)),
{
    crate::counts::first_count(rows)
}

} // verus!
