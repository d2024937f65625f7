//! The order of strings (`String`'s `Ord`: lexicographic by code point)
//! and sorted, duplicate-free lists of strings.
use vstd::prelude::*;

use crate::json::{canon, canon_members, insert_sorted, key_less, key_lt, sort_members, str_eq, JsonValue};
use crate::text::owned;
use vstd::multiset::Multiset;

verus! {

pub proof fn lemma_key_lt_irreflexive(a: Seq<char>)
    ensures
        !key_lt(a, a),
    decreases a.len(),
{
    if a.len() > 0 {
        lemma_key_lt_irreflexive(a.drop_first());
    }
}

pub proof fn lemma_key_lt_transitive(a: Seq<char>, b: Seq<char>, c: Seq<char>)
    requires
        key_lt(a, b),
        key_lt(b, c),
    ensures
        key_lt(a, c),
    decreases a.len(),
{
    if a.len() > 0 && b.len() > 0 && c.len() > 0 && a[0] == b[0] && b[0] == c[0] {
        lemma_key_lt_transitive(a.drop_first(), b.drop_first(), c.drop_first());
    }
}

pub proof fn lemma_key_lt_total(a: Seq<char>, b: Seq<char>)
    requires
        a != b,
    ensures
        key_lt(a, b) || key_lt(b, a),
    decreases a.len(),
{
    if a.len() > 0 && b.len() > 0 && a[0] == b[0] {
        if a.drop_first() == b.drop_first() {
            assert(a =~= seq![a[0]] + a.drop_first());
            assert(b =~= seq![b[0]] + b.drop_first());
        }
        lemma_key_lt_total(a.drop_first(), b.drop_first());
    } else if a.len() > 0 && b.len() > 0 {
        vstd::utf8::char_u32_cast(a[0], a[0] as u32);
        vstd::utf8::char_u32_cast(b[0], b[0] as u32);
        assert((a[0] as u32) != (b[0] as u32));
    } else if a.len() == 0 && b.len() == 0 {
        assert(a =~= b);
    }
}

/// Strictly increasing: sorted, and no string twice.
pub open spec fn strictly_sorted(s: Seq<Seq<char>>) -> bool {
    forall|i: int, j: int| 0 <= i < j < s.len() ==> key_lt(s[i], s[j])
}

pub open spec fn texts(v: Seq<String>) -> Seq<Seq<char>> {
    v.map_values(|s: String| s@)
}

/// The distinct strings of `v`, sorted (`sort` then `dedup`).
pub fn sorted_unique(v: &Vec<String>) -> (r: Vec<String>)
    ensures
        strictly_sorted(texts(r@)),
        texts(r@).to_set() == texts(v@).to_set(),
{
    let ghost tv = texts(v@);
    let mut out: Vec<String> = Vec::new();
    let mut i: usize = 0;
    assert(texts(out@).to_set() =~= tv.take(0).to_set());
    while i < v.len()
        invariant
            i <= v@.len(),
            tv == texts(v@),
            strictly_sorted(texts(out@)),
            texts(out@).to_set() == tv.take(i as int).to_set(),
        decreases v@.len() - i,
    {
        let x = v[i].as_str();
        let ghost ov = texts(out@);
        assert(tv.take(i + 1) =~= tv.take(i as int).push(x@));
        proof {
            tv.take(i as int).lemma_push_to_set_commute(x@);
        }
        let mut p: usize = 0;
        while p < out.len() && key_less(out[p].as_str(), x)
            invariant
                p <= out@.len(),
                ov == texts(out@),
                forall|j: int| 0 <= j < p ==> key_lt(#[trigger] ov[j], x@),
            decreases out@.len() - p,
        {
            p = p + 1;
        }
        if p < out.len() && str_eq(out[p].as_str(), x) {
            assert(ov[p as int] == x@);
            assert(tv.take(i + 1).to_set() =~= tv.take(i as int).to_set().insert(x@));
            assert(ov.to_set().contains(x@));
            assert(tv.take(i + 1).to_set() =~= ov.to_set());
        } else {
            let ghost xs = x@;
            out.insert(p, owned(x));
            let ghost nv = texts(out@);
            assert(nv =~= ov.insert(p as int, xs));
            proof {
                if p < ov.len() {
                    assert(!key_lt(ov[p as int], xs));
                    assert(ov[p as int] != xs);
                    lemma_key_lt_total(ov[p as int], xs);
                }
                assert forall|a: int, b: int| 0 <= a < b < nv.len() implies key_lt(nv[a], nv[b]) by {
                    if a < p && b < p {
                    } else if a < p && b == p {
                    } else if a < p && b > p {
                        assert(key_lt(ov[a], xs));
                        assert(nv[b] == ov[b - 1]);
                        if b - 1 > p {
                            assert(key_lt(ov[p as int], ov[b - 1]));
                            lemma_key_lt_transitive(xs, ov[p as int], ov[b - 1]);
                        }
                        lemma_key_lt_transitive(ov[a], xs, nv[b]);
                    } else if a == p {
                        assert(nv[b] == ov[b - 1]);
                        if b - 1 > p {
                            assert(key_lt(ov[p as int], ov[b - 1]));
                            lemma_key_lt_transitive(xs, ov[p as int], ov[b - 1]);
                        }
                    } else {
                        assert(nv[a] == ov[a - 1] && nv[b] == ov[b - 1]);
                    }
                }
                assert(nv.to_set() =~= ov.to_set().insert(xs)) by {
                    assert forall|y: Seq<char>| nv.to_set().contains(y) <==> ov.to_set().insert(xs).contains(y) by {
                        if nv.to_set().contains(y) {
                            let k = choose|k: int| 0 <= k < nv.len() && nv[k] == y;
                            if k < p {
                                assert(ov[k] == y);
                            } else if k > p {
                                assert(ov[k - 1] == y);
                            }
                        }
                        if ov.to_set().contains(y) {
                            let k = choose|k: int| 0 <= k < ov.len() && ov[k] == y;
                            if k < p {
                                assert(nv[k] == y);
                            } else {
                                assert(nv[k + 1] == y);
                            }
                        }
                        if y == xs {
                            assert(nv[p as int] == y);
                        }
                    }
                }
                assert(tv.take(i + 1).to_set() =~= tv.take(i as int).to_set().insert(xs));
            }
        }
        i = i + 1;
    }
    assert(tv.take(i as int) =~= tv);
    out
}

// ---------------------------------------------------------------------------
// the canonical form does not depend on the order of object members
// ---------------------------------------------------------------------------

pub type Member = (Seq<char>, JsonValue);

/// Members in non-decreasing key order.
pub open spec fn keys_sorted(s: Seq<Member>) -> bool {
    forall|i: int, j: int| 0 <= i < j < s.len() ==> !key_lt(#[trigger] s[j].0, #[trigger] s[i].0)
}

/// Members in strictly increasing key order.
pub open spec fn keys_strict(s: Seq<Member>) -> bool {
    forall|i: int, j: int| 0 <= i < j < s.len() ==> key_lt(#[trigger] s[i].0, #[trigger] s[j].0)
}

/// No key occurs twice.
pub open spec fn member_keys_distinct(s: Seq<Member>) -> bool {
    forall|i: int, j: int| 0 <= i < j < s.len() ==> #[trigger] s[i].0 != #[trigger] s[j].0
}

proof fn lemma_prepend_multiset(e: Member, s: Seq<Member>)
    ensures
        (seq![e] + s).to_multiset() == s.to_multiset().insert(e),
{
    let r = seq![e] + s;
    r.to_multiset_ensures();
    s.to_multiset_ensures();
    assert(r.remove(0) =~= s);
    assert(r.contains(e)) by {
        assert(r[0] == e);
    }
    assert(r.to_multiset().count(e) > 0);
    assert(r.to_multiset() =~= s.to_multiset().insert(e));
}

proof fn lemma_seq_contains_multiset(a: Seq<Member>, b: Seq<Member>, x: Member)
    requires
        a.to_multiset() == b.to_multiset(),
    ensures
        a.contains(x) <==> b.contains(x),
{
    a.to_multiset_ensures();
    b.to_multiset_ensures();
    assert(a.contains(x) <==> a.to_multiset().count(x) > 0);
    assert(b.contains(x) <==> b.to_multiset().count(x) > 0);
}

proof fn lemma_insert_sorted_props(e: Member, s: Seq<Member>)
    requires
        keys_sorted(s),
    ensures
        keys_sorted(insert_sorted(e, s)),
        insert_sorted(e, s).to_multiset() == s.to_multiset().insert(e),
    decreases s.len(),
{
    let r = insert_sorted(e, s);
    if s.len() == 0 {
        assert(r =~= seq![e] + s);
        lemma_prepend_multiset(e, s);
    } else if key_lt(e.0, s[0].0) {
        assert(r =~= seq![e] + s);
        lemma_prepend_multiset(e, s);
        assert forall|i: int, j: int| 0 <= i < j < r.len() implies !key_lt(#[trigger] r[j].0, #[trigger] r[i].0) by {
            if i == 0 {
                assert(r[j] == s[j - 1]);
                if j - 1 > 0 {
                    assert(!key_lt(s[j - 1].0, s[0].0));
                    if key_lt(s[j - 1].0, e.0) {
                        lemma_key_lt_transitive(s[j - 1].0, e.0, s[0].0);
                    }
                } else {
                    if key_lt(s[0].0, e.0) {
                        lemma_key_lt_transitive(s[0].0, e.0, s[0].0);
                        lemma_key_lt_irreflexive(s[0].0);
                    }
                }
            } else {
                assert(r[i] == s[i - 1] && r[j] == s[j - 1]);
            }
        }
    } else {
        let t = s.drop_first();
        assert(keys_sorted(t)) by {
            assert forall|i: int, j: int| 0 <= i < j < t.len() implies !key_lt(#[trigger] t[j].0, #[trigger] t[i].0) by {
                assert(t[i] == s[i + 1] && t[j] == s[j + 1]);
            }
        }
        lemma_insert_sorted_props(e, t);
        let rt = insert_sorted(e, t);
        assert(r =~= seq![s[0]] + rt);
        assert(s =~= seq![s[0]] + t);
        lemma_prepend_multiset(s[0], rt);
        lemma_prepend_multiset(s[0], t);
        assert(r.to_multiset() =~= s.to_multiset().insert(e));
        assert forall|i: int, j: int| 0 <= i < j < r.len() implies !key_lt(#[trigger] r[j].0, #[trigger] r[i].0) by {
            if i == 0 {
                assert(r[j] == rt[j - 1]);
                // every member of rt is s[k] (k >= 1) or e, and none is below s[0]
                assert(rt.to_multiset().count(rt[j - 1]) > 0) by {
                    rt.to_multiset_ensures();
                    assert(rt.contains(rt[j - 1]));
                }
                assert(t.to_multiset().insert(e).count(rt[j - 1]) > 0);
                if rt[j - 1] != e {
                    assert(t.to_multiset().count(rt[j - 1]) > 0);
                    t.to_multiset_ensures();
                    assert(t.contains(rt[j - 1]));
                    let k = choose|k: int| 0 <= k < t.len() && t[k] == rt[j - 1];
                    assert(t[k] == s[k + 1]);
                    assert(!key_lt(s[k + 1].0, s[0].0));
                } else {
                    assert(!key_lt(e.0, s[0].0));
                }
            } else {
                assert(r[i] == rt[i - 1] && r[j] == rt[j - 1]);
            }
        }
    }
}

proof fn lemma_sort_members_props(es: Seq<Member>)
    ensures
        keys_sorted(sort_members(es)),
        sort_members(es).to_multiset() == es.to_multiset(),
    decreases es.len(),
{
    if es.len() == 0 {
    } else {
        let d = es.drop_last();
        lemma_sort_members_props(d);
        lemma_insert_sorted_props(es.last(), sort_members(d));
        assert(es =~= d.push(es.last()));
        d.to_multiset_ensures();
        assert(es.to_multiset() =~= d.to_multiset().insert(es.last()));
    }
}

proof fn lemma_distinct_sorted_strict(s: Seq<Member>)
    requires
        keys_sorted(s),
        member_keys_distinct(s),
    ensures
        keys_strict(s),
{
    assert forall|i: int, j: int| 0 <= i < j < s.len() implies key_lt(#[trigger] s[i].0, #[trigger] s[j].0) by {
        lemma_key_lt_total(s[i].0, s[j].0);
    }
}

proof fn lemma_multiset_distinct(a: Seq<Member>, b: Seq<Member>)
    requires
        a.to_multiset() == b.to_multiset(),
        member_keys_distinct(a),
    ensures
        member_keys_distinct(b),
{
    a.to_multiset_ensures();
    b.to_multiset_ensures();
    assert forall|i: int, j: int| 0 <= i < j < b.len() implies #[trigger] b[i].0 != #[trigger] b[j].0 by {
        if b[i].0 == b[j].0 {
            lemma_seq_contains_multiset(a, b, b[i]);
            lemma_seq_contains_multiset(a, b, b[j]);
            assert(b.contains(b[i]) && b.contains(b[j]));
            let x = choose|x: int| 0 <= x < a.len() && a[x] == b[i];
            let y = choose|y: int| 0 <= y < a.len() && a[y] == b[j];
            if x == y {
                // the same member twice in b, once in a
                let bi = b[i];
                let br = b.remove(j);
                let ar = a.remove(x);
                br.to_multiset_ensures();
                ar.to_multiset_ensures();
                assert(br[i] == bi);
                assert(br.contains(bi));
                assert(br.to_multiset() =~= ar.to_multiset());
                lemma_seq_contains_multiset(br, ar, bi);
                let z = choose|z: int| 0 <= z < ar.len() && ar[z] == bi;
                if z < x {
                    assert(a[z] == bi);
                    assert(a[z].0 != a[x].0);
                } else {
                    assert(a[z + 1] == bi);
                    assert(a[x].0 != a[z + 1].0);
                }
            } else if x < y {
                assert(a[x].0 != a[y].0);
            } else {
                assert(a[y].0 != a[x].0);
            }
        }
    }
}

proof fn lemma_strict_unique(a: Seq<Member>, b: Seq<Member>)
    requires
        keys_strict(a),
        keys_strict(b),
        a.to_multiset() == b.to_multiset(),
    ensures
        a == b,
    decreases a.len(),
{
    a.to_multiset_ensures();
    b.to_multiset_ensures();
    if a.len() == 0 {
        assert(b.len() == 0);
        assert(a =~= b);
    } else {
        assert(b.len() == a.len());
        assert(a.contains(a[0]));
        lemma_seq_contains_multiset(a, b, a[0]);
        assert(b.contains(b[0]));
        lemma_seq_contains_multiset(a, b, b[0]);
        let k = choose|k: int| 0 <= k < b.len() && b[k] == a[0];
        let m = choose|m: int| 0 <= m < a.len() && a[m] == b[0];
        if k > 0 && m > 0 {
            assert(key_lt(b[0].0, b[k].0));
            assert(key_lt(a[0].0, a[m].0));
            lemma_key_lt_transitive(b[0].0, a[0].0, b[0].0);
            lemma_key_lt_irreflexive(b[0].0);
        } else if k > 0 {
            assert(m == 0);
            assert(key_lt(b[0].0, b[k].0));
            lemma_key_lt_irreflexive(a[0].0);
        } else if m > 0 {
            assert(key_lt(a[0].0, a[m].0));
            lemma_key_lt_irreflexive(a[0].0);
        }
        assert(a[0] == b[0]);
        let a1 = a.drop_first();
        let b1 = b.drop_first();
        assert(a1 =~= a.remove(0));
        assert(b1 =~= b.remove(0));
        assert(a1.to_multiset() =~= b1.to_multiset());
        assert(keys_strict(a1)) by {
            assert forall|i: int, j: int| 0 <= i < j < a1.len() implies key_lt(#[trigger] a1[i].0, #[trigger] a1[j].0) by {
                assert(a1[i] == a[i + 1] && a1[j] == a[j + 1]);
            }
        }
        assert(keys_strict(b1)) by {
            assert forall|i: int, j: int| 0 <= i < j < b1.len() implies key_lt(#[trigger] b1[i].0, #[trigger] b1[j].0) by {
                assert(b1[i] == b[i + 1] && b1[j] == b[j + 1]);
            }
        }
        lemma_strict_unique(a1, b1);
        assert(a =~= seq![a[0]] + a1);
        assert(b =~= seq![b[0]] + b1);
    }
}

proof fn lemma_canon_members_same(es: Seq<Member>, es2: Seq<Member>, sorted: Seq<Member>)
    requires
        forall|e: Member| es.contains(e) <==> es2.contains(e),
    ensures
        canon_members(es, sorted) == canon_members(es2, sorted),
    decreases sorted.len(),
{
    if sorted.len() > 1 {
        lemma_canon_members_same(es, es2, sorted.drop_last());
    }
}

/// The canonical form of an object does not depend on the order of its
/// members: two objects with the same members (no key twice) have the
/// same canonical serialization.
pub proof fn lemma_canonical_member_order(es: Seq<Member>, es2: Seq<Member>)
    requires
        member_keys_distinct(es),
        es.to_multiset() == es2.to_multiset(),
    ensures
        canon(JsonValue::Object(es)) == canon(JsonValue::Object(es2)),
{
    lemma_multiset_distinct(es, es2);
    lemma_sort_members_props(es);
    lemma_sort_members_props(es2);
    lemma_multiset_distinct(es, sort_members(es));
    lemma_multiset_distinct(es2, sort_members(es2));
    lemma_distinct_sorted_strict(sort_members(es));
    lemma_distinct_sorted_strict(sort_members(es2));
    lemma_strict_unique(sort_members(es), sort_members(es2));
    assert forall|e: Member| es.contains(e) <==> es2.contains(e) by {
        lemma_seq_contains_multiset(es, es2, e);
    }
    lemma_canon_members_same(es, es2, sort_members(es));
}

/// Pointwise the same keys, with values of equal canonical form.
pub open spec fn canon_equiv(a: Seq<Member>, b: Seq<Member>) -> bool {
    &&& a.len() == b.len()
    &&& forall|i: int| 0 <= i < a.len() ==> #[trigger] a[i].0 == b[i].0 && canon(a[i].1) == canon(b[i].1)
}

proof fn lemma_insert_sorted_equiv(e: Member, f: Member, s: Seq<Member>, t: Seq<Member>)
    requires
        canon_equiv(s, t),
        e.0 == f.0,
        canon(e.1) == canon(f.1),
    ensures
        canon_equiv(insert_sorted(e, s), insert_sorted(f, t)),
    decreases s.len(),
{
    if s.len() == 0 {
    } else if key_lt(e.0, s[0].0) {
        assert(key_lt(f.0, t[0].0));
        let a = insert_sorted(e, s);
        let b = insert_sorted(f, t);
        assert forall|i: int| 0 <= i < a.len() implies #[trigger] a[i].0 == b[i].0 && canon(a[i].1) == canon(b[i].1) by {
            if i > 0 {
                assert(a[i] == s[i - 1] && b[i] == t[i - 1]);
            }
        }
    } else {
        assert(!key_lt(f.0, t[0].0));
        let s1 = s.drop_first();
        let t1 = t.drop_first();
        assert forall|i: int| 0 <= i < s1.len() implies #[trigger] s1[i].0 == t1[i].0 && canon(s1[i].1) == canon(t1[i].1) by {
            assert(s1[i] == s[i + 1] && t1[i] == t[i + 1]);
        }
        lemma_insert_sorted_equiv(e, f, s1, t1);
        let a = insert_sorted(e, s);
        let b = insert_sorted(f, t);
        let a1 = insert_sorted(e, s1);
        let b1 = insert_sorted(f, t1);
        assert(a =~= seq![s[0]] + a1);
        assert(b =~= seq![t[0]] + b1);
        assert forall|i: int| 0 <= i < a.len() implies #[trigger] a[i].0 == b[i].0 && canon(a[i].1) == canon(b[i].1) by {
            if i > 0 {
                assert(a[i] == a1[i - 1] && b[i] == b1[i - 1]);
            }
        }
    }
}

proof fn lemma_sort_equiv(a: Seq<Member>, b: Seq<Member>)
    requires
        canon_equiv(a, b),
    ensures
        canon_equiv(sort_members(a), sort_members(b)),
    decreases a.len(),
{
    if a.len() > 0 {
        let a1 = a.drop_last();
        let b1 = b.drop_last();
        assert forall|i: int| 0 <= i < a1.len() implies #[trigger] a1[i].0 == b1[i].0 && canon(a1[i].1) == canon(b1[i].1) by {
            assert(a1[i] == a[i] && b1[i] == b[i]);
        }
        lemma_sort_equiv(a1, b1);
        assert(a.last() == a[a.len() - 1] && b.last() == b[b.len() - 1]);
        lemma_insert_sorted_equiv(a.last(), b.last(), sort_members(a1), sort_members(b1));
    }
}

proof fn lemma_canon_members_equiv(es: Seq<Member>, fs: Seq<Member>, s: Seq<Member>, t: Seq<Member>)
    requires
        canon_equiv(s, t),
        forall|k: int| 0 <= k < s.len() ==> es.contains(#[trigger] s[k]),
        forall|k: int| 0 <= k < t.len() ==> fs.contains(#[trigger] t[k]),
    ensures
        canon_members(es, s) == canon_members(fs, t),
    decreases s.len(),
{
    if s.len() > 0 {
        let k = s.len() - 1;
        assert(es.contains(s[k]));
        assert(fs.contains(t[k]));
        assert(s[k].0 == t[k].0 && canon(s[k].1) == canon(t[k].1));
        if s.len() > 1 {
            let s1 = s.drop_last();
            let t1 = t.drop_last();
            assert forall|i: int| 0 <= i < s1.len() implies #[trigger] s1[i].0 == t1[i].0 && canon(s1[i].1) == canon(t1[i].1) by {
                assert(s1[i] == s[i] && t1[i] == t[i]);
            }
            assert forall|i: int| 0 <= i < s1.len() implies es.contains(#[trigger] s1[i]) by {
                assert(s1[i] == s[i]);
            }
            assert forall|i: int| 0 <= i < t1.len() implies fs.contains(#[trigger] t1[i]) by {
                assert(t1[i] == t[i]);
            }
            lemma_canon_members_equiv(es, fs, s1, t1);
        }
    }
}

proof fn lemma_sorted_members_contained(es: Seq<Member>)
    ensures
        forall|k: int| 0 <= k < sort_members(es).len() ==> es.contains(#[trigger] sort_members(es)[k]),
{
    lemma_sort_members_props(es);
    let s = sort_members(es);
    assert forall|k: int| 0 <= k < s.len() implies es.contains(#[trigger] s[k]) by {
        assert(s.contains(s[k]));
        lemma_seq_contains_multiset(s, es, s[k]);
    }
}

/// The canonical form of an object depends only on its keys and on the
/// canonical forms of their values, not on the order of its members: an
/// object whose members are a reordering of `es` with each value replaced
/// by one of the same canonical form (no key twice) serializes the same.
/// Applied at every level, reordering members anywhere inside a document
/// leaves its canonical form unchanged.
pub proof fn lemma_canonical_reorder(es: Seq<Member>, same_order: Seq<Member>, es2: Seq<Member>)
    requires
        member_keys_distinct(es),
        canon_equiv(es, same_order),
        same_order.to_multiset() == es2.to_multiset(),
    ensures
        canon(JsonValue::Object(es)) == canon(JsonValue::Object(es2)),
{
    assert(member_keys_distinct(same_order)) by {
        assert forall|i: int, j: int| 0 <= i < j < same_order.len() implies #[trigger] same_order[i].0
            != #[trigger] same_order[j].0 by {
            assert(es[i].0 == same_order[i].0 && es[j].0 == same_order[j].0);
        }
    }
    lemma_canonical_member_order(same_order, es2);
    lemma_sort_equiv(es, same_order);
    lemma_sorted_members_contained(es);
    lemma_sorted_members_contained(same_order);
    lemma_canon_members_equiv(es, same_order, sort_members(es), sort_members(same_order));
}

} // verus!
