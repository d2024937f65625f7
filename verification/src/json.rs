//! A JSON document value, its mathematical model, object access, and the
//! two serializations the service emits: compact (object members in
//! insertion order) and canonical (object members sorted by key,
//! recursively, no whitespace).
//!
//! Numbers are carried as their JSON text, so no floating-point value
//! ever enters the library.
use vstd::prelude::*;

use crate::text::{chars_of, matches_at, owned};

verus! {

/// A JSON value. Object members keep insertion order.
#[derive(Debug)]
pub enum Json {
    Null,
    Bool(bool),
    /// The number exactly as JSON text (e.g. `3`, `-1.5e3`).
    Number(String),
    Str(String),
    Array(Vec<Json>),
    Object(Vec<(String, Json)>),
}

/// Mathematical model of a JSON value.
pub enum JsonValue {
    Null,
    Bool(bool),
    Number(Seq<char>),
    Str(Seq<char>),
    Array(Seq<JsonValue>),
    Object(Seq<(Seq<char>, JsonValue)>),
}

pub open spec fn json_view(j: Json) -> JsonValue
    decreases j,
{
    match j {
        Json::Null => JsonValue::Null,
        Json::Bool(b) => JsonValue::Bool(b),
        Json::Number(n) => JsonValue::Number(n@),
        Json::Str(s) => JsonValue::Str(s@),
        Json::Array(v) => JsonValue::Array(
            Seq::new(
                v@.len(),
                |i: int|
                    if 0 <= i < v@.len() {
                        proof {
                            assert(decreases_to!(v => v@));
                            assert(decreases_to!(v@ => v@[i]));
                        }
                        json_view(v@[i])
                    } else {
                        JsonValue::Null
                    },
            ),
        ),
        Json::Object(v) => JsonValue::Object(
            Seq::new(
                v@.len(),
                |i: int|
                    if 0 <= i < v@.len() {
                        proof {
                            assert(decreases_to!(v => v@));
                            assert(decreases_to!(v@ => v@[i]));
                            assert(decreases_to!(v@[i] => v@[i].1));
                        }
                        (v@[i].0@, json_view(v@[i].1))
                    } else {
                        (Seq::empty(), JsonValue::Null)
                    },
            ),
        ),
    }
}

impl View for Json {
    type V = JsonValue;

    open spec fn view(&self) -> JsonValue {
        json_view(*self)
    }
}

// ---------------------------------------------------------------------------
// object access
// ---------------------------------------------------------------------------

/// Index of the first member named `k`.
pub open spec fn member_index(es: Seq<(Seq<char>, JsonValue)>, k: Seq<char>) -> Option<int>
    decreases es.len(),
{
    if es.len() == 0 {
        None
    } else {
        match member_index(es.drop_last(), k) {
            Some(i) => Some(i),
            None => if es.last().0 == k {
                Some(es.len() - 1)
            } else {
                None
            },
        }
    }
}

pub proof fn lemma_member_index(es: Seq<(Seq<char>, JsonValue)>, k: Seq<char>)
    ensures
        member_index(es, k) matches Some(i) ==> 0 <= i < es.len() && es[i].0 == k && forall|j: int|
            0 <= j < i ==> es[j].0 != k,
        member_index(es, k) is None ==> forall|j: int| 0 <= j < es.len() ==> es[j].0 != k,
    decreases es.len(),
{
    if es.len() > 0 {
        let d = es.drop_last();
        lemma_member_index(d, k);
        assert(forall|j: int| 0 <= j < d.len() ==> d[j] == es[j]);
        match member_index(d, k) {
            Some(i) => {
                assert(member_index(es, k) == Some(i));
            },
            None => {
                if es.last().0 == k {
                    assert(member_index(es, k) == Some(es.len() - 1));
                } else {
                    assert(member_index(es, k) is None);
                    assert forall|j: int| 0 <= j < es.len() implies es[j].0 != k by {
                        if j < es.len() - 1 {
                            assert(d[j] == es[j]);
                        }
                    }
                }
            },
        }
    }
}

/// The model of an object lists its members' keys and values in order.
pub proof fn lemma_object_view(es: Vec<(String, Json)>)
    ensures
        json_view(Json::Object(es)) is Object,
        json_view(Json::Object(es))->Object_0.len() == es@.len(),
        forall|j: int|
            0 <= j < es@.len() ==> #[trigger] json_view(Json::Object(es))->Object_0[j] == (
                es@[j].0@,
                json_view(es@[j].1),
            ),
{
}

/// The model of an array lists its items' models in order.
pub proof fn lemma_array_view(xs: Vec<Json>)
    ensures
        json_view(Json::Array(xs)) is Array,
        json_view(Json::Array(xs))->Array_0.len() == xs@.len(),
        forall|j: int|
            0 <= j < xs@.len() ==> #[trigger] json_view(Json::Array(xs))->Array_0[j] == json_view(
                xs@[j],
            ),
{
}

/// `Value::get(key)`: the member named `key` of an object, else nothing.
pub open spec fn get_spec(v: JsonValue, k: Seq<char>) -> Option<JsonValue> {
    match v {
        JsonValue::Object(es) => match member_index(es, k) {
            Some(i) => Some(es[i].1),
            None => None,
        },
        _ => None,
    }
}

/// `Value::as_str`.
pub open spec fn str_spec(v: Option<JsonValue>) -> Option<Seq<char>> {
    match v {
        Some(JsonValue::Str(s)) => Some(s),
        _ => None,
    }
}

/// `doc.get(key).and_then(Value::as_str)`.
pub open spec fn get_str_spec(v: JsonValue, k: Seq<char>) -> Option<Seq<char>> {
    str_spec(get_spec(v, k))
}

/// `Map::insert`: replaces the value of an existing member in place, or
/// appends a new member.
pub open spec fn insert_spec(es: Seq<(Seq<char>, JsonValue)>, k: Seq<char>, x: JsonValue) -> Seq<
    (Seq<char>, JsonValue),
> {
    match member_index(es, k) {
        Some(i) => es.update(i, (k, x)),
        None => es.push((k, x)),
    }
}

/// `Map::remove` (order-preserving maps swap the last member into the
/// removed slot).
pub open spec fn remove_spec(es: Seq<(Seq<char>, JsonValue)>, k: Seq<char>) -> Seq<
    (Seq<char>, JsonValue),
> {
    match member_index(es, k) {
        Some(i) => if i == es.len() - 1 {
            es.drop_last()
        } else {
            es.update(i, es.last()).drop_last()
        },
        None => es,
    }
}

/// `value["key"]` member replaced/added on objects; other values unchanged.
pub open spec fn with_member(v: JsonValue, k: Seq<char>, x: JsonValue) -> JsonValue {
    match v {
        JsonValue::Object(es) => JsonValue::Object(insert_spec(es, k, x)),
        _ => v,
    }
}

/// Member `k` removed from objects; other values unchanged.
pub open spec fn without_member(v: JsonValue, k: Seq<char>) -> JsonValue {
    match v {
        JsonValue::Object(es) => JsonValue::Object(remove_spec(es, k)),
        _ => v,
    }
}

/// The first member named `k` is found.
pub proof fn lemma_member_index_at(es: Seq<(Seq<char>, JsonValue)>, k: Seq<char>, i: int)
    requires
        0 <= i < es.len(),
        es[i].0 == k,
        forall|j: int| 0 <= j < i ==> es[j].0 != k,
    ensures
        member_index(es, k) == Some(i),
{
    lemma_member_index(es, k);
}

/// After setting member `k`, reading `k` gives the value set.
pub proof fn lemma_get_with_same(v: JsonValue, k: Seq<char>, x: JsonValue)
    requires
        v is Object,
    ensures
        get_spec(with_member(v, k, x), k) == Some(x),
{
    let es = v->Object_0;
    lemma_member_index(es, k);
    let es2 = insert_spec(es, k, x);
    match member_index(es, k) {
        Some(i) => lemma_member_index_at(es2, k, i),
        None => lemma_member_index_at(es2, k, es.len() as int),
    }
}

/// Setting member `k` leaves every other member as it was.
pub proof fn lemma_get_with_other(v: JsonValue, k: Seq<char>, x: JsonValue, k2: Seq<char>)
    requires
        k != k2,
    ensures
        get_spec(with_member(v, k, x), k2) == get_spec(v, k2),
{
    if v is Object {
        let es = v->Object_0;
        let es2 = insert_spec(es, k, x);
        lemma_member_index(es, k);
        lemma_member_index(es, k2);
        lemma_member_index(es2, k2);
        assert(forall|j: int| 0 <= j < es.len() ==> (#[trigger] es2[j].0 == k2 <==> es[j].0 == k2));
        assert(forall|j: int| 0 <= j < es2.len() && es2[j].0 == k2 ==> j < es.len());
        match member_index(es, k2) {
            Some(j) => {
                lemma_member_index_at(es2, k2, j);
                assert(es2[j] == es[j]);
            },
            None => {
                assert(member_index(es2, k2) is None);
            },
        }
    }
}

/// Removing member `k` after setting it is removing it from the value
/// before it was set.
pub proof fn lemma_without_with(v: JsonValue, k: Seq<char>, x: JsonValue)
    ensures
        without_member(with_member(v, k, x), k) == without_member(v, k),
{
    if v is Object {
        let es = v->Object_0;
        let es2 = insert_spec(es, k, x);
        lemma_member_index(es, k);
        match member_index(es, k) {
            Some(i) => {
                lemma_member_index_at(es2, k, i);
                if i == es.len() - 1 {
                    assert(es2.drop_last() =~= es.drop_last());
                } else {
                    assert(es2.update(i, es2.last()).drop_last() =~= es.update(i, es.last()).drop_last());
                }
            },
            None => {
                lemma_member_index_at(es2, k, es.len() as int);
                assert(es2.drop_last() =~= es);
            },
        }
    }
}

impl Json {
    pub fn string(s: &str) -> (r: Json)
        ensures
            r@ == JsonValue::Str(s@),
    {
        Json::Str(owned(s))
    }

    pub fn empty_object() -> (r: Json)
        ensures
            r@ == JsonValue::Object(Seq::empty()),
    {
        let r = Json::Object(Vec::new());
        assert(r@->Object_0 =~= Seq::empty());
        r
    }

    pub fn empty_array() -> (r: Json)
        ensures
            r@ == JsonValue::Array(Seq::empty()),
    {
        let r = Json::Array(Vec::new());
        assert(r@->Array_0 =~= Seq::empty());
        r
    }

    pub fn is_object(&self) -> (r: bool)
        ensures
            r == self@ is Object,
    {
        match self {
            Json::Object(_) => true,
            _ => false,
        }
    }

    /// `Value::get(key)` on objects.
    pub fn get(&self, key: &str) -> (r: Option<&Json>)
        ensures
            match r {
                Some(x) => get_spec(self@, key@) == Some(x@),
                None => get_spec(self@, key@) is None,
            },
    {
        match self {
            Json::Object(es) => {
                let ghost ges = self@->Object_0;
                assert(ges.len() == es@.len());
                let mut i: usize = 0;
                while i < es.len()
                    invariant
                        i <= es@.len(),
                        ges.len() == es@.len(),
                        ges == self@->Object_0,
                        *self == Json::Object(*es),
                        forall|j: int| 0 <= j < i ==> ges[j].0 != key@,
                    decreases es@.len() - i,
                {
                    assert(ges[i as int] == (es@[i as int].0@, json_view(es@[i as int].1)));
                    if str_eq(es[i].0.as_str(), key) {
                        proof {
                            lemma_member_index(ges, key@);
                            if member_index(ges, key@) is None {
                                assert(ges[i as int].0 != key@);
                            } else {
                                let m = member_index(ges, key@)->0;
                                assert(m >= i);
                                assert(m <= i);
                            }
                        }
                        return Some(&es[i].1);
                    }
                    i = i + 1;
                }
                proof {
                    lemma_member_index(ges, key@);
                }
                None
            },
            _ => None,
        }
    }

    /// `Value::as_str`.
    pub fn as_str(&self) -> (r: Option<&String>)
        ensures
            match r {
                Some(s) => self@ == JsonValue::Str(s@),
                None => !(self@ is Str),
            },
    {
        match self {
            Json::Str(s) => Some(s),
            _ => None,
        }
    }

    /// `value.get(key).and_then(Value::as_str)`.
    pub fn get_str(&self, key: &str) -> (r: Option<&String>)
        ensures
            match r {
                Some(s) => get_str_spec(self@, key@) == Some(s@),
                None => get_str_spec(self@, key@) is None,
            },
    {
        match self.get(key) {
            Some(x) => x.as_str(),
            None => None,
        }
    }

    /// A copy of the whole value.
    pub fn deep_copy(&self) -> (r: Json)
        ensures
            r@ == self@,
    {
        copy_of(self)
    }

    /// `Map::insert` on objects (replace in place or append); other
    /// values are left unchanged.
    pub fn insert(&mut self, key: &str, value: Json)
        ensures
            final(self)@ == with_member(old(self)@, key@, value@),
    {
        let ghost v0 = self@;
        if let Json::Object(es) = self {
            let ghost ges = v0->Object_0;
            let pos = member_pos(es, key);
            proof {
                lemma_object_view(*es);
                lemma_member_index(ges, key@);
            }
            match pos {
                Some(i) => {
                    es.set(i, (owned(key), value));
                },
                None => {
                    es.push((owned(key), value));
                },
            }
            proof {
                lemma_object_view(*es);
                assert(json_view(Json::Object(*es))->Object_0 =~= insert_spec(ges, key@, value@));
            }
        }
    }

    /// `Map::remove` on objects (the last member takes the removed
    /// member's slot); other values are left unchanged.
    pub fn remove(&mut self, key: &str)
        ensures
            final(self)@ == without_member(old(self)@, key@),
    {
        let ghost v0 = self@;
        if let Json::Object(es) = self {
            let ghost ges = v0->Object_0;
            let pos = member_pos(es, key);
            proof {
                lemma_object_view(*es);
                lemma_member_index(ges, key@);
            }
            match pos {
                Some(i) => {
                    let last = es.len() - 1;
                    if i == last {
                        es.pop();
                    } else {
                        let e = es.pop();
                        match e {
                            Some(e) => {
                                es.set(i, e);
                            },
                            None => {},
                        }
                    }
                },
                None => {},
            }
            proof {
                lemma_object_view(*es);
                assert(json_view(Json::Object(*es))->Object_0 =~= remove_spec(ges, key@));
            }
        }
    }
}

/// A copy of the whole value.
pub fn copy_of(j: &Json) -> (r: Json)
    ensures
        r@ == j@,
    decreases j,
{
    match j {
        Json::Null => Json::Null,
        Json::Bool(b) => Json::Bool(*b),
        Json::Number(n) => Json::Number(owned(n.as_str())),
        Json::Str(t) => Json::Str(owned(t.as_str())),
        Json::Array(xs) => {
            let ghost gxs = j@->Array_0;
            proof {
                lemma_array_view(*xs);
            }
            let mut out: Vec<Json> = Vec::new();
            let mut i: usize = 0;
            while i < xs.len()
                invariant
                    i <= xs@.len(),
                    out@.len() == i,
                    gxs == json_view(Json::Array(*xs))->Array_0,
                    *j == Json::Array(*xs),
                    forall|t: int| 0 <= t < i ==> #[trigger] json_view(out@[t]) == json_view(xs@[t]),
                decreases xs@.len() - i,
            {
                proof {
                    assert(decreases_to!(*j => *xs));
                    assert(decreases_to!(*xs => xs@));
                    assert(decreases_to!(xs@ => xs@[i as int]));
                }
                let c = copy_of(&xs[i]);
                out.push(c);
                i = i + 1;
            }
            let r = Json::Array(out);
            proof {
                lemma_array_view(out);
                lemma_array_view(*xs);
                assert(r@->Array_0 =~= j@->Array_0);
            }
            r
        },
        Json::Object(es) => {
            let ghost ges = j@->Object_0;
            proof {
                lemma_object_view(*es);
            }
            let mut out: Vec<(String, Json)> = Vec::new();
            let mut i: usize = 0;
            while i < es.len()
                invariant
                    i <= es@.len(),
                    out@.len() == i,
                    ges == json_view(Json::Object(*es))->Object_0,
                    *j == Json::Object(*es),
                    forall|t: int|
                        0 <= t < i ==> #[trigger] out@[t].0@ == es@[t].0@ && json_view(out@[t].1)
                            == json_view(es@[t].1),
                decreases es@.len() - i,
            {
                proof {
                    assert(decreases_to!(*j => *es));
                    assert(decreases_to!(*es => es@));
                    assert(decreases_to!(es@ => es@[i as int]));
                    assert(decreases_to!(es@[i as int] => es@[i as int].1));
                }
                let c = copy_of(&es[i].1);
                let k = owned(es[i].0.as_str());
                out.push((k, c));
                i = i + 1;
            }
            let r = Json::Object(out);
            proof {
                lemma_object_view(out);
                lemma_object_view(*es);
                assert(r@->Object_0 =~= j@->Object_0);
            }
            r
        },
    }
}

pub open spec fn members_view(es: Seq<(String, Json)>) -> Seq<(Seq<char>, JsonValue)> {
    es.map_values(|e: (String, Json)| (e.0@, e.1@))
}

pub open spec fn items_view(xs: Seq<Json>) -> Seq<JsonValue> {
    xs.map_values(|x: Json| x@)
}

/// An object with these members, in this order.
pub fn object_of(es: Vec<(String, Json)>) -> (r: Json)
    ensures
        r@ == JsonValue::Object(members_view(es@)),
{
    proof {
        lemma_object_view(es);
    }
    let ghost ev = members_view(es@);
    let r = Json::Object(es);
    assert(r@->Object_0 =~= ev);
    r
}

/// An array of these items, in this order.
pub fn array_of(xs: Vec<Json>) -> (r: Json)
    ensures
        r@ == JsonValue::Array(items_view(xs@)),
{
    proof {
        lemma_array_view(xs);
    }
    let ghost xv = items_view(xs@);
    let r = Json::Array(xs);
    assert(r@->Array_0 =~= xv);
    r
}

/// An array of strings.
pub fn string_array(xs: &[String]) -> (r: Json)
    ensures
        r@ == JsonValue::Array(xs@.map_values(|s: String| JsonValue::Str(s@))),
{
    let mut out: Vec<Json> = Vec::new();
    let mut i: usize = 0;
    while i < xs.len()
        invariant
            i <= xs@.len(),
            items_view(out@) == xs@.take(i as int).map_values(|s: String| JsonValue::Str(s@)),
        decreases xs@.len() - i,
    {
        let ghost before = out@;
        let item = Json::string(xs[i].as_str());
        let ghost iv = item@;
        out.push(item);
        assert(items_view(out@) =~= items_view(before).push(iv));
        assert(xs@.take(i + 1).map_values(|s: String| JsonValue::Str(s@)) =~= xs@.take(i as int).map_values(
            |s: String| JsonValue::Str(s@),
        ).push(JsonValue::Str(xs@[i as int]@)));
        i = i + 1;
    }
    assert(xs@.take(i as int) =~= xs@);
    array_of(out)
}

/// Index of the first member named `key`.
pub fn member_pos(es: &Vec<(String, Json)>, key: &str) -> (r: Option<usize>)
    ensures
        match r {
            Some(i) => member_index(json_view(Json::Object(*es))->Object_0, key@) == Some(i as int),
            None => member_index(json_view(Json::Object(*es))->Object_0, key@) is None,
        },
{
    let ghost ges = json_view(Json::Object(*es))->Object_0;
    proof {
        lemma_member_index(ges, key@);
    }
    let mut i: usize = 0;
    while i < es.len()
        invariant
            i <= es@.len(),
            ges == json_view(Json::Object(*es))->Object_0,
            ges.len() == es@.len(),
            forall|j: int| 0 <= j < i ==> ges[j].0 != key@,
            member_index(ges, key@) matches Some(m) ==> 0 <= m < ges.len() && ges[m].0 == key@
                && forall|j: int| 0 <= j < m ==> ges[j].0 != key@,
            member_index(ges, key@) is None ==> forall|j: int| 0 <= j < ges.len() ==> ges[j].0
                != key@,
        decreases es@.len() - i,
    {
        assert(ges[i as int] == (es@[i as int].0@, json_view(es@[i as int].1)));
        if str_eq(es[i].0.as_str(), key) {
            proof {
                if member_index(ges, key@) is Some {
                    let m = member_index(ges, key@)->0;
                    assert(m >= i);
                    assert(m <= i);
                }
            }
            return Some(i);
        }
        i = i + 1;
    }
    None
}

/// String equality by characters.
pub fn str_eq(a: &str, b: &str) -> (r: bool)
    ensures
        r == (a@ == b@),
{
    let av = chars_of(a);
    let bv = chars_of(b);
    if av.len() != bv.len() {
        return false;
    }
    assert(av@.subrange(0, bv@.len() as int) =~= av@);
    matches_at(&av, 0, &bv)
}

// ---------------------------------------------------------------------------
// serialization
// ---------------------------------------------------------------------------

/// How a JSON string writes one character: quote and backslash escaped,
/// the control characters with a short escape as such, the other control
/// characters as \u00XX (lowercase hex), everything else as it is.
pub open spec fn json_escape_char(c: char) -> Seq<char> {
    let u = c as u32;
    if c == '"' {
        seq!['\\', '"']
    } else if c == '\\' {
        seq!['\\', '\\']
    } else if u == 0x08 {
        seq!['\\', 'b']
    } else if u == 0x09 {
        seq!['\\', 't']
    } else if u == 0x0a {
        seq!['\\', 'n']
    } else if u == 0x0c {
        seq!['\\', 'f']
    } else if u == 0x0d {
        seq!['\\', 'r']
    } else if u < 0x20 {
        seq!['\\', 'u', '0', '0', crate::text::hex_digit((u / 16) as nat), crate::text::hex_digit((u % 16) as nat)]
    } else {
        seq![c]
    }
}

pub open spec fn json_escaped(s: Seq<char>) -> Seq<char>
    decreases s.len(),
{
    if s.len() == 0 {
        Seq::empty()
    } else {
        json_escaped(s.drop_last()) + json_escape_char(s.last())
    }
}

/// `serde_json::to_string` of a string: the quoted, escaped JSON string.
pub open spec fn json_quoted(s: Seq<char>) -> Seq<char> {
    seq!['"'] + json_escaped(s) + seq!['"']
}

/// Quotes and escapes a string as a JSON string literal
/// (`serde_json::to_string` of a `&str`, which cannot fail).
#[verifier::external_body]
pub(crate) fn json_quote(s: &str) -> (r: String)
    ensures
        r@ == json_quoted(s@),
{
    serde_json::to_string(s).unwrap_or_default()
}

/// Strictly-before order of object keys: `String`'s `Ord` (UTF-8 byte
/// order, which is the order of the characters' code points).
pub open spec fn key_lt(a: Seq<char>, b: Seq<char>) -> bool
    decreases a.len(),
{
    if a.len() == 0 {
        b.len() > 0
    } else if b.len() == 0 {
        false
    } else if (a[0] as u32) < (b[0] as u32) {
        true
    } else if a[0] == b[0] {
        key_lt(a.drop_first(), b.drop_first())
    } else {
        false
    }
}

pub fn key_less(a: &str, b: &str) -> (r: bool)
    ensures
        r == key_lt(a@, b@),
{
    let av = chars_of(a);
    let bv = chars_of(b);
    let mut i: usize = 0;
    assert(av@.skip(0) =~= av@);
    assert(bv@.skip(0) =~= bv@);
    while i < av.len() && i < bv.len() && av[i] == bv[i]
        invariant
            i <= av@.len(),
            i <= bv@.len(),
            forall|k: int| 0 <= k < i ==> av@[k] == bv@[k],
            key_lt(av@, bv@) == key_lt(av@.skip(i as int), bv@.skip(i as int)),
        decreases av@.len() - i,
    {
        assert(av@.skip(i as int).drop_first() =~= av@.skip(i + 1));
        assert(bv@.skip(i as int).drop_first() =~= bv@.skip(i + 1));
        i = i + 1;
    }
    if i == av.len() {
        i < bv.len()
    } else if i == bv.len() {
        false
    } else {
        (av[i] as u32) < (bv[i] as u32)
    }
}

/// Members sorted by key: each member goes before the first member whose
/// key is strictly greater (a stable insertion sort).
pub open spec fn insert_sorted(e: (Seq<char>, JsonValue), s: Seq<(Seq<char>, JsonValue)>) -> Seq<
    (Seq<char>, JsonValue),
>
    decreases s.len(),
{
    if s.len() == 0 {
        seq![e]
    } else if key_lt(e.0, s[0].0) {
        seq![e] + s
    } else {
        seq![s[0]] + insert_sorted(e, s.drop_first())
    }
}

pub open spec fn sort_members(es: Seq<(Seq<char>, JsonValue)>) -> Seq<(Seq<char>, JsonValue)>
    decreases es.len(),
{
    if es.len() == 0 {
        es
    } else {
        insert_sorted(es.last(), sort_members(es.drop_last()))
    }
}

/// Position at which `insert_sorted` places a member with key `k`.
pub open spec fn insert_pos(k: Seq<char>, s: Seq<(Seq<char>, JsonValue)>) -> int
    decreases s.len(),
{
    if s.len() == 0 {
        0
    } else if key_lt(k, s[0].0) {
        0
    } else {
        1 + insert_pos(k, s.drop_first())
    }
}

pub proof fn lemma_insert_sorted(e: (Seq<char>, JsonValue), s: Seq<(Seq<char>, JsonValue)>)
    ensures
        0 <= insert_pos(e.0, s) <= s.len(),
        insert_sorted(e, s) == s.take(insert_pos(e.0, s)) + seq![e] + s.skip(insert_pos(e.0, s)),
        forall|j: int| 0 <= j < insert_pos(e.0, s) ==> !key_lt(e.0, #[trigger] s[j].0),
        insert_pos(e.0, s) < s.len() ==> key_lt(e.0, s[insert_pos(e.0, s)].0),
        insert_sorted(e, s).len() == s.len() + 1,
    decreases s.len(),
{
    if s.len() == 0 {
        assert(s.take(0) + seq![e] + s.skip(0) =~= seq![e]);
    } else if key_lt(e.0, s[0].0) {
        assert(s.take(0) + seq![e] + s.skip(0) =~= seq![e] + s);
    } else {
        lemma_insert_sorted(e, s.drop_first());
        let p = insert_pos(e.0, s.drop_first());
        assert(seq![s[0]] + (s.drop_first().take(p) + seq![e] + s.drop_first().skip(p)) =~= s.take(
            p + 1,
        ) + seq![e] + s.skip(p + 1));
        assert forall|j: int| 0 <= j < p + 1 implies !key_lt(e.0, #[trigger] s[j].0) by {
            if j > 0 {
                assert(s[j] == s.drop_first()[j - 1]);
            }
        }
        if p + 1 < s.len() {
            assert(s[p + 1] == s.drop_first()[p]);
        }
    }
}

/// JSON `true`/`false`/`null` words.
pub open spec fn lit(v: JsonValue) -> Seq<char> {
    match v {
        JsonValue::Null => "null"@,
        JsonValue::Bool(b) => if b {
            "true"@
        } else {
            "false"@
        },
        _ => Seq::empty(),
    }
}

/// `serde_json::to_string(value)`: compact, members in insertion order.
pub open spec fn compact(v: JsonValue) -> Seq<char>
    decreases v, 1int,
{
    match v {
        JsonValue::Null => "null"@,
        JsonValue::Bool(b) => lit(v),
        JsonValue::Number(n) => n,
        JsonValue::Str(s) => json_quoted(s),
        JsonValue::Array(xs) => seq!['['] + compact_items(xs) + seq![']'],
        JsonValue::Object(es) => seq!['{'] + compact_members(es) + seq!['}'],
    }
}

/// Compact array items, comma separated.
pub open spec fn compact_items(xs: Seq<JsonValue>) -> Seq<char>
    decreases xs, 0int,
{
    if xs.len() == 0 {
        Seq::empty()
    } else {
        proof {
            assert(decreases_to!(xs => xs[xs.len() - 1]));
        }
        let last = compact(xs[xs.len() - 1]);
        if xs.len() == 1 {
            last
        } else {
            compact_items(xs.drop_last()) + seq![','] + last
        }
    }
}

/// Compact object members `"key":value`, comma separated.
pub open spec fn compact_members(es: Seq<(Seq<char>, JsonValue)>) -> Seq<char>
    decreases es, 0int,
{
    if es.len() == 0 {
        Seq::empty()
    } else {
        proof {
            assert(decreases_to!(es => es[es.len() - 1]));
            assert(decreases_to!(es[es.len() - 1] => es[es.len() - 1].1));
        }
        let e = es[es.len() - 1];
        let last = json_quoted(e.0) + seq![':'] + compact(e.1);
        if es.len() == 1 {
            last
        } else {
            compact_members(es.drop_last()) + seq![','] + last
        }
    }
}

/// The canonical form: object members sorted by key, recursively; no
/// whitespace; leaves as `serde_json::to_string` renders them.
pub open spec fn canon(v: JsonValue) -> Seq<char>
    decreases v, 1int,
{
    match v {
        JsonValue::Null => "null"@,
        JsonValue::Bool(b) => lit(v),
        JsonValue::Number(n) => n,
        JsonValue::Str(s) => json_quoted(s),
        JsonValue::Array(xs) => seq!['['] + canon_items(xs) + seq![']'],
        JsonValue::Object(es) => seq!['{'] + canon_members(es, sort_members(es)) + seq!['}'],
    }
}

pub open spec fn canon_items(xs: Seq<JsonValue>) -> Seq<char>
    decreases xs, 0int,
{
    if xs.len() == 0 {
        Seq::empty()
    } else {
        proof {
            assert(decreases_to!(xs => xs[xs.len() - 1]));
        }
        let last = canon(xs[xs.len() - 1]);
        if xs.len() == 1 {
            last
        } else {
            canon_items(xs.drop_last()) + seq![','] + last
        }
    }
}

/// Canonical members of `sorted`, a permutation of the members `es` of
/// the object being rendered (`es` bounds the recursion).
pub open spec fn canon_members(
    es: Seq<(Seq<char>, JsonValue)>,
    sorted: Seq<(Seq<char>, JsonValue)>,
) -> Seq<char>
    decreases es, 0int, sorted.len(),
{
    if sorted.len() == 0 {
        Seq::empty()
    } else {
        let e = sorted[sorted.len() - 1];
        let last = if es.contains(e) {
            proof {
                let i = choose|i: int| 0 <= i < es.len() && es[i] == e;
                assert(decreases_to!(es => es[i]));
                assert(decreases_to!(es[i] => es[i].1));
            }
            json_quoted(e.0) + seq![':'] + canon(e.1)
        } else {
            Seq::empty()
        };
        if sorted.len() == 1 {
            last
        } else {
            canon_members(es, sorted.drop_last()) + seq![','] + last
        }
    }
}

/// `serde_json::to_string(value)`.
pub fn to_compact(j: &Json) -> (s: String)
    ensures
        s@ == compact(j@),
    decreases j,
{
    match j {
        Json::Null => owned("null"),
        Json::Bool(b) => if *b {
            owned("true")
        } else {
            owned("false")
        },
        Json::Number(n) => owned(n.as_str()),
        Json::Str(t) => json_quote(t.as_str()),
        Json::Array(xs) => {
            let ghost gxs = j@->Array_0;
            proof {
                lemma_array_view(*xs);
            }
            let mut out = owned("[");
            proof {
                reveal_strlit("[");
            }
            let mut i: usize = 0;
            assert(gxs.take(0) =~= Seq::<JsonValue>::empty());
            while i < xs.len()
                invariant
                    i <= xs@.len(),
                    gxs == json_view(Json::Array(*xs))->Array_0,
                    gxs.len() == xs@.len(),
                    forall|t: int| 0 <= t < xs@.len() ==> #[trigger] gxs[t] == json_view(xs@[t]),
                    *j == Json::Array(*xs),
                    out@ == seq!['['] + compact_items(gxs.take(i as int)),
                decreases xs@.len() - i,
            {
                if i > 0 {
                    out.push(',');
                }
                proof {
                    assert(decreases_to!(*j => *xs));
                    assert(decreases_to!(*xs => xs@));
                    assert(decreases_to!(xs@ => xs@[i as int]));
                }
                let part = to_compact(&xs[i]);
                out.append(part.as_str());
                proof {
                    let t1 = gxs.take(i + 1);
                    assert(t1.drop_last() =~= gxs.take(i as int));
                    assert(t1[t1.len() - 1] == gxs[i as int]);
                }
                i = i + 1;
            }
            out.push(']');
            assert(gxs.take(i as int) =~= gxs);
            out
        },
        Json::Object(es) => {
            let ghost ges = j@->Object_0;
            proof {
                lemma_object_view(*es);
            }
            let mut out = owned("{");
            proof {
                reveal_strlit("{");
            }
            let mut i: usize = 0;
            assert(ges.take(0) =~= Seq::<(Seq<char>, JsonValue)>::empty());
            while i < es.len()
                invariant
                    i <= es@.len(),
                    ges == json_view(Json::Object(*es))->Object_0,
                    ges.len() == es@.len(),
                    forall|t: int|
                        0 <= t < es@.len() ==> #[trigger] ges[t] == (es@[t].0@, json_view(
                            es@[t].1,
                        )),
                    *j == Json::Object(*es),
                    out@ == seq!['{'] + compact_members(ges.take(i as int)),
                decreases es@.len() - i,
            {
                if i > 0 {
                    out.push(',');
                }
                let q = json_quote(es[i].0.as_str());
                out.append(q.as_str());
                out.push(':');
                proof {
                    assert(decreases_to!(*j => *es));
                    assert(decreases_to!(*es => es@));
                    assert(decreases_to!(es@ => es@[i as int]));
                    assert(decreases_to!(es@[i as int] => es@[i as int].1));
                }
                let part = to_compact(&es[i].1);
                out.append(part.as_str());
                proof {
                    let t1 = ges.take(i + 1);
                    assert(t1.drop_last() =~= ges.take(i as int));
                    assert(t1[t1.len() - 1] == ges[i as int]);
                }
                i = i + 1;
            }
            out.push('}');
            assert(ges.take(i as int) =~= ges);
            out
        },
    }
}

/// Indices of `es` in key order (stable): the order `sort_members` gives.
pub fn sorted_order(es: &Vec<(String, Json)>) -> (perm: Vec<usize>)
    ensures
        perm@.len() == es@.len(),
        forall|t: int| 0 <= t < perm@.len() ==> #[trigger] perm@[t] < es@.len(),
        Seq::new(
            perm@.len(),
            |t: int| json_view(Json::Object(*es))->Object_0[perm@[t] as int],
        ) == sort_members(json_view(Json::Object(*es))->Object_0),
{
    let ghost ges = json_view(Json::Object(*es))->Object_0;
    proof {
        lemma_object_view(*es);
    }
    let mut perm: Vec<usize> = Vec::new();
    let mut k: usize = 0;
    assert(ges.take(0) =~= Seq::<(Seq<char>, JsonValue)>::empty());
    assert(Seq::new(0, |t: int| ges[perm@[t] as int]) =~= sort_members(ges.take(0)));
    while k < es.len()
        invariant
            k <= es@.len(),
            ges == json_view(Json::Object(*es))->Object_0,
            ges.len() == es@.len(),
            forall|t: int|
                0 <= t < es@.len() ==> #[trigger] ges[t] == (es@[t].0@, json_view(es@[t].1)),
            perm@.len() == k,
            forall|t: int| 0 <= t < perm@.len() ==> #[trigger] perm@[t] < k,
            Seq::new(perm@.len(), |t: int| ges[perm@[t] as int]) == sort_members(
                ges.take(k as int),
            ),
        decreases es@.len() - k,
    {
        let ghost sorted = Seq::new(perm@.len(), |t: int| ges[perm@[t] as int]);
        let ghost e = ges[k as int];
        proof {
            lemma_insert_sorted(e, sorted);
        }
        let mut p: usize = 0;
        while p < perm.len() && !key_less(es[k].0.as_str(), es[perm[p]].0.as_str())
            invariant
                p <= perm@.len(),
                k < es@.len(),
                perm@.len() == sorted.len(),
                forall|t: int| 0 <= t < perm@.len() ==> #[trigger] perm@[t] < k,
                forall|t: int| 0 <= t < perm@.len() ==> #[trigger] sorted[t] == ges[perm@[t] as int],
                forall|t: int|
                    0 <= t < es@.len() ==> #[trigger] ges[t] == (es@[t].0@, json_view(es@[t].1)),
                e == ges[k as int],
                forall|t: int| 0 <= t < p ==> !key_lt(e.0, #[trigger] sorted[t].0),
                0 <= insert_pos(e.0, sorted) <= sorted.len(),
                forall|t: int| 0 <= t < insert_pos(e.0, sorted) ==> !key_lt(e.0, #[trigger] sorted[t].0),
                insert_pos(e.0, sorted) < sorted.len() ==> key_lt(e.0, sorted[insert_pos(e.0, sorted)].0),
            decreases perm@.len() - p,
        {
            p = p + 1;
        }
        proof {
            let ip = insert_pos(e.0, sorted);
            if p < perm@.len() {
                assert(key_lt(e.0, sorted[p as int].0));
                assert(ip <= p);
            }
            if ip < p {
                assert(!key_lt(e.0, sorted[ip].0));
            }
            assert(ip == p);
        }
        perm.insert(p, k);
        proof {
            let t1 = ges.take(k + 1);
            assert(t1.drop_last() =~= ges.take(k as int));
            assert(t1.last() == e);
            let ns = Seq::new(perm@.len(), |t: int| ges[perm@[t] as int]);
            assert(ns =~= sorted.take(p as int) + seq![e] + sorted.skip(p as int));
        }
        k = k + 1;
    }
    assert(ges.take(k as int) =~= ges);
    perm
}

/// The canonical serialization (see `canon`).
pub fn canonical_json(j: &Json) -> (s: String)
    ensures
        s@ == canon(j@),
    decreases j,
{
    match j {
        Json::Null => owned("null"),
        Json::Bool(b) => if *b {
            owned("true")
        } else {
            owned("false")
        },
        Json::Number(n) => owned(n.as_str()),
        Json::Str(t) => json_quote(t.as_str()),
        Json::Array(xs) => {
            let ghost gxs = j@->Array_0;
            proof {
                lemma_array_view(*xs);
            }
            let mut out = owned("[");
            proof {
                reveal_strlit("[");
            }
            let mut i: usize = 0;
            assert(gxs.take(0) =~= Seq::<JsonValue>::empty());
            while i < xs.len()
                invariant
                    i <= xs@.len(),
                    gxs == json_view(Json::Array(*xs))->Array_0,
                    gxs.len() == xs@.len(),
                    forall|t: int| 0 <= t < xs@.len() ==> #[trigger] gxs[t] == json_view(xs@[t]),
                    *j == Json::Array(*xs),
                    out@ == seq!['['] + canon_items(gxs.take(i as int)),
                decreases xs@.len() - i,
            {
                if i > 0 {
                    out.push(',');
                }
                proof {
                    assert(decreases_to!(*j => *xs));
                    assert(decreases_to!(*xs => xs@));
                    assert(decreases_to!(xs@ => xs@[i as int]));
                }
                let part = canonical_json(&xs[i]);
                out.append(part.as_str());
                proof {
                    let t1 = gxs.take(i + 1);
                    assert(t1.drop_last() =~= gxs.take(i as int));
                    assert(t1[t1.len() - 1] == gxs[i as int]);
                }
                i = i + 1;
            }
            out.push(']');
            assert(gxs.take(i as int) =~= gxs);
            out
        },
        Json::Object(es) => {
            let ghost ges = j@->Object_0;
            proof {
                lemma_object_view(*es);
            }
            let perm = sorted_order(es);
            let ghost sorted = Seq::new(perm@.len(), |t: int| ges[perm@[t] as int]);
            let mut out = owned("{");
            proof {
                reveal_strlit("{");
            }
            let mut i: usize = 0;
            assert(sorted.take(0) =~= Seq::<(Seq<char>, JsonValue)>::empty());
            while i < perm.len()
                invariant
                    i <= perm@.len(),
                    perm@.len() == es@.len(),
                    ges == json_view(Json::Object(*es))->Object_0,
                    ges.len() == es@.len(),
                    forall|t: int|
                        0 <= t < es@.len() ==> #[trigger] ges[t] == (es@[t].0@, json_view(
                            es@[t].1,
                        )),
                    forall|t: int| 0 <= t < perm@.len() ==> #[trigger] perm@[t] < es@.len(),
                    sorted == Seq::new(perm@.len(), |t: int| ges[perm@[t] as int]),
                    *j == Json::Object(*es),
                    out@ == seq!['{'] + canon_members(ges, sorted.take(i as int)),
                decreases perm@.len() - i,
            {
                let idx = perm[i];
                if i > 0 {
                    out.push(',');
                }
                let q = json_quote(es[idx].0.as_str());
                out.append(q.as_str());
                out.push(':');
                proof {
                    assert(decreases_to!(*j => *es));
                    assert(decreases_to!(*es => es@));
                    assert(decreases_to!(es@ => es@[idx as int]));
                    assert(decreases_to!(es@[idx as int] => es@[idx as int].1));
                }
                let part = canonical_json(&es[idx].1);
                out.append(part.as_str());
                proof {
                    let t1 = sorted.take(i + 1);
                    assert(t1.drop_last() =~= sorted.take(i as int));
                    assert(t1[t1.len() - 1] == ges[idx as int]);
                    assert(ges.contains(ges[idx as int]));
                }
                i = i + 1;
            }
            out.push('}');
            assert(sorted.take(i as int) =~= sorted);
            out
        },
    }
}

} // verus!
