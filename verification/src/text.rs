//! Character-level string helpers shared by the whole library: prefix and
//! suffix tests, searching and splitting, whitespace trimming, decimal
//! and hexadecimal rendering, and strict decimal parsing.
use vstd::prelude::*;

verus! {

/// `String::push`, which std documents as appending the character to the
/// end of the string: the text afterwards is the text before with `ch`
/// added at its end.
pub assume_specification[ String::push ](s: &mut String, ch: char)
    ensures
        final(s)@ == old(s)@.push(ch),
;

// ---------------------------------------------------------------------------
// conversions
// ---------------------------------------------------------------------------

/// The characters of a string slice, in order.
pub fn chars_of(s: &str) -> (v: Vec<char>)
    ensures
        v@ == s@,
{
    let mut v: Vec<char> = Vec::new();
    for c in it: s.chars()
        invariant
            v@ == it.seq().take(it.index() as int),
            it.seq() == s@,
    {
        v.push(c);
    }
    v
}

/// The string made of the characters `v[from..to]`.
pub fn string_of_range(v: &Vec<char>, from: usize, to: usize) -> (s: String)
    requires
        from <= to <= v@.len(),
    ensures
        s@ == v@.subrange(from as int, to as int),
{
    let mut s = String::new();
    let mut i = from;
    while i < to
        invariant
            from <= i <= to <= v@.len(),
            s@ == v@.subrange(from as int, i as int),
        decreases to - i,
    {
        s.push(v[i]);
        i = i + 1;
    }
    s
}

/// The string made of all characters of `v`.
pub fn string_of(v: &Vec<char>) -> (s: String)
    ensures
        s@ == v@,
{
    string_of_range(v, 0, v.len())
}

/// An owned copy of a string slice.
pub fn owned(s: &str) -> (r: String)
    ensures
        r@ == s@,
{
    let mut r = String::new();
    r.append(s);
    r
}

/// Appends the characters of `t` to `s`.
pub fn push_all(s: &mut String, t: &str)
    ensures
        final(s)@ == old(s)@ + t@,
{
    s.append(t);
}

// ---------------------------------------------------------------------------
// prefixes, suffixes, search
// ---------------------------------------------------------------------------

pub open spec fn is_prefix(p: Seq<char>, s: Seq<char>) -> bool {
    p.len() <= s.len() && s.subrange(0, p.len() as int) == p
}

pub open spec fn is_suffix(p: Seq<char>, s: Seq<char>) -> bool {
    p.len() <= s.len() && s.subrange(s.len() - p.len(), s.len() as int) == p
}

pub open spec fn has_char(s: Seq<char>, c: char) -> bool {
    exists|i: int| 0 <= i < s.len() && s[i] == c
}

/// Do the characters `s[at..at + p.len()]` equal `p`?
pub fn matches_at(s: &Vec<char>, at: usize, p: &Vec<char>) -> (r: bool)
    requires
        at <= s@.len(),
    ensures
        r == (at + p@.len() <= s@.len() && s@.subrange(at as int, at + p@.len()) == p@),
{
    let n = s.len();
    if p.len() > n - at {
        return false;
    }
    let mut i: usize = 0;
    while i < p.len()
        invariant
            s@.len() <= usize::MAX,
            at <= s@.len(),
            at + p@.len() <= s@.len(),
            i <= p@.len(),
            forall|k: int| 0 <= k < i ==> s@[at + k] == p@[k],
        decreases p@.len() - i,
    {
        if s[at + i] != p[i] {
            assert(s@.subrange(at as int, at + p@.len())[i as int] != p@[i as int]);
            return false;
        }
        i = i + 1;
    }
    assert(s@.subrange(at as int, at + p@.len()) =~= p@);
    true
}

/// `str::starts_with` for a string pattern.
pub fn starts_with(s: &str, p: &str) -> (r: bool)
    ensures
        r == is_prefix(p@, s@),
{
    let sv = chars_of(s);
    let pv = chars_of(p);
    matches_at(&sv, 0, &pv)
}

/// `str::ends_with` for a string pattern.
pub fn ends_with(s: &str, p: &str) -> (r: bool)
    ensures
        r == is_suffix(p@, s@),
{
    let sv = chars_of(s);
    let pv = chars_of(p);
    if pv.len() > sv.len() {
        return false;
    }
    matches_at(&sv, sv.len() - pv.len(), &pv)
}

/// `str::strip_prefix` for a string pattern.
pub fn strip_prefix(s: &str, p: &str) -> (r: Option<String>)
    ensures
        r is Some <==> is_prefix(p@, s@),
        r matches Some(rest) ==> rest@ == s@.subrange(p@.len() as int, s@.len() as int),
{
    let sv = chars_of(s);
    let pv = chars_of(p);
    if matches_at(&sv, 0, &pv) {
        Some(string_of_range(&sv, pv.len(), sv.len()))
    } else {
        None
    }
}

/// Index of the first occurrence of `c` at or after `from`.
pub open spec fn first_from(s: Seq<char>, c: char, from: int) -> Option<int>
    decreases s.len() - from,
{
    if from < 0 || from >= s.len() {
        None
    } else if s[from] == c {
        Some(from)
    } else {
        first_from(s, c, from + 1)
    }
}

pub open spec fn first_index(s: Seq<char>, c: char) -> Option<int> {
    first_from(s, c, 0)
}

/// Index of the last occurrence of `c` before `upto`.
pub open spec fn last_before(s: Seq<char>, c: char, upto: int) -> Option<int>
    decreases upto,
{
    if upto <= 0 || upto > s.len() {
        None
    } else if s[upto - 1] == c {
        Some(upto - 1)
    } else {
        last_before(s, c, upto - 1)
    }
}

pub open spec fn last_index(s: Seq<char>, c: char) -> Option<int> {
    last_before(s, c, s.len() as int)
}

pub proof fn lemma_first_from(s: Seq<char>, c: char, from: int)
    requires
        0 <= from <= s.len(),
    ensures
        first_from(s, c, from) matches Some(i) ==> from <= i < s.len() && s[i] == c && forall|k: int| from <= k < i ==> s[k] != c,
        first_from(s, c, from) is None ==> forall|k: int| from <= k < s.len() ==> s[k] != c,
    decreases s.len() - from,
{
    if from < s.len() && s[from] != c {
        lemma_first_from(s, c, from + 1);
    }
}

pub proof fn lemma_last_before(s: Seq<char>, c: char, upto: int)
    requires
        0 <= upto <= s.len(),
    ensures
        last_before(s, c, upto) matches Some(i) ==> 0 <= i < upto && s[i] == c && forall|k: int| i < k < upto ==> s[k] != c,
        last_before(s, c, upto) is None ==> forall|k: int| 0 <= k < upto ==> s[k] != c,
    decreases upto,
{
    if upto > 0 && s[upto - 1] != c {
        lemma_last_before(s, c, upto - 1);
    }
}

/// First index of `c` in `v` at or after `from`.
pub fn find_from(v: &Vec<char>, c: char, from: usize) -> (r: Option<usize>)
    requires
        from <= v@.len(),
    ensures
        r matches Some(i) ==> first_from(v@, c, from as int) == Some(i as int),
        r is None ==> first_from(v@, c, from as int) is None,
{
    let mut i = from;
    while i < v.len()
        invariant
            from <= i <= v@.len(),
            first_from(v@, c, from as int) == first_from(v@, c, i as int),
        decreases v@.len() - i,
    {
        if v[i] == c {
            return Some(i);
        }
        i = i + 1;
    }
    None
}

/// Last index of `c` in `v`.
pub fn rfind(v: &Vec<char>, c: char) -> (r: Option<usize>)
    ensures
        r matches Some(i) ==> last_index(v@, c) == Some(i as int),
        r is None ==> last_index(v@, c) is None,
{
    let mut i = v.len();
    while i > 0
        invariant
            i <= v@.len(),
            last_index(v@, c) == last_before(v@, c, i as int),
        decreases i,
    {
        if v[i - 1] == c {
            return Some(i - 1);
        }
        i = i - 1;
    }
    None
}

/// Does `s` contain the character `c`?
pub fn contains_char(s: &str, c: char) -> (r: bool)
    ensures
        r == has_char(s@, c),
{
    let v = chars_of(s);
    let r = find_from(&v, c, 0);
    proof {
        lemma_first_from(v@, c, 0);
    }
    r.is_some()
}

/// `str::split_once` at the first occurrence of `c`.
pub open spec fn split_once_spec(s: Seq<char>, c: char) -> Option<(Seq<char>, Seq<char>)> {
    match first_index(s, c) {
        Some(i) => Some((s.subrange(0, i), s.subrange(i + 1, s.len() as int))),
        None => None,
    }
}

pub fn split_once(s: &str, c: char) -> (r: Option<(String, String)>)
    ensures
        r is Some <==> split_once_spec(s@, c) is Some,
        r matches Some(p) ==> split_once_spec(s@, c) == Some((p.0@, p.1@)),
{
    let v = chars_of(s);
    proof {
        lemma_first_from(v@, c, 0);
    }
    match find_from(&v, c, 0) {
        Some(i) => {
            let n = v.len();
            assert(i < n);
            Some((string_of_range(&v, 0, i), string_of_range(&v, i + 1, v.len())))
        },
        None => None,
    }
}

// ---------------------------------------------------------------------------
// whitespace
// ---------------------------------------------------------------------------

/// `char::is_whitespace`: the Unicode White_Space property.
pub open spec fn is_ws(c: char) -> bool {
    let u = c as u32;
    (0x9 <= u <= 0xd) || u == 0x20 || u == 0x85 || u == 0xa0 || u == 0x1680 || (0x2000 <= u
        <= 0x200a) || u == 0x2028 || u == 0x2029 || u == 0x202f || u == 0x205f || u == 0x3000
}

pub fn char_is_ws(c: char) -> (r: bool)
    ensures
        r == is_ws(c),
{
    let u = c as u32;
    (0x9 <= u && u <= 0xd) || u == 0x20 || u == 0x85 || u == 0xa0 || u == 0x1680 || (0x2000 <= u
        && u <= 0x200a) || u == 0x2028 || u == 0x2029 || u == 0x202f || u == 0x205f || u == 0x3000
}

/// Number of leading whitespace characters.
pub open spec fn ws_lead(s: Seq<char>) -> nat
    decreases s.len(),
{
    if s.len() > 0 && is_ws(s[0]) {
        1 + ws_lead(s.drop_first())
    } else {
        0
    }
}

/// Number of trailing whitespace characters.
pub open spec fn ws_trail(s: Seq<char>) -> nat
    decreases s.len(),
{
    if s.len() > 0 && is_ws(s.last()) {
        1 + ws_trail(s.drop_last())
    } else {
        0
    }
}

/// `str::trim_start`.
pub open spec fn trim_start(s: Seq<char>) -> Seq<char> {
    s.subrange(ws_lead(s) as int, s.len() as int)
}

/// `str::trim_end`.
pub open spec fn trim_end(s: Seq<char>) -> Seq<char> {
    s.subrange(0, s.len() - ws_trail(s))
}

/// `str::trim`.
pub open spec fn trim(s: Seq<char>) -> Seq<char> {
    trim_end(trim_start(s))
}

pub proof fn lemma_ws_lead(s: Seq<char>, i: int)
    requires
        0 <= i <= s.len(),
        forall|k: int| 0 <= k < i ==> is_ws(s[k]),
    ensures
        ws_lead(s) >= i,
        ws_lead(s) <= s.len(),
        ws_lead(s) == i + ws_lead(s.subrange(i, s.len() as int)),
    decreases i,
{
    if i > 0 {
        assert(s.drop_first().subrange(i - 1, s.len() - 1) =~= s.subrange(i, s.len() as int));
        lemma_ws_lead(s.drop_first(), i - 1);
    } else {
        assert(s.subrange(0, s.len() as int) =~= s);
        lemma_ws_lead_bound(s);
    }
}

pub proof fn lemma_ws_lead_bound(s: Seq<char>)
    ensures
        ws_lead(s) <= s.len(),
        ws_lead(s) < s.len() ==> !is_ws(s[ws_lead(s) as int]),
        forall|k: int| 0 <= k < ws_lead(s) ==> is_ws(s[k]),
    decreases s.len(),
{
    if s.len() > 0 && is_ws(s[0]) {
        lemma_ws_lead_bound(s.drop_first());
        assert forall|k: int| 0 <= k < ws_lead(s) implies is_ws(s[k]) by {
            if k > 0 {
                assert(s[k] == s.drop_first()[k - 1]);
            }
        }
    }
}

pub proof fn lemma_ws_trail_bound(s: Seq<char>)
    ensures
        ws_trail(s) <= s.len(),
        ws_trail(s) < s.len() ==> !is_ws(s[s.len() - 1 - ws_trail(s)]),
        forall|k: int| s.len() - ws_trail(s) <= k < s.len() ==> is_ws(s[k]),
    decreases s.len(),
{
    if s.len() > 0 && is_ws(s.last()) {
        lemma_ws_trail_bound(s.drop_last());
        assert forall|k: int| s.len() - ws_trail(s) <= k < s.len() implies is_ws(s[k]) by {
            if k < s.len() - 1 {
                assert(s[k] == s.drop_last()[k]);
            }
        }
    }
}

pub proof fn lemma_ws_trail_step(s: Seq<char>, j: int)
    requires
        0 <= j <= s.len(),
        forall|k: int| j <= k < s.len() ==> is_ws(s[k]),
    ensures
        ws_trail(s) == (s.len() - j) + ws_trail(s.subrange(0, j)),
    decreases s.len() - j,
{
    if j < s.len() {
        assert(s.drop_last().subrange(0, j) =~= s.subrange(0, j));
        lemma_ws_trail_step(s.drop_last(), j);
    } else {
        assert(s.subrange(0, j) =~= s);
    }
}

pub proof fn lemma_ws_lead_step(s: Seq<char>, i: int)
    requires
        0 <= i <= s.len(),
        forall|k: int| 0 <= k < i ==> is_ws(s[k]),
    ensures
        ws_lead(s) == i + ws_lead(s.subrange(i, s.len() as int)),
{
    lemma_ws_lead(s, i);
}

/// Bounds of the trimmed part: `trim(s) == s[lo..hi]`.
pub fn trim_bounds(v: &Vec<char>) -> (r: (usize, usize))
    ensures
        r.0 <= r.1 <= v@.len(),
        v@.subrange(r.0 as int, r.1 as int) == trim(v@),
        r.0 == ws_lead(v@),
{
    let mut lo: usize = 0;
    while lo < v.len() && char_is_ws(v[lo])
        invariant
            lo <= v@.len(),
            forall|k: int| 0 <= k < lo ==> is_ws(v@[k]),
        decreases v@.len() - lo,
    {
        lo = lo + 1;
    }
    proof {
        lemma_ws_lead_step(v@, lo as int);
        let rest = v@.subrange(lo as int, v@.len() as int);
        if rest.len() > 0 {
            assert(rest[0] == v@[lo as int]);
        }
        assert(ws_lead(rest) == 0);
    }
    let ghost ts = trim_start(v@);
    assert(ts =~= v@.subrange(lo as int, v@.len() as int));
    let mut hi: usize = v.len();
    while hi > lo && char_is_ws(v[hi - 1])
        invariant
            lo <= hi <= v@.len(),
            ts =~= v@.subrange(lo as int, v@.len() as int),
            forall|k: int| hi <= k < v@.len() ==> is_ws(v@[k]),
        decreases hi,
    {
        hi = hi - 1;
    }
    proof {
        let j = hi - lo;
        assert forall|k: int| j <= k < ts.len() implies is_ws(ts[k]) by {
            assert(ts[k] == v@[lo + k]);
        }
        lemma_ws_trail_step(ts, j);
        let pre = ts.subrange(0, j);
        if pre.len() > 0 {
            assert(pre.last() == v@[hi - 1]);
        }
        assert(ws_trail(pre) == 0);
        assert(trim(v@) =~= v@.subrange(lo as int, hi as int));
    }
    (lo, hi)
}

/// `str::trim`, as an owned string.
pub fn trimmed(s: &str) -> (r: String)
    ensures
        r@ == trim(s@),
{
    let v = chars_of(s);
    let (lo, hi) = trim_bounds(&v);
    string_of_range(&v, lo, hi)
}

// ---------------------------------------------------------------------------
// decimal rendering
// ---------------------------------------------------------------------------

pub open spec fn digit_char(d: nat) -> char {
    ((d % 10) + 48) as char
}

/// Decimal digits of `n`, most significant first, no leading zeros
/// (`u64::to_string` / `format!("{n}")`).
pub open spec fn dec(n: nat) -> Seq<char>
    decreases n,
{
    if n < 10 {
        seq![digit_char(n)]
    } else {
        dec(n / 10).push(digit_char(n % 10))
    }
}

/// Decimal digits of `n`, left-padded with '0' to at least `w` characters
/// (`format!("{n:0w$}")` for non-negative `n`).
pub open spec fn dec_pad(n: nat, w: nat) -> Seq<char> {
    if dec(n).len() >= w {
        dec(n)
    } else {
        Seq::new((w - dec(n).len()) as nat, |i: int| '0') + dec(n)
    }
}

/// `format!("{n}")` for a signed integer.
pub open spec fn dec_int(n: int) -> Seq<char> {
    if n < 0 {
        seq!['-'] + dec((-n) as nat)
    } else {
        dec(n as nat)
    }
}

pub proof fn lemma_dec_nonempty(n: nat)
    ensures
        dec(n).len() >= 1,
        dec(n)[0] != '0' || n == 0,
        forall|i: int| 0 <= i < dec(n).len() ==> '0' <= #[trigger] dec(n)[i] <= '9',
    decreases n,
{
    if n >= 10 {
        lemma_dec_nonempty(n / 10);
    }
}

fn digit_of(d: u64) -> (c: char)
    requires
        d < 10,
    ensures
        c == digit_char(d as nat),
{
    let b: u8 = (d as u8) + 48;
    b as char
}

/// Renders `n` in decimal.
pub fn u64_dec(n: u64) -> (s: String)
    ensures
        s@ == dec(n as nat),
    decreases n,
{
    if n < 10 {
        let mut s = String::new();
        s.push(digit_of(n));
        assert(s@ =~= dec(n as nat));
        s
    } else {
        let mut s = u64_dec(n / 10);
        s.push(digit_of(n % 10));
        s
    }
}

/// Renders `n` in decimal, left-padded with zeros to `w` characters.
pub fn u64_dec_pad(n: u64, w: usize) -> (s: String)
    ensures
        s@ == dec_pad(n as nat, w as nat),
{
    let d = u64_dec(n);
    proof {
        lemma_dec_nonempty(n as nat);
    }
    let len = d.as_str().unicode_len();
    if len >= w {
        d
    } else {
        let mut s = String::new();
        let mut i: usize = 0;
        while i < w - len
            invariant
                len < w,
                i <= w - len,
                s@ =~= Seq::new(i as nat, |k: int| '0'),
            decreases w - len - i,
        {
            s.push('0');
            i = i + 1;
        }
        s.append(d.as_str());
        s
    }
}

/// Renders a signed integer in decimal.
pub fn i64_dec(n: i64) -> (s: String)
    ensures
        s@ == dec_int(n as int),
{
    if n < 0 {
        let m: u64 = if n == i64::MIN {
            9223372036854775808u64
        } else {
            (-n) as u64
        };
        let mut s = String::new();
        s.push('-');
        let d = u64_dec(m);
        s.append(d.as_str());
        s
    } else {
        u64_dec(n as u64)
    }
}

// ---------------------------------------------------------------------------
// strict decimal parsing (`str::parse` for integers)
// ---------------------------------------------------------------------------

pub open spec fn is_digit(c: char) -> bool {
    '0' <= c <= '9'
}

pub open spec fn all_digits(s: Seq<char>) -> bool {
    forall|i: int| 0 <= i < s.len() ==> is_digit(#[trigger] s[i])
}

/// Value of a string of decimal digits.
pub open spec fn digits_value(s: Seq<char>) -> nat
    decreases s.len(),
{
    if s.len() == 0 {
        0
    } else {
        digits_value(s.drop_last()) * 10 + ((s.last() as u32) - 48) as nat
    }
}

/// The magnitude part accepted by integer parsing: at least one digit,
/// nothing else.
pub open spec fn magnitude(s: Seq<char>) -> Option<nat> {
    if s.len() > 0 && all_digits(s) {
        Some(digits_value(s))
    } else {
        None
    }
}

/// `str::parse::<u64>()` (also used for `u32` and `u8` with their bounds):
/// an optional '+', then one or more ASCII digits, value within `max`.
pub open spec fn parse_unsigned(s: Seq<char>, max: nat) -> Option<nat> {
    let body = if s.len() > 0 && s[0] == '+' {
        s.drop_first()
    } else {
        s
    };
    match magnitude(body) {
        Some(v) if v <= max => Some(v),
        _ => None,
    }
}

/// `str::parse::<i64>()`: an optional '+' or '-', then one or more ASCII
/// digits, value within the `i64` range.
pub open spec fn parse_signed(s: Seq<char>) -> Option<int> {
    if s.len() > 0 && s[0] == '-' {
        match magnitude(s.drop_first()) {
            Some(v) if v <= 9223372036854775808 => Some(-(v as int)),
            _ => None,
        }
    } else {
        match parse_unsigned(s, 9223372036854775807) {
            Some(v) => Some(v as int),
            None => None,
        }
    }
}

pub proof fn lemma_digits_value_prefix_le(s: Seq<char>, k: int)
    requires
        0 <= k <= s.len(),
        all_digits(s),
    ensures
        digits_value(s.take(k)) <= digits_value(s),
    decreases s.len() - k,
{
    if k < s.len() {
        assert(s.drop_last().take(k) =~= s.take(k));
        assert(all_digits(s.drop_last()));
        lemma_digits_value_prefix_le(s.drop_last(), k);
    } else {
        assert(s.take(k) =~= s);
    }
}

/// Parses the digits `v[from..]` into a value not above `max`.
fn parse_magnitude(v: &Vec<char>, from: usize, max: u64) -> (r: Option<u64>)
    requires
        from <= v@.len(),
    ensures
        r matches Some(x) ==> magnitude(v@.subrange(from as int, v@.len() as int)) == Some(
            x as nat,
        ) && x <= max,
        r is None ==> match magnitude(v@.subrange(from as int, v@.len() as int)) {
            Some(x) => x > max,
            None => true,
        },
{
    let ghost s = v@.subrange(from as int, v@.len() as int);
    if from == v.len() {
        return None;
    }
    let mut acc: u64 = 0;
    let mut i = from;
    while i < v.len()
        invariant
            from <= i <= v@.len(),
            s == v@.subrange(from as int, v@.len() as int),
            all_digits(s.take(i - from)),
            acc as nat == digits_value(s.take(i - from)),
            acc <= max,
        decreases v@.len() - i,
    {
        let c = v[i];
        if !('0' <= c && c <= '9') {
            assert(s[i - from] == c);
            return None;
        }
        let d = (c as u32 - 48) as u64;
        assert(s.take(i - from + 1).drop_last() =~= s.take(i - from));
        assert(all_digits(s.take(i - from + 1)));
        if d > max || acc > (max - d) / 10 {
            proof {
                assert(digits_value(s.take(i - from + 1)) == acc * 10 + d);
                if d <= max {
                    assert(acc * 10 + d > max) by (nonlinear_arith)
                        requires
                            acc > (max - d) / 10,
                            d <= max,
                    ;
                }
                if all_digits(s) {
                    lemma_digits_value_prefix_le(s, i - from + 1);
                }
            }
            return None;
        }
        assert(acc * 10 + d <= max) by (nonlinear_arith)
            requires
                acc <= (max - d) / 10,
                d < 10,
        ;
        acc = acc * 10 + d;
        i = i + 1;
    }
    assert(s.take(i - from) =~= s);
    Some(acc)
}

/// `str::parse::<u64>()` bounded by `max` (u64, u32 and u8 parsing).
pub fn parse_unsigned_max(t: &str, max: u64) -> (r: Option<u64>)
    ensures
        r matches Some(x) ==> parse_unsigned(t@, max as nat) == Some(x as nat),
        r is None ==> parse_unsigned(t@, max as nat) is None,
{
    let v = chars_of(t);
    let from: usize = if v.len() > 0 && v[0] == '+' {
        1
    } else {
        0
    };
    assert(v@.subrange(from as int, v@.len() as int) =~= (if v@.len() > 0 && v@[0] == '+' {
        v@.drop_first()
    } else {
        v@
    }));
    parse_magnitude(&v, from, max)
}

/// `str::parse::<u64>()`.
pub fn parse_u64(t: &str) -> (r: Option<u64>)
    ensures
        r matches Some(x) ==> parse_unsigned(t@, u64::MAX as nat) == Some(x as nat),
        r is None ==> parse_unsigned(t@, u64::MAX as nat) is None,
{
    parse_unsigned_max(t, u64::MAX)
}

/// `str::parse::<i64>()`.
pub fn parse_i64(t: &str) -> (r: Option<i64>)
    ensures
        r matches Some(x) ==> parse_signed(t@) == Some(x as int),
        r is None ==> parse_signed(t@) is None,
{
    let v = chars_of(t);
    if v.len() > 0 && v[0] == '-' {
        assert(v@.subrange(1, v@.len() as int) =~= v@.drop_first());
        match parse_magnitude(&v, 1, 9223372036854775808u64) {
            Some(m) => {
                if m == 9223372036854775808u64 {
                    Some(i64::MIN)
                } else {
                    Some(-(m as i64))
                }
            },
            None => None,
        }
    } else {
        match parse_unsigned_max(t, 9223372036854775807u64) {
            Some(m) => Some(m as i64),
            None => None,
        }
    }
}

// ---------------------------------------------------------------------------
// hexadecimal
// ---------------------------------------------------------------------------

pub open spec fn hex_digit(d: nat) -> char {
    if d < 10 {
        (d + 48) as char
    } else {
        (d - 10 + 97) as char
    }
}

/// Lowercase hex of a byte sequence, two digits per byte
/// (`format!("{b:02x}")` for each byte).
pub open spec fn hex_of(bytes: Seq<u8>) -> Seq<char>
    decreases bytes.len(),
{
    if bytes.len() == 0 {
        Seq::empty()
    } else {
        hex_of(bytes.drop_last()) + seq![
            hex_digit((bytes.last() / 16) as nat),
            hex_digit((bytes.last() % 16) as nat),
        ]
    }
}

pub proof fn lemma_hex_len(bytes: Seq<u8>)
    ensures
        hex_of(bytes).len() == 2 * bytes.len(),
    decreases bytes.len(),
{
    if bytes.len() > 0 {
        lemma_hex_len(bytes.drop_last());
    }
}

fn hex_char(d: u8) -> (c: char)
    requires
        d < 16,
    ensures
        c == hex_digit(d as nat),
{
    if d < 10 {
        (d + 48) as char
    } else {
        (d - 10 + 97) as char
    }
}

/// Lowercase hex encoding of bytes.
pub fn hex(bytes: &[u8]) -> (s: String)
    ensures
        s@ == hex_of(bytes@),
{
    let mut s = String::new();
    let mut i: usize = 0;
    while i < bytes.len()
        invariant
            i <= bytes@.len(),
            s@ == hex_of(bytes@.take(i as int)),
        decreases bytes@.len() - i,
    {
        let b = bytes[i];
        s.push(hex_char(b / 16));
        s.push(hex_char(b % 16));
        assert(bytes@.take(i + 1).drop_last() =~= bytes@.take(i as int));
        i = i + 1;
    }
    assert(bytes@.take(i as int) =~= bytes@);
    s
}

/// Value of one hex digit (either case), as `u8::from_str_radix(_, 16)`
/// accepts it.
pub open spec fn hex_value(c: char) -> Option<nat> {
    if '0' <= c <= '9' {
        Some((c as u32 - 48) as nat)
    } else if 'a' <= c <= 'f' {
        Some((c as u32 - 97 + 10) as nat)
    } else if 'A' <= c <= 'F' {
        Some((c as u32 - 65 + 10) as nat)
    } else {
        None
    }
}

pub fn hex_value_of(c: char) -> (r: Option<u8>)
    ensures
        r matches Some(x) ==> hex_value(c) == Some(x as nat),
        r is None ==> hex_value(c) is None,
{
    if '0' <= c && c <= '9' {
        Some((c as u32 - 48) as u8)
    } else if 'a' <= c && c <= 'f' {
        Some((c as u32 - 97 + 10) as u8)
    } else if 'A' <= c && c <= 'F' {
        Some((c as u32 - 65 + 10) as u8)
    } else {
        None
    }
}

/// `u8::from_str_radix(pair, 16)` for a two-character string: two hex
/// digits, or an explicit `+` sign before one.
pub open spec fn hex_pair(a: char, b: char) -> Option<nat> {
    if a == '+' {
        hex_value(b)
    } else {
        match (hex_value(a), hex_value(b)) {
            (Some(x), Some(y)) => Some(x * 16 + y),
            _ => None,
        }
    }
}

/// Parses exactly 64 hex characters into 32 bytes (a configured
/// Ed25519 seed or AES-256 key).
pub open spec fn pair_at(s: Seq<char>, i: int) -> Option<nat> {
    hex_pair(s[2 * i], s[2 * i + 1])
}

pub open spec fn key_hex_spec(s: Seq<char>) -> Option<Seq<u8>> {
    if s.len() == 64 && forall|i: int| 0 <= i < 32 ==> #[trigger] pair_at(s, i) is Some {
        Some(Seq::new(32, |i: int| hex_pair(s[2 * i], s[2 * i + 1])->0 as u8))
    } else {
        None
    }
}

pub fn parse_key_hex(s: &str) -> (r: Option<[u8; 32]>)
    ensures
        r matches Some(k) ==> key_hex_spec(s@) == Some(k@),
        r is None ==> key_hex_spec(s@) is None,
{
    let v = chars_of(s);
    if v.len() != 64 {
        return None;
    }
    let mut key = [0u8; 32];
    let mut i: usize = 0;
    while i < 32
        invariant
            v@ == s@,
            v@.len() == 64,
            i <= 32,
            key@.len() == 32,
            forall|k: int| 0 <= k < i ==> #[trigger] pair_at(v@, k) is Some
                && key@[k] == pair_at(v@, k)->0 as u8,
        decreases 32 - i,
    {
        let hi = if v[2 * i] == '+' {
            Some(0u8)
        } else {
            hex_value_of(v[2 * i])
        };
        let lo = hex_value_of(v[2 * i + 1]);
        match (hi, lo) {
            (Some(h), Some(l)) => {
                key[i] = h * 16 + l;
            },
            _ => {
                proof {
                    let k = i as int;
                    assert(pair_at(v@, k) is None);
                    assert(v@ == s@);
                    assert(pair_at(s@, k) is None);
                    assert(!(forall|j: int| 0 <= j < 32 ==> #[trigger] pair_at(s@, j) is Some));
                    assert(key_hex_spec(s@) is None);
                }
                return None;
            },
        }
        i = i + 1;
    }
    assert(key@ =~= Seq::new(32, |k: int| pair_at(v@, k)->0 as u8));
    Some(key)
}

// ---------------------------------------------------------------------------
// splitting into all pieces
// ---------------------------------------------------------------------------

/// `s.split(c)`: the pieces between occurrences of `c` (always at least one).
pub open spec fn split_all(s: Seq<char>, c: char) -> Seq<Seq<char>>
    decreases s.len(),
{
    match first_index(s, c) {
        Some(i) => if 0 <= i < s.len() {
            seq![s.subrange(0, i)] + split_all(s.subrange(i + 1, s.len() as int), c)
        } else {
            seq![s]
        },
        None => seq![s],
    }
}

pub proof fn lemma_first_from_shift(s: Seq<char>, c: char, start: int)
    requires
        0 <= start <= s.len(),
    ensures
        match first_from(s, c, start) {
            Some(i) => first_index(s.subrange(start, s.len() as int), c) == Some(i - start),
            None => first_index(s.subrange(start, s.len() as int), c) is None,
        },
{
    let t = s.subrange(start, s.len() as int);
    lemma_first_from(s, c, start);
    lemma_first_from(t, c, 0);
    match first_from(s, c, start) {
        Some(i) => {
            assert(t[i - start] == c);
            match first_from(t, c, 0) {
                Some(j) => {
                    assert(t[j] == s[start + j]);
                    assert(j == i - start);
                },
                None => {
                    assert(false);
                },
            }
        },
        None => {
            if first_from(t, c, 0) is Some {
                let j = first_from(t, c, 0)->0;
                assert(t[j] == s[start + j]);
            }
        },
    }
}

/// Splitting always gives at least one piece.
pub proof fn lemma_split_all_nonempty(s: Seq<char>, c: char)
    ensures
        split_all(s, c).len() >= 1,
    decreases s.len(),
{
    match first_index(s, c) {
        Some(i) => if 0 <= i < s.len() {
            lemma_split_all_nonempty(s.subrange(i + 1, s.len() as int), c);
        },
        None => {},
    }
}

/// `s.split(c)` as owned pieces.
pub fn split_by(s: &str, c: char) -> (r: Vec<String>)
    ensures
        r@.map_values(|p: String| p@) == split_all(s@, c),
{
    let v = chars_of(s);
    let mut out: Vec<String> = Vec::new();
    let mut start: usize = 0;
    assert(v@.subrange(0, v@.len() as int) =~= v@);
    loop
        invariant
            v@ == s@,
            start <= v@.len(),
            split_all(s@, c) == out@.map_values(|p: String| p@) + split_all(
                v@.subrange(start as int, v@.len() as int),
                c,
            ),
        decreases v@.len() - start,
    {
        let ghost rest = v@.subrange(start as int, v@.len() as int);
        proof {
            lemma_first_from_shift(v@, c, start as int);
            lemma_first_from(v@, c, start as int);
        }
        match find_from(&v, c, start) {
            Some(i) => {
                let n = v.len();
                assert(i < n);
                let piece = string_of_range(&v, start, i);
                proof {
                    assert(piece@ =~= rest.subrange(0, i - start));
                    assert(rest.subrange(i - start + 1, rest.len() as int) =~= v@.subrange(
                        i + 1,
                        v@.len() as int,
                    ));
                }
                let ghost before = out@.map_values(|p: String| p@);
                out.push(piece);
                assert(out@.map_values(|p: String| p@) =~= before.push(piece@));
                assert(before.push(piece@) + split_all(v@.subrange(i + 1, v@.len() as int), c)
                    =~= before + (seq![piece@] + split_all(
                    v@.subrange(i + 1, v@.len() as int),
                    c,
                )));
                start = i + 1;
            },
            None => {
                let piece = string_of_range(&v, start, v.len());
                let ghost before = out@.map_values(|p: String| p@);
                out.push(piece);
                assert(out@.map_values(|p: String| p@) =~= before + seq![rest]);
                return out;
            },
        }
    }
}

} // verus!
