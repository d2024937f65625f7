//! RFC3339 (UTC, whole seconds) rendering and a tolerant parser, over the
//! proleptic Gregorian calendar (Howard Hinnant's day-count formulas).
use vstd::prelude::*;

use crate::text::{
    chars_of, dec_int, dec_pad, first_index, i64_dec, lemma_first_from, parse_i64,
    parse_signed, parse_unsigned, parse_unsigned_max, split_once_spec, string_of_range, trim,
    trimmed, u64_dec_pad, digit_char, is_digit, all_digits, dec, digits_value, magnitude, has_char, first_from, is_ws, ws_lead, ws_trail, trim_start, trim_end,
};

verus! {

// ---------------------------------------------------------------------------
// calendar
// ---------------------------------------------------------------------------

/// Days since 1970-01-01 -> (year, month, day) in the proleptic Gregorian
/// calendar (400-year eras of 146097 days, years starting in March).
pub open spec fn civil_spec(z0: int) -> (int, int, int) {
    let z = z0 + 719468;
    let era = z / 146097;
    let doe = z - era * 146097;
    let yoe = (doe - doe / 1460 + doe / 36524 - doe / 146096) / 365;
    let y = yoe + era * 400;
    let doy = doe - (365 * yoe + yoe / 4 - yoe / 100);
    let mp = (5 * doy + 2) / 153;
    let d = doy - (153 * mp + 2) / 5 + 1;
    let m = if mp < 10 {
        mp + 3
    } else {
        mp - 9
    };
    (
        if m <= 2 {
            y + 1
        } else {
            y
        },
        m,
        d,
    )
}

/// (year, month, day) -> days since 1970-01-01, the inverse formula.
pub open spec fn days_spec(y0: int, m: int, d: int) -> int {
    let y = if m <= 2 {
        y0 - 1
    } else {
        y0
    };
    let era = y / 400;
    let yoe = y - era * 400;
    let mp = if m > 2 {
        m - 3
    } else {
        m + 9
    };
    let doy = (153 * mp + 2) / 5 + d - 1;
    let doe = yoe * 365 + yoe / 4 - yoe / 100 + doy;
    era * 146097 + doe - 719468
}

pub open spec fn in_i64(x: int) -> bool {
    i64::MIN <= x <= i64::MAX
}

/// The day-count formula's intermediate values stay within its machine
/// types (`i64` for signed values, `u64` for the day-of-year).
pub open spec fn days_fits(y0: int, m: int, d: int) -> bool {
    let y = if m <= 2 {
        y0 - 1
    } else {
        y0
    };
    let era = y / 400;
    let yoe = y - era * 400;
    let mp = if m > 2 {
        m - 3
    } else {
        m + 9
    };
    let doe = yoe * 365 + yoe / 4 - yoe / 100 + (153 * mp + 2) / 5 + d - 1;
    &&& in_i64(y)
    &&& in_i64(y - 399)
    &&& (153 * mp + 2) / 5 + d >= 1
    &&& in_i64(era * 146097)
    &&& in_i64(era * 146097 + doe)
    &&& in_i64(era * 146097 + doe - 719468)
}

/// Days since the Unix epoch -> (year, month, day).
pub fn civil_from_days(z: i64) -> (r: (i64, u32, u32))
    requires
        -110_000_000_000_000 <= z <= 110_000_000_000_000,
    ensures
        (r.0 as int, r.1 as int, r.2 as int) == civil_spec(z as int),
{
    let z = z + 719_468;
    let era: i64 = if z >= 0 {
        z / 146_097
    } else {
        -(((-z) + 146_096) / 146_097)
    };
    assert(era == (z as int) / 146097) by (nonlinear_arith)
        requires
            era == if z >= 0 {
                z / 146_097
            } else {
                -(((-z) + 146_096) / 146_097)
            },
            -220_000_000_000_000 <= z <= 220_000_000_000_000,
    ;
    let doe = (z - era * 146_097) as u64;
    assert(0 <= z - era * 146_097 < 146_097) by (nonlinear_arith)
        requires
            era == (z as int) / 146097,
    ;
    let yoe = (doe - doe / 1460 + doe / 36_524 - doe / 146_096) / 365;
    assert(yoe < 400) by (nonlinear_arith)
        requires
            doe < 146_097,
            yoe == (doe - doe / 1460 + doe / 36_524 - doe / 146_096) / 365,
    ;
    let y = yoe as i64 + era * 400;
    let doy = doe - (365 * yoe + yoe / 4 - yoe / 100);
    assert(doy < 400) by (nonlinear_arith)
        requires
            doe < 146_097,
            yoe == (doe - doe / 1460 + doe / 36_524 - doe / 146_096) / 365,
            doy == doe - (365 * yoe + yoe / 4 - yoe / 100),
    ;
    let mp = (5 * doy + 2) / 153;
    let d = (doy - (153 * mp + 2) / 5 + 1) as u32;
    let m = if mp < 10 {
        mp + 3
    } else {
        mp - 9
    } as u32;
    (
        if m <= 2 {
            y + 1
        } else {
            y
        },
        m,
        d,
    )
}

/// (year, month, day) -> days since the Unix epoch.
pub fn days_from_civil(y: i64, m: u32, d: u32) -> (r: i64)
    requires
        days_fits(y as int, m as int, d as int),
    ensures
        r as int == days_spec(y as int, m as int, d as int),
{
    let y = if m <= 2 {
        y - 1
    } else {
        y
    };
    let era: i64 = if y >= 0 {
        y / 400
    } else {
        -((-(y + 1)) / 400) - 1
    };
    assert(era == (y as int) / 400) by (nonlinear_arith)
        requires
            era == if y >= 0 {
                y / 400
            } else {
                -((-(y + 1)) / 400) - 1
            },
    ;
    assert(0 <= y - era * 400 < 400) by (nonlinear_arith)
        requires
            era == (y as int) / 400,
    ;
    let yoe = (y - era * 400) as u64;
    let mp = if m > 2 {
        m - 3
    } else {
        m + 9
    } as u64;
    let doy = (153 * mp + 2) / 5 + d as u64 - 1;
    let doe = yoe * 365 + yoe / 4 - yoe / 100 + doy;
    era * 146_097 + doe as i64 - 719_468
}

/// `format!("{y:04}")` for a year: sign-aware zero padding to width 4.
pub open spec fn year_text(y: int) -> Seq<char> {
    if y < 0 {
        seq!['-'] + dec_pad((-y) as nat, 3)
    } else {
        dec_pad(y as nat, 4)
    }
}

/// RFC3339 UTC rendering of epoch seconds: "YYYY-MM-DDTHH:MM:SSZ".
pub open spec fn rfc3339_spec(t: int) -> Seq<char> {
    let days = t / 86400;
    let sod = t % 86400;
    let c = civil_spec(days);
    year_text(c.0) + seq!['-'] + dec_pad(c.1 as nat, 2) + seq!['-'] + dec_pad(c.2 as nat, 2)
        + seq!['T'] + dec_pad((sod / 3600) as nat, 2) + seq![':'] + dec_pad(
        ((sod % 3600) / 60) as nat,
        2,
    ) + seq![':'] + dec_pad((sod % 60) as nat, 2) + seq!['Z']
}

pub proof fn lemma_civil_ranges(z: int)
    ensures
        1 <= civil_spec(z).1 <= 12,
        1 <= civil_spec(z).2 <= 31,
{
    let zz = z + 719468;
    let era = zz / 146097;
    let doe = zz - era * 146097;
    assert(0 <= doe < 146097) by (nonlinear_arith)
        requires
            era == zz / 146097,
            doe == zz - era * 146097,
    ;
    let yoe = (doe - doe / 1460 + doe / 36524 - doe / 146096) / 365;
    let doy = doe - (365 * yoe + yoe / 4 - yoe / 100);
    assert(0 <= doy < 366) by (nonlinear_arith)
        requires
            0 <= doe < 146097,
            yoe == (doe - doe / 1460 + doe / 36524 - doe / 146096) / 365,
            doy == doe - (365 * yoe + yoe / 4 - yoe / 100),
    ;
    let mp = (5 * doy + 2) / 153;
    assert(0 <= mp <= 11);
    assert(0 <= doy - (153 * mp + 2) / 5 <= 30) by (nonlinear_arith)
        requires
            0 <= doy < 366,
            mp == (5 * doy + 2) / 153,
    ;
}

/// Format epoch seconds as RFC3339 UTC ("2026-09-26T12:34:56Z").
pub fn rfc3339(epoch_secs: i64) -> (s: String)
    ensures
        s@ == rfc3339_spec(epoch_secs as int),
{
    let days: i64 = if epoch_secs >= 0 {
        epoch_secs / 86_400
    } else {
        -((-(epoch_secs + 1)) / 86_400) - 1
    };
    assert(days == (epoch_secs as int) / 86400) by (nonlinear_arith)
        requires
            days == if epoch_secs >= 0 {
                epoch_secs / 86_400
            } else {
                -((-(epoch_secs + 1)) / 86_400) - 1
            },
    ;
    let sod: i64 = (epoch_secs as i128 - (days as i128) * 86_400) as i64;
    assert(sod == (epoch_secs as int) % 86400 && 0 <= sod < 86400) by (nonlinear_arith)
        requires
            days == (epoch_secs as int) / 86400,
            sod == epoch_secs - days * 86_400,
    ;
    let (y, m, d) = civil_from_days(days);
    proof {
        lemma_civil_ranges(days as int);
    }
    let mut s = String::new();
    if y < 0 {
        s.push('-');
        let t = u64_dec_pad((-(y as i128)) as u64, 3);
        s.append(t.as_str());
    } else {
        let t = u64_dec_pad(y as u64, 4);
        s.append(t.as_str());
    }
    s.push('-');
    let t = u64_dec_pad(m as u64, 2);
    s.append(t.as_str());
    s.push('-');
    let t = u64_dec_pad(d as u64, 2);
    s.append(t.as_str());
    s.push('T');
    let t = u64_dec_pad((sod / 3600) as u64, 2);
    s.append(t.as_str());
    s.push(':');
    let t = u64_dec_pad(((sod % 3600) / 60) as u64, 2);
    s.append(t.as_str());
    s.push(':');
    let t = u64_dec_pad((sod % 60) as u64, 2);
    s.append(t.as_str());
    s.push('Z');
    s
}

// ---------------------------------------------------------------------------
// parsing
// ---------------------------------------------------------------------------

/// Outcome of the tolerant parser: a value, a rejection (`None`), or an
/// intermediate value beyond the `i64`/`u64` arithmetic it is computed in.
pub enum Parsed {
    Value(int),
    Reject,
    Overflow,
}

/// First index holding `a` or `b` (`str::find([a, b])`).
pub open spec fn first_sep(s: Seq<char>, a: char, b: char) -> Option<int>
    decreases s.len(),
{
    if s.len() == 0 {
        None
    } else {
        match first_sep(s.drop_last(), a, b) {
            Some(i) => Some(i),
            None => if s.last() == a || s.last() == b {
                Some(s.len() - 1)
            } else {
                None
            },
        }
    }
}

pub proof fn lemma_first_sep(s: Seq<char>, a: char, b: char)
    ensures
        first_sep(s, a, b) matches Some(i) ==> 0 <= i < s.len() && (s[i] == a || s[i] == b)
            && forall|k: int| 0 <= k < i ==> s[k] != a && s[k] != b,
        first_sep(s, a, b) is None ==> forall|k: int| 0 <= k < s.len() ==> s[k] != a && s[k] != b,
    decreases s.len(),
{
    if s.len() > 0 {
        let d = s.drop_last();
        lemma_first_sep(d, a, b);
        assert(forall|k: int| 0 <= k < d.len() ==> d[k] == s[k]);
    }
}

/// `s.trim_end_matches(['Z', 'z'])`.
pub open spec fn strip_zs(s: Seq<char>) -> Seq<char>
    decreases s.len(),
{
    if s.len() > 0 && (s.last() == 'Z' || s.last() == 'z') {
        strip_zs(s.drop_last())
    } else {
        s
    }
}

/// The `k`-th piece of `s.split(c)`, if there is one.
pub open spec fn piece(s: Seq<char>, c: char, k: nat) -> Option<Seq<char>>
    decreases k,
{
    match first_index(s, c) {
        Some(i) => if k == 0 {
            Some(s.subrange(0, i))
        } else {
            piece(s.subrange(i + 1, s.len() as int), c, (k - 1) as nat)
        },
        None => if k == 0 {
            Some(s)
        } else {
            None
        },
    }
}

pub open spec fn or_zero(p: Option<Seq<char>>) -> Seq<char> {
    match p {
        Some(x) => x,
        None => "0"@,
    }
}

/// The "+HH:MM" / "-HH:MM" offset in seconds (`off` starts with the sign).
pub open spec fn offset_outcome(off: Seq<char>) -> Parsed {
    let sign: int = if off.len() > 0 && off[0] == '-' {
        -1
    } else {
        1
    };
    let tail = off.drop_first();
    let parts = match split_once_spec(tail, ':') {
        Some(p) => p,
        None => (tail, "0"@),
    };
    match parse_signed(parts.0) {
        None => Parsed::Reject,
        Some(h) => if !in_i64(h * 3600) {
            Parsed::Overflow
        } else {
            match parse_signed(parts.1) {
                None => Parsed::Reject,
                Some(mm) => if !in_i64(mm * 60) || !in_i64(h * 3600 + mm * 60) || !in_i64(
                    sign * (h * 3600 + mm * 60),
                ) {
                    Parsed::Overflow
                } else {
                    Parsed::Value(sign * (h * 3600 + mm * 60))
                },
            }
        },
    }
}

/// `days_from_civil(y, m, d) * 86_400 + h * 3600 + mi * 60 + sec - offset`.
pub open spec fn instant_outcome(y: int, m: int, d: int, h: int, mi: int, sec: int, offset: int) -> Parsed {
    if !days_fits(y, m, d) {
        Parsed::Overflow
    } else {
        let a = days_spec(y, m, d) * 86400;
        let b = h * 3600;
        let e = mi * 60;
        if in_i64(a) && in_i64(b) && in_i64(a + b) && in_i64(e) && in_i64(a + b + e) && in_i64(
            a + b + e + sec,
        ) && in_i64(a + b + e + sec - offset) {
            Parsed::Value(a + b + e + sec - offset)
        } else {
            Parsed::Overflow
        }
    }
}

/// The date/time fields after the offset has been read.
pub open spec fn fields_outcome(date: Seq<char>, time: Seq<char>, offset: int) -> Parsed {
    match parse_signed(or_zero(piece(date, '-', 0))) {
        None => Parsed::Reject,
        Some(y) => match piece(date, '-', 1) {
            None => Parsed::Reject,
            Some(ms) => match parse_unsigned(ms, u32::MAX as nat) {
                None => Parsed::Reject,
                Some(m) => match piece(date, '-', 2) {
                    None => Parsed::Reject,
                    Some(ds) => match parse_unsigned(ds, u32::MAX as nat) {
                        None => Parsed::Reject,
                        Some(d) => match parse_signed(or_zero(piece(time, ':', 0))) {
                            None => Parsed::Reject,
                            Some(h) => match parse_signed(or_zero(piece(time, ':', 1))) {
                                None => Parsed::Reject,
                                Some(mi) => match parse_signed(
                                    or_zero(piece(or_zero(piece(time, ':', 2)), '.', 0)),
                                ) {
                                    None => Parsed::Reject,
                                    Some(sec) => instant_outcome(y, m as int, d as int, h, mi, sec, offset),
                                },
                            },
                        },
                    },
                },
            },
        },
    }
}

/// The tolerant RFC3339 parser: 'T' or space between date and time,
/// optional fractional seconds (ignored), 'Z' or a +HH:MM/-HH:MM offset.
pub open spec fn rfc3339_outcome(s0: Seq<char>) -> Parsed {
    let s = trim(s0);
    match first_sep(s, 'T', ' ') {
        None => Parsed::Reject,
        Some(i) => {
            let date = s.subrange(0, i);
            let rest = strip_zs(s.subrange(i + 1, s.len() as int));
            match first_sep(rest, '+', '-') {
                Some(p) => match offset_outcome(rest.subrange(p, rest.len() as int)) {
                    Parsed::Value(off) => fields_outcome(date, rest.subrange(0, p), off),
                    other => other,
                },
                None => fields_outcome(date, rest, 0),
            }
        },
    }
}

/// Index of the first `a` or `b` in `v`.
pub fn find_sep(v: &Vec<char>, a: char, b: char) -> (r: Option<usize>)
    ensures
        match r {
            Some(i) => first_sep(v@, a, b) == Some(i as int),
            None => first_sep(v@, a, b) is None,
        },
{
    proof {
        lemma_first_sep(v@, a, b);
    }
    let mut i: usize = 0;
    while i < v.len()
        invariant
            i <= v@.len(),
            forall|k: int| 0 <= k < i ==> v@[k] != a && v@[k] != b,
            first_sep(v@, a, b) matches Some(j) ==> 0 <= j < v@.len() && (v@[j] == a || v@[j]
                == b) && forall|k: int| 0 <= k < j ==> v@[k] != a && v@[k] != b,
            first_sep(v@, a, b) is None ==> forall|k: int| 0 <= k < v@.len() ==> v@[k] != a
                && v@[k] != b,
        decreases v@.len() - i,
    {
        if v[i] == a || v[i] == b {
            proof {
                if first_sep(v@, a, b) is Some {
                    let j = first_sep(v@, a, b)->0;
                    assert(j >= i);
                    assert(j <= i);
                }
            }
            return Some(i);
        }
        i = i + 1;
    }
    None
}

/// The `k`-th piece of `s.split(c)`.
pub fn split_piece(s: &str, c: char, k: usize) -> (r: Option<String>)
    ensures
        match r {
            Some(p) => piece(s@, c, k as nat) == Some(p@),
            None => piece(s@, c, k as nat) is None,
        },
    decreases k,
{
    let v = chars_of(s);
    proof {
        lemma_first_from(v@, c, 0);
    }
    match crate::text::find_from(&v, c, 0) {
        Some(i) => {
            let n = v.len();
            assert(i < n);
            if k == 0 {
                Some(string_of_range(&v, 0, i))
            } else {
                let rest = string_of_range(&v, i + 1, v.len());
                split_piece(rest.as_str(), c, k - 1)
            }
        },
        None => if k == 0 {
            Some(crate::text::owned(s))
        } else {
            None
        },
    }
}

fn piece_or_zero(s: &str, c: char, k: usize) -> (r: String)
    ensures
        r@ == or_zero(piece(s@, c, k as nat)),
{
    match split_piece(s, c, k) {
        Some(p) => p,
        None => crate::text::owned("0"),
    }
}

/// The offset in seconds.
fn parse_offset(off: &Vec<char>) -> (r: Option<i64>)
    requires
        !(offset_outcome(off@) is Overflow),
        off@.len() > 0,
    ensures
        match r {
            Some(x) => offset_outcome(off@) == Parsed::Value(x as int),
            None => offset_outcome(off@) is Reject,
        },
{
    let sign: i64 = if off[0] == '-' {
        -1
    } else {
        1
    };
    let tail = string_of_range(off, 1, off.len());
    assert(tail@ =~= off@.drop_first());
    let (oh, om) = match crate::text::split_once(tail.as_str(), ':') {
        Some(p) => p,
        None => (tail, crate::text::owned("0")),
    };
    let h = match parse_i64(oh.as_str()) {
        Some(h) => h,
        None => {
            return None;
        },
    };
    let a = h * 3600;
    let mm = match parse_i64(om.as_str()) {
        Some(mm) => mm,
        None => {
            return None;
        },
    };
    Some(sign * (a + mm * 60))
}

fn instant(y: i64, m: u32, d: u32, h: i64, mi: i64, sec: i64, offset: i64) -> (r: i64)
    requires
        instant_outcome(y as int, m as int, d as int, h as int, mi as int, sec as int, offset as int) is Value,
    ensures
        instant_outcome(y as int, m as int, d as int, h as int, mi as int, sec as int, offset as int)
            == Parsed::Value(r as int),
{
    let days = days_from_civil(y, m, d);
    days * 86_400 + h * 3600 + mi * 60 + sec - offset
}

fn parse_fields(date: &str, time: &str, offset: i64) -> (r: Option<i64>)
    requires
        !(fields_outcome(date@, time@, offset as int) is Overflow),
    ensures
        match r {
            Some(x) => fields_outcome(date@, time@, offset as int) == Parsed::Value(x as int),
            None => fields_outcome(date@, time@, offset as int) is Reject,
        },
{
    let ys = piece_or_zero(date, '-', 0);
    let y = match parse_i64(ys.as_str()) {
        Some(y) => y,
        None => {
            return None;
        },
    };
    let ms = match split_piece(date, '-', 1) {
        Some(p) => p,
        None => {
            return None;
        },
    };
    let m = match parse_unsigned_max(ms.as_str(), 0xffff_ffffu64) {
        Some(m) => m as u32,
        None => {
            return None;
        },
    };
    let ds = match split_piece(date, '-', 2) {
        Some(p) => p,
        None => {
            return None;
        },
    };
    let d = match parse_unsigned_max(ds.as_str(), 0xffff_ffffu64) {
        Some(d) => d as u32,
        None => {
            return None;
        },
    };
    let hs = piece_or_zero(time, ':', 0);
    let h = match parse_i64(hs.as_str()) {
        Some(h) => h,
        None => {
            return None;
        },
    };
    let mis = piece_or_zero(time, ':', 1);
    let mi = match parse_i64(mis.as_str()) {
        Some(x) => x,
        None => {
            return None;
        },
    };
    let secs_full = piece_or_zero(time, ':', 2);
    let secs = piece_or_zero(secs_full.as_str(), '.', 0);
    let sec = match parse_i64(secs.as_str()) {
        Some(x) => x,
        None => {
            return None;
        },
    };
    Some(instant(y, m, d, h, mi, sec, offset))
}

/// Whether a timestamp string stays within the parser's machine
/// arithmetic (a parse that does not would overflow an `i64`/`u64`).
pub open spec fn rfc3339_parsable(s: Seq<char>) -> bool {
    !(rfc3339_outcome(s) is Overflow)
}

/// The value of the parse: epoch seconds, or `None`.
pub open spec fn parse_rfc3339_spec(s: Seq<char>) -> Option<int> {
    match rfc3339_outcome(s) {
        Parsed::Value(v) => Some(v),
        _ => None,
    }
}

/// Tolerant RFC3339 parser -> epoch seconds. Accepts 'T' or space
/// separator, optional fractional seconds, and 'Z' or ±HH:MM offsets.
pub fn parse_rfc3339(s: &str) -> (r: Option<i64>)
    requires
        rfc3339_parsable(s@),
    ensures
        match r {
            Some(x) => parse_rfc3339_spec(s@) == Some(x as int),
            None => parse_rfc3339_spec(s@) is None,
        },
{
    let t = trimmed(s);
    let v = chars_of(t.as_str());
    let i = match find_sep(&v, 'T', ' ') {
        Some(i) => i,
        None => {
            return None;
        },
    };
    proof {
        lemma_first_sep(v@, 'T', ' ');
    }
    let date = string_of_range(&v, 0, i);
    let mut end = v.len();
    while end > i + 1 && (v[end - 1] == 'Z' || v[end - 1] == 'z')
        invariant
            i < v@.len(),
            i + 1 <= end <= v@.len(),
            strip_zs(v@.subrange(i + 1, v@.len() as int)) == strip_zs(v@.subrange(i + 1, end as int)),
        decreases end,
    {
        assert(v@.subrange(i + 1, end as int).drop_last() =~= v@.subrange(i + 1, end - 1));
        end = end - 1;
    }
    let rest = crate::text::string_of_range(&v, i + 1, end);
    assert(rest@ == strip_zs(v@.subrange(i + 1, v@.len() as int)));
    let rv = chars_of(rest.as_str());
    match find_sep(&rv, '+', '-') {
        Some(p) => {
            proof {
                lemma_first_sep(rv@, '+', '-');
            }
            let off = crate::text::string_of_range(&rv, p, rv.len());
            let offv = chars_of(off.as_str());
            let offset = match parse_offset(&offv) {
                Some(o) => o,
                None => {
                    return None;
                },
            };
            let time = crate::text::string_of_range(&rv, 0, p);
            parse_fields(date.as_str(), time.as_str(), offset)
        },
        None => parse_fields(date.as_str(), rest.as_str(), 0),
    }
}

// ---------------------------------------------------------------------------
// telling whether a timestamp stays within the parser's arithmetic
// ---------------------------------------------------------------------------

fn fits_i64(x: i128) -> (r: bool)
    ensures
        r == in_i64(x as int),
{
    -9223372036854775808i128 <= x && x <= 9223372036854775807i128
}

/// Whether the day-count formula's intermediate values fit its types.
fn days_fit_check(y0: i64, m: u32, d: u32) -> (r: bool)
    ensures
        r == days_fits(y0 as int, m as int, d as int),
{
    let y: i128 = if m <= 2 {
        y0 as i128 - 1
    } else {
        y0 as i128
    };
    if !fits_i64(y) || !fits_i64(y - 399) {
        return false;
    }
    let era: i128 = if y >= 0 {
        y / 400
    } else {
        -((-(y + 1)) / 400) - 1
    };
    assert(era == (y as int) / 400) by (nonlinear_arith)
        requires
            era == if y >= 0 {
                y / 400
            } else {
                -((-(y + 1)) / 400) - 1
            },
    ;
    assert(0 <= y - era * 400 < 400) by (nonlinear_arith)
        requires
            era == (y as int) / 400,
    ;
    assert(-23058430092136940 <= era <= 23058430092136940) by (nonlinear_arith)
        requires
            era == (y as int) / 400,
            -9223372036854775809 <= y <= 9223372036854775807,
    ;
    let yoe: i128 = y - era * 400;
    let mp: i128 = if m > 2 {
        m as i128 - 3
    } else {
        m as i128 + 9
    };
    let doy0: i128 = (153 * mp + 2) / 5 + d as i128;
    if doy0 < 1 {
        return false;
    }
    let doe: i128 = yoe * 365 + yoe / 4 - yoe / 100 + doy0 - 1;
    let a: i128 = era * 146097;
    fits_i64(a) && fits_i64(a + doe) && fits_i64(a + doe - 719468)
}

/// Whether the offset's arithmetic overflows.
fn offset_overflows(off: &Vec<char>) -> (r: bool)
    requires
        off@.len() > 0,
    ensures
        r == (offset_outcome(off@) is Overflow),
{
    let sign: i128 = if off[0] == '-' {
        -1
    } else {
        1
    };
    let tail = string_of_range(off, 1, off.len());
    assert(tail@ =~= off@.drop_first());
    let (oh, om) = match crate::text::split_once(tail.as_str(), ':') {
        Some(p) => p,
        None => (tail, crate::text::owned("0")),
    };
    proof {
        reveal_strlit("0");
    }
    let h = match parse_i64(oh.as_str()) {
        Some(h) => h,
        None => {
            return false;
        },
    };
    let a: i128 = h as i128 * 3600;
    if !fits_i64(a) {
        return true;
    }
    let mm = match parse_i64(om.as_str()) {
        Some(mm) => mm,
        None => {
            return false;
        },
    };
    let b: i128 = mm as i128 * 60;
    let c: i128 = a + b;
    let e: i128 = sign * c;
    !(fits_i64(b) && fits_i64(c) && fits_i64(e))
}

/// Whether the instant's arithmetic overflows.
fn instant_overflows(y: i64, m: u32, d: u32, h: i64, mi: i64, sec: i64, offset: i64) -> (r: bool)
    ensures
        r == (instant_outcome(y as int, m as int, d as int, h as int, mi as int, sec as int, offset as int) is Overflow),
{
    if !days_fit_check(y, m, d) {
        return true;
    }
    let days = days_from_civil(y, m, d);
    let a: i128 = days as i128 * 86400;
    let b: i128 = h as i128 * 3600;
    let e: i128 = mi as i128 * 60;
    let ab: i128 = a + b;
    let abe: i128 = ab + e;
    let abes: i128 = abe + sec as i128;
    let t: i128 = abes - offset as i128;
    !(fits_i64(a) && fits_i64(b) && fits_i64(ab) && fits_i64(e) && fits_i64(abe) && fits_i64(abes) && fits_i64(t))
}

fn fields_overflow(date: &str, time: &str, offset: i64) -> (r: bool)
    ensures
        r == (fields_outcome(date@, time@, offset as int) is Overflow),
{
    let ys = piece_or_zero(date, '-', 0);
    let y = match parse_i64(ys.as_str()) {
        Some(y) => y,
        None => {
            return false;
        },
    };
    let ms = match split_piece(date, '-', 1) {
        Some(p) => p,
        None => {
            return false;
        },
    };
    let m = match parse_unsigned_max(ms.as_str(), 0xffff_ffffu64) {
        Some(m) => m as u32,
        None => {
            return false;
        },
    };
    let ds = match split_piece(date, '-', 2) {
        Some(p) => p,
        None => {
            return false;
        },
    };
    let d = match parse_unsigned_max(ds.as_str(), 0xffff_ffffu64) {
        Some(d) => d as u32,
        None => {
            return false;
        },
    };
    let hs = piece_or_zero(time, ':', 0);
    let h = match parse_i64(hs.as_str()) {
        Some(h) => h,
        None => {
            return false;
        },
    };
    let mis = piece_or_zero(time, ':', 1);
    let mi = match parse_i64(mis.as_str()) {
        Some(x) => x,
        None => {
            return false;
        },
    };
    let secs_full = piece_or_zero(time, ':', 2);
    let secs = piece_or_zero(secs_full.as_str(), '.', 0);
    let sec = match parse_i64(secs.as_str()) {
        Some(x) => x,
        None => {
            return false;
        },
    };
    instant_overflows(y, m, d, h, mi, sec, offset)
}

/// Whether parsing `s` stays within the parser's machine arithmetic (see
/// `rfc3339_parsable`).
pub fn rfc3339_parsable_check(s: &str) -> (r: bool)
    ensures
        r == rfc3339_parsable(s@),
{
    let t = trimmed(s);
    let v = chars_of(t.as_str());
    let i = match find_sep(&v, 'T', ' ') {
        Some(i) => i,
        None => {
            return true;
        },
    };
    proof {
        lemma_first_sep(v@, 'T', ' ');
    }
    let date = string_of_range(&v, 0, i);
    let mut end = v.len();
    while end > i + 1 && (v[end - 1] == 'Z' || v[end - 1] == 'z')
        invariant
            i < v@.len(),
            i + 1 <= end <= v@.len(),
            strip_zs(v@.subrange(i + 1, v@.len() as int)) == strip_zs(v@.subrange(i + 1, end as int)),
        decreases end,
    {
        assert(v@.subrange(i + 1, end as int).drop_last() =~= v@.subrange(i + 1, end - 1));
        end = end - 1;
    }
    let rest = crate::text::string_of_range(&v, i + 1, end);
    assert(rest@ == strip_zs(v@.subrange(i + 1, v@.len() as int)));
    let rv = chars_of(rest.as_str());
    match find_sep(&rv, '+', '-') {
        Some(p) => {
            proof {
                lemma_first_sep(rv@, '+', '-');
            }
            let off = crate::text::string_of_range(&rv, p, rv.len());
            let offv = chars_of(off.as_str());
            if offset_overflows(&offv) {
                return false;
            }
            let offset = match parse_offset(&offv) {
                Some(o) => o,
                None => {
                    return true;
                },
            };
            let time = crate::text::string_of_range(&rv, 0, p);
            !fields_overflow(date.as_str(), time.as_str(), offset)
        },
        None => !fields_overflow(date.as_str(), rest.as_str(), 0),
    }
}

/// Current wall-clock time as RFC3339.
pub fn now_rfc3339() -> (s: String)
    ensures
        exists|t: i64| s@ == rfc3339_spec(t as int),
{
    let t = crate::clock::now_epoch() as i64;
    let s = rfc3339(t);
    assert(s@ == rfc3339_spec(t as int));
    s
}

// ---------------------------------------------------------------------------
// formatting then parsing gives the instant back
// ---------------------------------------------------------------------------

/// The day-count formula inverts the calendar formula.
pub proof fn lemma_days_of_civil(z: int)
    ensures
        days_spec(civil_spec(z).0, civil_spec(z).1, civil_spec(z).2) == z,
        -110_000_000_000_000 <= z <= 110_000_000_000_000 ==> days_fits(civil_spec(z).0, civil_spec(z).1, civil_spec(z).2),
{
    let zz = z + 719468;
    let era = zz / 146097;
    let doe = zz - era * 146097;
    assert(0 <= doe < 146097) by (nonlinear_arith)
        requires
            era == zz / 146097,
            doe == zz - era * 146097,
    ;
    let yoe = (doe - doe / 1460 + doe / 36524 - doe / 146096) / 365;
    assert(0 <= yoe < 400) by (nonlinear_arith)
        requires
            0 <= doe < 146097,
            yoe == (doe - doe / 1460 + doe / 36524 - doe / 146096) / 365,
    ;
    let y = yoe + era * 400;
    let doy = doe - (365 * yoe + yoe / 4 - yoe / 100);
    assert(0 <= doy < 366) by (nonlinear_arith)
        requires
            0 <= doe < 146097,
            yoe == (doe - doe / 1460 + doe / 36524 - doe / 146096) / 365,
            doy == doe - (365 * yoe + yoe / 4 - yoe / 100),
    ;
    let mp = (5 * doy + 2) / 153;
    assert(0 <= mp <= 11);
    let d = doy - (153 * mp + 2) / 5 + 1;
    assert(1 <= d <= 31) by (nonlinear_arith)
        requires
            0 <= doy < 366,
            mp == (5 * doy + 2) / 153,
            d == doy - (153 * mp + 2) / 5 + 1,
    ;
    let m = if mp < 10 { mp + 3 } else { mp - 9 };
    let c = civil_spec(z);
    assert(c == (if m <= 2 { y + 1 } else { y }, m, d));
    // the inverse formula's intermediate values
    let y2 = if c.1 <= 2 { c.0 - 1 } else { c.0 };
    assert(y2 == y);
    assert(y / 400 == era) by (nonlinear_arith)
        requires
            y == yoe + era * 400,
            0 <= yoe < 400,
    ;
    let mp2 = if m > 2 { m - 3 } else { m + 9 };
    assert(mp2 == mp);
    assert((153 * mp + 2) / 5 + d - 1 == doy);
    assert(days_spec(c.0, c.1, c.2) == era * 146097 + (yoe * 365 + yoe / 4 - yoe / 100 + doy) - 719468);
    if -110_000_000_000_000 <= z <= 110_000_000_000_000 {
        assert(-1_000_000_000_000 <= era <= 1_000_000_000_000) by (nonlinear_arith)
            requires
                era == zz / 146097,
                zz == z + 719468,
                -110_000_000_000_000 <= z <= 110_000_000_000_000,
        ;
        assert(-400_000_000_000_001 <= y <= 400_000_000_000_400) by (nonlinear_arith)
            requires
                y == yoe + era * 400,
                0 <= yoe < 400,
                -1_000_000_000_000 <= era <= 1_000_000_000_000,
        ;
    }
}

proof fn lemma_digit_char(d: nat)
    requires
        d < 10,
    ensures
        (digit_char(d) as u32) == d + 48,
        is_digit(digit_char(d)),
{
}

proof fn lemma_dec_value(n: nat)
    ensures
        all_digits(dec(n)),
        digits_value(dec(n)) == n,
        dec(n).len() >= 1,
    decreases n,
{
    lemma_digit_char(n % 10);
    if n >= 10 {
        lemma_dec_value(n / 10);
        let s = dec(n);
        assert(s.drop_last() =~= dec(n / 10));
        assert(s.last() == digit_char(n % 10));
        assert((n / 10) * 10 + n % 10 == n) by (nonlinear_arith);
        assert(digits_value(s) == digits_value(dec(n / 10)) * 10 + n % 10);
        assert forall|i: int| 0 <= i < s.len() implies is_digit(#[trigger] s[i]) by {
            if i < s.len() - 1 {
                assert(s[i] == dec(n / 10)[i]);
            }
        }
    } else {
        assert(dec(n).drop_last() =~= Seq::<char>::empty());
        assert(digits_value(dec(n)) == digits_value(Seq::<char>::empty()) * 10 + n % 10);
    }
}

proof fn lemma_zeros_value(k: nat)
    ensures
        digits_value(Seq::new(k, |i: int| '0')) == 0,
        all_digits(Seq::new(k, |i: int| '0')),
    decreases k,
{
    if k > 0 {
        lemma_zeros_value((k - 1) as nat);
        assert(Seq::new(k, |i: int| '0').drop_last() =~= Seq::new((k - 1) as nat, |i: int| '0'));
    }
}

proof fn lemma_leading_zeros(k: nat, x: Seq<char>)
    ensures
        digits_value(Seq::new(k, |i: int| '0') + x) == digits_value(x),
    decreases x.len(),
{
    let z = Seq::new(k, |i: int| '0');
    if x.len() == 0 {
        assert(z + x =~= z);
        lemma_zeros_value(k);
    } else {
        lemma_leading_zeros(k, x.drop_last());
        assert((z + x).drop_last() =~= z + x.drop_last());
        assert((z + x).last() == x.last());
    }
}

/// The padded decimal digits of `n` read back as `n`.
proof fn lemma_dec_pad_value(n: nat, w: nat)
    ensures
        all_digits(dec_pad(n, w)),
        digits_value(dec_pad(n, w)) == n,
        dec_pad(n, w).len() >= 1,
        dec_pad(n, w).len() >= w,
{
    lemma_dec_value(n);
    if dec(n).len() < w {
        let k = (w - dec(n).len()) as nat;
        lemma_leading_zeros(k, dec(n));
        lemma_zeros_value(k);
        let z = Seq::new(k, |i: int| '0');
        assert forall|i: int| 0 <= i < (z + dec(n)).len() implies is_digit(#[trigger] (z + dec(n))[i]) by {
            if i >= k {
                assert((z + dec(n))[i] == dec(n)[i - k]);
            }
        }
    }
}

/// Parsing the padded decimal digits of `n` gives `n`.
proof fn lemma_parse_dec_pad(n: nat, w: nat, max: nat)
    requires
        n <= max,
    ensures
        parse_unsigned(dec_pad(n, w), max) == Some(n),
        n <= 9223372036854775807 ==> parse_signed(dec_pad(n, w)) == Some(n as int),
{
    lemma_dec_pad_value(n, w);
    let s = dec_pad(n, w);
    assert(is_digit(s[0]));
    assert(magnitude(s) == Some(n));
}

proof fn lemma_piece_split(a: Seq<char>, c: char, rest: Seq<char>, k: nat)
    requires
        forall|j: int| 0 <= j < a.len() ==> a[j] != c,
    ensures
        piece(a + seq![c] + rest, c, 0) == Some(a),
        piece(a + seq![c] + rest, c, k + 1) == piece(rest, c, k),
{
    let s = a + seq![c] + rest;
    lemma_first_from(s, c, 0);
    assert(s[a.len() as int] == c);
    assert(forall|j: int| 0 <= j < a.len() ==> s[j] == a[j]);
    assert(first_index(s, c) == Some(a.len() as int));
    assert(s.subrange(0, a.len() as int) =~= a);
    assert(s.subrange(a.len() as int + 1, s.len() as int) =~= rest);
}

proof fn lemma_piece_whole(a: Seq<char>, c: char)
    requires
        forall|j: int| 0 <= j < a.len() ==> a[j] != c,
    ensures
        piece(a, c, 0) == Some(a),
{
    lemma_first_from(a, c, 0);
}

proof fn lemma_first_sep_at(s: Seq<char>, a: char, b: char, i: int)
    requires
        0 <= i < s.len(),
        s[i] == a || s[i] == b,
        forall|k: int| 0 <= k < i ==> s[k] != a && s[k] != b,
    ensures
        first_sep(s, a, b) == Some(i),
{
    lemma_first_sep(s, a, b);
}

proof fn lemma_year_nonnegative(z: int)
    requires
        z >= -719528,
    ensures
        civil_spec(z).0 >= 0,
{
    let zz = z + 719468;
    let era = zz / 146097;
    let doe = zz - era * 146097;
    if zz >= 0 {
        assert(era >= 0) by (nonlinear_arith)
            requires
                zz >= 0,
                era == zz / 146097,
        ;
        lemma_days_of_civil(z);
    } else {
        assert(era == -1);
        assert(doe == zz + 146097);
        let yoe = (doe - doe / 1460 + doe / 36524 - doe / 146096) / 365;
        assert(yoe == 399);
        let doy = doe - (365 * yoe + yoe / 4 - yoe / 100);
        assert(306 <= doy <= 365);
        let mp = (5 * doy + 2) / 153;
        assert(mp >= 10);
    }
}

proof fn lemma_digits_no(s: Seq<char>, c: char)
    requires
        all_digits(s),
        !('0' <= c <= '9'),
    ensures
        forall|j: int| 0 <= j < s.len() ==> s[j] != c,
{
    assert forall|j: int| 0 <= j < s.len() implies s[j] != c by {
        assert(is_digit(s[j]));
    }
}

pub open spec fn date_text(y: nat, m: nat, d: nat) -> Seq<char> {
    dec_pad(y, 4) + seq!['-'] + dec_pad(m, 2) + seq!['-'] + dec_pad(d, 2)
}

pub open spec fn time_text(h: nat, mi: nat, sec: nat) -> Seq<char> {
    dec_pad(h, 2) + seq![':'] + dec_pad(mi, 2) + seq![':'] + dec_pad(sec, 2)
}

proof fn lemma_three_pieces(a: Seq<char>, b: Seq<char>, c: Seq<char>, sep: char)
    requires
        all_digits(a),
        all_digits(b),
        all_digits(c),
        !('0' <= sep <= '9'),
    ensures
        piece(a + seq![sep] + b + seq![sep] + c, sep, 0) == Some(a),
        piece(a + seq![sep] + b + seq![sep] + c, sep, 1) == Some(b),
        piece(a + seq![sep] + b + seq![sep] + c, sep, 2) == Some(c),
        forall|k: int|
            0 <= k < (a + seq![sep] + b + seq![sep] + c).len() ==> is_digit(
                #[trigger] (a + seq![sep] + b + seq![sep] + c)[k],
            ) || (a + seq![sep] + b + seq![sep] + c)[k] == sep,
{
    lemma_digits_no(a, sep);
    lemma_digits_no(b, sep);
    lemma_digits_no(c, sep);
    let rest = b + seq![sep] + c;
    let s = a + seq![sep] + b + seq![sep] + c;
    assert(s =~= a + seq![sep] + rest);
    lemma_piece_split(a, sep, rest, 0);
    lemma_piece_split(a, sep, rest, 1);
    lemma_piece_split(b, sep, c, 0);
    lemma_piece_whole(c, sep);
    assert forall|k: int| 0 <= k < s.len() implies is_digit(#[trigger] s[k]) || s[k] == sep by {
        if k < a.len() {
            assert(s[k] == a[k]);
        } else if k == a.len() {
        } else if k < a.len() + 1 + b.len() {
            assert(s[k] == b[k - a.len() - 1]);
        } else if k == a.len() + 1 + b.len() {
        } else {
            assert(s[k] == c[k - a.len() - 2 - b.len()]);
        }
    }
}

/// The parser reads "<date>T<time>Z" through its date and time fields.
proof fn lemma_outcome_of_shape(date: Seq<char>, tm: Seq<char>)
    requires
        date.len() > 0,
        is_digit(date[0]),
        forall|k: int| 0 <= k < date.len() ==> is_digit(#[trigger] date[k]) || date[k] == '-',
        tm.len() > 0,
        is_digit(tm.last()),
        forall|k: int| 0 <= k < tm.len() ==> is_digit(#[trigger] tm[k]) || tm[k] == ':',
    ensures
        rfc3339_outcome(date + seq!['T'] + tm + seq!['Z']) == fields_outcome(date, tm, 0),
{
    let s = date + seq!['T'] + tm + seq!['Z'];
    assert(s[0] == date[0]);
    assert(ws_lead(s) == 0);
    assert(ws_trail(s) == 0);
    assert(trim_start(s) =~= s);
    assert(trim(s) =~= s);
    let i = date.len() as int;
    assert forall|k: int| 0 <= k < i implies s[k] != 'T' && s[k] != ' ' by {
        assert(s[k] == date[k]);
        assert(is_digit(date[k]) || date[k] == '-');
    }
    lemma_first_sep_at(s, 'T', ' ', i);
    assert(s.subrange(0, i) =~= date);
    assert(s.subrange(i + 1, s.len() as int) =~= tm.push('Z'));
    assert(tm.push('Z').drop_last() =~= tm);
    assert(strip_zs(tm) == tm);
    lemma_first_sep(tm, '+', '-');
    assert forall|k: int| 0 <= k < tm.len() implies tm[k] != '+' && tm[k] != '-' by {
        assert(is_digit(tm[k]) || tm[k] == ':');
    }
}

/// Formatted fields read back as their values.
proof fn lemma_fields_of_text(y: nat, m: nat, d: nat, h: nat, mi: nat, sec: nat)
    requires
        y <= 9223372036854775807,
        m <= 4294967295,
        d <= 4294967295,
        h <= 9223372036854775807,
        mi <= 9223372036854775807,
        sec <= 9223372036854775807,
    ensures
        fields_outcome(date_text(y, m, d), time_text(h, mi, sec), 0) == instant_outcome(
            y as int,
            m as int,
            d as int,
            h as int,
            mi as int,
            sec as int,
            0,
        ),
{
    lemma_dec_pad_value(y, 4);
    lemma_dec_pad_value(m, 2);
    lemma_dec_pad_value(d, 2);
    lemma_dec_pad_value(h, 2);
    lemma_dec_pad_value(mi, 2);
    lemma_dec_pad_value(sec, 2);
    lemma_three_pieces(dec_pad(y, 4), dec_pad(m, 2), dec_pad(d, 2), '-');
    lemma_three_pieces(dec_pad(h, 2), dec_pad(mi, 2), dec_pad(sec, 2), ':');
    lemma_digits_no(dec_pad(sec, 2), '.');
    lemma_piece_whole(dec_pad(sec, 2), '.');
    lemma_parse_dec_pad(y, 4, 9223372036854775807);
    lemma_parse_dec_pad(m, 2, 4294967295);
    lemma_parse_dec_pad(d, 2, 4294967295);
    lemma_parse_dec_pad(h, 2, 9223372036854775807);
    lemma_parse_dec_pad(mi, 2, 9223372036854775807);
    lemma_parse_dec_pad(sec, 2, 9223372036854775807);
}

/// The rendered text is "<date>T<time>Z" with digit fields.
proof fn lemma_rendered_shape(t: int, y: nat, m: nat, d: nat, h: nat, mi: nat, sec: nat)
    requires
        civil_spec(t / 86400) == (y as int, m as int, d as int),
        h == (t % 86400) / 3600,
        mi == ((t % 86400) % 3600) / 60,
        sec == (t % 86400) % 60,
    ensures
        rfc3339_spec(t) == date_text(y, m, d) + seq!['T'] + time_text(h, mi, sec) + seq!['Z'],
        date_text(y, m, d).len() > 0,
        is_digit(date_text(y, m, d)[0]),
        forall|k: int|
            0 <= k < date_text(y, m, d).len() ==> is_digit(#[trigger] date_text(y, m, d)[k])
                || date_text(y, m, d)[k] == '-',
        time_text(h, mi, sec).len() > 0,
        is_digit(time_text(h, mi, sec).last()),
        forall|k: int|
            0 <= k < time_text(h, mi, sec).len() ==> is_digit(#[trigger] time_text(h, mi, sec)[k])
                || time_text(h, mi, sec)[k] == ':',
{
    lemma_dec_pad_value(y, 4);
    lemma_dec_pad_value(m, 2);
    lemma_dec_pad_value(d, 2);
    lemma_dec_pad_value(h, 2);
    lemma_dec_pad_value(mi, 2);
    lemma_dec_pad_value(sec, 2);
    lemma_three_pieces(dec_pad(y, 4), dec_pad(m, 2), dec_pad(d, 2), '-');
    lemma_three_pieces(dec_pad(h, 2), dec_pad(mi, 2), dec_pad(sec, 2), ':');
    assert(rfc3339_spec(t) =~= date_text(y, m, d) + seq!['T'] + time_text(h, mi, sec) + seq!['Z']);
    let dt = date_text(y, m, d);
    assert(dt[0] == dec_pad(y, 4)[0]);
    let tt = time_text(h, mi, sec);
    assert(tt.last() == dec_pad(sec, 2).last());
    assert(is_digit(dec_pad(sec, 2)[dec_pad(sec, 2).len() - 1]));
}

/// Parsing what `rfc3339` renders gives the instant back, for every
/// instant from 0000-01-01T00:00:00Z on (earlier years render with a
/// leading '-', which the parser reads as a date separator).
pub proof fn lemma_rfc3339_roundtrip(t: int)
    requires
        -62167219200 <= t <= 9223372036854775807,
    ensures
        rfc3339_parsable(rfc3339_spec(t)),
        parse_rfc3339_spec(rfc3339_spec(t)) == Some(t),
{
    let days = t / 86400;
    let sod = t % 86400;
    assert(-719528 <= days <= 106751991167300 && 0 <= sod < 86400 && days * 86400 + sod == t) by (nonlinear_arith)
        requires
            -62167219200 <= t <= 9223372036854775807,
            days == t / 86400,
            sod == t % 86400,
    ;
    let c = civil_spec(days);
    lemma_year_nonnegative(days);
    lemma_civil_ranges(days);
    lemma_days_of_civil(days);
    let h = sod / 3600;
    let mi = (sod % 3600) / 60;
    let sec = sod % 60;
    assert(0 <= h < 24 && 0 <= mi < 60 && 0 <= sec < 60 && h * 3600 + mi * 60 + sec == sod) by (nonlinear_arith)
        requires
            0 <= sod < 86400,
            h == sod / 3600,
            mi == (sod % 3600) / 60,
            sec == sod % 60,
    ;
    lemma_year_bound(days);
    let (y, m, d) = (c.0 as nat, c.1 as nat, c.2 as nat);
    lemma_rendered_shape(t, y, m, d, h as nat, mi as nat, sec as nat);
    lemma_outcome_of_shape(date_text(y, m, d), time_text(h as nat, mi as nat, sec as nat));
    lemma_fields_of_text(y, m, d, h as nat, mi as nat, sec as nat);
    assert(days_spec(c.0, c.1, c.2) == days);
    assert(instant_outcome(c.0, c.1, c.2, h, mi, sec, 0) == Parsed::Value(t));
}

proof fn lemma_year_bound(days: int)
    requires
        -719528 <= days <= 106751991167300,
    ensures
        civil_spec(days).0 <= 400_000_000_000,
{
    let zz = days + 719468;
    let era = zz / 146097;
    assert(era <= 800_000_000) by (nonlinear_arith)
        requires
            zz <= 106751991167300 + 719468,
            era == zz / 146097,
    ;
    let doe = zz - era * 146097;
    assert(0 <= doe < 146097) by (nonlinear_arith)
        requires
            era == zz / 146097,
            doe == zz - era * 146097,
    ;
    let yoe = (doe - doe / 1460 + doe / 36524 - doe / 146096) / 365;
    assert(0 <= yoe < 400) by (nonlinear_arith)
        requires
            0 <= doe < 146097,
            yoe == (doe - doe / 1460 + doe / 36524 - doe / 146096) / 365,
    ;
}

} // verus!
