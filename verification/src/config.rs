//! Reading the service's settings: flags, lists, numbers with defaults,
//! and the public base URL.
use vstd::prelude::*;

use crate::api::{ascii_lower, opt_view, to_ascii_lower};
use crate::hub::drop_trailing_slashes;
use crate::json::str_eq;
use crate::text::{chars_of, owned, parse_unsigned, parse_unsigned_max, push_all, split_all, split_by, string_of_range, trim, trimmed};

verus! {

/// A flag is on when set to "1" or to "true" in any ASCII case.
pub open spec fn flag_spec(v: Option<Seq<char>>) -> bool {
    match v {
        Some(t) => t == "1"@ || ascii_lower(t) == "true"@,
        None => false,
    }
}

pub fn flag_enabled(v: Option<&str>) -> (r: bool)
    ensures
        r == flag_spec(opt_view(v)),
{
    match v {
        Some(t) => {
            if str_eq(t, "1") {
                return true;
            }
            let l = to_ascii_lower(t);
            str_eq(l.as_str(), "true")
        },
        None => false,
    }
}

/// The trimmed, non-empty entries of a comma-separated list.
pub open spec fn csv_spec(pieces: Seq<Seq<char>>) -> Seq<Seq<char>>
    decreases pieces.len(),
{
    if pieces.len() == 0 {
        Seq::empty()
    } else {
        let prev = csv_spec(pieces.drop_last());
        let e = trim(pieces.last());
        if e.len() > 0 {
            prev.push(e)
        } else {
            prev
        }
    }
}

pub fn csv_list(v: Option<&str>) -> (r: Vec<String>)
    ensures
        r@.map_values(|s: String| s@) == csv_spec(split_all(
            match opt_view(v) {
                Some(t) => t,
                None => Seq::empty(),
            },
            ',',
        )),
{
    let text = match v {
        Some(t) => owned(t),
        None => String::new(),
    };
    let pieces = split_by(text.as_str(), ',');
    let ghost pv = pieces@.map_values(|p: String| p@);
    let mut out: Vec<String> = Vec::new();
    let mut i: usize = 0;
    assert(out@.map_values(|s: String| s@) =~= csv_spec(pv.take(0)));
    while i < pieces.len()
        invariant
            i <= pieces@.len(),
            pv == pieces@.map_values(|p: String| p@),
            out@.map_values(|s: String| s@) == csv_spec(pv.take(i as int)),
        decreases pieces@.len() - i,
    {
        assert(pv.take(i + 1).drop_last() =~= pv.take(i as int));
        assert(pv[i as int] == pieces@[i as int]@);
        let e = trimmed(pieces[i].as_str());
        let ghost before = out@.map_values(|s: String| s@);
        if e.as_str().unicode_len() > 0 {
            let ghost ev = e@;
            out.push(e);
            assert(out@.map_values(|s: String| s@) =~= before.push(ev));
        }
        i = i + 1;
    }
    assert(pv.take(i as int) =~= pv);
    out
}

/// A number setting: its value when it parses, else the default.
pub open spec fn number_spec(v: Option<Seq<char>>, max: nat, default: nat) -> nat {
    match v {
        Some(t) => match parse_unsigned(t, max) {
            Some(n) => n,
            None => default,
        },
        None => default,
    }
}

pub fn config_u64(v: Option<&str>, default: u64) -> (r: u64)
    ensures
        r as nat == number_spec(opt_view(v), u64::MAX as nat, default as nat),
{
    match v {
        Some(t) => match parse_unsigned_max(t, u64::MAX) {
            Some(n) => n,
            None => default,
        },
        None => default,
    }
}

pub fn config_usize(v: Option<&str>, default: usize) -> (r: usize)
    ensures
        r as nat == number_spec(opt_view(v), usize::MAX as nat, default as nat),
{
    match v {
        Some(t) => match parse_unsigned_max(t, usize::MAX as u64) {
            Some(n) => n as usize,
            None => default,
        },
        None => default,
    }
}

/// The public base URL: the configured one, else
/// "http://localhost:<port>" (port "8000" by default), without trailing
/// slashes.
pub open spec fn public_url_spec(configured: Option<Seq<char>>, port: Option<Seq<char>>) -> Seq<char> {
    drop_trailing_slashes(
        match configured {
            Some(u) => u,
            None => "http://localhost:"@ + match port {
                Some(p) => p,
                None => "8000"@,
            },
        },
    )
}

pub fn public_url(configured: Option<&str>, port: Option<&str>) -> (r: String)
    ensures
        r@ == public_url_spec(opt_view(configured), opt_view(port)),
{
    let url = match configured {
        Some(u) => owned(u),
        None => {
            let mut u = owned("http://localhost:");
            match port {
                Some(p) => push_all(&mut u, p),
                None => push_all(&mut u, "8000"),
            }
            u
        },
    };
    crate::hub::without_trailing_slashes(url.as_str())
}

// ---------------------------------------------------------------------------
// startup loading
// ---------------------------------------------------------------------------

/// How many times a seed document is offered to the store at startup.
pub const STARTUP_LOAD_TRIES: u64 = 60;

/// Seconds between two startup load attempts.
pub const STARTUP_LOAD_BACKOFF_SECS: u64 = 5;

/// What the startup loader does after an attempt.
pub enum LoadStep {
    /// The document is loaded.
    Done,
    /// Wait this many seconds, then try again.
    RetryAfter(u64),
    /// Every try failed.
    GiveUp,
}

/// After attempt `attempt` (counting from 0) of loading a seed document:
/// done when it succeeded; after a failure, wait and try again while tries
/// remain, else give up.
pub fn after_load_attempt(attempt: u64, succeeded: bool) -> (r: LoadStep)
    ensures
        succeeded ==> r is Done,
        !succeeded && attempt + 1 < STARTUP_LOAD_TRIES ==> r == LoadStep::RetryAfter(STARTUP_LOAD_BACKOFF_SECS),
        !succeeded && attempt + 1 >= STARTUP_LOAD_TRIES ==> r is GiveUp,
{
    if succeeded {
        LoadStep::Done
    } else if attempt < STARTUP_LOAD_TRIES - 1 {
        LoadStep::RetryAfter(STARTUP_LOAD_BACKOFF_SECS)
    } else {
        LoadStep::GiveUp
    }
}

} // verus!
