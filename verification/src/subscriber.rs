//! A WebSub subscriber's side of the protocol: answering intent
//! verification with the challenge, and checking the signature of a
//! content distribution.
use vstd::prelude::*;

use crate::api::{last_param, pairs_view, url_decoded};
use crate::hub::{hmac_sha256_of, signature_header};
use crate::json::str_eq;
use crate::text::{hex_of, owned, split_all, split_by, split_once, split_once_spec};

verus! {

/// A query component, percent-decoded when that succeeds, else as it is.
pub open spec fn kv_decode_spec(s: Seq<char>) -> Seq<char> {
    match url_decoded(s) {
        Some(d) => d,
        None => s,
    }
}

pub fn kv_decode(s: &str) -> (r: String)
    ensures
        r@ == kv_decode_spec(s@),
{
    match crate::api::url_decode_text(s) {
        Some(d) => d,
        None => owned(s),
    }
}

/// The decoded (name, value) pairs of a query string; pieces without '='
/// are skipped.
pub open spec fn query_pairs(pieces: Seq<Seq<char>>) -> Seq<(Seq<char>, Seq<char>)>
    decreases pieces.len(),
{
    if pieces.len() == 0 {
        Seq::empty()
    } else {
        let prev = query_pairs(pieces.drop_last());
        match split_once_spec(pieces.last(), '=') {
            Some((k, v)) => prev.push((kv_decode_spec(k), kv_decode_spec(v))),
            None => prev,
        }
    }
}

/// The challenge to echo: the last decoded `hub.challenge` of the query
/// string, or nothing.
pub open spec fn challenge_spec(query: Option<Seq<char>>) -> Seq<char> {
    match query {
        Some(q) => match last_param(query_pairs(split_all(q, '&')), "hub.challenge"@) {
            Some(c) => c,
            None => Seq::empty(),
        },
        None => Seq::empty(),
    }
}

/// The body answering an intent verification request with query `query`.
pub fn challenge_response(query: Option<&str>) -> (r: String)
    ensures
        r@ == challenge_spec(match query {
            Some(q) => Some(q@),
            None => None,
        }),
{
    let q = match query {
        Some(q) => q,
        None => {
            return String::new();
        },
    };
    let pieces = split_by(q, '&');
    let ghost pv = pieces@.map_values(|p: String| p@);
    let mut pairs: Vec<(String, String)> = Vec::new();
    let mut i: usize = 0;
    assert(pairs_view(pairs@) =~= query_pairs(pv.take(0)));
    while i < pieces.len()
        invariant
            i <= pieces@.len(),
            pv == pieces@.map_values(|p: String| p@),
            pairs_view(pairs@) == query_pairs(pv.take(i as int)),
        decreases pieces@.len() - i,
    {
        assert(pv.take(i + 1).drop_last() =~= pv.take(i as int));
        assert(pv[i as int] == pieces@[i as int]@);
        let ghost before = pairs_view(pairs@);
        match split_once(pieces[i].as_str(), '=') {
            Some((k, v)) => {
                let kd = kv_decode(k.as_str());
                let vd = kv_decode(v.as_str());
                let ghost item = (kd@, vd@);
                pairs.push((kd, vd));
                assert(pairs_view(pairs@) =~= before.push(item));
            },
            None => {},
        }
        i = i + 1;
    }
    assert(pv.take(i as int) =~= pv);
    match crate::api::last_param_of(pairs.as_slice(), "hub.challenge") {
        Some(c) => owned(c.as_str()),
        None => String::new(),
    }
}

/// Whether a distribution carries the signature its secret gives its
/// body: "sha256=" and the hex HMAC-SHA256.
pub fn signature_valid(secret: &str, body: &[u8], provided: Option<&str>) -> (r: bool)
    ensures
        r == (provided matches Some(p) && p@ == "sha256="@ + hex_of(hmac_sha256_of(secret@, body@))),
{
    match provided {
        Some(p) => match signature_header(secret, body) {
            Some(expected) => str_eq(p, expected.as_str()),
            None => false,
        },
        None => false,
    }
}

} // verus!
