//! The verified core of a streaming semantic-web service: a WebSub hub
//! over Triple Pattern Fragments of a SPARQL store, with a live agent
//! manifest, JSON-LD compaction and a Data Integrity trust layer.
use vstd::prelude::*;

pub mod text;
pub mod json;
pub mod base58;
pub mod dates;
pub mod clock;
pub mod registry;
pub mod trust;
pub mod hub;
pub mod store;
pub mod crypto;
pub mod counts;
pub mod order;
pub mod fragments;
pub mod context;
pub mod jsonld;
pub mod api;
pub mod util;
pub mod config;
pub mod documents;
pub mod subscriber;
pub mod mcp;
pub mod write;

verus! {
} // verus!
