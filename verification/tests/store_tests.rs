use semweb::counts::Cardinality;
use semweb::fragments::Cursor;
use semweb::store::{
    is_reserved_graph, owner_of, subscription_persist_id, HUB_DELIVERIES_GRAPH, HUB_GRAPH,
    SHAPES_GRAPH,
};

const RDF_TYPE: &str = "http://www.w3.org/1999/02/22-rdf-syntax-ns#type";

#[test]
fn record_insert_tracks_class_predicate_subject_and_total() {
    let mut c = Cardinality::default();
    c.record_insert("http://s/1", RDF_TYPE, Some("http://C"), RDF_TYPE);
    c.record_insert("http://s/1", "http://p", None, RDF_TYPE);
    assert_eq!(c.estimate_for(None, Some("http://p"), None), Some(1));
    assert_eq!(c.estimate_for(Some("http://s/1"), None, None), Some(2));
    assert_eq!(c.estimate_for(None, None, None), Some(2));
    assert!(c.has_class("http://C"));
    assert!(!c.has_predicate("http://q"));
    c.record_insert("http://s/2", RDF_TYPE, Some("http://C"), RDF_TYPE);
    assert_eq!(c.estimate_for(None, Some(RDF_TYPE), None), Some(2));
}

#[test]
fn uncovered_patterns_return_none() {
    let c = Cardinality::default();
    assert_eq!(c.estimate_for(Some("s"), Some("p"), None), None);
    assert_eq!(c.estimate_for(None, Some("p"), Some("o")), None);
}

#[test]
fn cursor_roundtrip_is_lossless() {
    let c = Cursor {
        s: "http://example.org/a#b".into(),
        p: "http://p".into(),
        o: "plain literal".into(),
    };
    let decoded = Cursor::decode(&c.encode()).expect("decodes");
    assert_eq!(decoded.s, c.s);
    assert_eq!(decoded.p, c.p);
    assert_eq!(decoded.o, c.o);
}

#[test]
fn cursor_decode_rejects_garbage() {
    assert!(Cursor::decode("not-base64!!!").is_none());
    assert!(Cursor::decode("").is_none());
}

#[test]
fn is_reserved_graph_matches_the_service_namespace() {
    assert!(is_reserved_graph(HUB_GRAPH));
    assert!(is_reserved_graph(HUB_DELIVERIES_GRAPH));
    assert!(is_reserved_graph(SHAPES_GRAPH));
    assert!(is_reserved_graph("http://semweb.dev/graph/other"));
    assert!(!is_reserved_graph("http://example.org/graphs/tenant-a"));
    assert!(!is_reserved_graph("http://semweb.dev/graphs/lookalike"));
}

#[test]
fn subscription_id_is_stable_and_distinct() {
    let a = subscription_persist_id("/topics/data", "http://c/1");
    let b = subscription_persist_id("/topics/data", "http://c/b");
    assert_eq!(a.len(), 32);
    assert_eq!(a, subscription_persist_id("/topics/data", "http://c/1"));
    assert_ne!(a, b);
    assert_ne!(a, subscription_persist_id("/topics/schema", "http://c/1"));
    assert_ne!(a, subscription_persist_id("/topics/data", "http://c/1x"));
}

#[test]
fn owner_of_shards_by_callback() {
    let id = subscription_persist_id("/topics/data", "http://callback/1");
    assert_eq!(owner_of(&id, 2), owner_of(&id, 2));
    let owners: std::collections::HashSet<u64> = (0..50u32)
        .map(|i| {
            let cb = format!("http://callback/{i}");
            owner_of(&subscription_persist_id("/topics/data", &cb), 2)
        })
        .collect();
    assert_eq!(
        owners,
        [0, 1].into_iter().collect::<std::collections::HashSet<u64>>()
    );
}
