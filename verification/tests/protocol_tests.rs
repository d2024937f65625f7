use semweb::base58::multikey_encode;
use semweb::config::{after_load_attempt, LoadStep};
use semweb::context::{PrefixMap, RDF_TYPE};
use semweb::counts::Cardinality;
use semweb::fragments::{Cursor, FragmentPage};
use semweb::hub::{verification_step, Intent, VerificationStep};
use semweb::json::{to_compact, Json};
use semweb::jsonld::binding_to_line;
use semweb::mcp::{
    check_resource, check_rpc_version, initialize_result, manifest_contents, prompt_get, prompts_list,
    resources_list, search_graph_text, subscribe_accepted_text, tools_list,
};
use semweb::registry::TrustedIssuers;
use semweb::store::{owner_of, triple_binding};
use semweb::write::{duplicate_answer, insert_response, stored_outcome};

const THIRD_PARTY: &str = "https://other.example/feed.xml";
const CALLBACK: &str = "http://cb.example/hook";

#[test]
fn open_hub_verifies_third_party_topics() {
    let intent = Intent::Subscribe { secret: None, lease: 86400 };
    match verification_step(THIRD_PARTY, true, CALLBACK, &intent, "abc") {
        VerificationStep::Request { mode, url } => {
            assert_eq!(mode, "subscribe");
            assert_eq!(
                url,
                "http://cb.example/hook?hub.mode=subscribe&hub.topic=https%3A%2F%2Fother.example%2Ffeed.xml&hub.challenge=abc&hub.lease_seconds=86400"
            );
        }
        VerificationStep::Deny { .. } => panic!("an accepted topic must be verified"),
    }
}

#[test]
fn closed_hub_denies_third_party_topics_at_verification() {
    match verification_step(THIRD_PARTY, false, CALLBACK, &Intent::Unsubscribe, "abc") {
        VerificationStep::Deny { url } => assert_eq!(
            url,
            "http://cb.example/hook?hub.mode=denied&hub.topic=https%3A%2F%2Fother.example%2Ffeed.xml&hub.reason=topic%20is%20no%20longer%20available"
        ),
        VerificationStep::Request { .. } => panic!("a refused topic must be denied"),
    }
    match verification_step("/topics/data", false, "http://cb.example/hook?x=1", &Intent::Unsubscribe, "c") {
        VerificationStep::Request { mode, url } => {
            assert_eq!(mode, "unsubscribe");
            assert_eq!(
                url,
                "http://cb.example/hook?x=1&hub.mode=unsubscribe&hub.topic=%2Ftopics%2Fdata&hub.challenge=c"
            );
        }
        VerificationStep::Deny { .. } => panic!("canonical topics are always verified"),
    }
}

#[test]
fn revoking_counts_each_id_once() {
    let mut reg = TrustedIssuers::new();
    assert_eq!(reg.revoked_count(), 0);
    reg.revoke("urn:uuid:a");
    assert_eq!(reg.revoked_count(), 1);
    reg.revoke("urn:uuid:a");
    assert_eq!(reg.revoked_count(), 1);
    reg.revoke("urn:uuid:b");
    assert_eq!(reg.revoked_count(), 2);
    assert!(reg.is_revoked("urn:uuid:a") && reg.is_revoked("urn:uuid:b"));
}

#[test]
fn predicates_are_covered_exactly_when_inserted() {
    let mut c = Cardinality::default();
    c.record_insert("http://ex/s", "http://ex/p", None, RDF_TYPE);
    c.record_insert("http://ex/s", RDF_TYPE, Some("http://ex/C"), RDF_TYPE);
    assert!(c.has_predicate("http://ex/p"));
    assert!(c.has_predicate(RDF_TYPE));
    assert!(!c.has_predicate("http://ex/q"));
    assert!(c.has_class("http://ex/C"));
    assert!(!c.has_class("http://ex/p"));
}

#[test]
fn rpc_version_other_than_two_is_an_invalid_request() {
    let id = Some(Json::Number("7".to_string()));
    match check_rpc_version("1.0", id) {
        Err(answer) => assert_eq!(
            to_compact(&answer),
            r#"{"jsonrpc":"2.0","id":7,"error":{"code":-32600,"message":"Invalid Request"}}"#
        ),
        Ok(_) => panic!("version 1.0 must be refused"),
    }
    match check_rpc_version("2.0", Some(Json::Number("8".to_string()))) {
        Ok(Some(Json::Number(n))) => assert_eq!(n, "8"),
        _ => panic!("version 2.0 must go on with its id"),
    }
}

#[test]
fn initialize_and_resources_documents() {
    assert_eq!(
        to_compact(&initialize_result()),
        r#"{"protocolVersion":"2025-06-18","capabilities":{"resources":{"listChanged":false},"tools":{"listChanged":false},"prompts":{"listChanged":false}},"serverInfo":{"name":"semantic-web","version":"0.1.0"}}"#
    );
    assert_eq!(
        to_compact(&resources_list()),
        r#"{"resources":[{"uri":"manifest://semantic-web/current","name":"Agent manifest (live)","description":"Live ontology surface: classes, predicates, cardinalities, descriptions, SHACL shapes, example SPARQL, topics.","mimeType":"application/json"}]}"#
    );
    assert_eq!(
        to_compact(&manifest_contents("{}".to_string())),
        r#"{"contents":[{"uri":"manifest://semantic-web/current","mimeType":"application/json","text":"{}"}]}"#
    );
    assert!(matches!(check_resource("manifest://semantic-web/current", None), Ok(None)));
    match check_resource("manifest://other", None) {
        Err(e) => assert_eq!(
            to_compact(&e),
            r#"{"jsonrpc":"2.0","id":null,"error":{"code":-32602,"message":"unknown resource: manifest://other"}}"#
        ),
        Ok(_) => panic!("only the manifest resource is served"),
    }
}

#[test]
fn tools_list_declares_six_tools_in_order() {
    let list = tools_list();
    let tools = match list.get("tools") {
        Some(Json::Array(xs)) => xs,
        _ => panic!("tools array expected"),
    };
    let names: Vec<&str> = tools.iter().map(|t| t.get_str("name").unwrap().as_str()).collect();
    assert_eq!(
        names,
        vec!["search_graph", "sparql_query", "get_manifest", "get_topic", "insert_triple", "subscribe"]
    );
    assert_eq!(
        to_compact(&tools[2]),
        r#"{"name":"get_manifest","description":"The live agent manifest: classes, predicates, cardinalities, human descriptions, SHACL shapes, schema fingerprint and example SPARQL. The planning surface -- read this first.","inputSchema":{"type":"object","properties":{}}}"#
    );
    assert_eq!(
        to_compact(tools[0].get("inputSchema").unwrap().get("properties").unwrap().get("limit").unwrap()),
        r#"{"type":"integer","minimum":1,"maximum":1000,"default":20}"#
    );
    assert_eq!(
        to_compact(tools[3].get("inputSchema").unwrap()),
        r#"{"type":"object","properties":{"topic":{"type":"string","enum":["/topics/data","/topics/schema"]}},"required":["topic"]}"#
    );
}

#[test]
fn prompts_list_and_get() {
    assert_eq!(
        to_compact(&prompts_list()),
        r#"{"prompts":[{"name":"explore_graph","description":"Guided exploration: read the manifest, then inspect the data.","arguments":[{"name":"focus","description":"Optional class or topic to focus on","required":false}]},{"name":"answer_from_graph","description":"Answer a user question using only the graph: manifest for grounding, fragments/SPARQL for facts.","arguments":[{"name":"question","description":"The user's question","required":true}]}]}"#
    );
    let explore = to_compact(&prompt_get("explore_graph", None, None));
    assert!(explore.starts_with(r#"{"messages":[{"role":"user","content":{"type":"text","text":"You are exploring a semantic knowledge graph.\n1. Call get_manifest first"#));
    assert!(explore.contains("relevant to the whole graph and use search_graph"));
    let answer = to_compact(&prompt_get("answer_from_graph", None, Some("Who?")));
    assert!(answer.contains(r#""text":"Answer the question: \"Who?\"\nUse only the semantic graph"#));
    assert_eq!(
        to_compact(&prompt_get("nope", None, None)),
        r#"{"jsonrpc":"2.0","id":null,"error":{"code":-32602,"message":"unknown prompt: nope"}}"#
    );
}

#[test]
fn search_and_subscribe_texts() {
    let prefixes = PrefixMap::from_config(None);
    let empty = FragmentPage { bindings: vec![], total: 0, has_more: false };
    assert_eq!(search_graph_text(&empty, &prefixes), "\n[count_estimate: 0, has_more: false]");
    let b = triple_binding("http://ex/s", "http://ex/p", "http://ex/o");
    let line = to_compact(&binding_to_line(&b, &prefixes).unwrap());
    let page = FragmentPage { bindings: vec![b], total: 12, has_more: true };
    assert_eq!(
        search_graph_text(&page, &prefixes),
        format!("{line}\n\n[count_estimate: 12, has_more: true]")
    );
    assert_eq!(
        subscribe_accepted_text("/topics/data", "http://cb/x"),
        "subscription accepted for /topics/data -> http://cb/x; the hub will verify intent by GETing the callback with hub.challenge (202-accepted)"
    );
}

#[test]
fn duplicates_are_answered_without_writing() {
    let prefixes = PrefixMap::empty();
    assert!(duplicate_answer(false, "ev1", "http://ex/s", "http://ex/p", "lit", &prefixes).is_none());
    let dup = duplicate_answer(true, "ev1", "http://ex/s", "http://ex/p", "lit", &prefixes).unwrap();
    assert!(dup.duplicate && !dup.schema_changed);
    assert_eq!((dup.data_notified, dup.schema_notified), (0, 0));
    let triple = to_compact(&dup.triple);
    assert_eq!(
        to_compact(&insert_response(&dup)),
        format!(
            r#"{{"event_id":"ev1","inserted":{triple},"duplicate":true,"data_subscribers_notified":0,"schema_changed":false,"schema_subscribers_notified":0}}"#
        )
    );
    let stored = stored_outcome("ev2".to_string(), "http://ex/s", "http://ex/p", "lit", &prefixes, 3, false, 9);
    assert!(!stored.duplicate);
    assert_eq!((stored.data_notified, stored.schema_notified), (3, 0));
    let stored = stored_outcome("ev3".to_string(), "http://ex/s", "http://ex/p", "lit", &prefixes, 3, true, 9);
    assert_eq!(stored.schema_notified, 9);
    assert!(to_compact(&insert_response(&stored)).ends_with(r#""schema_changed":true,"schema_subscribers_notified":9}"#));
}

#[test]
fn startup_loading_retries_then_gives_up() {
    assert!(matches!(after_load_attempt(0, true), LoadStep::Done));
    assert!(matches!(after_load_attempt(0, false), LoadStep::RetryAfter(5)));
    assert!(matches!(after_load_attempt(58, false), LoadStep::RetryAfter(5)));
    assert!(matches!(after_load_attempt(59, false), LoadStep::GiveUp));
    assert!(matches!(after_load_attempt(59, true), LoadStep::Done));
}

#[test]
fn owner_is_the_id_prefix_modulo_the_replica_count() {
    assert_eq!(owner_of("00000000000000050000000000000000", 3), 2);
    assert_eq!(owner_of("00000000000000050000000000000000", 0), 0);
    assert_eq!(owner_of("ffffffffffffffff0000000000000000", 1), 0);
}

#[test]
fn malformed_cursor_tokens_are_refused() {
    assert!(Cursor::decode("").is_none());
    assert!(Cursor::decode("bm90IGpzb24=").is_none());
    assert!(Cursor::decode("bm90IGpzb24").is_none());
    let c = Cursor { s: "a".into(), p: "b".into(), o: "c".into() };
    let back = Cursor::decode(&c.encode()).unwrap();
    assert_eq!((back.s, back.p, back.o), ("a".to_string(), "b".to_string(), "c".to_string()));
}

#[test]
fn multikeys_have_the_ed25519_shape() {
    for k in [[0u8; 32], [0xffu8; 32], [7u8; 32]] {
        let mk = multikey_encode(&k);
        assert_eq!(mk.len(), 48);
        assert!(mk.starts_with("z6Mk"));
    }
}
