use semweb::hub::{
    allowlist_ok, append_query, clamp_lease, generate_challenge, resolve_topic, topic_allowed,
    topic_matches,
};

#[test]
fn resolve_topic_accepts_paths_and_absolute_urls() {
    assert_eq!(resolve_topic("/topics/data"), Some("/topics/data"));
    assert_eq!(
        resolve_topic("http://localhost:8000/topics/data"),
        Some("/topics/data")
    );
    assert_eq!(resolve_topic("http://other/topics/schema"), Some("/topics/schema"));
    assert_eq!(resolve_topic("/topics/nope"), None);
    assert_eq!(resolve_topic("http://x/other/topics/data"), None);
    assert_eq!(resolve_topic("http://x/a/b/topics/data"), None);
    assert_eq!(resolve_topic("/other/topics/data"), None);
    assert_eq!(resolve_topic("http://x/topics/data?x=1"), None);
}

#[test]
fn topic_policy_respects_the_open_hub_flag() {
    assert!(topic_allowed("/topics/data", false).is_some());
    assert!(topic_allowed("http://x/topics/data", false).is_some());
    assert!(topic_allowed("https://other.example/feed.xml", false).is_none());
    assert!(topic_allowed("https://other.example/feed.xml", true).is_some());
    assert!(topic_allowed("not-a-url", true).is_none());
}

#[test]
fn topic_matching_canonical_vs_third_party() {
    assert!(topic_matches("/topics/data", "http://localhost:8484/topics/data"));
    assert!(topic_matches("http://localhost:8484/topics/schema", "/topics/schema"));
    assert!(topic_matches("https://a.example/feed", "https://a.example/feed"));
    assert!(!topic_matches("https://a.example/feed", "https://b.example/feed"));
}

#[test]
fn callback_allowlist_matches_suffixes_and_rejects_others() {
    let list = vec!["example.com".to_string()];
    assert!(allowlist_ok(&list, "https://demo.example.com/cb"));
    assert!(allowlist_ok(&list, "https://example.com/cb"));
    assert!(!allowlist_ok(&list, "https://evil.com/cb"));
    assert!(!allowlist_ok(&list, "http://notexample.com/cb"));
    assert!(allowlist_ok(&[], "http://anything/cb"));
}

#[test]
fn challenge_uses_only_the_spec_charset() {
    for len in [1, 8, 43, 100] {
        for ch in generate_challenge(len).chars() {
            assert!(
                ch.is_ascii_alphanumeric() || ch == '-' || ch == '_',
                "challenge char {ch:?} outside allowed set"
            );
        }
    }
}

#[test]
fn challenge_is_long_enough_to_be_unguessable() {
    let c = generate_challenge(43);
    assert_eq!(c.len(), 43);
}

#[test]
fn clamp_lease_enforces_explication_and_bounds() {
    assert_eq!(clamp_lease(None), 86_400);
    assert_eq!(clamp_lease(Some(5)), 60);
    assert_eq!(clamp_lease(Some(u64::MAX)), 864_000);
    assert_eq!(clamp_lease(Some(7200)), 7200);
}

#[test]
fn append_query_preserves_existing_params_without_overwrite() {
    let cb = "http://x/cb?tag=demo&hub.mode=unsubscribe";
    let out = append_query(cb, "hub.mode", "subscribe");
    assert!(out.contains("?tag=demo"));
    assert!(out.contains("&hub.mode=subscribe"));
    assert!(out.contains("hub.mode=unsubscribe"));
    let out2 = append_query("http://x/cb", "hub.challenge", "a=b&c");
    assert_eq!(out2, "http://x/cb?hub.challenge=a%3Db%26c");
}
