use mcplex::protocol::cache::{arguments_json, cache_key, ToolCache};
use serde_json::Value;

fn object(pairs: &[(&str, Value)]) -> Value {
    let mut m = serde_json::Map::new();
    for (k, v) in pairs {
        m.insert(k.to_string(), v.clone());
    }
    Value::Object(m)
}

fn text(s: &str) -> Value {
    Value::String(s.to_string())
}

#[test]
fn test_cache_hit_miss() {
    let mut cache = ToolCache::new(60, 100, vec![]);

    // list_ prefix is auto-cacheable
    let args = Some(object(&[("filter", text("active"))]));

    // Miss
    assert!(cache.get("list_tables", &args).is_none());

    // Put
    let result = object(&[("tables", Value::Array(vec![text("users"), text("orders")]))]);
    cache.put("list_tables", &args, result.clone());

    // Hit
    let cached = cache.get("list_tables", &args);
    assert!(cached.is_some());
    assert_eq!(cached.unwrap(), result);
}

#[test]
fn test_non_cacheable_tools() {
    let mut cache = ToolCache::new(60, 100, vec![]);

    // create_ prefix is NOT auto-cacheable
    let args = Some(object(&[("name", text("test"))]));
    let result = object(&[("id", Value::from(1))]);

    cache.put("create_issue", &args, result);
    assert!(cache.get("create_issue", &args).is_none());
}

#[test]
fn test_custom_patterns() {
    let mut cache = ToolCache::new(60, 100, vec!["my_tool".to_string(), "custom_*".to_string()]);

    let args = None;
    let val = text("ok");

    // Exact match
    cache.put("my_tool", &args, val.clone());
    assert!(cache.get("my_tool", &args).is_some());

    // Glob match
    cache.put("custom_query", &args, val.clone());
    assert!(cache.get("custom_query", &args).is_some());

    // Non-match (list_ wouldn't match with custom patterns set)
    cache.put("list_tables", &args, val);
    assert!(cache.get("list_tables", &args).is_none());
}

#[test]
fn test_invalidation() {
    let mut cache = ToolCache::new(60, 100, vec![]);

    cache.put("list_tables", &None, object(&[("a", Value::from(1))]));
    cache.put("list_repos", &None, object(&[("b", Value::from(2))]));

    cache.invalidate("list_tables");
    assert!(cache.get("list_tables", &None).is_none());
    assert!(cache.get("list_repos", &None).is_some());
}

#[test]
fn cache_expires_after_ttl() {
    let mut cache = ToolCache::new(0, 100, vec![]);
    cache.put_at("list_tables", None, object(&[]), 1_000);
    // Same instant: not older than a zero time to live yet.
    assert!(cache.get_at("list_tables", None, 1_000).is_some());
    // Ten milliseconds later it has expired, and the lookup drops it.
    assert!(cache.get_at("list_tables", None, 10_001_000).is_none());
    assert_eq!(cache.stats_at(10_001_000).total_entries, 0);
}

#[test]
fn cache_ttl_boundary() {
    let mut cache = ToolCache::new(2, 100, vec![]);
    cache.put_at("get_user", Some("{\"id\":1}"), text("u1"), 0);
    assert_eq!(cache.get_at("get_user", Some("{\"id\":1}"), 2_000_000_000), Some(text("u1")));
    assert_eq!(cache.get_at("get_user", Some("{\"id\":2}"), 0), None);
    assert_eq!(cache.get_at("get_user", Some("{\"id\":1}"), 2_000_000_001), None);
}

#[test]
fn cache_counts_hits_and_expired_entries() {
    let mut cache = ToolCache::new(1, 100, vec![]);
    cache.put_at("list_a", None, text("a"), 0);
    cache.put_at("list_b", None, text("b"), 5_000_000_000);
    cache.get_at("list_a", None, 0);
    cache.get_at("list_a", None, 1);
    cache.get_at("list_b", None, 5_000_000_000);
    let stats = cache.stats_at(5_000_000_000);
    assert_eq!(stats.total_entries, 2);
    assert_eq!(stats.expired_entries, 1);
    assert_eq!(stats.total_hits, 3);
}

#[test]
fn cache_evicts_expired_then_oldest_when_full() {
    let mut cache = ToolCache::new(10, 2, vec![]);
    cache.put_at("list_a", None, text("a"), 0);
    cache.put_at("list_b", None, text("b"), 1);
    // Full, nothing expired: the oldest (list_a) goes.
    cache.put_at("list_c", None, text("c"), 2);
    assert_eq!(cache.get_at("list_a", None, 3), None);
    assert_eq!(cache.get_at("list_b", None, 3), Some(text("b")));
    assert_eq!(cache.get_at("list_c", None, 3), Some(text("c")));
    // Full again, both entries expired long ago: both go.
    cache.put_at("list_d", None, text("d"), 100_000_000_000);
    assert_eq!(cache.stats_at(100_000_000_000).total_entries, 1);
    assert_eq!(cache.get_at("list_d", None, 100_000_000_000), Some(text("d")));
}

#[test]
fn cache_with_zero_capacity_keeps_one_entry() {
    let mut cache = ToolCache::new(10, 0, vec![]);
    cache.put_at("list_a", None, text("a"), 0);
    cache.put_at("list_b", None, text("b"), 1);
    assert_eq!(cache.stats_at(1).total_entries, 1);
    assert_eq!(cache.get_at("list_b", None, 1), Some(text("b")));
}

#[test]
fn cache_put_replaces_same_key() {
    let mut cache = ToolCache::new(10, 5, vec![]);
    cache.put_at("list_a", None, text("old"), 0);
    cache.put_at("list_a", None, text("new"), 1);
    assert_eq!(cache.stats_at(1).total_entries, 1);
    assert_eq!(cache.get_at("list_a", None, 1), Some(text("new")));
}

#[test]
fn cache_invalidate_all_empties() {
    let mut cache = ToolCache::new(10, 5, vec![]);
    cache.put_at("list_a", None, text("a"), 0);
    cache.put_at("get_b", None, text("b"), 0);
    cache.invalidate_all();
    assert_eq!(cache.stats_at(0).total_entries, 0);
}

#[test]
fn invalidate_matches_whole_tool_name() {
    let mut cache = ToolCache::new(10, 5, vec![]);
    cache.put_at("list_a", None, text("a"), 0);
    cache.put_at("list_ab", None, text("ab"), 0);
    cache.invalidate("list_a");
    assert_eq!(cache.get_at("list_a", None, 0), None);
    assert_eq!(cache.get_at("list_ab", None, 0), Some(text("ab")));
}

#[test]
fn cache_keys() {
    assert_eq!(cache_key("list_tables", None), "list_tables:()");
    assert_eq!(cache_key("list_tables", Some("{\"a\":1}")), "list_tables:{\"a\":1}");
    assert_eq!(arguments_json(&None), None);
    assert_eq!(
        arguments_json(&Some(object(&[("filter", text("active"))]))),
        Some("{\"filter\":\"active\"}".to_string())
    );
}

#[test]
fn default_read_prefixes_are_cacheable() {
    let cache = ToolCache::new(10, 5, vec![]);
    for name in ["list_x", "get_x", "search_x", "query_x", "describe_x", "show_x", "count_x", "check_x"] {
        assert!(cache.is_cacheable(name), "{}", name);
    }
    assert!(!cache.is_cacheable("create_x"));
    assert!(!cache.is_cacheable("xlist_"));
}

#[test]
fn invalid_glob_pattern_matches_nothing() {
    let cache = ToolCache::new(10, 5, vec!["[".to_string()]);
    assert!(!cache.is_cacheable("["));
    assert!(!cache.is_cacheable("list_x"));
}

#[test]
fn calls_with_different_arguments_are_kept_apart() {
    let mut cache = ToolCache::new(60, 10, vec![]);
    let a = Some(object(&[("id", Value::from(1))]));
    let b = Some(object(&[("id", Value::from(2))]));
    cache.put("get_user", &a, text("alice"));
    cache.put("get_user", &b, text("bob"));
    cache.put("get_user", &None, text("nobody"));
    assert_eq!(cache.get("get_user", &a), Some(text("alice")));
    assert_eq!(cache.get("get_user", &b), Some(text("bob")));
    assert_eq!(cache.get("get_user", &None), Some(text("nobody")));
    assert_eq!(cache.stats().total_entries, 3);
}

#[test]
fn literal_and_star_patterns() {
    let mut exact = ToolCache::new(60, 10, vec!["my_tool".to_string()]);
    assert!(exact.is_cacheable("my_tool"));
    assert!(!exact.is_cacheable("my_tool2"));
    exact.put("my_tool", &None, text("v"));
    assert_eq!(exact.get("my_tool", &None), Some(text("v")));
    let all = ToolCache::new(60, 10, vec!["*".to_string()]);
    assert!(all.is_cacheable("anything/at all.x"));
    assert!(all.is_cacheable(""));
}
