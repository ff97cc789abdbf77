//! Searches over a set of insights, run through the library the way the
//! search command runs them over the store: each insight scored by exact
//! matching, offered to `search_insight`, and the results ranked.

use insights::insight::Insight;
use insights::matching::{get_exact_match, is_excluded};
use insights::ranking::{rank_results, search_insight, SearchResult};
use insights::search::{SearchOptions, SearchSort};
use insights::timestamp::Timestamp;

fn timestamp(value: &str) -> Timestamp {
    let dt = chrono::DateTime::parse_from_rfc3339(value).unwrap();
    Timestamp { secs: dt.timestamp(), nanos: dt.timestamp_subsec_nanos() }
}

/// A score as the integer the library ranks by: orders as the `f32` does.
fn score_key(score: f32) -> u32 {
    let bits = score.to_bits();
    if bits >> 31 == 1 {
        !bits
    } else {
        bits | 0x8000_0000
    }
}

fn insight(topic: &str, name: &str, overview: &str, details: &str) -> Insight {
    Insight::new(topic.to_string(), name.to_string(), overview.to_string(), details.to_string())
}

/// An exact search over the given insights, none of which this machine has
/// touched yet, so that no usage weighs on their scores.
fn search(store: &[Insight], terms: &[String], options: &SearchOptions) -> Vec<SearchResult> {
    let threshold = score_key(0.0);
    let mut results = Vec::new();
    for i in store {
        let score = get_exact_match(i, terms, options) as f32;
        if let Some(r) = search_insight(i, score_key(score), threshold, options) {
            results.push(r);
        }
    }
    rank_results(results, options.sort, options.max_results)
}

fn exact() -> SearchOptions {
    SearchOptions { exact: true, ..SearchOptions::default() }
}

fn terms(items: &[&str]) -> Vec<String> {
    items.iter().map(|s| s.to_string()).collect()
}

#[test]
fn test_search_with_highlighting() {
    let store = vec![
        insight(
            "test_topic",
            "rust_code",
            "This is about Rust programming language",
            "Rust is a systems programming language that runs blazingly fast",
        ),
        insight(
            "test_topic",
            "other_lang",
            "This is about Python programming",
            "Python is great for rapid development and scripting",
        ),
    ];
    let options = SearchOptions {
        topic: None,
        case_sensitive: false,
        overview_only: false,
        exact: true,
        semantic: false,
        ..SearchOptions::default()
    };

    let results = search(&store, &terms(&["rust"]), &options);

    assert_eq!(results.len(), 1);
    assert_eq!(results[0].name, "rust_code");
    assert!(results[0].score > score_key(0.0));
}

#[test]
fn test_search_default_sort_preserves_relevance_ordering() {
    let mut older_high_relevance = insight("recency", "older_high_relevance", "needle needle", "needle");
    older_high_relevance.created_at = timestamp("2024-01-01T00:00:00Z");
    older_high_relevance.last_updated = timestamp("2024-01-02T00:00:00Z");
    let mut newer_low_relevance = insight("recency", "newer_low_relevance", "needle", "no extra matches");
    newer_low_relevance.created_at = timestamp("2024-02-01T00:00:00Z");
    newer_low_relevance.last_updated = timestamp("2024-02-02T00:00:00Z");

    let results = search(
        &[older_high_relevance, newer_low_relevance],
        &terms(&["needle"]),
        &SearchOptions { sort: SearchSort::Relevance, ..exact() },
    );

    assert_eq!(results.len(), 2);
    assert_eq!(results[0].name, "older_high_relevance");
    assert_eq!(results[1].name, "newer_low_relevance");
}

#[test]
fn test_search_can_sort_by_updated_timestamp() {
    let mut older = insight("recency", "older", "needle needle", "needle");
    older.created_at = timestamp("2024-01-01T00:00:00Z");
    older.last_updated = timestamp("2024-01-02T00:00:00Z");
    let mut newer = insight("recency", "newer", "needle", "no extra matches");
    newer.created_at = timestamp("2024-02-01T00:00:00Z");
    newer.last_updated = timestamp("2024-02-02T00:00:00Z");

    let results = search(&[older, newer], &terms(&["needle"]), &SearchOptions { sort: SearchSort::Updated, ..exact() });

    assert_eq!(results.len(), 2);
    assert_eq!(results[0].name, "newer");
    assert_eq!(results[1].name, "older");
}

#[test]
fn test_search_can_sort_by_created_timestamp() {
    let mut older_created = insight("recency", "older_created", "needle", "updated later");
    older_created.created_at = timestamp("2024-01-01T00:00:00Z");
    older_created.last_updated = timestamp("2024-03-01T00:00:00Z");
    let mut newer_created = insight("recency", "newer_created", "needle", "updated earlier");
    newer_created.created_at = timestamp("2024-02-01T00:00:00Z");
    newer_created.last_updated = timestamp("2024-02-02T00:00:00Z");

    let results = search(
        &[older_created, newer_created],
        &terms(&["needle"]),
        &SearchOptions { sort: SearchSort::Created, ..exact() },
    );

    assert_eq!(results.len(), 2);
    assert_eq!(results[0].name, "newer_created");
    assert_eq!(results[1].name, "older_created");
}

#[test]
fn test_search_filters_by_updated_date_range() {
    let mut before_range = insight("recency", "before_range", "needle", "too old");
    before_range.last_updated = timestamp("2024-01-01T00:00:00Z");
    let mut in_range = insight("recency", "in_range", "needle", "just right");
    in_range.last_updated = timestamp("2024-01-15T00:00:00Z");
    let mut after_range = insight("recency", "after_range", "needle", "too new");
    after_range.last_updated = timestamp("2024-02-01T00:00:00Z");

    let results = search(
        &[before_range, in_range, after_range],
        &terms(&["needle"]),
        &SearchOptions {
            since: Some(timestamp("2024-01-10T00:00:00Z")),
            until: Some(timestamp("2024-01-20T00:00:00Z")),
            ..exact()
        },
    );

    assert_eq!(results.len(), 1);
    assert_eq!(results[0].name, "in_range");
}

#[test]
fn test_search_exclude_filters_matching_results() {
    let store = vec![
        insight(
            "lang",
            "rust_guide",
            "Rust programming guide",
            "Rust is a systems language with zero-cost abstractions",
        ),
        insight(
            "lang",
            "python_guide",
            "Python programming guide",
            "Python is great for scripting and rapid prototyping",
        ),
    ];

    let results = search(
        &store,
        &terms(&["programming"]),
        &SearchOptions { exclude: terms(&["python"]), ..exact() },
    );

    assert_eq!(results.len(), 1);
    assert_eq!(results[0].name, "rust_guide");
}

#[test]
fn test_search_exclude_multiple_terms() {
    let store = vec![
        insight("tools", "docker_setup", "Docker container setup", "How to configure Docker containers for development"),
        insight("tools", "k8s_deploy", "Kubernetes deployment guide", "Deploy apps to Kubernetes clusters"),
        insight("tools", "ci_pipeline", "CI pipeline configuration", "Setting up continuous integration pipelines"),
    ];

    let results = search(
        &store,
        &terms(&["tools"]),
        &SearchOptions { exclude: terms(&["docker", "kubernetes"]), ..exact() },
    );

    assert_eq!(results.len(), 1);
    assert_eq!(results[0].name, "ci_pipeline");
}

#[test]
fn test_search_exclude_is_case_insensitive_by_default() {
    let store = vec![
        insight("lang", "rust_async", "Async Rust patterns", "Using tokio for ASYNC runtime in Rust"),
        insight("lang", "rust_sync", "Synchronous Rust patterns", "Blocking IO patterns in Rust"),
    ];

    let results = search(&store, &terms(&["rust"]), &SearchOptions { exclude: terms(&["ASYNC"]), ..exact() });

    assert_eq!(results.len(), 1);
    assert_eq!(results[0].name, "rust_sync");
}

#[test]
fn test_search_exclude_respects_case_sensitive_flag() {
    let store = vec![
        insight("lang", "rust_async", "Async Rust patterns", "Using tokio for async runtime in Rust"),
        insight("lang", "rust_sync", "Synchronous Rust patterns", "Blocking IO patterns in Rust"),
    ];

    let results = search(
        &store,
        &terms(&["Rust"]),
        &SearchOptions { case_sensitive: true, exclude: terms(&["ASYNC"]), ..exact() },
    );

    assert_eq!(results.len(), 2);
}

#[test]
fn test_search_exclude_with_no_positive_matches() {
    let store = vec![insight("misc", "something", "Unrelated content", "Nothing interesting here")];

    let results = search(
        &store,
        &terms(&["nonexistent_term"]),
        &SearchOptions { exclude: terms(&["something"]), ..exact() },
    );

    assert!(results.is_empty());
}

#[test]
fn an_empty_excluded_term_rules_nothing_out() {
    let i = insight("misc", "x", "overview", "details");
    assert!(!is_excluded(&i, &SearchOptions { exclude: terms(&[""]), ..exact() }));
    assert!(is_excluded(&i, &SearchOptions { exclude: terms(&["", "OVERVIEW"]), ..exact() }));
    assert!(!is_excluded(&i, &SearchOptions { exclude: terms(&["details"]), overview_only: true, ..exact() }));
}

#[test]
fn the_result_limit_cuts_after_ranking() {
    let store: Vec<Insight> = (0..5).map(|k| insight("t", &format!("n{k}"), &"needle ".repeat(k + 1), "")).collect();
    let results = search(&store, &terms(&["needle"]), &SearchOptions { max_results: Some(2), ..exact() });
    let names: Vec<&str> = results.iter().map(|r| r.name.as_str()).collect();
    assert_eq!(names, vec!["n4", "n3"]);
}

#[test]
fn a_pinned_insight_ranks_before_a_stronger_match() {
    let mut pinned = insight("t", "pinned", "needle", "");
    pinned.pinned = true;
    let strong = insight("t", "strong", "needle needle needle", "needle");
    let results = search(&[strong, pinned], &terms(&["needle"]), &exact());
    let names: Vec<&str> = results.iter().map(|r| r.name.as_str()).collect();
    assert_eq!(names, vec!["pinned", "strong"]);
    assert!(results[0].pinned);
}

#[test]
fn search_can_sort_by_least_accessed() {
    let mut busy = insight("t", "busy", "needle", "");
    busy.retrieval_count = 5;
    busy.search_hit_count = 4;
    let mut quiet = insight("t", "quiet", "needle", "");
    quiet.search_hit_count = 1;
    let results = search(&[busy, quiet], &terms(&["needle"]), &SearchOptions { sort: SearchSort::LeastAccessed, ..exact() });
    let names: Vec<&str> = results.iter().map(|r| r.name.as_str()).collect();
    assert_eq!(names, vec!["quiet", "busy"]);
    assert_eq!(results[1].accesses, 9);
}
