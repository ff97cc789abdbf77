use insights::insight::Insight;
use insights::listing::get_search_paths;
use insights::matching::{
    count_matches, get_exact_match, get_normalized_content, get_normalized_terms,
    matches_date_range,
};
use insights::ranking::{
    deduplicate_highest_scoring, rank_results, search_insight, sort_by_requested_order,
    SearchResult,
};
use insights::search::{
    parse_max_results, parse_relative_date, parse_since_date_filter, parse_until_date_filter,
    splits_before_last_byte_exec, DateFilterError, SearchCommandOptions, SearchOptions, SearchRequest, SearchSort,
};
use insights::timestamp::Timestamp;
use insights::wrap::wrap_text;
use std::path::Path;

fn ts(value: &str) -> Timestamp {
    let dt = chrono::DateTime::parse_from_rfc3339(value).unwrap();
    Timestamp { secs: dt.timestamp(), nanos: dt.timestamp_subsec_nanos() }
}

fn ts_of(dt: chrono::DateTime<chrono::Utc>) -> Timestamp {
    Timestamp { secs: dt.timestamp(), nanos: dt.timestamp_subsec_nanos() }
}

fn now() -> Timestamp {
    ts_of(chrono::Utc::now())
}

/// A score as the integer the library ranks by: orders as the `f32` does.
fn score_key(score: f32) -> u32 {
    let bits = score.to_bits();
    if bits >> 31 == 1 {
        !bits
    } else {
        bits | 0x8000_0000
    }
}

fn create_test_insight() -> Insight {
    Insight::new(
        "test_topic".to_string(),
        "test_insight".to_string(),
        "This is a test overview with some content".to_string(),
        "This is detailed content with more information for testing purposes".to_string(),
    )
}

fn chars(s: &str) -> Vec<char> {
    s.chars().collect()
}

#[test]
fn test_search_options_from_command_options() {
    let cmd_options = SearchCommandOptions {
        topic: Some("test_topic".to_string()),
        case_sensitive: true,
        overview_only: true,
        exact: false,
        semantic: true,
        sort: SearchSort::Updated,
        since: Some("7d".to_string()),
        until: None,
        max_results: 10,
        exclude: vec![],
    };

    let options = SearchOptions::from_command_options(&cmd_options).unwrap();

    assert_eq!(options.topic, Some("test_topic".to_string()));
    assert!(options.case_sensitive);
    assert!(options.overview_only);
    assert!(!options.exact);
    assert!(options.semantic);
    assert_eq!(options.sort, SearchSort::Updated);
    assert!(options.since.is_some());
    assert!(options.until.is_none());
}

#[test]
fn test_parse_date_filter_absolute_date_boundaries() {
    let now = ts("2026-04-24T12:00:00Z");

    let since = parse_since_date_filter("2026-04-01", now).unwrap();
    let until = parse_until_date_filter("2026-04-01", now).unwrap();

    assert_eq!(since, ts("2026-04-01T00:00:00Z"));
    assert_eq!(until, ts("2026-04-01T23:59:59.999999999Z"));
}

#[test]
fn test_parse_date_filter_relative_values() {
    let now_dt = chrono::DateTime::parse_from_rfc3339("2026-04-24T12:00:00Z")
        .unwrap()
        .with_timezone(&chrono::Utc);
    let now = ts_of(now_dt);

    assert_eq!(
        parse_since_date_filter("20m", now).unwrap(),
        ts_of(now_dt - chrono::Duration::minutes(20))
    );
    assert_eq!(
        parse_since_date_filter("16h", now).unwrap(),
        ts_of(now_dt - chrono::Duration::hours(16))
    );
    assert_eq!(
        parse_since_date_filter("7d", now).unwrap(),
        ts_of(now_dt - chrono::Duration::days(7))
    );
    assert_eq!(parse_since_date_filter("1M", now).unwrap(), ts("2026-03-24T12:00:00Z"));
    assert_eq!(parse_since_date_filter("1Y", now).unwrap(), ts("2025-04-24T12:00:00Z"));
}

#[test]
fn test_parse_date_filter_rejects_invalid_values() {
    let now = now();

    assert!(parse_since_date_filter("7q", now).is_err());
    assert!(parse_since_date_filter("yesterday", now).is_err());
}

#[test]
fn test_get_normalized_content_overview_only() {
    let insight = create_test_insight();
    let options = SearchOptions {
        topic: None,
        case_sensitive: false,
        overview_only: true,
        exact: false,
        semantic: false,
        ..SearchOptions::default_options()
    };

    let content = get_normalized_content(&insight, &options);
    assert_eq!(content, "test_topic test_insight This is a test overview with some content");
}

#[test]
fn test_get_normalized_content_full_content() {
    let insight = create_test_insight();
    let options = SearchOptions {
        topic: None,
        case_sensitive: false,
        overview_only: false,
        exact: false,
        semantic: false,
        ..SearchOptions::default_options()
    };

    let content = get_normalized_content(&insight, &options);
    let expected = "test_topic test_insight This is a test overview with some content This is detailed content with more information for testing purposes";
    assert_eq!(content, expected);
}

#[test]
fn test_get_normalized_terms_case_sensitive() {
    let terms = vec!["Test".to_string(), "CONTENT".to_string()];
    let options = SearchOptions {
        topic: None,
        case_sensitive: true,
        overview_only: false,
        exact: false,
        semantic: false,
        ..SearchOptions::default_options()
    };

    let normalized = get_normalized_terms(&terms, &options);
    assert_eq!(normalized, vec!["Test".to_string(), "CONTENT".to_string()]);
}

#[test]
fn test_get_normalized_terms_case_insensitive() {
    let terms = vec!["Test".to_string(), "CONTENT".to_string()];
    let options = SearchOptions {
        topic: None,
        case_sensitive: false,
        overview_only: false,
        exact: false,
        semantic: false,
        ..SearchOptions::default_options()
    };

    let normalized = get_normalized_terms(&terms, &options);
    assert_eq!(normalized, vec!["test".to_string(), "content".to_string()]);
}

#[test]
fn test_get_exact_match_single_term() {
    let insight = create_test_insight();
    let terms = vec!["test".to_string()];
    let options = SearchOptions {
        topic: None,
        case_sensitive: false,
        overview_only: false,
        exact: true,
        semantic: false,
        ..SearchOptions::default_options()
    };

    let score = get_exact_match(&insight, &terms, &options);
    // "test" appears in topic, name, and content multiple times
    assert!(score > 2);
}

#[test]
fn test_get_exact_match_multiple_terms() {
    let insight = create_test_insight();
    let terms = vec!["test".to_string(), "content".to_string()];
    let options = SearchOptions {
        topic: None,
        case_sensitive: false,
        overview_only: false,
        exact: true,
        semantic: false,
        ..SearchOptions::default_options()
    };

    let score = get_exact_match(&insight, &terms, &options);
    assert!(score >= 4);
}

#[test]
fn test_get_exact_match_case_sensitive() {
    let insight = create_test_insight();
    let terms = vec!["Test".to_string()];
    let options = SearchOptions {
        topic: None,
        case_sensitive: true,
        overview_only: false,
        exact: true,
        semantic: false,
        ..SearchOptions::default_options()
    };

    let score = get_exact_match(&insight, &terms, &options);
    let insensitive_score = get_exact_match(
        &insight,
        &["test".to_string()],
        &SearchOptions {
            topic: None,
            case_sensitive: false,
            overview_only: false,
            exact: true,
            semantic: false,
            ..SearchOptions::default_options()
        },
    );

    assert!(insensitive_score >= score);
}

#[test]
fn test_get_exact_match_no_matches() {
    let insight = create_test_insight();
    let terms = vec!["nonexistent".to_string()];
    let options = SearchOptions {
        topic: None,
        case_sensitive: false,
        overview_only: false,
        exact: true,
        semantic: false,
        ..SearchOptions::default_options()
    };

    let score = get_exact_match(&insight, &terms, &options);
    assert_eq!(score, 0);
}

#[test]
fn test_search_insight_above_threshold() {
    let insight = create_test_insight();
    let terms = vec!["test".to_string()];
    let options = SearchOptions {
        topic: None,
        case_sensitive: false,
        overview_only: false,
        exact: true,
        semantic: false,
        ..SearchOptions::default_options()
    };

    // A new insight has no usage, so its score is its match count.
    let score = get_exact_match(&insight, &terms, &options) as f32;
    let result = search_insight(&insight, score_key(score), score_key(0.0), &options);

    assert!(result.is_some());
    let search_result = result.unwrap();
    assert_eq!(search_result.topic, "test_topic");
    assert_eq!(search_result.name, "test_insight");
    assert_eq!(search_result.overview, insight.overview);
    assert_eq!(search_result.details, insight.details);
    assert!(search_result.score > score_key(0.0));
}

#[test]
fn test_search_insight_below_threshold() {
    let insight = create_test_insight();
    let terms = vec!["nonexistent".to_string()];
    let options = SearchOptions {
        topic: None,
        case_sensitive: false,
        overview_only: false,
        exact: true,
        semantic: false,
        ..SearchOptions::default_options()
    };

    let score = get_exact_match(&insight, &terms, &options) as f32;
    let result = search_insight(&insight, score_key(score), score_key(1.0), &options);
    assert!(result.is_none());
}

#[test]
fn test_get_search_paths_with_topic_filter() {
    let root = Path::new("/test/root");
    let topic_filter = Some("specific_topic");

    let paths = get_search_paths("/test/root", topic_filter, &[]);
    assert_eq!(paths.len(), 1);
    assert_eq!(paths[0], root.join("specific_topic").to_string_lossy());
}

#[test]
fn test_get_search_paths_without_topic_filter() {
    let topics = vec!["alpha".to_string(), "beta".to_string()];
    let paths = get_search_paths("/test/root", None, &topics);
    assert_eq!(paths.len(), 2);
    assert_eq!(paths[0], Path::new("/test/root").join("alpha").to_string_lossy());
    assert_eq!(paths[1], Path::new("/test/root").join("beta").to_string_lossy());
}

#[test]
fn search_paths_cover_every_topic() {
    let topics = vec!["alpha".to_string(), "beta".to_string()];
    let paths = get_search_paths("/store", None, &topics);
    assert_eq!(paths, vec!["/store/alpha".to_string(), "/store/beta".to_string()]);
}

fn result(topic: &str, name: &str, score: f32, created: &str, updated: &str) -> SearchResult {
    SearchResult {
        topic: topic.to_string(),
        name: name.to_string(),
        overview: format!("{topic}/{name} overview"),
        details: String::new(),
        score: score_key(score),
        created_at: ts(created),
        updated_at: ts(updated),
        pinned: false,
        accesses: 0,
    }
}

fn names(results: &[SearchResult]) -> Vec<String> {
    results.iter().map(|r| format!("{}/{}", r.topic, r.name)).collect()
}

#[test]
fn ranking_keeps_the_first_highest_scoring_result_of_each_insight() {
    let mut results = vec![
        result("rust", "a", 1.0, "2024-01-01T00:00:00Z", "2024-01-01T00:00:00Z"),
        result("rust", "b", 3.0, "2024-01-02T00:00:00Z", "2024-01-02T00:00:00Z"),
        result("rust", "a", 2.5, "2024-01-01T00:00:00Z", "2024-01-01T00:00:00Z"),
        result("go", "c", 2.5, "2024-01-03T00:00:00Z", "2024-01-03T00:00:00Z"),
    ];
    deduplicate_highest_scoring(&mut results);
    assert_eq!(names(&results), vec!["rust/b", "go/c", "rust/a"]);
    assert_eq!(results[2].score, score_key(2.5));
}

#[test]
fn ties_in_score_go_by_topic_then_name() {
    let mut results = vec![
        result("rust", "b", 1.0, "2024-01-01T00:00:00Z", "2024-01-01T00:00:00Z"),
        result("rust", "a", 1.0, "2024-01-01T00:00:00Z", "2024-01-01T00:00:00Z"),
        result("go", "z", 1.0, "2024-01-01T00:00:00Z", "2024-01-01T00:00:00Z"),
    ];
    sort_by_requested_order(&mut results, SearchSort::Relevance);
    assert_eq!(names(&results), vec!["go/z", "rust/a", "rust/b"]);
}

#[test]
fn ranking_sorts_by_the_requested_timestamp_and_cuts_to_the_limit() {
    let results = vec![
        result("t", "old", 9.0, "2024-01-01T00:00:00Z", "2024-03-01T00:00:00Z"),
        result("t", "new", 1.0, "2024-02-01T00:00:00Z", "2024-01-15T00:00:00Z"),
        result("t", "mid", 5.0, "2024-01-15T00:00:00Z", "2024-02-01T00:00:00Z"),
    ];
    let copy = |rs: &Vec<SearchResult>| -> Vec<SearchResult> {
        rs.iter()
            .map(|r| SearchResult {
                topic: r.topic.clone(),
                name: r.name.clone(),
                overview: r.overview.clone(),
                details: r.details.clone(),
                score: r.score,
                created_at: r.created_at,
                updated_at: r.updated_at,
                pinned: r.pinned,
                accesses: r.accesses,
            })
            .collect()
    };
    let by_created = rank_results(copy(&results), SearchSort::Created, None);
    assert_eq!(names(&by_created), vec!["t/new", "t/mid", "t/old"]);
    let by_updated = rank_results(copy(&results), SearchSort::Updated, Some(2));
    assert_eq!(names(&by_updated), vec!["t/old", "t/mid"]);
    let by_accesses = rank_results(copy(&results), SearchSort::LeastAccessed, Some(10));
    assert_eq!(names(&by_accesses), vec!["t/mid", "t/new", "t/old"]);
    let by_relevance = rank_results(copy(&results), SearchSort::Relevance, Some(10));
    assert_eq!(names(&by_relevance), vec!["t/old", "t/mid", "t/new"]);
    let none = rank_results(copy(&results), SearchSort::Relevance, Some(0));
    assert!(none.is_empty());
}

#[test]
fn date_range_bounds_are_inclusive() {
    let mut insight = create_test_insight();
    insight.last_updated = ts("2024-05-01T12:00:00Z");
    let exactly = SearchOptions {
        since: Some(ts("2024-05-01T12:00:00Z")),
        until: Some(ts("2024-05-01T12:00:00Z")),
        ..SearchOptions::default_options()
    };
    assert!(matches_date_range(&insight, &exactly));
    let later = SearchOptions { since: Some(ts("2024-05-01T12:00:01Z")), ..SearchOptions::default_options() };
    assert!(!matches_date_range(&insight, &later));
    let earlier = SearchOptions { until: Some(ts("2024-05-01T11:59:59Z")), ..SearchOptions::default_options() };
    assert!(!matches_date_range(&insight, &earlier));
    assert!(search_insight(&insight, score_key(3.0), score_key(0.0), &later).is_none());
}

#[test]
fn matches_are_counted_left_to_right_without_overlap() {
    assert_eq!(count_matches(&chars("aaaa"), &chars("aa")), 2);
    assert_eq!(count_matches(&chars("aaa"), &chars("aa")), 1);
    assert_eq!(count_matches(&chars("abc"), &chars("")), 4);
    assert_eq!(count_matches(&chars(""), &chars("a")), 0);
    assert_eq!(count_matches(&chars("héllo héllo"), &chars("é")), 2);
}

#[test]
fn max_results_read_from_a_request() {
    assert_eq!(parse_max_results(None), Some(10));
    assert_eq!(parse_max_results(Some(-1)), None);
    assert_eq!(parse_max_results(Some(0)), Some(0));
    assert_eq!(parse_max_results(Some(25)), Some(25));
}

#[test]
fn relative_dates_report_each_way_they_fail() {
    let now = ts("2026-04-24T12:00:00Z");
    assert_eq!(parse_relative_date("7", now), Ok(None));
    assert_eq!(parse_relative_date("7x", now), Ok(None));
    assert_eq!(parse_relative_date("x7d", now), Ok(None));
    assert_eq!(parse_relative_date("99999999999d", now), Err(DateFilterError::AmountTooLarge));
    assert_eq!(
        parse_relative_date("400000000Y", now),
        Err(DateFilterError::YearTooLarge("400000000Y".to_string()))
    );
    assert_eq!(
        parse_relative_date("4294967295w", now),
        Err(DateFilterError::OutOfRange("4294967295w".to_string()))
    );
    assert_eq!(parse_relative_date("2w", now), Ok(Some(ts("2026-04-10T12:00:00Z"))));
    assert_eq!(
        parse_since_date_filter("tomorrow", now),
        Err(DateFilterError::Invalid("tomorrow".to_string()))
    );
    assert_eq!(
        parse_until_date_filter("2024-01-15T10:30:00+02:00", now),
        Ok(ts("2024-01-15T08:30:00Z"))
    );
}

#[test]
fn date_filter_errors_read_as_messages() {
    assert_eq!(
        DateFilterError::Invalid("tomorrow".to_string()).message(),
        "Invalid date 'tomorrow'. Use YYYY-MM-DD, RFC3339, or relative values like 7d, 16h, 20m, 1M, or 1Y"
    );
    assert_eq!(
        DateFilterError::OutOfRange("9w".to_string()).message(),
        "Relative date is out of range: 9w"
    );
    assert_eq!(
        DateFilterError::YearTooLarge("9Y".to_string()).message(),
        "Relative year value is too large: 9Y"
    );
}

#[test]
fn requests_read_their_date_filters_relative_to_now() {
    let request = SearchRequest {
        terms: vec!["rust".to_string()],
        topic: None,
        case_sensitive: false,
        overview_only: false,
        exact: false,
        semantic: false,
        sort: SearchSort::Relevance,
        since: Some("2024-01-01".to_string()),
        until: Some("2024-01-31".to_string()),
        max_results: Some(-1),
        exclude: vec!["python".to_string()],
    };
    let options = SearchOptions::from_request_at(&request, ts("2026-04-24T12:00:00Z")).unwrap();
    assert_eq!(options.exclude, vec!["python".to_string()]);
    assert_eq!(options.since, Some(ts("2024-01-01T00:00:00Z")));
    assert_eq!(options.until, Some(ts("2024-01-31T23:59:59.999999999Z")));
    assert_eq!(options.max_results, None);

    let bad = SearchRequest { until: Some("soon".to_string()), ..request };
    assert_eq!(
        SearchOptions::from_request_at(&bad, ts("2026-04-24T12:00:00Z")).err(),
        Some(DateFilterError::Invalid("soon".to_string()))
    );
}

#[test]
fn wrapping_fills_lines_greedily_by_bytes() {
    assert_eq!(
        wrap_text("the quick brown fox", 10),
        vec!["the quick".to_string(), "brown fox".to_string()]
    );
    assert_eq!(
        wrap_text("one\n\n  \ntwo  three", 80),
        vec!["one".to_string(), String::new(), String::new(), "two three".to_string()]
    );
    assert_eq!(
        wrap_text("a enormousword b", 5),
        vec!["a".to_string(), "enormousword".to_string(), "b".to_string()]
    );
    assert_eq!(wrap_text("", 10), vec![String::new()]);
    assert_eq!(wrap_text("éé éé", 5), vec!["éé".to_string(), "éé".to_string()]);
}

#[test]
fn date_filter_texts_that_can_be_split_before_their_last_byte() {
    assert!(splits_before_last_byte_exec("7d"));
    assert!(splits_before_last_byte_exec("x"));
    assert!(splits_before_last_byte_exec(""));
    assert!(splits_before_last_byte_exec("7dé7"));
    assert!(!splits_before_last_byte_exec("é"));
    assert!(!splits_before_last_byte_exec("7é"));
}

#[test]
fn results_that_tie_keep_their_order() {
    let mut first = result("t", "n", 1.0, "2024-01-01T00:00:00Z", "2024-01-01T00:00:00Z");
    first.details = "first".to_string();
    let mut second = result("t", "n", 1.0, "2024-01-01T00:00:00Z", "2024-01-01T00:00:00Z");
    second.details = "second".to_string();
    let top = result("a", "z", 2.0, "2024-01-01T00:00:00Z", "2024-01-01T00:00:00Z");
    let mut results = vec![first, second, top];
    sort_by_requested_order(&mut results, SearchSort::Relevance);
    let details: Vec<&str> = results.iter().map(|r| r.details.as_str()).collect();
    assert_eq!(details, vec!["", "first", "second"]);
}

#[test]
fn pinned_results_rank_first_by_relevance() {
    let mut pinned = result("t", "pinned", 1.0, "2024-01-01T00:00:00Z", "2024-01-01T00:00:00Z");
    pinned.pinned = true;
    let strong = result("t", "strong", 9.0, "2024-01-01T00:00:00Z", "2024-01-01T00:00:00Z");
    let mut results = vec![strong, pinned];
    sort_by_requested_order(&mut results, SearchSort::Relevance);
    assert_eq!(names(&results), vec!["t/pinned".to_string(), "t/strong".to_string()]);
}

#[test]
fn least_accessed_results_come_first() {
    let mut busy = result("t", "busy", 9.0, "2024-01-01T00:00:00Z", "2024-01-01T00:00:00Z");
    busy.accesses = 12;
    let mut quiet = result("t", "quiet", 1.0, "2024-01-01T00:00:00Z", "2024-01-01T00:00:00Z");
    quiet.accesses = 2;
    let mut tied = result("a", "tied", 1.0, "2024-01-01T00:00:00Z", "2024-01-01T00:00:00Z");
    tied.accesses = 2;
    let mut results = vec![busy, quiet, tied];
    sort_by_requested_order(&mut results, SearchSort::LeastAccessed);
    assert_eq!(names(&results), vec!["a/tied".to_string(), "t/quiet".to_string(), "t/busy".to_string()]);
}
