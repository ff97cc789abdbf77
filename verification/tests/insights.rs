use insights::insight::{
    check_insight_exists, check_insight_is_new, has_metadata_footer, parse_insight_from_content,
    parse_insight_with_metadata, update, Insight, InsightError, InsightMetaData,
    InsightTemporalMetadata,
};
use insights::insight_format::{
    clean_body_content, metadata_candidate, render, split_frontmatter_content, FrontmatterError,
};
use insights::listing::{
    extract_topic_name, file_path, get_insights_root, legacy_path, make_insight_path,
    root_candidates, sort_by_name, sort_topics, usage_path,
};
use insights::store_path::{extract_insight_name, insight_file_name, is_insight_file};
use insights::timestamp::{default_created_at, Timestamp};

fn ts(value: &str) -> Timestamp {
    let dt = chrono::DateTime::parse_from_rfc3339(value).unwrap();
    Timestamp { secs: dt.timestamp(), nanos: dt.timestamp_subsec_nanos() }
}

fn clock() -> Timestamp {
    let dt = chrono::Utc::now();
    Timestamp { secs: dt.timestamp(), nanos: dt.timestamp_subsec_nanos() }
}

/// Waits until the clock has moved past `t`.
fn after(t: Timestamp) {
    while clock() <= t {}
}

/// Frontmatter as YAML reads it when it records only a topic, a name and an
/// overview: the remaining fields take their defaults.
fn frontmatter(topic: &str, name: &str, overview: &str) -> InsightMetaData {
    InsightMetaData {
        topic: topic.to_string(),
        name: name.to_string(),
        overview: overview.to_string(),
        created_at: default_created_at(),
        last_updated: clock(),
        update_count: 0,
        retrieval_count: 0,
        search_hit_count: 0,
        last_accessed: None,
        pinned: false,
        embedding_version: None,
        embedding: None,
        embedding_text: None,
        embedding_computed: None,
    }
}

fn footer(created: &str, updated: &str, update_count: u32) -> InsightTemporalMetadata {
    InsightTemporalMetadata {
        created_at: ts(created),
        last_updated: ts(updated),
        update_count,
        pinned: false,
        retrieval_count: 0,
        search_hit_count: 0,
        last_accessed: None,
    }
}

#[test]
fn test_insight_creation_and_file_path() {
    let insight = Insight::new(
        "test_topic".to_string(),
        "test_name".to_string(),
        "Test overview".to_string(),
        "Test details".to_string(),
    );

    assert_eq!(insight.topic, "test_topic");
    assert_eq!(insight.name, "test_name");
    assert_eq!(insight.overview, "Test overview");
    assert_eq!(insight.details, "Test details");
}

#[test]
fn file_path_lowercases_topic_and_name() {
    assert_eq!(file_path("/store", "Rust", "Async-Patterns"), "/store/rust/async-patterns.insight.md");
    assert_eq!(legacy_path("/store", "Rust", "Async-Patterns"), "/store/Rust/Async-Patterns.insight.md");
}

#[test]
fn make_insight_path_prefers_the_lowercased_file() {
    let lower = "/store/rust/async.insight.md";
    let legacy = "/store/Rust/Async.insight.md";
    assert_eq!(make_insight_path("/store", "Rust", "Async", true, true), lower);
    assert_eq!(make_insight_path("/store", "Rust", "Async", false, true), legacy);
    assert_eq!(make_insight_path("/store", "Rust", "Async", false, false), lower);
}

#[test]
fn test_get_insights_root_with_env_var() {
    let custom = Some("/tmp/insights-test".to_string());
    let (xdg, legacy) = root_candidates(&Some("/data".to_string()), &Some("/home/me".to_string()));
    let root = get_insights_root(&custom, &xdg, &legacy, true, true).unwrap();
    assert!(root.contains("tmp"));
}

#[test]
fn insights_root_falls_back_through_its_candidates() {
    let (xdg, legacy) = root_candidates(&None, &Some("/home/me".to_string()));
    assert_eq!(xdg.as_deref(), Some("/home/me/.local/share/insights"));
    assert_eq!(legacy.as_deref(), Some("/home/me/.blizz/persistent/insights"));

    assert_eq!(get_insights_root(&None, &xdg, &legacy, true, true).unwrap(), "/home/me/.local/share/insights");
    assert_eq!(get_insights_root(&None, &xdg, &legacy, false, true).unwrap(), "/home/me/.blizz/persistent/insights");
    assert_eq!(get_insights_root(&None, &xdg, &legacy, false, false).unwrap(), "/home/me/.local/share/insights");

    let (xdg, legacy) = root_candidates(&Some("/data".to_string()), &None);
    assert_eq!(xdg.as_deref(), Some("/data/insights"));
    assert_eq!(legacy, None);

    let err = get_insights_root(&None, &None, &None, false, false).unwrap_err();
    assert_eq!(err, "Could not resolve insights data directory (set INSIGHTS_ROOT)");
}

#[test]
fn usage_path_defaults_under_the_home_directory() {
    assert_eq!(usage_path(&None, &Some("/home/me".to_string())).unwrap(), "/home/me/.blizz/volatile/insights/usage.json");
    assert_eq!(usage_path(&Some("/tmp/u.json".to_string()), &None).unwrap(), "/tmp/u.json");
    assert_eq!(
        usage_path(&None, &None).unwrap_err(),
        "Could not resolve home directory (set INSIGHTS_USAGE_PATH)"
    );
}

#[test]
fn test_save_duplicate_insight_fails() {
    let result = check_insight_is_new(true, "dup_test", "duplicate");
    assert!(result.is_err());
    assert!(result.unwrap_err().message().contains("already exists"));
    assert!(check_insight_is_new(false, "dup_test", "duplicate").is_ok());
}

#[test]
fn test_load_nonexistent_insight() {
    let result = check_insight_exists(false, "nonexistent", "insight");
    assert!(result.is_err());
    assert!(result.unwrap_err().message().contains("not found"));
    assert!(check_insight_exists(true, "nonexistent", "insight").is_ok());
}

#[test]
fn insight_errors_name_the_insight() {
    let e = InsightError::AlreadyExists { topic: "rust".to_string(), name: "async".to_string() };
    assert_eq!(e.message(), "Insight rust/async already exists");
    let e = InsightError::NotFound { topic: "rust".to_string(), name: "async".to_string() };
    assert_eq!(e.message(), "Insight rust/async not found");
}

#[test]
fn test_update_insight() {
    let mut insight = Insight::new(
        "update_test".to_string(),
        "updateable".to_string(),
        "Original overview".to_string(),
        "Original details".to_string(),
    );

    update(&mut insight, Some("Updated overview"), None, true).unwrap();
    assert_eq!(insight.overview, "Updated overview");
    assert_eq!(insight.details, "Original details");

    update(&mut insight, None, Some("Updated details"), true).unwrap();
    assert_eq!(insight.overview, "Updated overview");
    assert_eq!(insight.details, "Updated details");
}

#[test]
fn test_update_with_no_changes_fails() {
    let mut insight = Insight::new(
        "no_update".to_string(),
        "test".to_string(),
        "Overview".to_string(),
        "Details".to_string(),
    );

    let result = update(&mut insight, None, None, true);
    assert!(result.is_err());
    assert!(result.unwrap_err().message().contains("At least one"));
    assert_eq!(insight.update_count, 0);
}

#[test]
fn test_delete_nonexistent_insight() {
    let insight = Insight::new(
        "ghost".to_string(),
        "phantom".to_string(),
        "Never existed".to_string(),
        "Not there".to_string(),
    );

    let result = check_insight_exists(false, &insight.topic, &insight.name);
    assert!(result.is_err());
    assert!(result.unwrap_err().message().contains("not found"));
}

#[test]
fn updating_an_insight_that_is_not_stored_fails() {
    let mut insight = Insight::new("ghost".to_string(), "phantom".to_string(), "o".to_string(), "d".to_string());
    let result = update(&mut insight, Some("New"), None, false);
    assert_eq!(
        result,
        Err(InsightError::NotFound { topic: "ghost".to_string(), name: "phantom".to_string() })
    );
    assert_eq!(insight.overview, "New");
    assert_eq!(insight.update_count, 1);
}

#[test]
fn updating_a_stored_insight_drops_its_embedding() {
    let mut insight = Insight::new("t".to_string(), "n".to_string(), "o".to_string(), "d".to_string());
    insight.embedding = Some(vec![1, 2, 3]);
    insight.embedding_version = Some("v1".to_string());
    update(&mut insight, None, Some("new details"), true).unwrap();
    assert_eq!(insight.embedding, None);
    assert_eq!(insight.embedding_version, None);
    assert_eq!(insight.update_count, 1);
}

#[test]
fn test_parse_insight_content_valid() {
    let content = "---\ntopic: \"TestTopic\"\nname: \"TestName\"\noverview: \"This is the overview\\nSpanning multiple lines\"\n---\n\n# Details\nThis is the details section\nWith more content";

    let (section, body) = split_frontmatter_content(content).unwrap();
    assert_eq!(
        section,
        "topic: \"TestTopic\"\nname: \"TestName\"\noverview: \"This is the overview\\nSpanning multiple lines\""
    );
    assert!(metadata_candidate(&body).is_none());

    let fm = frontmatter("TestTopic", "TestName", "This is the overview\nSpanning multiple lines");
    let (metadata, details) = parse_insight_with_metadata(content, Some(fm), None);
    assert_eq!(metadata.topic, "TestTopic");
    assert_eq!(metadata.name, "TestName");
    assert_eq!(metadata.overview, "This is the overview\nSpanning multiple lines");
    assert_eq!(details, "This is the details section\nWith more content");
}

#[test]
fn test_parse_insight_content_minimal() {
    let content = "---\ntopic: \"MinimalTopic\"\nname: \"MinimalName\"\noverview: Simple overview\n---\n\n# Details\n";

    let fm = frontmatter("MinimalTopic", "MinimalName", "Simple overview");
    let (metadata, details) = parse_insight_with_metadata(content, Some(fm), None);
    assert_eq!(metadata.topic, "MinimalTopic");
    assert_eq!(metadata.name, "MinimalName");
    assert_eq!(metadata.overview, "Simple overview");
    assert_eq!(details, "");
}

#[test]
fn test_parse_insight_content_trailing_metadata() {
    let content = "---
topic: temporal_test
name: footer_metadata
overview: Simple overview
---

# Details
Details stay as the insight body.

---
metadata:
  created_at: 2024-01-15T10:30:00Z
  last_updated: 2024-01-20T14:45:00Z
  update_count: 5
";

    let (_, body) = split_frontmatter_content(content).unwrap();
    let (held, section) = metadata_candidate(&body).unwrap();
    assert_eq!(held, "\n# Details\nDetails stay as the insight body.\n");
    assert_eq!(
        section,
        "metadata:\n  created_at: 2024-01-15T10:30:00Z\n  last_updated: 2024-01-20T14:45:00Z\n  update_count: 5"
    );

    let fm = frontmatter("temporal_test", "footer_metadata", "Simple overview");
    let block = footer("2024-01-15T10:30:00Z", "2024-01-20T14:45:00Z", 5);
    let (metadata, details) = parse_insight_with_metadata(content, Some(fm), Some(block));

    assert_eq!(metadata.topic, "temporal_test");
    assert_eq!(metadata.name, "footer_metadata");
    assert_eq!(details, "Details stay as the insight body.");
    assert_eq!(metadata.created_at, ts("2024-01-15T10:30:00Z"));
    assert_eq!(metadata.last_updated, ts("2024-01-20T14:45:00Z"));
    assert_eq!(metadata.update_count, 5);
}

#[test]
fn a_metadata_block_that_does_not_read_stays_in_the_details() {
    let content = "---\ntopic: t\nname: n\noverview: o\n---\n\n# Details\nBody\n\n---\nnot yaml: [\n";
    let fm = frontmatter("t", "n", "o");
    let (metadata, details) = parse_insight_with_metadata(content, Some(fm), None);
    assert_eq!(metadata.update_count, 0);
    assert_eq!(details, "Body\n\n---\nnot yaml: [");
    assert!(!has_metadata_footer(content, false));
    assert!(has_metadata_footer(content, true));
}

#[test]
fn test_parse_insight_content_legacy_no_frontmatter() {
    let content = "This is not valid format";

    assert_eq!(split_frontmatter_content(content), Err(FrontmatterError::Missing));
    let (metadata, details) = parse_insight_with_metadata(content, None, None);
    assert_eq!(metadata.overview, "This is not valid format");
    assert_eq!(details, "");
    assert_eq!(metadata.created_at, ts("2025-05-01T00:00:00Z"));
}

#[test]
fn test_parse_insight_content_legacy_multiline_no_frontmatter() {
    let content = "Overview line\nThis is details\nMore details";

    let (metadata, details) = parse_insight_with_metadata(content, None, None);
    assert_eq!(metadata.overview, "Overview line");
    assert_eq!(details, "This is details\nMore details");
}

#[test]
fn a_frontmatter_that_does_not_read_is_the_overview() {
    let content = "---\nJust an overview line\n---\n\n# Details\nThe details\n";
    let (metadata, details) = parse_insight_with_metadata(content, None, None);
    assert_eq!(metadata.overview, "Just an overview line");
    assert_eq!(details, "# Details\nThe details");
    assert_eq!(metadata.topic, "");
}

#[test]
fn an_unclosed_frontmatter_is_refused() {
    assert_eq!(split_frontmatter_content("---\ntopic: t\n"), Err(FrontmatterError::Unterminated));
    assert_eq!(
        FrontmatterError::Unterminated.message(),
        "Invalid insight format: could not find end of frontmatter"
    );
    assert_eq!(FrontmatterError::Missing.message(), "Invalid insight format: missing frontmatter");
}

#[test]
fn test_temporal_metadata_on_creation() {
    let before_creation = clock();

    let insight = Insight::new(
        "temporal_test".to_string(),
        "creation_test".to_string(),
        "Testing temporal metadata on creation".to_string(),
        "This tests that new insights have proper timestamps".to_string(),
    );

    let after_creation = clock();

    assert!(insight.created_at >= before_creation);
    assert!(insight.created_at <= after_creation);
    assert!(insight.last_updated >= before_creation);
    assert!(insight.last_updated <= after_creation);
    assert_eq!(insight.created_at, insight.last_updated);
    assert_eq!(insight.update_count, 0);
}

#[test]
fn test_temporal_metadata_on_update() {
    let mut insight = Insight::new(
        "temporal_test".to_string(),
        "update_test".to_string(),
        "Original overview".to_string(),
        "Original details".to_string(),
    );

    let original_created_at = insight.created_at;
    let original_last_updated = insight.last_updated;

    after(original_last_updated);
    update(&mut insight, Some("Updated overview"), Some("Updated details"), true).unwrap();

    assert_eq!(insight.created_at, original_created_at);
    assert!(insight.last_updated > original_last_updated);
    assert_eq!(insight.update_count, 1);

    let second_last_updated = insight.last_updated;
    after(second_last_updated);
    update(&mut insight, Some("Second update"), None, true).unwrap();

    assert_eq!(insight.update_count, 2);
    assert!(insight.last_updated > second_last_updated);
}

#[test]
fn test_backwards_compatibility_frontmatter_temporal_fields() {
    let content = "---
topic: legacy_test
name: old_temporal_insight
overview: This stores temporal metadata in frontmatter
created_at: 2024-01-15T10:30:00Z
last_updated: 2024-01-20T14:45:00Z
update_count: 3
---

# Details
This insight uses the old temporal metadata location.
";

    let mut fm = frontmatter("legacy_test", "old_temporal_insight", "This stores temporal metadata in frontmatter");
    fm.created_at = ts("2024-01-15T10:30:00Z");
    fm.last_updated = ts("2024-01-20T14:45:00Z");
    fm.update_count = 3;
    let (metadata, details) = parse_insight_with_metadata(content, Some(fm), None);

    assert_eq!(metadata.topic, "legacy_test");
    assert_eq!(metadata.name, "old_temporal_insight");
    assert_eq!(metadata.created_at, ts("2024-01-15T10:30:00Z"));
    assert_eq!(metadata.last_updated, ts("2024-01-20T14:45:00Z"));
    assert_eq!(metadata.update_count, 3);
    assert_eq!(details, "This insight uses the old temporal metadata location.");
}

#[test]
fn test_backwards_compatibility_missing_temporal_fields() {
    let legacy_content = "---
topic: legacy_test
name: old_insight
overview: This is a legacy insight without temporal metadata
---

# Details
This insight was created before temporal metadata was added.
";

    let fm = frontmatter("legacy_test", "old_insight", "This is a legacy insight without temporal metadata");
    let loaded = parse_insight_from_content("legacy_test", "old_insight", legacy_content, Some(fm), None);

    assert_eq!(loaded.created_at, ts("2025-05-01T00:00:00Z"));
    assert!(loaded.last_updated <= clock());
    assert_eq!(loaded.update_count, 0);
    assert_eq!(loaded.topic, "legacy_test");
    assert_eq!(loaded.name, "old_insight");
    assert_eq!(loaded.overview, "This is a legacy insight without temporal metadata");
    assert_eq!(loaded.details, "This insight was created before temporal metadata was added.");
}

#[test]
fn stored_topic_and_name_fill_in_what_the_frontmatter_leaves_out() {
    let content = "---\noverview: o\n---\n\n# Details\nd\n";
    let fm = frontmatter("", "", "o");
    let loaded = parse_insight_from_content("rust", "async", content, Some(fm), None);
    assert_eq!(loaded.topic, "rust");
    assert_eq!(loaded.name, "async");
}

#[test]
fn a_rendered_file_reads_back() {
    let fy = "topic: rust\nname: async\noverview: An overview\n";
    let my = "metadata:\n  update_count: 2\n";
    let file = render(fy, "Some details", my);
    assert_eq!(
        file,
        "---\ntopic: rust\nname: async\noverview: An overview\n---\n\n# Details\nSome details\n\n---\nmetadata:\n  update_count: 2\n"
    );

    let (section, body) = split_frontmatter_content(&file).unwrap();
    assert_eq!(section, "topic: rust\nname: async\noverview: An overview");
    let (held, meta) = metadata_candidate(&body).unwrap();
    assert_eq!(meta, "metadata:\n  update_count: 2");
    assert_eq!(clean_body_content(&held), "Some details");
}

#[test]
fn clean_body_content_drops_leading_blank_and_heading_lines() {
    assert_eq!(clean_body_content("\n\n# Details\n## More\n  text here \n\nmore\n"), "text here \n\nmore");
    assert_eq!(clean_body_content("# Only a heading\n"), "");
}

#[test]
fn insight_file_names() {
    assert!(is_insight_file("/store/rust/async.insight.md"));
    assert!(!is_insight_file("/store/rust/async.md"));
    assert!(!is_insight_file("/store/rust/async.insight.txt"));
    assert_eq!(extract_insight_name("/store/rust/async.insight.md").as_deref(), Some("async"));
    assert_eq!(extract_insight_name("/store/rust/notes.md"), None);
    assert_eq!(insight_file_name("Async-Patterns"), "async-patterns.insight.md");
    assert_eq!(extract_topic_name("/store/rust"), "rust");
    assert_eq!(extract_topic_name("/"), "unknown");
}

#[test]
fn listings_come_sorted() {
    let mut topics = vec!["rust".to_string(), "go".to_string(), "elixir".to_string()];
    sort_topics(&mut topics);
    assert_eq!(topics, vec!["elixir".to_string(), "go".to_string(), "rust".to_string()]);

    let mut list = vec![
        Insight::new("t".to_string(), "b".to_string(), "first b".to_string(), String::new()),
        Insight::new("t".to_string(), "a".to_string(), "a".to_string(), String::new()),
        Insight::new("t".to_string(), "b".to_string(), "second b".to_string(), String::new()),
    ];
    sort_by_name(&mut list);
    let names: Vec<&str> = list.iter().map(|i| i.name.as_str()).collect();
    assert_eq!(names, vec!["a", "b", "b"]);
    let overviews: Vec<&str> = list.iter().map(|i| i.overview.as_str()).collect();
    assert_eq!(overviews, vec!["a", "first b", "second b"]);
}
