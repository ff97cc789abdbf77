use insights::insight::{carries_usage, Insight};
use insights::insight_format::render;
use insights::migrate::{migrate_usage_footers, StoredFile};
use insights::timestamp::Timestamp;
use insights::usage::{
    adopt_counts, count_access, get, key, record, record_fits, record_many, AccessType, Usage,
    UsageStore,
};

fn ts(value: &str) -> Timestamp {
    let dt = chrono::DateTime::parse_from_rfc3339(value).unwrap();
    Timestamp { secs: dt.timestamp(), nanos: dt.timestamp_subsec_nanos() }
}

fn pair(topic: &str, name: &str) -> (String, String) {
    (topic.to_string(), name.to_string())
}

/// An insight file in the layout from before the usage store, with the
/// counters still in its trailing metadata block.
fn legacy_content(topic: &str, name: &str) -> String {
    format!(
        "---\ntopic: {topic}\nname: {name}\noverview: An overview\n---\n\n\
         # Details\nSome details\n\n---\nmetadata:\n  \
         created_at: 2026-01-15T10:30:00Z\n  \
         last_updated: 2026-01-20T14:45:00Z\n  \
         update_count: 2\n  \
         retrieval_count: 7\n  \
         search_hit_count: 11\n  \
         last_accessed: 2026-02-01T09:00:00Z\n  \
         pinned: true\n"
    )
}

/// The insight such a file holds.
fn legacy_insight(topic: &str, name: &str) -> Insight {
    let mut insight = Insight::new(
        topic.to_string(),
        name.to_string(),
        "An overview".to_string(),
        "Some details".to_string(),
    );
    insight.created_at = ts("2026-01-15T10:30:00Z");
    insight.last_updated = ts("2026-01-20T14:45:00Z");
    insight.update_count = 2;
    insight.retrieval_count = 7;
    insight.search_hit_count = 11;
    insight.last_accessed = Some(ts("2026-02-01T09:00:00Z"));
    insight.pinned = true;
    insight
}

/// The file that insight is written as now: no counters in it.
fn rendered_without_counters(topic: &str, name: &str) -> String {
    render(
        &format!("topic: {topic}\nname: {name}\noverview: An overview\n"),
        "Some details",
        "metadata:\n  created_at: 2026-01-15T10:30:00Z\n  last_updated: 2026-01-20T14:45:00Z\n  update_count: 2\n  pinned: true\n",
    )
}

fn legacy_file(topic: &str, name: &str) -> StoredFile {
    StoredFile {
        content: legacy_content(topic, name),
        footer_reads: true,
        parsed: Some((legacy_insight(topic, name), rendered_without_counters(topic, name))),
    }
}

/// The same file once migrated: it reads back with no counters, and renders
/// to itself.
fn migrated_file(topic: &str, name: &str) -> StoredFile {
    let content = rendered_without_counters(topic, name);
    let mut insight = legacy_insight(topic, name);
    insight.retrieval_count = 0;
    insight.search_hit_count = 0;
    insight.last_accessed = None;
    StoredFile { content: content.clone(), footer_reads: true, parsed: Some((insight, content)) }
}

#[test]
fn test_get_reports_zeroes_for_an_untouched_insight() {
    let store = UsageStore::new();

    let usage = get(&store, "never", "touched");

    assert_eq!(usage.retrieval_count, 0);
    assert_eq!(usage.search_hit_count, 0);
    assert_eq!(usage.last_accessed, None);
}

#[test]
fn test_record_counts_retrievals_and_search_hits_separately() {
    let mut store = UsageStore::new();

    record(&mut store, "rust", "async-patterns", AccessType::Retrieval);

    let usage = get(&store, "rust", "async-patterns");
    assert_eq!(usage.retrieval_count, 1);
    assert_eq!(usage.search_hit_count, 0);
    assert!(usage.last_accessed.is_some());
}

#[test]
fn test_record_counts_every_access() {
    let mut store = UsageStore::new();

    record(&mut store, "rust", "async-patterns", AccessType::Retrieval);
    record(&mut store, "rust", "async-patterns", AccessType::Retrieval);
    record(&mut store, "rust", "async-patterns", AccessType::SearchHit);

    let usage = get(&store, "rust", "async-patterns");
    assert_eq!(usage.retrieval_count, 2);
    assert_eq!(usage.search_hit_count, 1);
}

#[test]
fn test_record_many_counts_every_insight_it_is_given() {
    let mut store = UsageStore::new();
    let hits = [pair("rust", "first"), pair("rust", "second")];

    assert!(record_fits(&store, &hits, AccessType::SearchHit));
    record_many(&mut store, &hits, AccessType::SearchHit);

    assert_eq!(get(&store, "rust", "first").search_hit_count, 1);
    assert_eq!(get(&store, "rust", "second").search_hit_count, 1);
}

#[test]
fn record_many_counts_a_repeated_insight_each_time() {
    let mut store = UsageStore::new();
    let hits = [pair("rust", "first"), pair("Rust", "First"), pair("go", "x")];

    record_many(&mut store, &hits, AccessType::Retrieval);

    assert_eq!(get(&store, "rust", "first").retrieval_count, 2);
    assert_eq!(get(&store, "go", "x").retrieval_count, 1);
    assert_eq!(store.entries.len(), 2);
}

#[test]
fn test_counters_are_keyed_case_insensitively() {
    let mut store = UsageStore::new();

    record(&mut store, "Rust", "Async-Patterns", AccessType::Retrieval);

    assert_eq!(get(&store, "rust", "async-patterns").retrieval_count, 1);
    assert_eq!(key("Rust", "Async-Patterns"), "rust/async-patterns");
}

#[test]
fn record_fits_refuses_a_counter_at_its_limit() {
    let mut store = UsageStore::new();
    let full = Usage { retrieval_count: u32::MAX, search_hit_count: 0, last_accessed: None };
    adopt_counts(&mut store, vec![("rust".to_string(), "full".to_string(), full)]);

    assert!(!record_fits(&store, &[pair("rust", "full")], AccessType::Retrieval));
    assert!(record_fits(&store, &[pair("rust", "full")], AccessType::SearchHit));
}

#[test]
fn count_access_moves_one_counter() {
    let mut usage = Usage { retrieval_count: 3, search_hit_count: 4, last_accessed: None };
    count_access(&mut usage, AccessType::SearchHit);
    assert_eq!(usage, Usage { retrieval_count: 3, search_hit_count: 5, last_accessed: None });
}

#[test]
fn test_load_attaches_this_machines_counters_to_the_insight() {
    let mut store = UsageStore::new();
    record(&mut store, "rust", "async-patterns", AccessType::Retrieval);

    let mut loaded = Insight::new(
        "rust".to_string(),
        "async-patterns".to_string(),
        "An overview".to_string(),
        "Some details".to_string(),
    );
    insights::insight::attach_usage(&mut loaded, get(&store, "rust", "async-patterns"));

    assert_eq!(loaded.retrieval_count, 1);
    assert!(loaded.last_accessed.is_some());
}

#[test]
fn test_migration_moves_footer_counters_into_the_usage_store() {
    let mut store = UsageStore::new();
    let files = vec![legacy_file("rust", "legacy")];

    migrate_usage_footers(&files, &mut store);

    let usage = get(&store, "rust", "legacy");
    assert_eq!(usage.retrieval_count, 7);
    assert_eq!(usage.search_hit_count, 11);
    assert!(usage.last_accessed.is_some());
}

#[test]
fn test_migration_strips_counters_from_the_file_but_keeps_the_insight() {
    let mut store = UsageStore::new();
    let files = vec![legacy_file("rust", "legacy")];

    let rewrites = migrate_usage_footers(&files, &mut store);

    assert_eq!(rewrites, vec![true]);
    let (insight, rendered) = files[0].parsed.as_ref().unwrap();
    assert!(!rendered.contains("retrieval_count"));
    assert!(!rendered.contains("search_hit_count"));
    assert_eq!(insight.overview, "An overview");
    assert_eq!(insight.details, "Some details");
    assert_eq!(insight.update_count, 2);
    assert!(insight.pinned);
    assert_eq!(get(&store, "rust", "legacy").retrieval_count, 7);
}

#[test]
fn test_migration_leaves_an_already_migrated_store_untouched() {
    let mut store = UsageStore::new();
    migrate_usage_footers(&vec![legacy_file("rust", "legacy")], &mut store);
    record(&mut store, "rust", "legacy", AccessType::Retrieval);

    let rewrites = migrate_usage_footers(&vec![migrated_file("rust", "legacy")], &mut store);

    assert_eq!(rewrites, vec![false]);
    assert_eq!(get(&store, "rust", "legacy").retrieval_count, 8);
}

#[test]
fn test_migration_leaves_a_file_without_counters_byte_identical() {
    let original = "---\ntopic: rust\nname: older-layout\noverview: An overview\n                        created_at: 2026-04-05T07:47:15Z\nlast_updated: 2026-04-05T07:47:15Z\n                        update_count: 0\n---\n\n# Details\nSome details";
    let mut store = UsageStore::new();
    let files = vec![StoredFile { content: original.to_string(), footer_reads: false, parsed: None }];

    let rewrites = migrate_usage_footers(&files, &mut store);

    assert_eq!(rewrites, vec![false]);
    assert!(store.entries.is_empty());
}

#[test]
fn test_migration_leaves_an_empty_file_alone() {
    let mut store = UsageStore::new();
    let files = vec![StoredFile { content: String::new(), footer_reads: false, parsed: None }];

    let rewrites = migrate_usage_footers(&files, &mut store);

    assert_eq!(rewrites, vec![false]);
}

#[test]
fn test_migration_records_nothing_for_files_that_carry_no_counters() {
    let mut store = UsageStore::new();
    let files = vec![migrated_file("rust", "fresh")];

    migrate_usage_footers(&files, &mut store);

    assert_eq!(get(&store, "rust", "fresh").retrieval_count, 0);
    assert!(store.entries.is_empty());
    assert!(!carries_usage(&files[0].parsed.as_ref().unwrap().0));
}

#[test]
fn test_migration_still_moves_counters_when_a_store_already_exists() {
    let mut store = UsageStore::new();
    record(&mut store, "rust", "legacy", AccessType::Retrieval);

    let rewrites = migrate_usage_footers(&vec![legacy_file("rust", "legacy")], &mut store);

    assert_eq!(rewrites, vec![true]);
    let usage = get(&store, "rust", "legacy");
    assert_eq!(usage.retrieval_count, 7);
    assert_eq!(usage.search_hit_count, 11);
}

#[test]
fn test_adopting_counters_never_lowers_one_the_store_already_holds() {
    let mut store = UsageStore::new();
    for _ in 0..9 {
        record(&mut store, "rust", "legacy", AccessType::SearchHit);
    }

    migrate_usage_footers(&vec![legacy_file("rust", "legacy")], &mut store);

    let usage = get(&store, "rust", "legacy");
    assert_eq!(usage.search_hit_count, 11);
    assert_eq!(usage.retrieval_count, 7);
}

#[test]
fn adopting_keeps_the_higher_count_and_the_later_access() {
    let mut store = UsageStore::new();
    let held = Usage { retrieval_count: 20, search_hit_count: 1, last_accessed: Some(ts("2026-03-01T00:00:00Z")) };
    adopt_counts(&mut store, vec![("rust".to_string(), "x".to_string(), held)]);
    let file = Usage { retrieval_count: 5, search_hit_count: 9, last_accessed: Some(ts("2026-01-01T00:00:00Z")) };
    adopt_counts(&mut store, vec![("Rust".to_string(), "X".to_string(), file)]);

    assert_eq!(
        get(&store, "rust", "x"),
        Usage { retrieval_count: 20, search_hit_count: 9, last_accessed: Some(ts("2026-03-01T00:00:00Z")) }
    );
}
