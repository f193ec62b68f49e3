use medulla::clock::{CalendarDate, Timestamp};
use medulla::search::{matches_metadata, parse_date, parse_query, FilterMetadata, SearchFilter};

#[test]
fn test_parse_query_no_filters() {
    let (query, filter) = parse_query("hello world");
    assert_eq!(query, "hello world");
    assert!(filter.is_empty());
}

#[test]
fn test_parse_query_type_filter() {
    let (query, filter) = parse_query("type:decision postgres");
    assert_eq!(query, "postgres");
    assert_eq!(filter.entity_type, Some("decision".to_string()));
}

#[test]
fn test_parse_query_status_filter() {
    let (query, filter) = parse_query("status:accepted database");
    assert_eq!(query, "database");
    assert_eq!(filter.status, Some("accepted".to_string()));
}

#[test]
fn test_parse_query_multiple_tags() {
    let (query, filter) = parse_query("tag:important tag:urgent search term");
    assert_eq!(query, "search term");
    assert_eq!(filter.tags.len(), 2);
    assert!(filter.tags.contains(&"important".to_string()));
    assert!(filter.tags.contains(&"urgent".to_string()));
}

#[test]
fn test_parse_query_date_filters() {
    let (query, filter) = parse_query("created:>2025-01-01 created:<2025-12-31 test");
    assert_eq!(query, "test");
    assert!(filter.created_after.is_some());
    assert!(filter.created_before.is_some());
}

#[test]
fn test_parse_query_combined() {
    let (query, filter) = parse_query("type:task status:todo tag:backend priority API");
    assert_eq!(query, "priority API");
    assert_eq!(filter.entity_type, Some("task".to_string()));
    assert_eq!(filter.status, Some("todo".to_string()));
    assert_eq!(filter.tags, vec!["backend".to_string()]);
}

#[test]
fn test_parse_query_only_filters() {
    let (query, filter) = parse_query("type:decision status:accepted");
    assert_eq!(query, "");
    assert_eq!(filter.entity_type, Some("decision".to_string()));
    assert_eq!(filter.status, Some("accepted".to_string()));
}

#[test]
fn test_filter_is_empty() {
    let filter = SearchFilter::new();
    assert!(filter.is_empty());

    let mut filter_with_type = SearchFilter::new();
    filter_with_type.entity_type = Some("decision".to_string());
    assert!(!filter_with_type.is_empty());
}

#[test]
fn test_parse_date_iso() {
    let date = parse_date("2025-06-15");
    assert!(date.is_some());
    let dt = date.unwrap();
    assert_eq!(dt.date.year, 2025);
    assert_eq!(dt.date.month, 6);
    assert_eq!(dt.date.day, 15);
}

#[test]
fn test_parse_date_invalid() {
    let date = parse_date("not-a-date");
    assert!(date.is_none());
}

// ---------------------------------------------------------------------------
// Further cases
// ---------------------------------------------------------------------------

#[test]
fn date_filter_is_midnight_utc() {
    let t = parse_date("1970-01-02").unwrap();
    assert_eq!(t.secs, 86400);
    assert_eq!(t.nanos, 0);
    let t = parse_date("2025-01-01T10:00:00+02:00").unwrap();
    assert_eq!(t.secs, 1735718400);
    assert_eq!((t.date.year, t.date.month, t.date.day), (2025, 1, 1));
    assert_eq!(parse_date("2024-03-01").unwrap().secs, 1709251200);
    assert_eq!(parse_date("2000-02-29").unwrap().secs, 951782400);
    assert_eq!(parse_date("1969-12-31").unwrap().secs, -86400);
    assert!(parse_date("2023-02-29").is_none());
}

#[test]
fn later_filter_word_wins_and_spaces_collapse() {
    let (query, filter) = parse_query("  type:note   alpha\tbeta type:task  ");
    assert_eq!(query, "alpha beta");
    assert_eq!(filter.entity_type, Some("task".to_string()));
    let (_, filter) = parse_query("created:>garbage");
    assert!(filter.created_after.is_none());
}

fn at(secs: i64) -> Timestamp {
    Timestamp { secs, nanos: 0, date: CalendarDate { year: 1970, month: 1, day: 1 } }
}

#[test]
fn metadata_matching() {
    let meta = FilterMetadata {
        status: Some("accepted".to_string()),
        tags: vec!["Backend".to_string(), "db".to_string()],
        created_at: Some(at(100)),
    };
    let (_, f) = parse_query("status:accepted tag:backend");
    assert!(matches_metadata(&f, &meta));
    let (_, f) = parse_query("status:proposed");
    assert!(!matches_metadata(&f, &meta));
    let (_, f) = parse_query("tag:frontend");
    assert!(!matches_metadata(&f, &meta));
    let mut f = SearchFilter::new();
    f.created_after = Some(at(50));
    f.created_before = Some(at(200));
    assert!(matches_metadata(&f, &meta));
    f.created_after = Some(at(100));
    assert!(matches_metadata(&f, &meta));
    f.created_after = Some(at(101));
    assert!(!matches_metadata(&f, &meta));
    let (_, f) = parse_query("status:Accepted");
    assert!(!matches_metadata(&f, &meta));
    assert!(matches_metadata(&SearchFilter::new(), &meta));
}

#[test]
fn filed_tags_split_at_commas_and_trim() {
    let tags = vec!["a, b".to_string(), "  spaced ".to_string(), ",".to_string(), "c".to_string()];
    assert_eq!(
        medulla::search::filed_tags(&tags),
        vec!["a".to_string(), "b".to_string(), "spaced".to_string(), "c".to_string()]
    );
    assert!(medulla::search::filed_tags(&vec![]).is_empty());
}
