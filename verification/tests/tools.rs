use medulla::cache::{compute_text_hash, embeddable_text, EmbeddingConfig};
use medulla::error::{McpError, MedullaError, ENTITY_NOT_FOUND, STORAGE_ERROR, VALIDATION_FAILED};
use medulla::entity::{DecisionStatus, TaskPriority, TaskStatus};
use medulla::tools::{
    parse_date, parse_decision_status, parse_task_priority, parse_task_status, validate_entity_type, validate_title,
    validate_url,
};

#[test]
fn test_validate_title() {
    assert!(validate_title("Valid title").is_ok());
    assert!(validate_title("").is_err());
    assert!(validate_title("   ").is_err());
    assert!(validate_title(&"x".repeat(501)).is_err());
}

#[test]
fn test_validate_entity_type() {
    assert!(validate_entity_type("decision").is_ok());
    assert!(validate_entity_type("task").is_ok());
    assert!(validate_entity_type("invalid").is_err());
}

#[test]
fn test_validate_url() {
    assert!(validate_url("https://example.com").is_ok());
    assert!(validate_url("http://example.com").is_ok());
    assert!(validate_url("ftp://example.com").is_err());
    assert!(validate_url("not-a-url").is_err());
}

#[test]
fn test_parse_decision_status() {
    assert!(parse_decision_status("proposed").is_ok());
    assert!(parse_decision_status("accepted").is_ok());
    assert!(parse_decision_status("invalid").is_err());
}

#[test]
fn test_parse_task_status() {
    assert!(parse_task_status("todo").is_ok());
    assert!(parse_task_status("in_progress").is_ok());
    assert!(parse_task_status("invalid").is_err());
}

#[test]
fn test_parse_date() {
    assert!(parse_date("due_date", "2025-01-31").is_ok());
    assert!(parse_date("due_date", "not-a-date").is_err());
    assert!(parse_date("due_date", "01-31-2025").is_err());
}

#[test]
fn test_error_code_mapping() {
    let err = McpError::EntityNotFound { id: "abc".to_string() };
    assert_eq!(err.error_code(), ENTITY_NOT_FOUND);

    let err = McpError::ValidationFailed {
        field: "title".to_string(),
        message: "too short".to_string(),
    };
    assert_eq!(err.error_code(), VALIDATION_FAILED);
}

#[test]
fn test_from_medulla_error() {
    let medulla_err = MedullaError::EntityNotFound("xyz".to_string());
    let mcp_err: McpError = McpError::from_medulla(medulla_err);
    assert!(matches!(mcp_err, McpError::EntityNotFound { id } if id == "xyz"));
}

#[test]
fn test_default_config() {
    let config = EmbeddingConfig::default();
    assert_eq!(config.provider, "local");
    assert_eq!(config.model, "all-MiniLM-L6-v2");
    assert!(config.is_local());
}

#[test]
fn test_local_config() {
    let config = EmbeddingConfig::local();
    assert!(config.is_local());
}

#[test]
fn test_compute_text_hash_deterministic() {
    let text = "Hello, world!";
    let hash1 = compute_text_hash(text);
    let hash2 = compute_text_hash(text);
    assert_eq!(hash1, hash2);

    let different_text = "Different text";
    let hash3 = compute_text_hash(different_text);
    assert_ne!(hash1, hash3);
}

#[test]
fn test_embeddable_text_title_only() {
    let text = embeddable_text("My Title", None, &vec![]);
    assert_eq!(text, "My Title");
}

#[test]
fn test_embeddable_text_with_content() {
    let text = embeddable_text("Title", Some("Content here"), &vec![]);
    assert_eq!(text, "Title\n\nContent here");
}

#[test]
fn test_embeddable_text_with_tags() {
    let text = embeddable_text("Title", None, &vec!["tag1".to_string(), "tag2".to_string()]);
    assert_eq!(text, "Title\n\ntag1 tag2");
}

#[test]
fn test_embeddable_text_full() {
    let text = embeddable_text(
        "Title",
        Some("Content"),
        &vec!["rust".to_string(), "database".to_string()],
    );
    assert_eq!(text, "Title\n\nContent\n\nrust database");
}

// ---------------------------------------------------------------------------
// Further cases
// ---------------------------------------------------------------------------

#[test]
fn text_hash_is_sixteen_hex_digits() {
    let h = compute_text_hash("");
    assert_eq!(h.len(), 16);
    assert!(h.chars().all(|c| c.is_ascii_hexdigit() && !c.is_ascii_uppercase()));
    assert_ne!(compute_text_hash("a"), compute_text_hash("b"));
}

#[test]
fn title_limits_and_errors() {
    assert!(validate_title(&"x".repeat(500)).is_ok());
    assert!(matches!(validate_title("  "), Err(McpError::TitleRequired)));
    match validate_title(&"y".repeat(501)) {
        Err(McpError::TitleTooLong { max, actual }) => {
            assert_eq!(max, 500);
            assert_eq!(actual, 501);
        }
        other => panic!("unexpected {:?}", other),
    }
    assert!(validate_title(&"é".repeat(300)).is_ok());
    assert!(validate_title(&format!("  {}  ", "é".repeat(500))).is_ok());
    match validate_title(&"é".repeat(501)) {
        Err(McpError::TitleTooLong { max, actual }) => assert_eq!((max, actual), (500, 501)),
        other => panic!("unexpected {:?}", other),
    }
}

#[test]
fn unicode_white_space_is_trimmed_from_titles() {
    // Ideographic space, no-break space and the line separator are white space.
    assert!(matches!(validate_title("\u{3000}\u{a0}\u{2028}"), Err(McpError::TitleRequired)));
    // The zero-width space is not.
    assert!(validate_title("\u{200b}").is_ok());
    match validate_title(&format!("\u{3000}{}\u{85}", "x".repeat(501))) {
        Err(McpError::TitleTooLong { max, actual }) => assert_eq!((max, actual), (500, 501)),
        other => panic!("unexpected {:?}", other),
    }
}

#[test]
fn entity_type_error_lists_valid_types() {
    match validate_entity_type("widget") {
        Err(McpError::EntityTypeInvalid { provided, valid }) => {
            assert_eq!(provided, "widget");
            assert_eq!(valid, vec!["decision", "task", "note", "prompt", "component", "link"]);
        }
        other => panic!("unexpected {:?}", other),
    }
}

#[test]
fn enum_errors_name_field_and_value() {
    match parse_task_status("later") {
        Err(McpError::InvalidEnumValue { field, value, valid }) => {
            assert_eq!(field, "status");
            assert_eq!(value, "later");
            assert_eq!(valid, vec!["todo", "in_progress", "done", "blocked"]);
        }
        other => panic!("unexpected {:?}", other),
    }
    assert!(parse_task_status("In-Progress").is_ok());
    assert!(parse_decision_status("ACCEPTED").is_ok());
}

#[test]
fn date_errors() {
    let d = parse_date("due_date", "2024-02-29").unwrap();
    assert_eq!((d.year, d.month, d.day), (2024, 2, 29));
    assert!(matches!(
        parse_date("due_date", "2023-02-29"),
        Err(McpError::InvalidDateFormat { field, value }) if field == "due_date" && value == "2023-02-29"
    ));
}

#[test]
fn url_error_value() {
    assert!(matches!(validate_url("mailto:x"), Err(McpError::InvalidUrl { value }) if value == "mailto:x"));
}

#[test]
fn medulla_errors_map_to_tool_errors() {
    let e = McpError::from_medulla(MedullaError::Storage("disk".to_string()));
    assert_eq!(e.error_code(), STORAGE_ERROR);
    assert_eq!(e.message(), "Storage error: disk");
    let e = McpError::from_medulla(MedullaError::Io("gone".to_string()));
    assert!(matches!(&e, McpError::StorageError { message } if message == "IO error: gone"));
    let e = McpError::from_medulla(MedullaError::Embedding("model".to_string()));
    assert!(matches!(&e, McpError::InternalError { message } if message == "Embedding error: model"));
    assert_eq!(McpError::TitleRequired.error_code(), VALIDATION_FAILED);
    assert_eq!(McpError::TitleRequired.message(), "Title is required");
}

#[test]
fn every_name_parses_back() {
    use_names();
}

fn use_names() {
    for s in [DecisionStatus::Proposed, DecisionStatus::Accepted, DecisionStatus::Deprecated, DecisionStatus::Superseded] {
        assert_eq!(parse_decision_status(s.as_str()).unwrap(), s);
    }
    for s in [TaskStatus::Todo, TaskStatus::InProgress, TaskStatus::Done, TaskStatus::Blocked] {
        assert_eq!(parse_task_status(s.as_str()).unwrap(), s);
    }
    for p in [TaskPriority::Low, TaskPriority::Normal, TaskPriority::High, TaskPriority::Urgent] {
        assert_eq!(parse_task_priority(p.as_str()).unwrap(), p);
    }
    assert_eq!(parse_task_status("In-Progress").unwrap(), TaskStatus::InProgress);
    assert_eq!(parse_task_priority("URGENT").unwrap(), TaskPriority::Urgent);
}
