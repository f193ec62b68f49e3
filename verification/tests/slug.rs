use medulla::slug::slugify;

#[test]
fn test_slugify_basic() {
    assert_eq!(slugify("Hello World"), "hello-world");
    assert_eq!(slugify("Use PostgreSQL"), "use-postgresql");
}

#[test]
fn test_slugify_special_chars() {
    assert_eq!(slugify("Hello, World!"), "hello-world");
    assert_eq!(slugify("API v2.0 (beta)"), "api-v2-0-beta");
}

#[test]
fn test_slugify_consecutive_specials() {
    assert_eq!(slugify("Hello   World"), "hello-world");
    assert_eq!(slugify("---test---"), "test");
}

#[test]
fn test_slugify_unicode() {
    assert_eq!(slugify("Café au lait"), "caf-au-lait");
    assert_eq!(slugify("日本語"), "untitled");
}

#[test]
fn test_slugify_empty() {
    assert_eq!(slugify(""), "untitled");
    assert_eq!(slugify("---"), "untitled");
}

#[test]
fn test_slugify_numbers() {
    assert_eq!(slugify("Task 123"), "task-123");
    assert_eq!(slugify("2024-01-15 Meeting"), "2024-01-15-meeting");
}

#[test]
fn slugify_is_idempotent_on_examples() {
    for t in ["Hello, World!", "API v2.0 (beta)", "日本語", "", "a--b"] {
        let once = slugify(t);
        assert_eq!(slugify(&once), once);
    }
}

#[test]
fn slug_is_lowercase_alphanumeric_with_single_hyphens() {
    let s = slugify("  Mixed CASE -- and___underscores!! ");
    assert_eq!(s, "mixed-case-and-underscores");
    assert!(!s.starts_with('-') && !s.ends_with('-') && !s.contains("--"));
}

#[test]
fn slug_keeps_the_letters_and_digits() {
    assert_eq!(slugify("!!! ??"), "untitled");
    assert_eq!(slugify("  Hello, World 42!  "), "hello-world-42");
    assert_eq!(slugify("Élan vital"), "lan-vital");
    assert_eq!(slugify("Untitled"), "untitled");
}
