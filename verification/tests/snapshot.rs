use medulla::clock::CalendarDate;
use medulla::entity::{Component, ComponentStatus, Decision, Note, Prompt, Task, TaskPriority, TaskStatus};
use medulla::snapshot::{
    active_tasks_page, collect_recent_activity, completed_tasks_page, key_order, decision_body, decision_filename, format_task_line,
    prompt_body, unique_filename, unique_page_names, ComponentFrontmatter, PromptFrontmatter,
};

fn mock_component(seq: u32, title: &str, status: ComponentStatus) -> Component {
    let mut component = Component::new(title.to_string(), seq);
    component.base.content = Some("Component description".to_string());
    component.base.tags = vec!["backend".to_string()];
    component.component_type = Some("service".to_string());
    component.status = status;
    component.owner = Some("Team A".to_string());
    component
}

#[test]
fn test_component_frontmatter_all_fields() {
    let component = mock_component(1, "Auth Service", ComponentStatus::Active);
    let fm = ComponentFrontmatter::from_component(&component);

    assert_eq!(fm.title, "Auth Service");
    assert_eq!(fm.sequence, 1);
    assert_eq!(fm.component_type, Some("service".to_string()));
    assert_eq!(fm.status, "active");
    assert_eq!(fm.owner, Some("Team A".to_string()));
    assert_eq!(fm.tags, vec!["backend".to_string()]);
}

#[test]
fn test_component_frontmatter_optional_fields() {
    let mut component = mock_component(1, "Simple", ComponentStatus::Active);
    component.component_type = None;
    component.owner = None;
    component.base.tags = vec![];

    let fm = ComponentFrontmatter::from_component(&component);

    assert!(fm.component_type.is_none());
    assert!(fm.owner.is_none());
    assert!(fm.tags.is_empty());
}

#[test]
fn test_component_status_badge() {
    let active = mock_component(1, "Active", ComponentStatus::Active);
    let deprecated = mock_component(2, "Old", ComponentStatus::Deprecated);
    let planned = mock_component(3, "Future", ComponentStatus::Planned);

    assert_eq!(ComponentFrontmatter::from_component(&active).status, "active");
    assert_eq!(ComponentFrontmatter::from_component(&deprecated).status, "deprecated");
    assert_eq!(ComponentFrontmatter::from_component(&planned).status, "planned");
}

#[test]
fn component_test_unique_filename_collision() {
    let mut used = vec!["my-component".to_string()];

    let filename = unique_filename("my-component", 2, &mut used);

    assert_eq!(filename, "my-component-2.md");
}

fn mock_prompt(seq: u32, title: &str) -> Prompt {
    let mut prompt = Prompt::new(title.to_string(), seq);
    prompt.base.content = Some("Prompt description".to_string());
    prompt.template = Some("Hello {{name}}".to_string());
    prompt.variables = vec!["name".to_string()];
    prompt
}

#[test]
fn test_prompt_frontmatter_all_fields() {
    let prompt = mock_prompt(1, "Greeting Prompt");
    let fm = PromptFrontmatter::from_prompt(&prompt);

    assert_eq!(fm.title, "Greeting Prompt");
    assert_eq!(fm.sequence, 1);
    assert_eq!(fm.variables, vec!["name".to_string()]);
}

#[test]
fn test_prompt_frontmatter_empty_variables() {
    let mut prompt = mock_prompt(1, "Simple Prompt");
    prompt.variables = vec![];

    let fm = PromptFrontmatter::from_prompt(&prompt);

    assert!(fm.variables.is_empty());
}

#[test]
fn test_generate_body_with_template() {
    let prompt = mock_prompt(1, "Test");
    let body = prompt_body(&prompt);

    assert!(body.contains("## Template"));
    assert!(body.contains("Hello {{name}}"));
}

#[test]
fn test_generate_body_with_content() {
    let prompt = mock_prompt(1, "Test");
    let body = prompt_body(&prompt);

    assert!(body.contains("Prompt description"));
}

#[test]
fn test_generate_body_with_output_schema() {
    let mut prompt = mock_prompt(1, "Test");
    prompt.output_schema = Some(r#"{"type": "string"}"#.to_string());

    let body = prompt_body(&prompt);

    assert!(body.contains("## Output Schema"));
    assert!(body.contains("```json"));
    assert!(body.contains(r#"{"type": "string"}"#));
    assert!(body.contains("```"));
}

#[test]
fn test_generate_body_empty_template_skipped() {
    let mut prompt = mock_prompt(1, "Test");
    prompt.template = Some("".to_string());

    let body = prompt_body(&prompt);

    assert!(!body.contains("## Template"));
}

#[test]
fn prompt_test_unique_filename_collision() {
    let mut used = vec!["my-prompt".to_string()];

    let filename = unique_filename("my-prompt", 2, &mut used);

    assert_eq!(filename, "my-prompt-2.md");
}

// ---------------------------------------------------------------------------
// Further cases
// ---------------------------------------------------------------------------

#[test]
fn unique_filename_records_the_name() {
    let mut used: Vec<String> = vec![];
    assert_eq!(unique_filename("a", 1, &mut used), "a.md");
    assert_eq!(unique_filename("a", 2, &mut used), "a-2.md");
    assert_eq!(unique_filename("a", 3, &mut used), "a-3.md");
    assert_eq!(used, vec!["a".to_string(), "a-2".to_string(), "a-3".to_string()]);
    let names = unique_page_names(
        &vec!["x".to_string(), "x".to_string(), "y".to_string()],
        &vec![1, 2, 3],
    );
    assert_eq!(names, vec!["x.md".to_string(), "x-2.md".to_string(), "y.md".to_string()]);
}

#[test]
fn prompt_body_exact() {
    let mut prompt = mock_prompt(1, "T");
    prompt.output_schema = Some("{}\n".to_string());
    assert_eq!(
        prompt_body(&prompt),
        "Prompt description\n\n## Template\n\nHello {{name}}\n\n## Output Schema\n\n```json\n{}\n```\n"
    );
}

#[test]
fn decision_body_and_file_name() {
    let mut d = Decision::new("Use PostgreSQL!".to_string(), 7);
    assert_eq!(decision_filename(&d), "007-use-postgresql.md");
    assert_eq!(decision_body(&d), "");
    d.base.content = Some("We pick it.".to_string());
    assert_eq!(decision_body(&d), "We pick it.\n");
    d.context = Some("Need a DB".to_string());
    d.consequences = vec!["Ops work".to_string(), "SQL".to_string()];
    assert_eq!(
        decision_body(&d),
        "\n## Context\n\nNeed a DB\n\n## Decision\n\nWe pick it.\n\n## Consequences\n\n- Ops work\n- SQL\n"
    );
}

fn task(title: &str, seq: u32, status: TaskStatus, priority: TaskPriority) -> Task {
    let mut t = Task::new(title.to_string(), seq);
    t.status = status;
    t.priority = priority;
    t
}

#[test]
fn task_line_shows_details() {
    let mut t = task("Ship", 4, TaskStatus::Blocked, TaskPriority::High);
    t.due_date = Some(CalendarDate { year: 2025, month: 3, day: 9 });
    t.assignee = Some("ana".to_string());
    t.base.tags = vec!["a".to_string(), "b".to_string()];
    let short = &medulla::clock::uuid_string(t.base.id)[..7];
    assert_eq!(
        format_task_line(&t),
        format!("- [ ] **Ship** `#4` `({})` `[blocked]`\n  Due: 2025-03-09 | Assignee: ana | Tags: a, b", short)
    );
}

#[test]
fn task_pages_count_and_group() {
    let tasks = vec![
        task("Low one", 1, TaskStatus::Todo, TaskPriority::Low),
        task("Urgent one", 2, TaskStatus::InProgress, TaskPriority::Urgent),
        task("Finished", 3, TaskStatus::Done, TaskPriority::Urgent),
    ];
    let (page, shown) = active_tasks_page(&tasks, "2025-01-01 00:00 UTC");
    assert_eq!(shown, 2);
    assert!(page.find("Urgent one").unwrap() < page.find("Low one").unwrap());
    assert!(!page.contains("Finished"));
    let (page, shown) = completed_tasks_page(&tasks, "2025-01-01 00:00 UTC");
    assert_eq!(shown, 1);
    assert!(page.contains("Finished"));
    assert!(!page.contains("Low one"));
}

#[test]
fn equal_keys_keep_their_order() {
    assert_eq!(key_order(&vec![3, 1, 3, 1, 2]), vec![1, 3, 4, 0, 2]);

    let d = Decision::new("Same instant decision".to_string(), 1);
    let mut n = Note::new("Same instant note".to_string(), 1);
    n.base.updated_at = d.base.updated_at;
    let mut older = Note::new("Older note".to_string(), 2);
    older.base.updated_at.secs = d.base.updated_at.secs - 60;
    let recent = collect_recent_activity(&vec![d], &vec![], &vec![older, n], &vec![], &vec![], &vec![]);
    let titles: Vec<&str> = recent.iter().map(|a| a.title.as_str()).collect();
    assert_eq!(titles, vec!["Same instant decision", "Same instant note", "Older note"]);
}
