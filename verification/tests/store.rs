use medulla::clock::{uuid_string, Timestamp};
use medulla::entity::{
    Component, Decision, DecisionStatus, Link, Note, Prompt, Relation, RelationType, Task, TaskPriority,
    TaskStatus,
};
use medulla::graph::{get_relations_from, get_relations_to};
use medulla::listing::{list_components, list_decisions, list_links, list_notes, list_prompts, list_tasks};
use medulla::lookup::{find_entity, Catalog, EntityKind};
use medulla::ops::delete_entity;
use medulla::params::{EntityDeleteParams, EntityGetParams};
use medulla::error::{McpError, MedullaError};
use medulla::store;
use medulla::entity::ComponentStatus;
use medulla::clock::CalendarDate;
use medulla::ops::{add_relation, delete_relation};
use medulla::record::{
    component_record, decision_record, link_record, note_record, prompt_record, read_component,
    read_decision, read_link, read_note, read_prompt, read_relation, read_task, relation_record,
    task_record,
};
use medulla::subscriptions::SubscriptionState;
use medulla::update::{apply_decision_update, DecisionUpdate};

/// The document a snapshot of `doc` restores.
fn reopen(doc: &loro::LoroDoc) -> loro::LoroDoc {
    store::open_document(&store::snapshot(doc).unwrap()).unwrap()
}

fn now() -> Timestamp {
    Timestamp { secs: 1_736_942_400, nanos: 0, date: CalendarDate { year: 2025, month: 1, day: 15 } }
}

fn empty_catalog() -> Catalog {
    Catalog {
        decisions: vec![],
        tasks: vec![],
        notes: vec![],
        prompts: vec![],
        components: vec![],
        links: vec![],
        relations: vec![],
    }
}

#[test]
fn test_add_and_list_decision() {
    let mut doc = store::empty_document();

    let mut decision = Decision::new("Use Rust".to_string(), 1);
    decision.status = DecisionStatus::Accepted;
    decision.base.tags = vec!["architecture".to_string()];

    store::put_decision(&mut doc, &decision).unwrap();

    // Reopen and verify
    let doc2 = reopen(&doc);
    let decisions = store::catalog_of(&doc2).decisions;

    assert_eq!(decisions.len(), 1);
    assert_eq!(decisions[0].base.title, "Use Rust");
    assert_eq!(decisions[0].status, DecisionStatus::Accepted);
}

#[test]
fn test_add_and_list_relation() {
    let mut doc = store::empty_document();
    let decision1 = Decision::new("Use Rust".to_string(), 1);
    let decision2 = Decision::new("Use Loro".to_string(), 2);
    store::put_decision(&mut doc, &decision1).unwrap();
    store::put_decision(&mut doc, &decision2).unwrap();

    let relation = Relation::new(
        decision2.base.id,
        "decision".to_string(),
        decision1.base.id,
        "decision".to_string(),
        RelationType::Implements,
    );
    store::put_relation(&mut doc, &relation).unwrap();

    let relations = store::catalog_of(&reopen(&doc)).relations;
    assert_eq!(relations.len(), 1);
    assert_eq!(relations[0].source_id, decision2.base.id);
    assert_eq!(relations[0].target_id, decision1.base.id);
    assert_eq!(relations[0].relation_type, RelationType::Implements);
}

#[test]
fn test_get_relations_from_and_to() {
    let decision1 = Decision::new("Decision A".to_string(), 1);
    let decision2 = Decision::new("Decision B".to_string(), 2);
    let decision3 = Decision::new("Decision C".to_string(), 3);
    let mut cat = empty_catalog();

    add_relation(
        &mut cat,
        Relation::new(
            decision2.base.id,
            "decision".to_string(),
            decision1.base.id,
            "decision".to_string(),
            RelationType::Supersedes,
        ),
    );
    add_relation(
        &mut cat,
        Relation::new(
            decision3.base.id,
            "decision".to_string(),
            decision2.base.id,
            "decision".to_string(),
            RelationType::References,
        ),
    );

    let from_d2 = get_relations_from(&cat.relations, &uuid_string(decision2.base.id));
    assert_eq!(from_d2.len(), 1);
    assert_eq!(cat.relations[from_d2[0]].relation_type, RelationType::Supersedes);

    let to_d2 = get_relations_to(&cat.relations, &uuid_string(decision2.base.id));
    assert_eq!(to_d2.len(), 1);
    assert_eq!(cat.relations[to_d2[0]].relation_type, RelationType::References);
}

#[test]
fn test_delete_relation() {
    let decision1 = Decision::new("Decision A".to_string(), 1);
    let decision2 = Decision::new("Decision B".to_string(), 2);
    let mut cat = empty_catalog();

    add_relation(
        &mut cat,
        Relation::new(
            decision2.base.id,
            "decision".to_string(),
            decision1.base.id,
            "decision".to_string(),
            RelationType::Supersedes,
        ),
    );
    assert_eq!(cat.relations.len(), 1);

    delete_relation(&mut cat, decision2.base.id, RelationType::Supersedes, decision1.base.id);

    assert_eq!(cat.relations.len(), 0);
}

#[test]
fn loro_store_test_update_decision() {
    let mut doc = store::empty_document();
    let mut decision = Decision::new("Original Title".to_string(), 1);
    decision.base.tags = vec!["tag1".to_string(), "tag2".to_string()];
    decision.status = DecisionStatus::Proposed;
    store::put_decision(&mut doc, &decision).unwrap();

    // Update title and status
    let updates = DecisionUpdate {
        title: Some("Updated Title".to_string()),
        status: Some(DecisionStatus::Accepted),
        content: None,
        context: None,
        superseded_by: None,
        add_tags: vec!["tag3".to_string()],
        remove_tags: vec!["tag1".to_string()],
    };
    let mut stored = store::get_decision(&doc, decision.base.id).unwrap();
    apply_decision_update(&mut stored, updates, now());
    store::put_decision(&mut doc, &stored).unwrap();

    // Reopen and verify
    let doc2 = reopen(&doc);
    let updated = store::get_decision(&doc2, decision.base.id).unwrap();
    assert_eq!(updated.base.title, "Updated Title");
    assert_eq!(updated.status, DecisionStatus::Accepted);
    assert_eq!(updated.base.tags, vec!["tag2".to_string(), "tag3".to_string()]);
}

#[test]
fn test_subscription_state() {
    let mut state = SubscriptionState::new();

    let id1 = state.subscribe("medulla://entities/task");
    let _id2 = state.subscribe("medulla://entities/task");
    let _id3 = state.subscribe("medulla://entities/decision");

    assert_eq!(state.get_subscribers("medulla://entities/task").len(), 2);
    assert_eq!(state.get_subscribers("medulla://entities/decision").len(), 1);
    assert_eq!(state.get_subscribers("medulla://entities/note").len(), 0);

    assert!(state.unsubscribe(&id1));
    assert_eq!(state.get_subscribers("medulla://entities/task").len(), 1);

    state.clear();
    assert_eq!(state.get_subscribers("medulla://entities/task").len(), 0);
    assert_eq!(state.get_subscribers("medulla://entities/decision").len(), 0);
}

// ---------------------------------------------------------------------------
// Further cases
// ---------------------------------------------------------------------------

#[test]
fn subscribe_then_unsubscribe_restores() {
    let mut state = SubscriptionState::new();
    let a = state.subscribe("u");
    let b = state.subscribe("u");
    assert_eq!(a, "sub_0");
    assert_eq!(b, "sub_1");
    assert!(state.unsubscribe(&b));
    assert!(!state.unsubscribe(&b));
    assert_eq!(state.get_subscribers("u"), vec!["sub_0".to_string()]);
    assert!(!state.unsubscribe("sub_9"));
}

#[test]
fn relation_with_same_key_is_replaced() {
    let mut cat = empty_catalog();
    let mut r1 = Relation::new(1, "task".to_string(), 2, "task".to_string(), RelationType::Blocks);
    r1.created_by = Some("first".to_string());
    let mut r2 = Relation::new(1, "task".to_string(), 2, "task".to_string(), RelationType::Blocks);
    r2.created_by = Some("second".to_string());
    add_relation(&mut cat, r1);
    add_relation(&mut cat, Relation::new(1, "task".to_string(), 3, "task".to_string(), RelationType::Blocks));
    add_relation(&mut cat, r2);
    assert_eq!(cat.relations.len(), 2);
    assert_eq!(cat.relations[1].created_by, Some("second".to_string()));
    delete_relation(&mut cat, 1, RelationType::References, 2);
    assert_eq!(cat.relations.len(), 2);
}

#[test]
fn records_read_back() {
    let mut d = Decision::new("D".to_string(), 3);
    d.context = Some("ctx".to_string());
    d.consequences = vec!["c1".to_string()];
    d.superseded_by = Some("x".to_string());
    d.base.created_by = Some("me".to_string());
    let b = read_decision(&decision_record(&d)).unwrap();
    assert_eq!(b.base.id, d.base.id);
    assert_eq!(b.base.sequence_number, 3);
    assert_eq!(b.base.created_at, d.base.created_at);
    assert_eq!(b.base.updated_at, d.base.updated_at);
    assert_eq!(b.base.created_by, Some("me".to_string()));
    assert_eq!(b.context, d.context);
    assert_eq!(b.consequences, d.consequences);
    assert_eq!(b.superseded_by, d.superseded_by);

    let mut t = Task::new("T".to_string(), 4);
    t.status = TaskStatus::Blocked;
    t.priority = TaskPriority::Urgent;
    t.due_date = Some(medulla::clock::CalendarDate { year: 2026, month: 7, day: 4 });
    t.assignee = Some("a".to_string());
    let b = read_task(&task_record(&t)).unwrap();
    assert_eq!((b.status, b.priority, b.due_date, b.assignee.clone()), (t.status, t.priority, t.due_date, t.assignee.clone()));

    let mut n = Note::new("N".to_string(), 5);
    n.note_type = Some("meeting".to_string());
    n.base.content = Some("body".to_string());
    let b = read_note(&note_record(&n)).unwrap();
    assert_eq!((b.note_type, b.base.content), (n.note_type.clone(), n.base.content.clone()));

    let mut p = Prompt::new("P".to_string(), 6);
    p.template = Some("Hi {{x}}".to_string());
    p.variables = vec!["x".to_string()];
    p.output_schema = Some("{}".to_string());
    let b = read_prompt(&prompt_record(&p)).unwrap();
    assert_eq!((b.template, b.variables, b.output_schema), (p.template.clone(), p.variables.clone(), p.output_schema.clone()));

    let mut c = Component::new("C".to_string(), 7);
    c.owner = Some("team".to_string());
    c.component_type = Some("service".to_string());
    let b = read_component(&component_record(&c)).unwrap();
    assert_eq!((b.status, b.owner, b.component_type), (c.status, c.owner.clone(), c.component_type.clone()));

    let mut l = Link::new("L".to_string(), "https://x.org".to_string(), 8);
    l.link_type = Some("docs".to_string());
    let b = read_link(&link_record(&l)).unwrap();
    assert_eq!((b.url, b.link_type), (l.url.clone(), l.link_type.clone()));

    let mut r = Relation::new(10, "note".to_string(), 11, "task".to_string(), RelationType::Documents);
    r.created_by = Some("z".to_string());
    let b = read_relation(&relation_record(&r)).unwrap();
    assert_eq!((b.source_id, b.target_id, b.relation_type, b.created_at), (10, 11, RelationType::Documents, r.created_at));
    assert_eq!((b.source_type, b.target_type, b.created_by), ("note".to_string(), "task".to_string(), Some("z".to_string())));
}

fn catalog_of_decisions(ds: Vec<Decision>) -> Catalog {
    let mut cat = empty_catalog();
    cat.decisions = ds;
    cat
}

#[test]
fn test_get_decision() {
    let mut doc = store::empty_document();

    let decision = Decision::new("Test Decision".to_string(), 1);
    let decision_id = decision.base.id;

    store::put_decision(&mut doc, &decision).unwrap();
    let doc = reopen(&doc);

    // Get existing decision
    let retrieved = store::get_decision(&doc, decision_id);
    assert!(retrieved.is_some());
    assert_eq!(retrieved.unwrap().base.title, "Test Decision");

    // Get non-existing decision
    let non_existing = store::get_decision(&doc, Decision::new("Other".to_string(), 2).base.id);
    assert!(non_existing.is_none());
}

#[test]
fn test_delete_decision() {
    let mut doc = store::empty_document();

    let decision = Decision::new("To Be Deleted".to_string(), 1);
    let decision_id = decision.base.id;

    store::put_decision(&mut doc, &decision).unwrap();
    assert_eq!(store::catalog_of(&doc).decisions.len(), 1);

    // Delete the decision
    store::delete_entity(&mut doc, EntityKind::Decision, decision_id).unwrap();

    assert_eq!(store::catalog_of(&doc).decisions.len(), 0);

    // Verify it's really gone
    let doc2 = reopen(&doc);
    assert!(store::get_decision(&doc2, decision_id).is_none());
}

#[test]
fn test_delete_nonexistent_decision_fails() {
    let mut doc = store::empty_document();
    let absent = Decision::new("Absent".to_string(), 1);
    let result = store::delete_entity(&mut doc, EntityKind::Decision, absent.base.id);
    assert!(matches!(result, Err(MedullaError::EntityNotFound(_))));
}

#[test]
fn test_add_and_list_task() {
    let mut doc = store::empty_document();
    let mut task = Task::new("Implement feature".to_string(), 1);
    task.status = TaskStatus::InProgress;
    task.priority = TaskPriority::High;
    task.due_date = Some(CalendarDate { year: 2025, month: 2, day: 1 });
    store::put_task(&mut doc, &task).unwrap();

    let tasks = store::catalog_of(&reopen(&doc)).tasks;
    assert_eq!(tasks.len(), 1);
    assert_eq!(tasks[0].base.title, "Implement feature");
    assert_eq!(tasks[0].status, TaskStatus::InProgress);
    assert_eq!(tasks[0].priority, TaskPriority::High);
}

#[test]
fn test_add_and_list_note() {
    let mut doc = store::empty_document();
    let mut note = Note::new("Meeting notes".to_string(), 1);
    note.note_type = Some("meeting".to_string());
    note.base.content = Some("Discussed project timeline".to_string());
    store::put_note(&mut doc, &note).unwrap();

    let notes = store::catalog_of(&reopen(&doc)).notes;
    assert_eq!(notes.len(), 1);
    assert_eq!(notes[0].base.title, "Meeting notes");
    assert_eq!(notes[0].note_type, Some("meeting".to_string()));
}

#[test]
fn test_add_and_list_prompt() {
    let mut doc = store::empty_document();
    let mut prompt = Prompt::new("Code review".to_string(), 1);
    prompt.template = Some("Review this code: {{code}}".to_string());
    prompt.variables = vec!["code".to_string()];
    store::put_prompt(&mut doc, &prompt).unwrap();

    let prompts = store::catalog_of(&reopen(&doc)).prompts;
    assert_eq!(prompts.len(), 1);
    assert_eq!(prompts[0].base.title, "Code review");
    assert_eq!(prompts[0].variables, vec!["code".to_string()]);
}

#[test]
fn test_add_and_list_component() {
    let mut doc = store::empty_document();
    let mut component = Component::new("Auth Service".to_string(), 1);
    component.component_type = Some("service".to_string());
    component.status = ComponentStatus::Active;
    component.owner = Some("team-auth".to_string());
    store::put_component(&mut doc, &component).unwrap();

    let components = store::catalog_of(&reopen(&doc)).components;
    assert_eq!(components.len(), 1);
    assert_eq!(components[0].base.title, "Auth Service");
    assert_eq!(components[0].status, ComponentStatus::Active);
}

#[test]
fn test_add_and_list_link() {
    let mut doc = store::empty_document();
    let mut link = Link::new("Project Docs".to_string(), "https://docs.example.com".to_string(), 1);
    link.link_type = Some("documentation".to_string());
    store::put_link(&mut doc, &link).unwrap();

    let links = store::catalog_of(&reopen(&doc)).links;
    assert_eq!(links.len(), 1);
    assert_eq!(links[0].base.title, "Project Docs");
    assert_eq!(links[0].url, "https://docs.example.com");
}

#[test]
fn relation_answer_prints_the_instant() {
    let at = Timestamp { secs: 86_400 + 3_661, nanos: 0, date: CalendarDate { year: 1970, month: 1, day: 2 } };
    let r = Relation::with_time(1, "task".to_string(), 2, "note".to_string(), RelationType::Blocks, at);
    let answer = medulla::tool::relation_to_response(&r).unwrap();
    assert_eq!(answer.created_at, "1970-01-02T01:01:01+00:00");
    assert_eq!(answer.relation_type, "blocks");
    assert_eq!(answer.source_id, "00000000-0000-0000-0000-000000000001");
    assert_eq!((answer.source_type.as_str(), answer.target_type.as_str()), ("task", "note"));
}

#[test]
fn fresh_subscription_state_can_subscribe() {
    let mut state = SubscriptionState::new();
    assert!(state.can_subscribe());
    assert_eq!(state.subscribe("medulla://stats"), "sub_0");
    assert!(state.can_subscribe());
}

#[test]
fn sequence_numbers_are_recorded_in_the_document() {
    let mut doc = store::empty_document();
    assert_eq!(store::next_sequence_number(&doc, EntityKind::Task).unwrap(), 1);
    let task = Task::new("First".to_string(), 1);
    store::put_task(&mut doc, &task).unwrap();
    assert_eq!(store::next_sequence_number(&doc, EntityKind::Task).unwrap(), 2);
    assert_eq!(store::next_sequence_number(&doc, EntityKind::Note).unwrap(), 1);
    // Writing an older entity again does not lower the number.
    let old = Task::new("Older".to_string(), 1);
    store::put_task(&mut doc, &Task::new("Fifth".to_string(), 5)).unwrap();
    store::put_task(&mut doc, &old).unwrap();
    assert_eq!(store::next_sequence_number(&reopen(&doc), EntityKind::Task).unwrap(), 6);
}

#[test]
fn relations_are_replaced_as_a_whole() {
    let mut doc = store::empty_document();
    let a = Decision::new("A".to_string(), 1);
    let b = Decision::new("B".to_string(), 2);
    let r1 = Relation::new(a.base.id, "decision".to_string(), b.base.id, "decision".to_string(), RelationType::References);
    let r2 = Relation::new(b.base.id, "decision".to_string(), a.base.id, "decision".to_string(), RelationType::Supersedes);
    store::put_relations(&mut doc, &vec![r1]).unwrap();
    store::put_relations(&mut doc, &vec![r2]).unwrap();
    let rels = store::catalog_of(&reopen(&doc)).relations;
    assert_eq!(rels.len(), 1);
    assert_eq!(rels[0].relation_type, RelationType::Supersedes);
}

#[test]
fn stored_fields_read_back_through_the_document() {
    let mut doc = store::empty_document();
    let mut d = Decision::new("Round trip".to_string(), 7);
    d.base.content = Some("Body".to_string());
    d.base.tags = vec!["a".to_string(), "b".to_string()];
    d.context = Some("Why".to_string());
    d.consequences = vec!["x".to_string()];
    store::put_decision(&mut doc, &d).unwrap();
    let back = store::get_decision(&reopen(&doc), d.base.id).unwrap();
    assert_eq!(back.base.id, d.base.id);
    assert_eq!(back.base.sequence_number, 7);
    assert_eq!(back.base.content, Some("Body".to_string()));
    assert_eq!(back.base.tags, d.base.tags);
    assert_eq!(back.context, Some("Why".to_string()));
    assert_eq!(back.consequences, vec!["x".to_string()]);
    assert_eq!(back.base.created_at.secs, d.base.created_at.secs);
    assert_eq!(back.base.created_at.nanos, d.base.created_at.nanos);
}

#[test]
fn bytes_that_are_no_snapshot_do_not_open() {
    assert!(matches!(store::open_document(&[1, 2, 3]), Err(MedullaError::Loro(_))));
}

#[test]
fn index_holds_the_texts_of_each_kind() {
    let mut cat = empty_catalog();
    let mut t = Task::new("T".to_string(), 1);
    t.status = TaskStatus::InProgress;
    t.priority = TaskPriority::Urgent;
    t.assignee = Some("ana".to_string());
    cat.tasks = vec![t];
    let mut d = Decision::new("D".to_string(), 2);
    d.context = Some("legacy constraints".to_string());
    cat.decisions = vec![d, Decision::new("E".to_string(), 3)];
    let mut l = Link::new("L".to_string(), "https://x.example".to_string(), 4);
    l.link_type = Some("docs".to_string());
    cat.links = vec![l];
    assert_eq!(medulla::cache::index_extra_text(&cat, EntityKind::Task, 0), "in_progress urgent ana");
    assert_eq!(medulla::cache::index_extra_text(&cat, EntityKind::Decision, 0), "legacy constraints");
    assert_eq!(medulla::cache::index_extra_text(&cat, EntityKind::Decision, 1), "");
    assert_eq!(medulla::cache::index_extra_text(&cat, EntityKind::Link, 0), "https://x.example docs");
}

#[test]
fn new_entities_have_version_four_ids() {
    let d = Decision::new("Fresh".to_string(), 1);
    assert_eq!((d.base.id >> 76) & 0xf, 4);
    assert_eq!((d.base.id >> 62) & 0x3, 2);
    assert_eq!(uuid_string(d.base.id).chars().nth(14), Some('4'));
}

#[test]
fn list_lines_show_what_each_kind_shows() {
    let mut cat = empty_catalog();
    let mut d = Decision::new("Use Rust".to_string(), 1);
    d.status = DecisionStatus::Accepted;
    d.base.tags = vec!["lang".to_string(), "core".to_string()];
    let short = uuid_string(d.base.id)[..7].to_string();
    cat.decisions = vec![d];
    let mut t = Task::new("Ship".to_string(), 12);
    t.due_date = Some(CalendarDate { year: 2025, month: 3, day: 9 });
    let tshort = uuid_string(t.base.id)[..7].to_string();
    cat.tasks = vec![t];
    let l = Link::new("Docs".to_string(), "https://d.example".to_string(), 1234);
    let lshort = uuid_string(l.base.id)[..7].to_string();
    cat.links = vec![l];
    assert_eq!(
        medulla::cli::list_entry(&cat, EntityKind::Decision, 0),
        format!("  001 ({}) [accepted] Use Rust\n      tags: lang, core", short)
    );
    assert_eq!(
        medulla::cli::list_entry(&cat, EntityKind::Task, 0),
        format!("  012 ({}) [todo|normal] due:2025-03-09 Ship", tshort)
    );
    assert_eq!(
        medulla::cli::list_entry(&cat, EntityKind::Link, 0),
        format!("  1234 ({}) Docs -> https://d.example", lshort)
    );
}
