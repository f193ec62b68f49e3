use medulla::cli::{
    cli_hit_passes, cli_search_plan, cli_search_results, list_kind, cli_add_relation, cli_delete_relation, cli_delete_entity, cli_new_decision, cli_new_link, cli_new_task, CliNew,
    cli_update_entity, entity_title, find_entity_by_id, parse_relation_string, parse_u32,
    relations_from_args, resolve_task_id, CliUpdate,
};
use medulla::clock::{uuid_string, CalendarDate, Timestamp};
use medulla::entity::{
    Decision, DecisionStatus, Note, Relation, RelationType, Task, TaskPriority, TaskStatus,
};
use medulla::cache::{DecisionSearchResult, NoteSearchResult, SearchResult};
use medulla::error::{McpError, MedullaError};
use medulla::search::parse_query;
use medulla::graph::{find_orphans, find_path, parse_direction, Direction};
use medulla::lookup::{list_entities, recorded_after, resolve_entity_id, sequence_after, Catalog, EntityKind};
use medulla::ops::{
    complete_task, create_relation, delete_entity, remove_relation, reschedule_task,
    supersede_decision,
};
use medulla::request::{
    create_entity, update_entity, EntityCreateParams, EntityUpdateParams, NewEntity, PropValue,
    Property,
};
use medulla::params::{
    DecisionSupersedeParams, EntityDeleteParams, EntityListParams, GraphOrphansParams,
    GraphPathParams, GraphRelationsParams, RelationCreateParams, RelationDeleteParams,
    SearchFulltextParams, TaskBlockedParams, TaskCompleteParams, TaskReadyParams,
    TaskRescheduleParams,
};
use medulla::tool::{
    batch_entry, batch_report, check_batch_size, graph_orphans, graph_path, graph_relations, search_plan, tally,
    task_blocked, task_ready, BlockedAnswer, BatchKind,
};
use medulla::update::merge_tags;

fn now() -> Timestamp {
    Timestamp { secs: 1_736_942_400, nanos: 0, date: CalendarDate { year: 2025, month: 1, day: 15 } }
}

fn resched(id: &str, due: &str) -> TaskRescheduleParams {
    TaskRescheduleParams { id: id.to_string(), due_date: due.to_string() }
}

fn rel_create(s: &str, t: &str, ty: &str) -> RelationCreateParams {
    RelationCreateParams { source_id: s.to_string(), target_id: t.to_string(), relation_type: ty.to_string() }
}

fn list(t: Option<&str>, status: Option<&str>, tag: Option<&str>, limit: Option<u32>, offset: Option<u32>) -> EntityListParams {
    EntityListParams {
        entity_type: t.map(|x| x.to_string()),
        status: status.map(|x| x.to_string()),
        tag: tag.map(|x| x.to_string()),
        limit,
        offset,
    }
}

fn catalog() -> Catalog {
    let mut d1 = Decision::new("Use Rust".to_string(), 1);
    d1.base.tags = vec!["lang".to_string()];
    let d2 = Decision::new("Use Loro".to_string(), 2);
    let mut t1 = Task::new("Write parser".to_string(), 1);
    t1.base.tags = vec!["lang".to_string()];
    let n1 = Note::new("Meeting".to_string(), 1);
    Catalog {
        decisions: vec![d1, d2],
        tasks: vec![t1],
        notes: vec![n1],
        prompts: vec![],
        components: vec![],
        links: vec![],
        relations: vec![],
    }
}

fn text_prop(k: &str, v: &str) -> Property {
    Property { key: k.to_string(), value: PropValue::Text(v.to_string()) }
}

#[test]
fn numbers_read_like_str_parse() {
    assert_eq!(parse_u32("42"), Some(42));
    assert_eq!(parse_u32("+7"), Some(7));
    assert_eq!(parse_u32("007"), Some(7));
    assert_eq!(parse_u32("4294967295"), Some(u32::MAX));
    assert_eq!(parse_u32("4294967296"), None);
    assert_eq!(parse_u32(""), None);
    assert_eq!(parse_u32("+"), None);
    assert_eq!(parse_u32("-1"), None);
    assert_eq!(parse_u32("1a"), None);
}

#[test]
fn command_line_ids_find_entities() {
    let cat = catalog();
    assert_eq!(find_entity_by_id(&cat, "2").unwrap(), (EntityKind::Decision, 1));
    let prefix = &uuid_string(cat.tasks[0].base.id)[..9];
    assert_eq!(find_entity_by_id(&cat, prefix).unwrap(), (EntityKind::Task, 0));
    assert!(matches!(find_entity_by_id(&cat, "99"), Err(MedullaError::EntityNotFound(x)) if x == "99"));
    assert_eq!(resolve_task_id(&cat, "1").unwrap(), cat.tasks[0].base.id);
    assert!(resolve_task_id(&cat, "2").is_err());
    assert_eq!(entity_title(&cat, cat.notes[0].base.id), "Meeting");
    assert_eq!(entity_title(&cat, 0), "0000000");
}

#[test]
fn relation_arguments() {
    let target = 0x0123_4567_89ab_cdef_0123_4567_89ab_cdef_u128;
    let text = uuid_string(target);
    assert_eq!(parse_relation_string(&format!("Blocks:{}", text)).unwrap(), (RelationType::Blocks, target));
    assert!(matches!(
        parse_relation_string("blocks"),
        Err(MedullaError::Storage(m)) if m == "Invalid relation format 'blocks'. Expected 'type:target_id'"
    ));
    assert!(matches!(
        parse_relation_string("likes:x"),
        Err(MedullaError::Storage(m)) if m == "Unknown relation type: likes"
    ));
    assert!(matches!(
        parse_relation_string("blocks:nope"),
        Err(MedullaError::Storage(m)) if m == "Invalid UUID in relation: nope"
    ));
    let now = now();
    let args = vec![format!("implements:{}", text), "bad".to_string(), format!("references:{}", text)];
    let (rels, errors) = relations_from_args(5, "task", &args, &Some("me".to_string()), now);
    assert_eq!(rels.len(), 2);
    assert_eq!(rels[0].relation_type, RelationType::Implements);
    assert_eq!(rels[1].relation_type, RelationType::References);
    assert_eq!((rels[1].source_id, rels[1].target_id, rels[1].target_type.as_str()), (5, target, "unknown"));
    assert_eq!(rels[0].created_by, Some("me".to_string()));
    assert_eq!(errors.len(), 1);
    assert_eq!(errors[0].0, 1);
}

#[test]
fn command_line_update() {
    let mut cat = catalog();
    let now = now();
    let a = CliUpdate {
        title: Some("Use Rust 2024".to_string()),
        status: Some("ACCEPTED".to_string()),
        add_tags: vec!["core".to_string()],
        remove_tags: vec!["lang".to_string()],
        content: Some(String::new()),
    };
    cli_update_entity(&mut cat, EntityKind::Decision, 0, a, now);
    let d = &cat.decisions[0];
    assert_eq!(d.base.title, "Use Rust 2024");
    assert_eq!(d.status, DecisionStatus::Accepted);
    assert_eq!(d.base.tags, vec!["core".to_string()]);
    assert_eq!(d.base.content, None);
    assert_eq!(d.base.updated_at, now);
    let a = CliUpdate {
        title: None,
        status: Some("whenever".to_string()),
        add_tags: vec![],
        remove_tags: vec![],
        content: Some("from stdin".to_string()),
    };
    cli_update_entity(&mut cat, EntityKind::Task, 0, a, now);
    assert_eq!(cat.tasks[0].status, TaskStatus::Todo);
    assert_eq!(cat.tasks[0].base.content, Some("from stdin".to_string()));
    assert_eq!(cat.tasks[0].base.tags, vec!["lang".to_string()]);
}

#[test]
fn create_checks_and_builds() {
    let now = now();
    let p = EntityCreateParams {
        entity_type: "task".to_string(),
        title: "  Fix bug  ".to_string(),
        content: None,
        tags: Some(vec!["x".to_string()]),
        properties: Some(vec![text_prop("priority", "HIGH"), text_prop("due_date", "2025-05-01")]),
    };
    match create_entity(&p, 3, 77, now).unwrap() {
        NewEntity::Task(t) => {
            assert_eq!(t.base.title, "Fix bug");
            assert_eq!(t.base.id, 77);
            assert_eq!(t.base.sequence_number, 3);
            assert_eq!(t.priority, TaskPriority::High);
            assert_eq!(t.due_date, Some(CalendarDate { year: 2025, month: 5, day: 1 }));
            assert_eq!(t.status, TaskStatus::Todo);
        }
        other => panic!("unexpected {:?}", other),
    }
    let bad = EntityCreateParams {
        entity_type: "task".to_string(),
        title: "T".to_string(),
        content: None,
        tags: None,
        properties: Some(vec![text_prop("priority", "someday")]),
    };
    assert!(matches!(create_entity(&bad, 1, 1, now), Err(McpError::InvalidEnumValue { field, .. }) if field == "priority"));
    let bad = EntityCreateParams {
        entity_type: "widget".to_string(),
        title: "".to_string(),
        content: None,
        tags: None,
        properties: None,
    };
    assert!(matches!(create_entity(&bad, 1, 1, now), Err(McpError::EntityTypeInvalid { .. })));
    let bad = EntityCreateParams {
        entity_type: "link".to_string(),
        title: "L".to_string(),
        content: None,
        tags: None,
        properties: Some(vec![text_prop("url", "ftp://x")]),
    };
    assert!(matches!(create_entity(&bad, 1, 1, now), Err(McpError::InvalidUrl { .. })));
}

#[test]
fn update_by_identifier() {
    let mut cat = catalog();
    let now = now();
    let p = EntityUpdateParams {
        id: "1".to_string(),
        title: None,
        content: Some("why".to_string()),
        add_tags: Some(vec!["a".to_string(), "lang".to_string()]),
        remove_tags: None,
        properties: Some(vec![text_prop("status", "deprecated")]),
    };
    assert_eq!(update_entity(&mut cat, &p, now).unwrap(), (EntityKind::Decision, 0));
    assert_eq!(cat.decisions[0].status, DecisionStatus::Deprecated);
    assert_eq!(cat.decisions[0].base.tags, vec!["lang".to_string(), "a".to_string()]);
    let p = EntityUpdateParams {
        id: "1".to_string(),
        title: None,
        content: None,
        add_tags: None,
        remove_tags: None,
        properties: Some(vec![text_prop("status", "gone")]),
    };
    assert!(matches!(update_entity(&mut cat, &p, now), Err(McpError::InvalidEnumValue { .. })));
    assert_eq!(cat.decisions[0].status, DecisionStatus::Deprecated);
    let p = EntityUpdateParams {
        id: "zzz".to_string(),
        title: None,
        content: None,
        add_tags: None,
        remove_tags: None,
        properties: None,
    };
    assert!(matches!(update_entity(&mut cat, &p, now), Err(McpError::EntityNotFound { id }) if id == "zzz"));
}

#[test]
fn task_operations() {
    let mut cat = catalog();
    let now = now();
    assert_eq!(complete_task(&mut cat, &TaskCompleteParams { id: "1".to_string() }, now).unwrap(), 0);
    assert_eq!(cat.tasks[0].status, TaskStatus::Done);
    assert_eq!(reschedule_task(&mut cat, &resched("1", "2026-01-02"), now).unwrap(), 0);
    assert_eq!(cat.tasks[0].due_date, Some(CalendarDate { year: 2026, month: 1, day: 2 }));
    assert!(matches!(reschedule_task(&mut cat, &resched("1", "tomorrow"), now), Err(McpError::InvalidDateFormat { .. })));
    let before = cat.notes.len();
    let id = uuid_string(cat.notes[0].base.id);
    let (k, i, _) = delete_entity(&mut cat, &EntityDeleteParams { id }).unwrap();
    assert_eq!((k, i), (EntityKind::Note, 0));
    assert_eq!(cat.notes.len(), before - 1);
}

#[test]
fn relations_and_supersession() {
    let mut cat = catalog();
    let now = now();
    assert!(matches!(
        create_relation(&mut cat, &rel_create("1", "2", "likes"), now),
        Err(McpError::ValidationFailed { field, .. }) if field == "relation_type"
    ));
    assert!(matches!(create_relation(&mut cat, &rel_create("1", "77", "blocks"), now), Err(McpError::EntityNotFound { id }) if id == "77"));
    assert!(cat.relations.is_empty());
    let at = create_relation(&mut cat, &rel_create("2", "1", "REFERENCES"), now).unwrap();
    assert_eq!(cat.relations[at].source_id, cat.decisions[1].base.id);
    assert_eq!(cat.relations[at].target_type, "decision");
    assert!(remove_relation(&mut cat, &RelationDeleteParams { source_id: "2".to_string(), target_id: "1".to_string(), relation_type: "references".to_string() }).is_ok());
    assert!(cat.relations.is_empty());
    let i = supersede_decision(&mut cat, &DecisionSupersedeParams { old_id: "1".to_string(), new_id: "2".to_string() }, now).unwrap();
    assert_eq!(i, 0);
    assert_eq!(cat.decisions[0].status, DecisionStatus::Superseded);
    assert_eq!(cat.decisions[0].superseded_by, Some(uuid_string(cat.decisions[1].base.id)));
    assert_eq!(cat.relations.len(), 1);
    assert_eq!(cat.relations[0].relation_type, RelationType::Supersedes);
}

#[test]
fn listing_and_resolution() {
    let cat = catalog();
    let page = list_entities(&cat, &list(None, None, Some("lang"), None, None)).unwrap();
    assert_eq!(page.total, 2);
    assert_eq!(page.items, vec![(EntityKind::Decision, 0), (EntityKind::Task, 0)]);
    let page = list_entities(&cat, &list(Some("decision"), None, None, Some(1), Some(1))).unwrap();
    assert_eq!((page.total, page.items.clone()), (2, vec![(EntityKind::Decision, 1)]));
    assert!(list_entities(&cat, &list(Some("gadget"), None, None, None, None)).is_err());
    assert_eq!(resolve_entity_id(&cat, "1").unwrap(), (EntityKind::Decision, 0));
}

#[test]
fn paths_and_orphans() {
    let r = |a: u128, b: u128| Relation::new(a, "task".to_string(), b, "task".to_string(), RelationType::References);
    let rels = vec![r(1, 2), r(3, 2), r(3, 4)];
    assert_eq!(find_path(&rels, 1, 4, 5), Some(vec![1, 2, 3, 4]));
    assert_eq!(find_path(&rels, 4, 1, 5), Some(vec![4, 3, 2, 1]));
    assert_eq!(find_path(&rels, 1, 4, 2), None);
    assert_eq!(find_path(&rels, 1, 9, 5), None);
    assert_eq!(find_path(&rels, 7, 7, 0), Some(vec![7]));
    assert_eq!(find_orphans(&vec![1, 5, 2, 6], &rels, None), vec![1, 3]);
    assert_eq!(find_orphans(&vec![5, 6], &rels, Some(1)), vec![0]);
    assert_eq!(parse_direction(None).unwrap(), Direction::Both);
    assert!(parse_direction(Some("up")).is_err());
}

#[test]
fn tag_merging() {
    let tags = vec!["a".to_string(), "b".to_string(), "c".to_string()];
    let merged = merge_tags(&tags, &vec!["d".to_string(), "a".to_string(), "d".to_string()], &vec!["b".to_string()]);
    assert_eq!(merged, vec!["a".to_string(), "c".to_string(), "d".to_string()]);
}

#[test]
fn command_line_add_and_delete() {
    let now = now();
    let base = |t: &str| CliNew {
        title: t.to_string(),
        tags: vec!["x".to_string()],
        content: Some(String::new()),
        created_by: Some("ana".to_string()),
    };
    let d = cli_new_decision(base("D"), "Accepted", 4, 40, now);
    assert_eq!((d.status, d.base.sequence_number, d.base.id), (DecisionStatus::Accepted, 4, 40));
    assert_eq!((d.base.content.clone(), d.base.created_by.clone()), (None, Some("ana".to_string())));
    let d = cli_new_decision(base("D"), "nonsense", 5, 41, now);
    assert_eq!(d.status, DecisionStatus::Proposed);
    let t = cli_new_task(base("T"), "in-progress", "URGENT", Some("2025-13-01".to_string()), None, 6, 42, now);
    assert_eq!((t.status, t.priority, t.due_date), (TaskStatus::InProgress, TaskPriority::Urgent, None));
    let t = cli_new_task(base("T"), "?", "?", Some("2025-12-01".to_string()), Some("bo".to_string()), 7, 43, now);
    assert_eq!((t.status, t.priority), (TaskStatus::Todo, TaskPriority::Normal));
    assert_eq!(t.due_date, Some(CalendarDate { year: 2025, month: 12, day: 1 }));
    let l = cli_new_link(base("L"), "https://a.b".to_string(), None, 8, 44, now);
    assert_eq!(l.url, "https://a.b");

    let mut cat = catalog();
    let a = cat.decisions[0].base.id;
    let b = cat.decisions[1].base.id;
    let c = cat.tasks[0].base.id;
    let r = |x: u128, y: u128| Relation::new(x, "d".to_string(), y, "d".to_string(), RelationType::References);
    cat.relations = vec![r(a, b), r(b, c), r(c, a)];
    let gone = cli_delete_entity(&mut cat, EntityKind::Decision, 0);
    assert_eq!(gone, a);
    assert_eq!(cat.decisions.len(), 1);
    assert_eq!(cat.relations.len(), 1);
    assert_eq!((cat.relations[0].source_id, cat.relations[0].target_id), (b, c));
}

#[test]
fn graph_tools() {
    let mut cat = catalog();
    let now = now();
    create_relation(&mut cat, &rel_create("1", "2", "references"), now).unwrap();
    let rels = graph_relations(&cat, &GraphRelationsParams { id: "2".to_string(), direction: None }).unwrap();
    assert_eq!(rels.entity_id, cat.decisions[1].base.id);
    assert_eq!((rels.outgoing.len(), rels.incoming.clone()), (0, vec![0]));
    let rels = graph_relations(&cat, &GraphRelationsParams { id: "1".to_string(), direction: Some("to".to_string()) }).unwrap();
    assert!(rels.outgoing.is_empty() && rels.incoming.is_empty());
    assert!(matches!(
        graph_relations(&cat, &GraphRelationsParams { id: "1".to_string(), direction: Some("sideways".to_string()) }),
        Err(McpError::ValidationFailed { field, .. }) if field == "direction"
    ));
    let path = graph_path(&cat, &GraphPathParams { from_id: "2".to_string(), to_id: "1".to_string(), max_depth: None }).unwrap();
    assert_eq!(path, Some(vec![cat.decisions[1].base.id, cat.decisions[0].base.id]));
    let path = graph_path(&cat, &GraphPathParams { from_id: "2".to_string(), to_id: "1".to_string(), max_depth: Some(0) }).unwrap();
    assert_eq!(path, None);
    assert!(graph_path(&cat, &GraphPathParams { from_id: "9".to_string(), to_id: "1".to_string(), max_depth: None }).is_err());
    let orphans = graph_orphans(&cat, &GraphOrphansParams { entity_type: None, limit: None }).unwrap();
    assert_eq!(orphans, vec![(EntityKind::Task, 0), (EntityKind::Note, 0)]);
    let orphans = graph_orphans(&cat, &GraphOrphansParams { entity_type: Some("decision".to_string()), limit: None }).unwrap();
    assert!(orphans.is_empty());
    let orphans = graph_orphans(&cat, &GraphOrphansParams { entity_type: None, limit: Some(1) }).unwrap();
    assert_eq!(orphans, vec![(EntityKind::Task, 0)]);
    assert!(graph_orphans(&cat, &GraphOrphansParams { entity_type: Some("x".to_string()), limit: None }).is_err());
}

#[test]
fn task_tools_and_batches() {
    let cat = catalog();
    assert_eq!(task_ready(&cat, &TaskReadyParams { limit: None }).len(), 1);
    match task_blocked(&cat, &TaskBlockedParams { id: None, limit: None }).unwrap() {
        BlockedAnswer::Blocked(v) => assert!(v.is_empty()),
        other => panic!("unexpected {:?}", other),
    }
    assert!(task_blocked(&cat, &TaskBlockedParams { id: Some("42".to_string()), limit: None }).is_err());
    assert!(check_batch_size(100).is_ok());
    assert!(matches!(check_batch_size(101), Err(McpError::ValidationFailed { message, .. }) if message == "Maximum 100 operations allowed per batch"));
    let a = batch_entry(0, BatchKind::Create, Ok("abc".to_string()));
    let b = batch_entry(1, BatchKind::Delete, Err(McpError::EntityNotFound { id: "9".to_string() }));
    assert_eq!(b.error.as_ref().unwrap().code, "DELETE_FAILED");
    assert_eq!(b.error.as_ref().unwrap().message, "Entity not found: 9");
    let t = tally(vec![a, b]);
    assert_eq!((t.succeeded, t.failed, t.results.len()), (1, 1, 2));
    assert!(search_plan(&SearchFulltextParams { query: "  ".to_string(), entity_type: None, limit: None }).is_err());
    let (kinds, n) = search_plan(&SearchFulltextParams { query: "db".to_string(), entity_type: Some("note".to_string()), limit: Some(500) }).unwrap();
    assert_eq!((kinds, n), (vec![EntityKind::Note], 100));
    let (kinds, n) = search_plan(&SearchFulltextParams { query: "db".to_string(), entity_type: None, limit: None }).unwrap();
    assert_eq!((kinds.len(), n), (6, 50));
}

#[test]
fn command_line_relations() {
    let mut cat = catalog();
    let now = now();
    let d2 = cat.decisions[1].base.id;
    let t1 = cat.tasks[0].base.id;
    let d2_prefix = uuid_string(d2)[..9].to_string();

    assert!(matches!(
        cli_add_relation(&mut cat, "99", "1", "blocks", None, now),
        Err(MedullaError::EntityNotFound(x)) if x == "99"
    ));
    assert!(matches!(
        cli_add_relation(&mut cat, "1", "98", "blocks", None, now),
        Err(MedullaError::EntityNotFound(x)) if x == "98"
    ));
    assert!(matches!(
        cli_add_relation(&mut cat, "1", "2", "likes", None, now),
        Err(MedullaError::Storage(m)) if m == "Unknown relation type: likes"
    ));
    assert_eq!(cat.relations.len(), 0);

    cli_add_relation(&mut cat, &d2_prefix, "1", "SUPERSEDES", Some("ana".to_string()), now).unwrap();
    assert_eq!(cat.relations.len(), 1);
    let r = &cat.relations[0];
    assert_eq!((r.source_id, r.target_id, r.relation_type), (d2, cat.decisions[0].base.id, RelationType::Supersedes));
    assert_eq!((r.source_type.as_str(), r.target_type.as_str()), ("decision", "decision"));
    assert_eq!(r.created_by, Some("ana".to_string()));

    // "1" names the first decision, kinds in their canonical order.
    cli_add_relation(&mut cat, "2", "1", "supersedes", None, now).unwrap();
    assert_eq!(cat.relations.len(), 1);
    assert_eq!(cat.relations[0].created_by, None);

    let (s, t, target) = cli_delete_relation(&mut cat, "2", "1", "supersedes").unwrap();
    assert_eq!((s, t), (d2, RelationType::Supersedes));
    assert_eq!(target, cat.decisions[0].base.id);
    assert_eq!(cat.relations.len(), 0);
    let again = cli_delete_relation(&mut cat, "2", "1", "supersedes");
    assert!(again.is_ok());
    assert!(matches!(cli_delete_relation(&mut cat, "2", "1", "nope"), Err(MedullaError::Storage(_))));
    assert_ne!(t1, d2);
}

#[test]
fn list_names_a_kind() {
    assert_eq!(list_kind(None), Some(EntityKind::Decision));
    assert_eq!(list_kind(Some("tasks")), Some(EntityKind::Task));
    assert_eq!(list_kind(Some("note")), Some(EntityKind::Note));
    assert_eq!(list_kind(Some("components")), Some(EntityKind::Component));
    assert_eq!(list_kind(Some("Links")), None);
    assert_eq!(list_kind(Some("tasks ")), None);
    assert_eq!(list_kind(Some("widgets")), None);
}

fn decision_hit(id: u128, status: &str) -> SearchResult {
    SearchResult::Decision(DecisionSearchResult {
        id: uuid_string(id),
        sequence_number: 1,
        title: "t".to_string(),
        status: status.to_string(),
        title_highlight: None,
        content_snippet: None,
    })
}

fn note_hit(id: u128) -> SearchResult {
    SearchResult::Note(NoteSearchResult {
        id: uuid_string(id),
        sequence_number: 1,
        title: "n".to_string(),
        note_type: None,
        title_highlight: None,
        content_snippet: None,
    })
}

#[test]
fn command_line_search() {
    let (text, filter) = parse_query("type:task status:todo");
    let (q, kinds) = cli_search_plan(&text, &filter);
    assert_eq!((q.as_str(), kinds), ("*", vec![EntityKind::Task]));
    let (text, filter) = parse_query("rust type:widget");
    let (q, kinds) = cli_search_plan(&text, &filter);
    assert_eq!((q.as_str(), kinds.len()), ("rust", 0));
    let (_, filter) = parse_query("rust");
    let (_, kinds) = cli_search_plan("rust", &filter);
    assert_eq!(kinds.len(), 6);
    assert_eq!(kinds[5], EntityKind::Link);

    let cat = catalog();
    let d1 = cat.decisions[0].base.id;
    let d2 = cat.decisions[1].base.id;
    let n1 = cat.notes[0].base.id;

    let (_, by_status) = parse_query("x status:proposed");
    assert!(cli_hit_passes(&cat, &decision_hit(d1, "proposed"), &by_status));
    assert!(!cli_hit_passes(&cat, &decision_hit(d1, "accepted"), &by_status));
    assert!(!cli_hit_passes(&cat, &note_hit(n1), &by_status));

    let (_, by_tag) = parse_query("x tag:LANG");
    assert!(cli_hit_passes(&cat, &decision_hit(d1, "proposed"), &by_tag));
    assert!(!cli_hit_passes(&cat, &decision_hit(d2, "proposed"), &by_tag));
    // A hit whose entity is not in the catalog passes no tag filter.
    assert!(!cli_hit_passes(&cat, &decision_hit(12345, "proposed"), &by_tag));
    // Without tag or date filters the hit itself decides.
    let (_, none) = parse_query("x");
    assert!(cli_hit_passes(&cat, &decision_hit(12345, "proposed"), &none));

    let hits = vec![decision_hit(d2, "proposed"), decision_hit(d1, "proposed"), note_hit(n1)];
    let results = cli_search_results(&cat, hits, &by_tag);
    assert_eq!(results.len(), 1);
    assert_eq!(results[0].entity_id(), &uuid_string(d1));

    let many: Vec<SearchResult> = (0..60).map(|_| decision_hit(d1, "proposed")).collect();
    assert_eq!(cli_search_results(&cat, many, &none).len(), 50);
}

#[test]
fn sequence_numbers_count_up_and_are_not_reused() {
    assert_eq!(sequence_after(0), Some(1));
    assert_eq!(sequence_after(41), Some(42));
    assert_eq!(sequence_after(4294967294), Some(4294967295));
    assert_eq!(sequence_after(4294967295), None);
    assert_eq!(sequence_after(-2), None);
    assert_eq!(recorded_after(0, 1), 1);
    assert_eq!(recorded_after(7, 3), 7);
    let next = sequence_after(recorded_after(5, 9)).unwrap();
    assert_eq!(next, 10);
}

#[test]
fn batch_report_keeps_order_and_counts() {
    let r = batch_report(vec![
        (BatchKind::Update, Err(McpError::EntityNotFound { id: "7".to_string() })),
        (BatchKind::Create, Ok("a1".to_string())),
        (BatchKind::Create, Err(McpError::TitleRequired)),
        (BatchKind::Delete, Ok("5".to_string())),
    ]);
    assert_eq!((r.succeeded, r.failed, r.results.len()), (2, 2, 4));
    let idx: Vec<usize> = r.results.iter().map(|x| x.index).collect();
    assert_eq!(idx, vec![0, 1, 2, 3]);
    assert_eq!(r.results[0].error.as_ref().unwrap().code, "UPDATE_FAILED");
    assert_eq!(r.results[2].error.as_ref().unwrap().code, "CREATE_FAILED");
    assert_eq!(r.results[1].id.as_deref(), Some("a1"));
    assert!(r.results[3].success && r.results[3].error.is_none());
    let empty = batch_report(Vec::new());
    assert_eq!((empty.succeeded, empty.failed, empty.results.len()), (0, 0, 0));
}
