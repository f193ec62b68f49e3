use medulla::clock::{uuid_string, CalendarDate};
use medulla::entity::{Decision, DecisionStatus, Task, TaskStatus};
use medulla::error::McpError;
use medulla::lookup::{Catalog, EntityKind};
use medulla::resources::{
    active_decisions, build_resource_templates, build_static_resources, listed_tasks, resource_entity,
    route_resource, ResourceRoute, RESOURCE_MIME_TYPE,
};

#[test]
fn routes_of_fixed_paths() {
    assert!(matches!(route_resource("medulla://schema"), Ok(ResourceRoute::Schema)));
    assert!(matches!(route_resource("medulla://stats"), Ok(ResourceRoute::Stats)));
    assert!(matches!(route_resource("medulla://decisions/active"), Ok(ResourceRoute::Decisions { active: true })));
    assert!(matches!(route_resource("medulla://tasks"), Ok(ResourceRoute::Tasks { active: false })));
    assert!(matches!(route_resource("medulla://tasks/ready"), Ok(ResourceRoute::TasksReady)));
    assert!(matches!(route_resource("medulla://graph"), Ok(ResourceRoute::Graph)));
}

#[test]
fn routes_with_parameters() {
    assert!(matches!(route_resource("medulla://entities/decision"), Ok(ResourceRoute::EntitiesByType(EntityKind::Decision))));
    assert!(matches!(route_resource("medulla://entity/12"), Ok(ResourceRoute::Entity(id)) if id == "12"));
    match route_resource("medulla://tasks/due/2025-02-01") {
        Ok(ResourceRoute::TasksDue(d)) => assert_eq!(d, CalendarDate { year: 2025, month: 2, day: 1 }),
        other => panic!("unexpected {:?}", other),
    }
}

#[test]
fn invalid_and_unknown_uris() {
    assert!(matches!(route_resource("http://schema"), Err(McpError::InvalidResourceUri { uri }) if uri == "http://schema"));
    assert!(matches!(route_resource("medulla://nonexistent"), Err(McpError::ResourceNotFound { .. })));
    assert!(matches!(route_resource("medulla://entities/invalid_type"), Err(McpError::InvalidResourceUri { .. })));
    assert!(matches!(route_resource("medulla://tasks/due/soon"), Err(McpError::InvalidResourceUri { .. })));
}

#[test]
fn entity_resource_and_filters() {
    let mut d1 = Decision::new("A".to_string(), 1);
    d1.status = DecisionStatus::Superseded;
    let d2 = Decision::new("B".to_string(), 2);
    let mut d3 = Decision::new("C".to_string(), 3);
    d3.status = DecisionStatus::Deprecated;
    let mut t1 = Task::new("T1".to_string(), 1);
    t1.status = TaskStatus::Done;
    t1.due_date = Some(CalendarDate { year: 2025, month: 2, day: 1 });
    let t2 = Task::new("T2".to_string(), 2);
    assert_eq!(active_decisions(&vec![d1.clone(), d2.clone(), d3.clone()]), vec![1]);
    assert_eq!(listed_tasks(&vec![t1.clone(), t2.clone()], None), vec![1]);
    assert_eq!(listed_tasks(&vec![t1.clone(), t2.clone()], Some(CalendarDate { year: 2025, month: 2, day: 1 })), vec![0]);
    let cat = Catalog {
        decisions: vec![d1, d2],
        tasks: vec![t1, t2],
        notes: vec![],
        prompts: vec![],
        components: vec![],
        links: vec![],
        relations: vec![],
    };
    assert_eq!(resource_entity(&cat, "medulla://entity/2", "2").unwrap(), (EntityKind::Decision, 1));
    let prefix = uuid_string(cat.tasks[1].base.id)[..9].to_uppercase();
    assert_eq!(resource_entity(&cat, "u", &prefix).unwrap(), (EntityKind::Task, 1));
    assert!(matches!(resource_entity(&cat, "medulla://entity/999", "999"), Err(McpError::ResourceNotFound { uri }) if uri == "medulla://entity/999"));
}

#[test]
fn resources_test_build_static_resources() {
    let resources = build_static_resources();
    assert_eq!(resources.len(), 9);
    assert!(resources.iter().any(|r| r.uri == "medulla://schema"));
    assert!(resources.iter().any(|r| r.uri == "medulla://stats"));
    assert!(resources.iter().any(|r| r.uri == "medulla://entities"));
    assert!(resources.iter().any(|r| r.uri == "medulla://decisions"));
    assert!(resources.iter().any(|r| r.uri == "medulla://tasks"));
    assert!(resources.iter().any(|r| r.uri == "medulla://tasks/ready"));
    assert!(resources.iter().any(|r| r.uri == "medulla://tasks/blocked"));
    assert!(resources.iter().any(|r| r.uri == "medulla://prompts"));
    assert!(resources.iter().any(|r| r.uri == "medulla://graph"));
    assert!(resources.iter().all(|r| r.mime_type.as_deref() == Some(RESOURCE_MIME_TYPE)));
}

#[test]
fn resources_test_build_resource_templates() {
    let templates = build_resource_templates();
    assert_eq!(templates.len(), 5);
    assert!(templates.iter().any(|t| t.uri == "medulla://entities/{type}"));
    assert!(templates.iter().any(|t| t.uri == "medulla://entity/{id}"));
    assert!(templates.iter().any(|t| t.uri == "medulla://decisions/active"));
    assert!(templates.iter().any(|t| t.uri == "medulla://tasks/active"));
    assert!(templates.iter().any(|t| t.uri == "medulla://tasks/due/{date}"));
    assert!(templates.iter().all(|t| t.mime_type.as_deref() == Some("application/json")));
}

#[test]
fn mod_test_build_static_resources() {
    let resources = build_static_resources();
    assert_eq!(resources.len(), 9);
    assert!(resources.iter().any(|r| r.uri == "medulla://schema"));
    assert!(resources.iter().any(|r| r.uri == "medulla://stats"));
    assert!(resources.iter().any(|r| r.uri == "medulla://entities"));
    assert!(resources.iter().any(|r| r.uri == "medulla://tasks/ready"));
    assert!(resources.iter().any(|r| r.uri == "medulla://graph"));
}

#[test]
fn mod_test_build_resource_templates() {
    let templates = build_resource_templates();
    assert_eq!(templates.len(), 5);
    assert!(templates.iter().any(|t| t.uri == "medulla://entities/{type}"));
    assert!(templates.iter().any(|t| t.uri == "medulla://entity/{id}"));
    assert!(templates.iter().any(|t| t.uri == "medulla://tasks/due/{date}"));
}

#[test]
fn listed_resources_carry_names_and_descriptions() {
    let resources = build_static_resources();
    assert_eq!((resources[0].name.as_str(), resources[0].title.as_str()), ("Schema", "Entity Type Definitions"));
    assert_eq!(resources[8].description, "All entities and relations");
    let templates = build_resource_templates();
    assert_eq!(templates[4].title, "Tasks Due on Date");
}
