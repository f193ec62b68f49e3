//! The `medulla://` resources: which one a URI names, the entity one names,
//! and the filters the lists apply.
use vstd::prelude::*;
use vstd::string::StringExecFns;
use crate::clock::{parse_ymd, ymd_parse, CalendarDate};
use crate::entity::{Decision, DecisionStatus, Task, TaskStatus};
use crate::error::McpError;
use crate::lookup::{resolve_entity_id, resolves_to, unresolved, Catalog, EntityKind};
use crate::text::{is_prefix, str_eq, strip_prefix};

verus! {

/// The resource a `medulla://` URI names.
#[derive(Debug)]
pub enum ResourceRoute {
    Schema,
    Stats,
    Entities,
    /// The decisions; only those neither superseded nor deprecated when `active`.
    Decisions { active: bool },
    /// The tasks; only those not done when `active`.
    Tasks { active: bool },
    TasksReady,
    TasksBlocked,
    Prompts,
    Graph,
    EntitiesByType(EntityKind),
    /// The entity an identifier names.
    Entity(String),
    /// The tasks due on a date.
    TasksDue(CalendarDate),
}

/// The resources that a fixed path names.
pub open spec fn fixed_route(path: Seq<char>) -> Option<ResourceRoute> {
    if path == "schema"@ {
        Some(ResourceRoute::Schema)
    } else if path == "stats"@ {
        Some(ResourceRoute::Stats)
    } else if path == "entities"@ {
        Some(ResourceRoute::Entities)
    } else if path == "decisions"@ {
        Some(ResourceRoute::Decisions { active: false })
    } else if path == "decisions/active"@ {
        Some(ResourceRoute::Decisions { active: true })
    } else if path == "tasks"@ {
        Some(ResourceRoute::Tasks { active: false })
    } else if path == "tasks/active"@ {
        Some(ResourceRoute::Tasks { active: true })
    } else if path == "tasks/ready"@ {
        Some(ResourceRoute::TasksReady)
    } else if path == "tasks/blocked"@ {
        Some(ResourceRoute::TasksBlocked)
    } else if path == "prompts"@ {
        Some(ResourceRoute::Prompts)
    } else if path == "graph"@ {
        Some(ResourceRoute::Graph)
    } else {
        None
    }
}

/// `e` says that the URI `uri` is malformed.
pub open spec fn invalid_uri(e: McpError, uri: Seq<char>) -> bool {
    e matches McpError::InvalidResourceUri { uri: u } && u@ == uri
}

fn fixed_route_of(path: &str) -> (r: Option<ResourceRoute>)
    ensures
        r == fixed_route(path@),
{
    proof {
        reveal_strlit("schema");
        reveal_strlit("stats");
        reveal_strlit("entities");
        reveal_strlit("decisions");
        reveal_strlit("decisions/active");
        reveal_strlit("tasks");
        reveal_strlit("tasks/active");
        reveal_strlit("tasks/ready");
        reveal_strlit("tasks/blocked");
        reveal_strlit("prompts");
        reveal_strlit("graph");
    }
    if str_eq(path, "schema") {
        Some(ResourceRoute::Schema)
    } else if str_eq(path, "stats") {
        Some(ResourceRoute::Stats)
    } else if str_eq(path, "entities") {
        Some(ResourceRoute::Entities)
    } else if str_eq(path, "decisions") {
        Some(ResourceRoute::Decisions { active: false })
    } else if str_eq(path, "decisions/active") {
        Some(ResourceRoute::Decisions { active: true })
    } else if str_eq(path, "tasks") {
        Some(ResourceRoute::Tasks { active: false })
    } else if str_eq(path, "tasks/active") {
        Some(ResourceRoute::Tasks { active: true })
    } else if str_eq(path, "tasks/ready") {
        Some(ResourceRoute::TasksReady)
    } else if str_eq(path, "tasks/blocked") {
        Some(ResourceRoute::TasksBlocked)
    } else if str_eq(path, "prompts") {
        Some(ResourceRoute::Prompts)
    } else if str_eq(path, "graph") {
        Some(ResourceRoute::Graph)
    } else {
        None
    }
}

/// Which resource a URI names. It must start with `medulla://`; the rest is a
/// fixed path, or `entities/{type}` with a known type, `entity/{id}`, or
/// `tasks/due/{YYYY-MM-DD}`. A malformed URI is `InvalidResourceUri`; a
/// well-formed one that names nothing is `ResourceNotFound`.
pub fn route_resource(uri: &str) -> (r: Result<ResourceRoute, McpError>)
    ensures
        !is_prefix("medulla://"@, uri@) ==> (r matches Err(e) && invalid_uri(e, uri@)),
        is_prefix("medulla://"@, uri@) ==> {
            let path = uri@.skip(10);
            match fixed_route(path) {
                Some(x) => r == Ok::<ResourceRoute, McpError>(x),
                None => if is_prefix("entities/"@, path) {
                    match EntityKind::from_name(path.skip(9)) {
                        Some(k) => r == Ok::<ResourceRoute, McpError>(ResourceRoute::EntitiesByType(k)),
                        None => r matches Err(e) && invalid_uri(e, uri@),
                    }
                } else if is_prefix("entity/"@, path) {
                    r matches Ok(ResourceRoute::Entity(id)) && id@ == path.skip(7)
                } else if is_prefix("tasks/due/"@, path) {
                    match ymd_parse(path.skip(10)) {
                        Some((y, m, d)) => r == Ok::<ResourceRoute, McpError>(
                            ResourceRoute::TasksDue(CalendarDate { year: y, month: m, day: d }),
                        ),
                        None => r matches Err(e) && invalid_uri(e, uri@),
                    }
                } else {
                    r matches Err(McpError::ResourceNotFound { uri: u }) && u@ == uri@
                }
            }
        },
{
    proof {
        reveal_strlit("medulla://");
        reveal_strlit("entities/");
        reveal_strlit("entity/");
        reveal_strlit("tasks/due/");
    }
    let path = match strip_prefix(uri, "medulla://") {
        Some(p) => p,
        None => {
            return Err(McpError::InvalidResourceUri { uri: String::from_str(uri) });
        },
    };
    assert(path@ =~= uri@.skip(10));
    if let Some(x) = fixed_route_of(path.as_str()) {
        return Ok(x);
    }
    if let Some(t) = strip_prefix(path.as_str(), "entities/") {
        assert(t@ =~= path@.skip(9));
        return match EntityKind::from_str_name(t.as_str()) {
            Some(k) => Ok(ResourceRoute::EntitiesByType(k)),
            None => Err(McpError::InvalidResourceUri { uri: String::from_str(uri) }),
        };
    }
    if let Some(id) = strip_prefix(path.as_str(), "entity/") {
        assert(id@ =~= path@.skip(7));
        return Ok(ResourceRoute::Entity(id));
    }
    if let Some(d) = strip_prefix(path.as_str(), "tasks/due/") {
        assert(d@ =~= path@.skip(10));
        return match parse_ymd(d.as_str()) {
            Some(date) => Ok(ResourceRoute::TasksDue(date)),
            None => Err(McpError::InvalidResourceUri { uri: String::from_str(uri) }),
        };
    }
    Err(McpError::ResourceNotFound { uri: String::from_str(uri) })
}

/// The entity that the identifier of an `entity/{id}` resource names, over all
/// kinds in order; `ResourceNotFound` for the URI when none answers.
pub fn resource_entity(cat: &Catalog, uri: &str, id: &str) -> (r: Result<(EntityKind, usize), McpError>)
    ensures
        match r {
            Ok((k, i)) => resolves_to(cat, id@, k, i as int),
            Err(e) => unresolved(cat, id@) && (e matches McpError::ResourceNotFound { uri: u } && u@ == uri@),
        },
{
    match resolve_entity_id(cat, id) {
        Ok(x) => Ok(x),
        Err(_) => Err(McpError::ResourceNotFound { uri: String::from_str(uri) }),
    }
}

/// A decision is active when it is neither superseded nor deprecated.
pub open spec fn decision_active(d: Decision) -> bool {
    d.status != DecisionStatus::Superseded && d.status != DecisionStatus::Deprecated
}

/// The positions, among the first `n` decisions, of the active ones.
pub open spec fn active_decision_positions(ds: Seq<Decision>, n: int) -> Seq<usize>
    decreases n,
{
    if n <= 0 || n > ds.len() {
        Seq::empty()
    } else {
        active_decision_positions(ds, n - 1) + (if decision_active(ds[n - 1]) {
            seq![(n - 1) as usize]
        } else {
            Seq::empty()
        })
    }
}

/// The positions of the active decisions, in order.
pub fn active_decisions(ds: &Vec<Decision>) -> (r: Vec<usize>)
    ensures
        r@ == active_decision_positions(ds@, ds@.len() as int),
{
    let mut r: Vec<usize> = Vec::new();
    let mut i: usize = 0;
    while i < ds.len()
        invariant
            i <= ds@.len(),
            r@ == active_decision_positions(ds@, i as int),
        decreases ds.len() - i,
    {
        let s = ds[i].status;
        if s != DecisionStatus::Superseded && s != DecisionStatus::Deprecated {
            r.push(i);
        }
        i = i + 1;
        assert(r@ =~= active_decision_positions(ds@, i as int));
    }
    r
}

/// A task is listed among the active ones when it is not done; among those due
/// on a date when its due date is that date.
pub open spec fn task_listed(t: Task, due: Option<CalendarDate>) -> bool {
    match due {
        Some(d) => t.due_date == Some(d),
        None => t.status != TaskStatus::Done,
    }
}

/// The positions, among the first `n` tasks, of those listed (see `task_listed`).
pub open spec fn task_positions(ts: Seq<Task>, due: Option<CalendarDate>, n: int) -> Seq<usize>
    decreases n,
{
    if n <= 0 || n > ts.len() {
        Seq::empty()
    } else {
        task_positions(ts, due, n - 1) + (if task_listed(ts[n - 1], due) {
            seq![(n - 1) as usize]
        } else {
            Seq::empty()
        })
    }
}

/// The positions of the tasks not done (`due` none) or due on a date, in order.
pub fn listed_tasks(ts: &Vec<Task>, due: Option<CalendarDate>) -> (r: Vec<usize>)
    ensures
        r@ == task_positions(ts@, due, ts@.len() as int),
{
    let mut r: Vec<usize> = Vec::new();
    let mut i: usize = 0;
    while i < ts.len()
        invariant
            i <= ts@.len(),
            r@ == task_positions(ts@, due, i as int),
        decreases ts.len() - i,
    {
        let keep = match due {
            Some(d) => match ts[i].due_date {
                Some(x) => x == d,
                None => false,
            },
            None => ts[i].status != TaskStatus::Done,
        };
        if keep {
            r.push(i);
        }
        i = i + 1;
        assert(r@ =~= task_positions(ts@, due, i as int));
    }
    r
}

// ---------------------------------------------------------------------------
// The resources offered
// ---------------------------------------------------------------------------

/// The MIME type of every resource: each holds JSON.
pub const RESOURCE_MIME_TYPE: &'static str = "application/json";

/// A resource, or a template of resources, as the server lists it: its URI (or
/// URI template), name, title, description and MIME type.
#[derive(Debug)]
pub struct ResourceInfo {
    pub uri: String,
    pub name: String,
    pub title: String,
    pub description: String,
    pub mime_type: Option<String>,
}

/// Every listed resource declares the JSON MIME type.
pub open spec fn all_json(v: Seq<ResourceInfo>) -> bool {
    forall|i: int| 0 <= i < v.len() ==> ((#[trigger] v[i]).mime_type matches Some(m) && m@ == "application/json"@)
}

/// The four texts of a listed resource.
pub open spec fn info_views(v: Seq<ResourceInfo>) -> Seq<(Seq<char>, Seq<char>, Seq<char>, Seq<char>)> {
    v.map_values(|x: ResourceInfo| (x.uri@, x.name@, x.title@, x.description@))
}

/// The nine fixed resources, in the order they are listed.
pub open spec fn static_resource_list() -> Seq<(Seq<char>, Seq<char>, Seq<char>, Seq<char>)> {
    seq![
        ("medulla://schema"@, "Schema"@, "Entity Type Definitions"@, "JSON schema for all entity types"@),
        ("medulla://stats"@, "Stats"@, "Project Statistics"@, "Entity counts, last updated, etc."@),
        ("medulla://entities"@, "All Entities"@, "All Entities"@, "List all entities across all types"@),
        ("medulla://decisions"@, "Decisions"@, "All Decisions"@, "List all decisions"@),
        ("medulla://tasks"@, "Tasks"@, "All Tasks"@, "List all tasks"@),
        ("medulla://tasks/ready"@, "Ready Tasks"@, "Ready Tasks"@, "Tasks with no unresolved blockers"@),
        ("medulla://tasks/blocked"@, "Blocked Tasks"@, "Blocked Tasks"@, "Tasks with unresolved blockers"@),
        ("medulla://prompts"@, "Prompts"@, "All Prompts"@, "List all prompts"@),
        ("medulla://graph"@, "Knowledge Graph"@, "Full Knowledge Graph"@, "All entities and relations"@),
    ]
}

/// The five resource templates, in the order they are listed.
pub open spec fn resource_template_list() -> Seq<(Seq<char>, Seq<char>, Seq<char>, Seq<char>)> {
    seq![
        ("medulla://entities/{type}"@, "Entities by Type"@, "Entities by Type"@, "List entities filtered by type"@),
        ("medulla://entity/{id}"@, "Entity by ID"@, "Single Entity"@, "Get a single entity by ID"@),
        ("medulla://decisions/active"@, "Active Decisions"@, "Active Decisions"@, "Non-superseded decisions"@),
        ("medulla://tasks/active"@, "Active Tasks"@, "Active Tasks"@, "Incomplete tasks (not done)"@),
        ("medulla://tasks/due/{date}"@, "Tasks Due"@, "Tasks Due on Date"@, "Tasks due on a specific date"@),
    ]
}

fn resource_info(uri: &str, name: &str, title: &str, description: &str) -> (r: ResourceInfo)
    ensures
        r.uri@ == uri@ && r.name@ == name@ && r.title@ == title@ && r.description@ == description@,
        r.mime_type matches Some(m) && m@ == "application/json"@,
{
    proof {
        reveal_strlit("application/json");
    }
    ResourceInfo {
        uri: String::from_str(uri),
        name: String::from_str(name),
        title: String::from_str(title),
        description: String::from_str(description),
        mime_type: Some(String::from_str(RESOURCE_MIME_TYPE)),
    }
}

/// The fixed resources the server lists (see `static_resource_list`).
pub fn build_static_resources() -> (r: Vec<ResourceInfo>)
    ensures
        info_views(r@) == static_resource_list(),
        all_json(r@),
{
    let mut out: Vec<ResourceInfo> = Vec::new();
    out.push(resource_info("medulla://schema", "Schema", "Entity Type Definitions", "JSON schema for all entity types"));
    out.push(resource_info("medulla://stats", "Stats", "Project Statistics", "Entity counts, last updated, etc."));
    out.push(resource_info("medulla://entities", "All Entities", "All Entities", "List all entities across all types"));
    out.push(resource_info("medulla://decisions", "Decisions", "All Decisions", "List all decisions"));
    out.push(resource_info("medulla://tasks", "Tasks", "All Tasks", "List all tasks"));
    out.push(resource_info("medulla://tasks/ready", "Ready Tasks", "Ready Tasks", "Tasks with no unresolved blockers"));
    out.push(resource_info("medulla://tasks/blocked", "Blocked Tasks", "Blocked Tasks", "Tasks with unresolved blockers"));
    out.push(resource_info("medulla://prompts", "Prompts", "All Prompts", "List all prompts"));
    out.push(resource_info("medulla://graph", "Knowledge Graph", "Full Knowledge Graph", "All entities and relations"));
    assert(info_views(out@) =~= static_resource_list());
    out
}

/// The resource templates the server lists (see `resource_template_list`).
pub fn build_resource_templates() -> (r: Vec<ResourceInfo>)
    ensures
        info_views(r@) == resource_template_list(),
        all_json(r@),
{
    let mut out: Vec<ResourceInfo> = Vec::new();
    out.push(resource_info("medulla://entities/{type}", "Entities by Type", "Entities by Type", "List entities filtered by type"));
    out.push(resource_info("medulla://entity/{id}", "Entity by ID", "Single Entity", "Get a single entity by ID"));
    out.push(resource_info("medulla://decisions/active", "Active Decisions", "Active Decisions", "Non-superseded decisions"));
    out.push(resource_info("medulla://tasks/active", "Active Tasks", "Active Tasks", "Incomplete tasks (not done)"));
    out.push(resource_info("medulla://tasks/due/{date}", "Tasks Due", "Tasks Due on Date", "Tasks due on a specific date"));
    assert(info_views(out@) =~= resource_template_list());
    out
}

} // verus!
