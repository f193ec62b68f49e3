//! The parameters of the tool requests, and the answers that are not entities.
use vstd::prelude::*;

verus! {

/// A request for one entity: an identifier, and optionally its type.
#[derive(Debug)]
pub struct EntityGetParams {
    /// Identifier: a sequence number or a UUID prefix.
    pub id: String,
    pub entity_type: Option<String>,
}

/// A request for a page of entities, filtered by type, status and tag.
#[derive(Debug)]
pub struct EntityListParams {
    pub entity_type: Option<String>,
    pub status: Option<String>,
    pub tag: Option<String>,
    pub limit: Option<u32>,
    pub offset: Option<u32>,
}

/// A request to delete the entity an identifier names.
#[derive(Debug)]
pub struct EntityDeleteParams {
    pub id: String,
}

/// A full-text search request.
#[derive(Debug)]
pub struct SearchFulltextParams {
    pub query: String,
    pub entity_type: Option<String>,
    pub limit: Option<u32>,
}

/// A request for the relations of an entity.
#[derive(Debug)]
pub struct GraphRelationsParams {
    pub id: String,
    /// `from`, `to` or `both` (the default).
    pub direction: Option<String>,
}

/// A request for a shortest path between two entities.
#[derive(Debug)]
pub struct GraphPathParams {
    pub from_id: String,
    pub to_id: String,
    pub max_depth: Option<u32>,
}

/// A request for the entities without relations.
#[derive(Debug)]
pub struct GraphOrphansParams {
    pub entity_type: Option<String>,
    pub limit: Option<u32>,
}

/// A request for the tasks ready to work on.
#[derive(Debug)]
pub struct TaskReadyParams {
    pub limit: Option<u32>,
}

/// A request for the blockers of one task, or for all blocked tasks.
#[derive(Debug)]
pub struct TaskBlockedParams {
    pub id: Option<String>,
    pub limit: Option<u32>,
}

/// A request to mark a task done.
#[derive(Debug)]
pub struct TaskCompleteParams {
    pub id: String,
}

/// A request to give a task a new due date (`YYYY-MM-DD`).
#[derive(Debug)]
pub struct TaskRescheduleParams {
    pub id: String,
    pub due_date: String,
}

/// A request to supersede a decision by another.
#[derive(Debug)]
pub struct DecisionSupersedeParams {
    pub old_id: String,
    pub new_id: String,
}

/// A request to create a relation.
#[derive(Debug)]
pub struct RelationCreateParams {
    pub source_id: String,
    pub target_id: String,
    pub relation_type: String,
}

/// A request to delete a relation.
#[derive(Debug)]
pub struct RelationDeleteParams {
    pub source_id: String,
    pub target_id: String,
    pub relation_type: String,
}

/// A relation as a tool answers it.
#[derive(Debug)]
pub struct RelationResponse {
    pub source_id: String,
    pub source_type: String,
    pub target_id: String,
    pub target_type: String,
    pub relation_type: String,
    pub created_at: String,
}

/// Why one operation of a batch failed.
#[derive(Debug)]
pub struct BatchError {
    pub code: String,
    pub message: String,
}

/// The outcome of one operation of a batch.
#[derive(Debug)]
pub struct BatchOperationResult {
    pub index: usize,
    pub success: bool,
    pub id: Option<String>,
    pub error: Option<BatchError>,
}

/// The outcomes of a batch and how many operations succeeded and failed.
#[derive(Debug)]
pub struct BatchResult {
    pub results: Vec<BatchOperationResult>,
    pub succeeded: usize,
    pub failed: usize,
}

} // verus!
