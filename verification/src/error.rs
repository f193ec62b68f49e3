//! Errors of the knowledge engine and of its MCP tools, with their JSON-RPC codes
//! and messages.
use vstd::prelude::*;
use vstd::string::StringExecFns;
use crate::text::{decimal, decimal_string, join, join_seq, push_str, views};

verus! {

/// JSON-RPC error code: entity not found.
pub const ENTITY_NOT_FOUND: i32 = -32001;
/// JSON-RPC error code: invalid entity type.
pub const ENTITY_TYPE_INVALID: i32 = -32002;
/// JSON-RPC error code: validation failed.
pub const VALIDATION_FAILED: i32 = -32003;
/// JSON-RPC error code: relation target not found.
pub const RELATION_TARGET_NOT_FOUND: i32 = -32004;
/// JSON-RPC error code: resource not found.
pub const RESOURCE_NOT_FOUND: i32 = -32005;
/// JSON-RPC error code: invalid resource URI.
pub const INVALID_RESOURCE_URI: i32 = -32006;
/// JSON-RPC error code: storage error.
pub const STORAGE_ERROR: i32 = -32010;
/// JSON-RPC error code: internal error.
pub const INTERNAL_ERROR: i32 = -32011;

/// Maximum title length, in characters once trimmed.
pub const MAX_TITLE_LENGTH: usize = 500;
/// Maximum content size, in bytes.
pub const MAX_CONTENT_SIZE: usize = 102_400;
/// Maximum tag length, in bytes.
pub const MAX_TAG_LENGTH: usize = 100;
/// Maximum number of tags.
pub const MAX_TAGS_COUNT: usize = 50;
/// Maximum decision context size, in bytes.
pub const MAX_CONTEXT_SIZE: usize = 51_200;
/// Maximum consequence size, in bytes.
pub const MAX_CONSEQUENCE_SIZE: usize = 1024;
/// Maximum prompt template size, in bytes.
pub const MAX_TEMPLATE_SIZE: usize = 51_200;
/// Maximum output schema size, in bytes.
pub const MAX_OUTPUT_SCHEMA_SIZE: usize = 10_240;
/// Maximum URL size, in bytes.
pub const MAX_URL_SIZE: usize = 2048;
/// Minimum length of a UUID prefix used as an identifier.
pub const MIN_ID_PREFIX_LENGTH: usize = 4;
/// Default number of results of a listing.
pub const DEFAULT_LIMIT: usize = 50;
/// Largest number of results of a listing.
pub const MAX_LIMIT: usize = 100;
/// Default depth of a graph traversal.
pub const DEFAULT_MAX_DEPTH: usize = 10;
/// Largest number of operations in a batch.
pub const MAX_BATCH_SIZE: usize = 100;

/// Errors of the knowledge engine. Errors that come from the file system, JSON,
/// or the CRDT store carry the text of the underlying error.
#[derive(Debug, Clone)]
pub enum MedullaError {
    NotInitialized,
    AlreadyInitialized,
    EntityNotFound(String),
    InvalidEntityType(String),
    Storage(String),
    Io(String),
    Json(String),
    Loro(String),
    LoroEncode(String),
    Embedding(String),
}

impl MedullaError {
    /// The display text of the error.
    pub open spec fn message_text(self) -> Seq<char> {
        match self {
            MedullaError::NotInitialized => "Not in a medulla project. Run 'medulla init' first."@,
            MedullaError::AlreadyInitialized => "Already initialized. Remove .medulla/ to reinitialize."@,
            MedullaError::EntityNotFound(s) => "Entity not found: "@ + s@,
            MedullaError::InvalidEntityType(s) => "Invalid entity type: "@ + s@,
            MedullaError::Storage(s) => "Storage error: "@ + s@,
            MedullaError::Io(s) => "IO error: "@ + s@,
            MedullaError::Json(s) => "JSON error: "@ + s@,
            MedullaError::Loro(s) => "Loro error: "@ + s@,
            MedullaError::LoroEncode(s) => "Loro encode error: "@ + s@,
            MedullaError::Embedding(s) => "Embedding error: "@ + s@,
        }
    }

    /// The display text of the error.
    pub fn message(&self) -> (r: String)
        ensures
            r@ == self.message_text(),
    {
        let mut r = String::new();
        match self {
            MedullaError::NotInitialized => {
                push_str(&mut r, "Not in a medulla project. Run 'medulla init' first.");
            },
            MedullaError::AlreadyInitialized => {
                push_str(&mut r, "Already initialized. Remove .medulla/ to reinitialize.");
            },
            MedullaError::EntityNotFound(s) => {
                push_str(&mut r, "Entity not found: ");
                push_str(&mut r, s.as_str());
            },
            MedullaError::InvalidEntityType(s) => {
                push_str(&mut r, "Invalid entity type: ");
                push_str(&mut r, s.as_str());
            },
            MedullaError::Storage(s) => {
                push_str(&mut r, "Storage error: ");
                push_str(&mut r, s.as_str());
            },
            MedullaError::Io(s) => {
                push_str(&mut r, "IO error: ");
                push_str(&mut r, s.as_str());
            },
            MedullaError::Json(s) => {
                push_str(&mut r, "JSON error: ");
                push_str(&mut r, s.as_str());
            },
            MedullaError::Loro(s) => {
                push_str(&mut r, "Loro error: ");
                push_str(&mut r, s.as_str());
            },
            MedullaError::LoroEncode(s) => {
                push_str(&mut r, "Loro encode error: ");
                push_str(&mut r, s.as_str());
            },
            MedullaError::Embedding(s) => {
                push_str(&mut r, "Embedding error: ");
                push_str(&mut r, s.as_str());
            },
        }
        assert(r@ =~= self.message_text());
        r
    }
}

/// Errors of the MCP tools, with detailed context.
#[derive(Debug, Clone)]
pub enum McpError {
    EntityNotFound { id: String },
    EntityTypeInvalid { provided: String, valid: Vec<String> },
    ValidationFailed { field: String, message: String },
    TitleRequired,
    TitleTooLong { max: usize, actual: usize },
    ContentTooLarge { max: usize, actual: usize },
    InvalidEnumValue { field: String, value: String, valid: Vec<String> },
    InvalidDateFormat { field: String, value: String },
    InvalidUrl { value: String },
    RelationTargetNotFound { target_id: String },
    SelfReferentialRelation { id: String },
    PathNotFound { from: String, to: String },
    MaxDepthExceeded { max: usize },
    ResourceNotFound { uri: String },
    InvalidResourceUri { uri: String },
    StorageError { message: String },
    InternalError { message: String },
}

/// The six entity type names, in their canonical order.
pub open spec fn entity_type_names() -> Seq<Seq<char>> {
    seq!["decision"@, "task"@, "note"@, "prompt"@, "component"@, "link"@]
}

/// The six entity type names, in their canonical order.
pub fn entity_type_list() -> (r: Vec<String>)
    ensures
        views(r@) == entity_type_names(),
{
    let mut r: Vec<String> = Vec::new();
    r.push(String::from_str("decision"));
    r.push(String::from_str("task"));
    r.push(String::from_str("note"));
    r.push(String::from_str("prompt"));
    r.push(String::from_str("component"));
    r.push(String::from_str("link"));
    assert(views(r@) =~= entity_type_names());
    r
}

impl McpError {
    /// The JSON-RPC error code of each kind of error.
    pub open spec fn code_of(self) -> i32 {
        match self {
            McpError::EntityNotFound { .. } => ENTITY_NOT_FOUND,
            McpError::EntityTypeInvalid { .. } => ENTITY_TYPE_INVALID,
            McpError::ValidationFailed { .. }
            | McpError::TitleRequired
            | McpError::TitleTooLong { .. }
            | McpError::ContentTooLarge { .. }
            | McpError::InvalidEnumValue { .. }
            | McpError::InvalidDateFormat { .. }
            | McpError::InvalidUrl { .. } => VALIDATION_FAILED,
            McpError::RelationTargetNotFound { .. }
            | McpError::SelfReferentialRelation { .. } => RELATION_TARGET_NOT_FOUND,
            McpError::PathNotFound { .. } | McpError::MaxDepthExceeded { .. } => ENTITY_NOT_FOUND,
            McpError::ResourceNotFound { .. } => RESOURCE_NOT_FOUND,
            McpError::InvalidResourceUri { .. } => INVALID_RESOURCE_URI,
            McpError::StorageError { .. } => STORAGE_ERROR,
            McpError::InternalError { .. } => INTERNAL_ERROR,
        }
    }

    /// The name of each kind of error, as it appears in the error payload.
    pub open spec fn kind_name(self) -> Seq<char> {
        match self {
            McpError::EntityNotFound { .. } => "EntityNotFound"@,
            McpError::EntityTypeInvalid { .. } => "EntityTypeInvalid"@,
            McpError::ValidationFailed { .. } => "ValidationFailed"@,
            McpError::TitleRequired => "TitleRequired"@,
            McpError::TitleTooLong { .. } => "TitleTooLong"@,
            McpError::ContentTooLarge { .. } => "ContentTooLarge"@,
            McpError::InvalidEnumValue { .. } => "InvalidEnumValue"@,
            McpError::InvalidDateFormat { .. } => "InvalidDateFormat"@,
            McpError::InvalidUrl { .. } => "InvalidUrl"@,
            McpError::RelationTargetNotFound { .. } => "RelationTargetNotFound"@,
            McpError::SelfReferentialRelation { .. } => "SelfReferentialRelation"@,
            McpError::PathNotFound { .. } => "PathNotFound"@,
            McpError::MaxDepthExceeded { .. } => "MaxDepthExceeded"@,
            McpError::ResourceNotFound { .. } => "ResourceNotFound"@,
            McpError::InvalidResourceUri { .. } => "InvalidResourceUri"@,
            McpError::StorageError { .. } => "StorageError"@,
            McpError::InternalError { .. } => "InternalError"@,
        }
    }

    /// The display text of each kind of error.
    pub open spec fn message_text(self) -> Seq<char> {
        match self {
            McpError::EntityNotFound { id } => "Entity not found: "@ + id@,
            McpError::EntityTypeInvalid { provided, valid } => "Invalid entity type '"@ + provided@
                + "'. Valid types: "@ + join_seq(views(valid@), ", "@),
            McpError::ValidationFailed { field, message } => "Validation failed for field '"@
                + field@ + "': "@ + message@,
            McpError::TitleRequired => "Title is required"@,
            McpError::TitleTooLong { max, actual } => "Title too long: "@ + decimal(actual as nat)
                + " characters (max "@ + decimal(max as nat) + ")"@,
            McpError::ContentTooLarge { max, actual } => "Content too large: "@ + decimal(
                actual as nat,
            ) + " bytes (max "@ + decimal(max as nat) + ")"@,
            McpError::InvalidEnumValue { field, value, valid } => "Invalid value '"@ + value@
                + "' for field '"@ + field@ + "'. Valid values: "@ + join_seq(views(valid@), ", "@),
            McpError::InvalidDateFormat { field, value } => "Invalid date format for field '"@
                + field@ + "': '"@ + value@ + "'. Expected ISO 8601 (YYYY-MM-DD)"@,
            McpError::InvalidUrl { value } => "Invalid URL: "@ + value@,
            McpError::RelationTargetNotFound { target_id } => "Relation target not found: "@
                + target_id@,
            McpError::SelfReferentialRelation { id } =>
                "Self-referential relation not allowed for entity: "@ + id@,
            McpError::PathNotFound { from, to } => "No path found from '"@ + from@ + "' to '"@
                + to@ + "'"@,
            McpError::MaxDepthExceeded { max } => "Maximum depth "@ + decimal(max as nat)
                + " exceeded"@,
            McpError::ResourceNotFound { uri } => "Resource not found: "@ + uri@,
            McpError::InvalidResourceUri { uri } => "Invalid resource URI: "@ + uri@,
            McpError::StorageError { message } => "Storage error: "@ + message@,
            McpError::InternalError { message } => "Internal error: "@ + message@,
        }
    }

    /// The JSON-RPC error code of this error.
    pub fn error_code(&self) -> (r: i32)
        ensures
            r == self.code_of(),
    {
        match self {
            McpError::EntityNotFound { .. } => ENTITY_NOT_FOUND,
            McpError::EntityTypeInvalid { .. } => ENTITY_TYPE_INVALID,
            McpError::ValidationFailed { .. }
            | McpError::TitleRequired
            | McpError::TitleTooLong { .. }
            | McpError::ContentTooLarge { .. }
            | McpError::InvalidEnumValue { .. }
            | McpError::InvalidDateFormat { .. }
            | McpError::InvalidUrl { .. } => VALIDATION_FAILED,
            McpError::RelationTargetNotFound { .. }
            | McpError::SelfReferentialRelation { .. } => RELATION_TARGET_NOT_FOUND,
            McpError::PathNotFound { .. } | McpError::MaxDepthExceeded { .. } => ENTITY_NOT_FOUND,
            McpError::ResourceNotFound { .. } => RESOURCE_NOT_FOUND,
            McpError::InvalidResourceUri { .. } => INVALID_RESOURCE_URI,
            McpError::StorageError { .. } => STORAGE_ERROR,
            McpError::InternalError { .. } => INTERNAL_ERROR,
        }
    }

    /// The name of this kind of error, for the error payload.
    pub fn error_type(&self) -> (r: &'static str)
        ensures
            r@ == self.kind_name(),
    {
        match self {
            McpError::EntityNotFound { .. } => "EntityNotFound",
            McpError::EntityTypeInvalid { .. } => "EntityTypeInvalid",
            McpError::ValidationFailed { .. } => "ValidationFailed",
            McpError::TitleRequired => "TitleRequired",
            McpError::TitleTooLong { .. } => "TitleTooLong",
            McpError::ContentTooLarge { .. } => "ContentTooLarge",
            McpError::InvalidEnumValue { .. } => "InvalidEnumValue",
            McpError::InvalidDateFormat { .. } => "InvalidDateFormat",
            McpError::InvalidUrl { .. } => "InvalidUrl",
            McpError::RelationTargetNotFound { .. } => "RelationTargetNotFound",
            McpError::SelfReferentialRelation { .. } => "SelfReferentialRelation",
            McpError::PathNotFound { .. } => "PathNotFound",
            McpError::MaxDepthExceeded { .. } => "MaxDepthExceeded",
            McpError::ResourceNotFound { .. } => "ResourceNotFound",
            McpError::InvalidResourceUri { .. } => "InvalidResourceUri",
            McpError::StorageError { .. } => "StorageError",
            McpError::InternalError { .. } => "InternalError",
        }
    }

    /// The display text of this error.
    pub fn message(&self) -> (r: String)
        ensures
            r@ == self.message_text(),
    {
        let mut r = String::new();
        match self {
            McpError::EntityNotFound { id } => {
                push_str(&mut r, "Entity not found: ");
                push_str(&mut r, id.as_str());
            },
            McpError::EntityTypeInvalid { provided, valid } => {
                push_str(&mut r, "Invalid entity type '");
                push_str(&mut r, provided.as_str());
                push_str(&mut r, "'. Valid types: ");
                let j = join(valid, ", ");
                push_str(&mut r, j.as_str());
            },
            McpError::ValidationFailed { field, message } => {
                push_str(&mut r, "Validation failed for field '");
                push_str(&mut r, field.as_str());
                push_str(&mut r, "': ");
                push_str(&mut r, message.as_str());
            },
            McpError::TitleRequired => {
                push_str(&mut r, "Title is required");
            },
            McpError::TitleTooLong { max, actual } => {
                push_str(&mut r, "Title too long: ");
                let a = decimal_string(*actual as u64);
                push_str(&mut r, a.as_str());
                push_str(&mut r, " characters (max ");
                let m = decimal_string(*max as u64);
                push_str(&mut r, m.as_str());
                push_str(&mut r, ")");
            },
            McpError::ContentTooLarge { max, actual } => {
                push_str(&mut r, "Content too large: ");
                let a = decimal_string(*actual as u64);
                push_str(&mut r, a.as_str());
                push_str(&mut r, " bytes (max ");
                let m = decimal_string(*max as u64);
                push_str(&mut r, m.as_str());
                push_str(&mut r, ")");
            },
            McpError::InvalidEnumValue { field, value, valid } => {
                push_str(&mut r, "Invalid value '");
                push_str(&mut r, value.as_str());
                push_str(&mut r, "' for field '");
                push_str(&mut r, field.as_str());
                push_str(&mut r, "'. Valid values: ");
                let j = join(valid, ", ");
                push_str(&mut r, j.as_str());
            },
            McpError::InvalidDateFormat { field, value } => {
                push_str(&mut r, "Invalid date format for field '");
                push_str(&mut r, field.as_str());
                push_str(&mut r, "': '");
                push_str(&mut r, value.as_str());
                push_str(&mut r, "'. Expected ISO 8601 (YYYY-MM-DD)");
            },
            McpError::InvalidUrl { value } => {
                push_str(&mut r, "Invalid URL: ");
                push_str(&mut r, value.as_str());
            },
            McpError::RelationTargetNotFound { target_id } => {
                push_str(&mut r, "Relation target not found: ");
                push_str(&mut r, target_id.as_str());
            },
            McpError::SelfReferentialRelation { id } => {
                push_str(&mut r, "Self-referential relation not allowed for entity: ");
                push_str(&mut r, id.as_str());
            },
            McpError::PathNotFound { from, to } => {
                push_str(&mut r, "No path found from '");
                push_str(&mut r, from.as_str());
                push_str(&mut r, "' to '");
                push_str(&mut r, to.as_str());
                push_str(&mut r, "'");
            },
            McpError::MaxDepthExceeded { max } => {
                push_str(&mut r, "Maximum depth ");
                let m = decimal_string(*max as u64);
                push_str(&mut r, m.as_str());
                push_str(&mut r, " exceeded");
            },
            McpError::ResourceNotFound { uri } => {
                push_str(&mut r, "Resource not found: ");
                push_str(&mut r, uri.as_str());
            },
            McpError::InvalidResourceUri { uri } => {
                push_str(&mut r, "Invalid resource URI: ");
                push_str(&mut r, uri.as_str());
            },
            McpError::StorageError { message } => {
                push_str(&mut r, "Storage error: ");
                push_str(&mut r, message.as_str());
            },
            McpError::InternalError { message } => {
                push_str(&mut r, "Internal error: ");
                push_str(&mut r, message.as_str());
            },
        }
        assert(r@ =~= self.message_text());
        r
    }

    /// The tool error that answers an engine error.
    pub fn from_medulla(err: MedullaError) -> (r: McpError)
        ensures
            (match err {
                MedullaError::NotInitialized => r matches McpError::StorageError { message }
                    && message@ == "Not in a medulla project. Run 'medulla init' first."@,
                MedullaError::AlreadyInitialized => r matches McpError::StorageError { message }
                    && message@ == "Already initialized"@,
                MedullaError::EntityNotFound(id) => r matches McpError::EntityNotFound { id: i }
                    && i == id,
                MedullaError::InvalidEntityType(t) => r matches McpError::EntityTypeInvalid {
                    provided,
                    valid,
                } && provided == t && views(valid@) == entity_type_names(),
                MedullaError::Storage(m) => r matches McpError::StorageError { message }
                    && message == m,
                MedullaError::Io(m) => r matches McpError::StorageError { message } && message@
                    == "IO error: "@ + m@,
                MedullaError::Json(m) => r matches McpError::InternalError { message } && message@
                    == "JSON error: "@ + m@,
                MedullaError::Loro(m) => r matches McpError::StorageError { message } && message@
                    == "Loro error: "@ + m@,
                MedullaError::LoroEncode(m) => r matches McpError::StorageError { message }
                    && message@ == "Loro encode error: "@ + m@,
                MedullaError::Embedding(m) => r matches McpError::InternalError { message }
                    && message@ == "Embedding error: "@ + m@,
            }),
    {
        match err {
            MedullaError::NotInitialized => McpError::StorageError {
                message: String::from_str("Not in a medulla project. Run 'medulla init' first."),
            },
            MedullaError::AlreadyInitialized => McpError::StorageError {
                message: String::from_str("Already initialized"),
            },
            MedullaError::EntityNotFound(id) => McpError::EntityNotFound { id },
            MedullaError::InvalidEntityType(t) => McpError::EntityTypeInvalid {
                provided: t,
                valid: entity_type_list(),
            },
            MedullaError::Storage(m) => McpError::StorageError { message: m },
            MedullaError::Io(m) => McpError::StorageError { message: prefixed("IO error: ", m) },
            MedullaError::Json(m) => McpError::InternalError { message: prefixed("JSON error: ", m) },
            MedullaError::Loro(m) => McpError::StorageError { message: prefixed("Loro error: ", m) },
            MedullaError::LoroEncode(m) => McpError::StorageError {
                message: prefixed("Loro encode error: ", m),
            },
            MedullaError::Embedding(m) => McpError::InternalError {
                message: prefixed("Embedding error: ", m),
            },
        }
    }
}

fn prefixed(p: &str, m: String) -> (r: String)
    ensures
        r@ == p@ + m@,
{
    let mut r = String::new();
    push_str(&mut r, p);
    push_str(&mut r, m.as_str());
    assert(r@ =~= p@ + m@);
    r
}

} // verus!
