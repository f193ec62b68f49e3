//! Input validation and value parsing for the MCP tools.
use vstd::prelude::*;
use vstd::string::StringExecFns;
use vstd::utf8::encode_utf8;
use crate::text::{is_prefix, lowercase, starts_with, trim, trim_seq, views};
use crate::entity::{
    replace_char_seq, ComponentStatus, DecisionStatus, TaskPriority, TaskStatus,
};
use crate::error::{
    entity_type_list, entity_type_names, McpError, MAX_CONTENT_SIZE, MAX_TAGS_COUNT,
    MAX_TAG_LENGTH, MAX_TITLE_LENGTH, MAX_URL_SIZE,
};
use crate::clock::{parse_ymd, ymd_parse, CalendarDate};

verus! {

/// The length of the UTF-8 encoding of a text, in bytes.
pub open spec fn byte_len(s: Seq<char>) -> nat {
    encode_utf8(s).len()
}

/// `str::len`: the length in bytes of the UTF-8 encoding of the text, which for a
/// text held in memory fits in `usize`.
#[verifier::external_body]
pub(crate) fn str_byte_len(s: &str) -> (r: usize)
    ensures
        r == byte_len(s@),
{
    s.len()
}

/// Checks that a title is present after trimming and at most 500 characters
/// long; a title that is too long is reported with its number of characters.
pub fn validate_title(title: &str) -> (r: Result<(), McpError>)
    ensures
        trim_seq(title@).len() == 0 ==> r matches Err(McpError::TitleRequired),
        trim_seq(title@).len() > MAX_TITLE_LENGTH ==> (r matches Err(
            McpError::TitleTooLong { max, actual },
        ) && max == MAX_TITLE_LENGTH && actual == trim_seq(title@).len()),
        r is Ok <==> (trim_seq(title@).len() > 0 && trim_seq(title@).len() <= MAX_TITLE_LENGTH),
{
    let trimmed = trim(title);
    let n = trimmed.as_str().unicode_len();
    if n == 0 {
        return Err(McpError::TitleRequired);
    }
    if n > MAX_TITLE_LENGTH {
        return Err(McpError::TitleTooLong { max: MAX_TITLE_LENGTH, actual: n });
    }
    Ok(())
}

/// Checks that optional content is at most 100 KiB.
pub fn validate_content(content: &Option<String>) -> (r: Result<(), McpError>)
    ensures
        r is Ok <==> (content matches Some(c) ==> byte_len(c@) <= MAX_CONTENT_SIZE),
        r matches Err(e) ==> content matches Some(c) && e matches McpError::ContentTooLarge {
            max,
            actual,
        } && max == MAX_CONTENT_SIZE && actual == byte_len(c@),
{
    if let Some(c) = content {
        let n = str_byte_len(c.as_str());
        if n > MAX_CONTENT_SIZE {
            return Err(McpError::ContentTooLarge { max: MAX_CONTENT_SIZE, actual: n });
        }
    }
    Ok(())
}

/// Checks that a type names one of the six entity types.
pub fn validate_entity_type(entity_type: &str) -> (r: Result<(), McpError>)
    ensures
        r is Ok <==> entity_type_names().contains(entity_type@),
        r matches Err(e) ==> e matches McpError::EntityTypeInvalid { provided, valid }
            && provided@ == entity_type@ && views(valid@) == entity_type_names(),
{
    let names = entity_type_list();
    let mut i: usize = 0;
    while i < names.len()
        invariant
            views(names@) == entity_type_names(),
            i <= names.len(),
            forall|k: int| 0 <= k < i ==> entity_type_names()[k] != entity_type@,
        decreases names.len() - i,
    {
        if crate::text::str_eq(names[i].as_str(), entity_type) {
            assert(entity_type_names()[i as int] == entity_type@);
            return Ok(());
        }
        i = i + 1;
    }
    Err(McpError::EntityTypeInvalid { provided: String::from_str(entity_type), valid: names })
}

/// The message of the error for too many tags.
pub open spec fn too_many_tags_text() -> Seq<char> {
    "Maximum 50 tags allowed"@
}

/// The message of the error for a tag that is too long.
pub open spec fn tag_too_long_text(tag: Seq<char>) -> Seq<char> {
    "Tag '"@ + tag + "' exceeds maximum length of 100"@
}

/// Checks that there are at most 50 tags, each at most 100 bytes long.
pub fn validate_tags(tags: &Option<Vec<String>>) -> (r: Result<(), McpError>)
    ensures
        r is Ok <==> (tags matches Some(t) ==> t@.len() <= MAX_TAGS_COUNT && forall|i: int|
            0 <= i < t@.len() ==> byte_len(#[trigger] t@[i]@) <= MAX_TAG_LENGTH),
        tags matches Some(t) && t@.len() > MAX_TAGS_COUNT ==> (r matches Err(
            McpError::ValidationFailed { field, message },
        ) && field@ == "tags"@ && message@ == too_many_tags_text()),
        tags is Some && tags->0@.len() <= MAX_TAGS_COUNT && r is Err ==> exists|i: int|
            0 <= i < tags->0@.len() && byte_len(#[trigger] tags->0@[i]@) > MAX_TAG_LENGTH && (
            forall|k: int| 0 <= k < i ==> byte_len(#[trigger] tags->0@[k]@) <= MAX_TAG_LENGTH) && (
            r matches Err(McpError::ValidationFailed { field, message }) && field@ == "tags"@
                && message@ == tag_too_long_text(tags->0@[i]@)),
{
    if let Some(t) = tags {
        if t.len() > MAX_TAGS_COUNT {
            return Err(
                McpError::ValidationFailed {
                    field: String::from_str("tags"),
                    message: String::from_str("Maximum 50 tags allowed"),
                },
            );
        }
        let mut i: usize = 0;
        while i < t.len()
            invariant
                i <= t.len(),
                tags is Some && tags->0@ == t@,
                t@.len() <= MAX_TAGS_COUNT,
                forall|k: int| 0 <= k < i ==> byte_len(#[trigger] t@[k]@) <= MAX_TAG_LENGTH,
            decreases t.len() - i,
        {
            if str_byte_len(t[i].as_str()) > MAX_TAG_LENGTH {
                let mut m = String::from_str("Tag '");
                m.append(t[i].as_str());
                m.append("' exceeds maximum length of 100");
                assert(m@ =~= tag_too_long_text(t@[i as int]@));
                return Err(McpError::ValidationFailed { field: String::from_str("tags"), message: m });
            }
            i = i + 1;
        }
    }
    Ok(())
}

/// Strings from literals.
fn strings4(a: &str, b: &str, c: &str, d: &str) -> (r: Vec<String>)
    ensures
        views(r@) == seq![a@, b@, c@, d@],
{
    let mut r: Vec<String> = Vec::new();
    r.push(String::from_str(a));
    r.push(String::from_str(b));
    r.push(String::from_str(c));
    r.push(String::from_str(d));
    assert(views(r@) =~= seq![a@, b@, c@, d@]);
    r
}

/// Parses a decision status; an unknown value is an `InvalidEnumValue` error listing
/// the four statuses.
pub fn parse_decision_status(s: &str) -> (r: Result<DecisionStatus, McpError>)
    ensures
        r is Ok <==> DecisionStatus::from_name(lowercase(s@)) is Some,
        r matches Ok(v) ==> Some(v) == DecisionStatus::from_name(lowercase(s@)),
        r matches Err(e) ==> e matches McpError::InvalidEnumValue { field, value, valid }
            && field@ == "status"@ && value@ == s@ && views(valid@) == seq![
            "proposed"@,
            "accepted"@,
            "deprecated"@,
            "superseded"@,
        ],
        forall|v: DecisionStatus| s@ == v.name() ==> r == Ok::<DecisionStatus, McpError>(v),
{
    match DecisionStatus::parse(s) {
        Ok(v) => Ok(v),
        Err(_) => Err(
            McpError::InvalidEnumValue {
                field: String::from_str("status"),
                value: String::from_str(s),
                valid: strings4("proposed", "accepted", "deprecated", "superseded"),
            },
        ),
    }
}

/// Parses a task status; an unknown value is an `InvalidEnumValue` error listing the
/// four statuses.
pub fn parse_task_status(s: &str) -> (r: Result<TaskStatus, McpError>)
    ensures
        r is Ok <==> TaskStatus::from_name(replace_char_seq(lowercase(s@), '-', '_')) is Some,
        r matches Ok(v) ==> Some(v) == TaskStatus::from_name(
            replace_char_seq(lowercase(s@), '-', '_'),
        ),
        r matches Err(e) ==> e matches McpError::InvalidEnumValue { field, value, valid }
            && field@ == "status"@ && value@ == s@ && views(valid@) == seq![
            "todo"@,
            "in_progress"@,
            "done"@,
            "blocked"@,
        ],
        forall|v: TaskStatus| s@ == v.name() ==> r == Ok::<TaskStatus, McpError>(v),
{
    match TaskStatus::parse(s) {
        Ok(v) => Ok(v),
        Err(_) => Err(
            McpError::InvalidEnumValue {
                field: String::from_str("status"),
                value: String::from_str(s),
                valid: strings4("todo", "in_progress", "done", "blocked"),
            },
        ),
    }
}

/// Parses a task priority; an unknown value is an `InvalidEnumValue` error listing
/// the four priorities.
pub fn parse_task_priority(s: &str) -> (r: Result<TaskPriority, McpError>)
    ensures
        r is Ok <==> TaskPriority::from_name(lowercase(s@)) is Some,
        r matches Ok(v) ==> Some(v) == TaskPriority::from_name(lowercase(s@)),
        r matches Err(e) ==> e matches McpError::InvalidEnumValue { field, value, valid }
            && field@ == "priority"@ && value@ == s@ && views(valid@) == seq![
            "low"@,
            "normal"@,
            "high"@,
            "urgent"@,
        ],
        forall|v: TaskPriority| s@ == v.name() ==> r == Ok::<TaskPriority, McpError>(v),
{
    match TaskPriority::parse(s) {
        Ok(v) => Ok(v),
        Err(_) => Err(
            McpError::InvalidEnumValue {
                field: String::from_str("priority"),
                value: String::from_str(s),
                valid: strings4("low", "normal", "high", "urgent"),
            },
        ),
    }
}

/// Parses a component status; an unknown value is an `InvalidEnumValue` error
/// listing the three statuses.
pub fn parse_component_status(s: &str) -> (r: Result<ComponentStatus, McpError>)
    ensures
        r is Ok <==> ComponentStatus::from_name(lowercase(s@)) is Some,
        r matches Ok(v) ==> Some(v) == ComponentStatus::from_name(lowercase(s@)),
        r matches Err(e) ==> e matches McpError::InvalidEnumValue { field, value, valid }
            && field@ == "status"@ && value@ == s@ && views(valid@) == seq![
            "active"@,
            "deprecated"@,
            "planned"@,
        ],
        forall|v: ComponentStatus| s@ == v.name() ==> r == Ok::<ComponentStatus, McpError>(v),
{
    match ComponentStatus::parse(s) {
        Ok(v) => Ok(v),
        Err(_) => {
            let mut valid: Vec<String> = Vec::new();
            valid.push(String::from_str("active"));
            valid.push(String::from_str("deprecated"));
            valid.push(String::from_str("planned"));
            assert(views(valid@) =~= seq!["active"@, "deprecated"@, "planned"@]);
            Err(
                McpError::InvalidEnumValue {
                    field: String::from_str("status"),
                    value: String::from_str(s),
                    valid,
                },
            )
        },
    }
}

/// Parses a `YYYY-MM-DD` date; a text chrono rejects is an `InvalidDateFormat` error.
pub fn parse_date(field: &str, value: &str) -> (r: Result<CalendarDate, McpError>)
    ensures
        r is Ok <==> ymd_parse(value@) is Some,
        r matches Ok(d) ==> ymd_parse(value@) == Some((d.year, d.month, d.day)),
        r matches Err(e) ==> e matches McpError::InvalidDateFormat { field: f, value: v }
            && f@ == field@ && v@ == value@,
{
    match parse_ymd(value) {
        Some(d) => Ok(d),
        None => Err(
            McpError::InvalidDateFormat {
                field: String::from_str(field),
                value: String::from_str(value),
            },
        ),
    }
}

/// Checks that a URL is at most 2048 bytes and starts with `http://` or `https://`.
pub fn validate_url(url: &str) -> (r: Result<(), McpError>)
    ensures
        r is Ok <==> byte_len(url@) <= MAX_URL_SIZE && (is_prefix("http://"@, url@) || is_prefix(
            "https://"@,
            url@,
        )),
        byte_len(url@) > MAX_URL_SIZE ==> (r matches Err(McpError::ValidationFailed { field, message })
            && field@ == "url"@ && message@ == "URL exceeds maximum length of 2048"@),
        byte_len(url@) <= MAX_URL_SIZE && r is Err ==> (r matches Err(McpError::InvalidUrl { value })
            && value@ == url@),
{
    if str_byte_len(url) > MAX_URL_SIZE {
        return Err(
            McpError::ValidationFailed {
                field: String::from_str("url"),
                message: String::from_str("URL exceeds maximum length of 2048"),
            },
        );
    }
    if !starts_with(url, "http://") && !starts_with(url, "https://") {
        return Err(McpError::InvalidUrl { value: String::from_str(url) });
    }
    Ok(())
}

} // verus!
