//! Requests that change the store: creating an entity from a request, and
//! updating the entity a request names.
use vstd::prelude::*;
use vstd::string::StringExecFns;
use crate::clock::{ymd_parse, CalendarDate, Timestamp};
use crate::entity::{
    Component, ComponentStatus, Decision, DecisionStatus, EntityBase, Link, Note, Prompt, Task,
    TaskPriority, TaskStatus, replace_char_seq,
};
use crate::error::{
    entity_type_names, McpError, MAX_CONTENT_SIZE, MAX_CONTEXT_SIZE, MAX_OUTPUT_SCHEMA_SIZE,
    MAX_TAGS_COUNT, MAX_TAG_LENGTH, MAX_TEMPLATE_SIZE, MAX_TITLE_LENGTH, MAX_URL_SIZE,
};
use crate::lookup::{
    all_digits, first_match, kind_has_match, resolves_to, unresolved, Catalog, EntityKind,
    find_in_kind, is_sequence_id,
};
use crate::text::{is_prefix, lowercase, str_eq, trim, trim_seq, views};
use crate::tools::{
    byte_len, parse_component_status, parse_date, parse_decision_status, parse_task_priority,
    parse_task_status, str_byte_len, tag_too_long_text, too_many_tags_text, validate_content,
    validate_entity_type, validate_tags, validate_title, validate_url,
};
use crate::update::{
    apply_component_update, apply_decision_update, apply_link_update, apply_note_update,
    apply_prompt_update, apply_task_update, base_updated, merged_tags, replaced, ComponentUpdate,
    DecisionUpdate, LinkUpdate, NoteUpdate, PromptUpdate, TaskUpdate,
};

verus! {

// ---------------------------------------------------------------------------
// Properties
// ---------------------------------------------------------------------------

/// The value of a type-specific property of a request: a text, a list (whose
/// items are texts or something else), or something else.
#[derive(Debug)]
pub enum PropValue {
    Text(String),
    List(Vec<Option<String>>),
    Other,
}

/// A named property of a request.
#[derive(Debug)]
pub struct Property {
    pub key: String,
    pub value: PropValue,
}

/// The value of the first property named `key`.
pub open spec fn prop_value(props: Seq<Property>, key: Seq<char>) -> Option<PropValue>
    decreases props.len(),
{
    if props.len() == 0 {
        None
    } else if props[0].key@ == key {
        Some(props[0].value)
    } else {
        prop_value(props.drop_first(), key)
    }
}

/// The property named `key`, where it is a text.
pub open spec fn prop_text(props: Seq<Property>, key: Seq<char>) -> Option<Seq<char>> {
    match prop_value(props, key) {
        Some(PropValue::Text(s)) => Some(s@),
        _ => None,
    }
}

/// The text items of a list, in order.
pub open spec fn text_items(items: Seq<Option<String>>) -> Seq<Seq<char>>
    decreases items.len(),
{
    if items.len() == 0 {
        Seq::empty()
    } else {
        match items.last() {
            Some(s) => text_items(items.drop_last()).push(s@),
            None => text_items(items.drop_last()),
        }
    }
}

/// The text items of the property named `key`, where it is a list.
pub open spec fn prop_list(props: Seq<Property>, key: Seq<char>) -> Option<Seq<Seq<char>>> {
    match prop_value(props, key) {
        Some(PropValue::List(items)) => Some(text_items(items@)),
        _ => None,
    }
}

/// The properties of a request, none when it has none.
pub open spec fn props_of(p: Option<Vec<Property>>) -> Seq<Property> {
    match p {
        Some(v) => v@,
        None => Seq::empty(),
    }
}

/// The text of an optional string.
pub open spec fn opt_view(o: Option<String>) -> Option<Seq<char>> {
    match o {
        Some(s) => Some(s@),
        None => None,
    }
}

fn find_prop(props: &Vec<Property>, key: &str) -> (r: Option<usize>)
    ensures
        match r {
            Some(i) => i < props@.len() && prop_value(props@, key@) == Some(props@[i as int].value),
            None => prop_value(props@, key@) is None,
        },
{
    let mut i: usize = 0;
    assert(props@.skip(0) =~= props@);
    while i < props.len()
        invariant
            i <= props.len(),
            prop_value(props@, key@) == prop_value(props@.skip(i as int), key@),
        decreases props.len() - i,
    {
        assert(props@.skip(i as int)[0] == props@[i as int]);
        if str_eq(props[i].key.as_str(), key) {
            return Some(i);
        }
        assert(props@.skip(i as int).drop_first() =~= props@.skip(i + 1));
        i = i + 1;
    }
    None
}

/// The property named `key`, where it is a text.
pub fn get_text(props: &Vec<Property>, key: &str) -> (r: Option<String>)
    ensures
        opt_view(r) == prop_text(props@, key@),
{
    match find_prop(props, key) {
        Some(i) => match &props[i].value {
            PropValue::Text(s) => Some(s.clone()),
            _ => None,
        },
        None => None,
    }
}

/// The text items of the property named `key`, where it is a list.
pub fn get_list(props: &Vec<Property>, key: &str) -> (r: Option<Vec<String>>)
    ensures
        match r {
            Some(v) => prop_list(props@, key@) == Some(views(v@)),
            None => prop_list(props@, key@) is None,
        },
{
    match find_prop(props, key) {
        Some(i) => match &props[i].value {
            PropValue::List(items) => {
                let mut out: Vec<String> = Vec::new();
                let mut j: usize = 0;
                while j < items.len()
                    invariant
                        j <= items.len(),
                        views(out@) == text_items(items@.take(j as int)),
                    decreases items.len() - j,
                {
                    assert(items@.take(j + 1).drop_last() =~= items@.take(j as int));
                    match &items[j] {
                        Some(s) => {
                            let ghost old_out = out@;
                            out.push(s.clone());
                            assert(views(out@) =~= views(old_out).push(s@));
                        },
                        None => {},
                    }
                    j = j + 1;
                }
                assert(items@.take(items.len() as int) =~= items@);
                Some(out)
            },
            _ => None,
        },
        None => None,
    }
}

/// The property named `key` of optional properties, where it is a text.
pub fn opt_get_text(props: &Option<Vec<Property>>, key: &str) -> (r: Option<String>)
    ensures
        opt_view(r) == prop_text(props_of(*props), key@),
{
    match props {
        Some(v) => get_text(v, key),
        None => None,
    }
}

/// The text items of the property named `key` of optional properties, where it is a list.
pub fn opt_get_list(props: &Option<Vec<Property>>, key: &str) -> (r: Option<Vec<String>>)
    ensures
        match r {
            Some(v) => prop_list(props_of(*props), key@) == Some(views(v@)),
            None => prop_list(props_of(*props), key@) is None,
        },
{
    match props {
        Some(v) => get_list(v, key),
        None => None,
    }
}

/// The strings of an optional list, none when absent.
pub open spec fn opt_strings(o: Option<Vec<String>>) -> Seq<String> {
    match o {
        Some(v) => v@,
        None => Seq::empty(),
    }
}

fn strings_or_empty(o: &Option<Vec<String>>) -> (r: Vec<String>)
    ensures
        r@ == opt_strings(*o),
{
    match o {
        Some(v) => crate::entity::copy_strings(v),
        None => Vec::new(),
    }
}

// ---------------------------------------------------------------------------
// Validation outcomes
// ---------------------------------------------------------------------------

/// A title is present after trimming and at most 500 characters long.
pub open spec fn title_ok(t: Seq<char>) -> bool {
    trim_seq(t).len() > 0 && trim_seq(t).len() <= MAX_TITLE_LENGTH
}

/// `e` is the error `validate_title` gives for a title.
pub open spec fn title_error(e: McpError, t: Seq<char>) -> bool {
    if trim_seq(t).len() == 0 {
        e is TitleRequired
    } else {
        e matches McpError::TitleTooLong { max, actual } && max == MAX_TITLE_LENGTH && actual == trim_seq(t).len()
    }
}

/// Optional content is at most 100 KiB.
pub open spec fn content_ok(c: Option<String>) -> bool {
    c matches Some(s) ==> byte_len(s@) <= MAX_CONTENT_SIZE
}

/// `e` is the error `validate_content` gives for content.
pub open spec fn content_error(e: McpError, c: Option<String>) -> bool {
    c matches Some(s) && (e matches McpError::ContentTooLarge { max, actual } && max == MAX_CONTENT_SIZE && actual == byte_len(s@))
}

/// At most 50 tags, each at most 100 bytes long.
pub open spec fn tags_ok(t: Option<Vec<String>>) -> bool {
    t matches Some(v) ==> v@.len() <= MAX_TAGS_COUNT && forall|i: int| 0 <= i < v@.len() ==> byte_len(#[trigger] v@[i]@) <= MAX_TAG_LENGTH
}

/// `e` is the error `validate_tags` gives for tags.
pub open spec fn tags_error(e: McpError, t: Option<Vec<String>>) -> bool {
    &&& t is Some
    &&& e matches McpError::ValidationFailed { field, message } && field@ == "tags"@ && (
        if t->0@.len() > MAX_TAGS_COUNT {
            message@ == too_many_tags_text()
        } else {
            exists|i: int| 0 <= i < t->0@.len() && byte_len(#[trigger] t->0@[i]@) > MAX_TAG_LENGTH
                && (forall|k: int| 0 <= k < i ==> byte_len(#[trigger] t->0@[k]@) <= MAX_TAG_LENGTH)
                && message@ == tag_too_long_text(t->0@[i]@)
        })
}

/// `e` is the error for a value outside an enumeration.
pub open spec fn enum_error(e: McpError, field: Seq<char>, value: Seq<char>, names: Seq<Seq<char>>) -> bool {
    e matches McpError::InvalidEnumValue { field: f, value: v, valid } && f@ == field && v@ == value && views(valid@) == names
}

/// `e` is the error for a date that does not read as `YYYY-MM-DD`.
pub open spec fn date_error(e: McpError, field: Seq<char>, value: Seq<char>) -> bool {
    e matches McpError::InvalidDateFormat { field: f, value: v } && f@ == field && v@ == value
}

/// `e` is a validation failure of `field` with message `msg`.
pub open spec fn failure(e: McpError, field: Seq<char>, msg: Seq<char>) -> bool {
    e matches McpError::ValidationFailed { field: f, message: m } && f@ == field && m@ == msg
}

/// A URL is at most 2048 bytes and starts with `http://` or `https://`.
pub open spec fn url_ok(u: Seq<char>) -> bool {
    byte_len(u) <= MAX_URL_SIZE && (is_prefix("http://"@, u) || is_prefix("https://"@, u))
}

/// `e` is the error `validate_url` gives for a URL.
pub open spec fn url_error(e: McpError, u: Seq<char>) -> bool {
    if byte_len(u) > MAX_URL_SIZE {
        failure(e, "url"@, "URL exceeds maximum length of 2048"@)
    } else {
        e matches McpError::InvalidUrl { value } && value@ == u
    }
}

/// The decision status a text names, read case-insensitively.
pub open spec fn decision_status_named(s: Seq<char>) -> Option<DecisionStatus> {
    DecisionStatus::from_name(lowercase(s))
}

/// The task status a text names, read case-insensitively with `-` for `_`.
pub open spec fn task_status_named(s: Seq<char>) -> Option<TaskStatus> {
    TaskStatus::from_name(replace_char_seq(lowercase(s), '-', '_'))
}

/// The task priority a text names, read case-insensitively.
pub open spec fn task_priority_named(s: Seq<char>) -> Option<TaskPriority> {
    TaskPriority::from_name(lowercase(s))
}

/// The component status a text names, read case-insensitively.
pub open spec fn component_status_named(s: Seq<char>) -> Option<ComponentStatus> {
    ComponentStatus::from_name(lowercase(s))
}

/// The four decision status names.
pub open spec fn decision_status_names() -> Seq<Seq<char>> {
    seq!["proposed"@, "accepted"@, "deprecated"@, "superseded"@]
}

/// The four task status names.
pub open spec fn task_status_names() -> Seq<Seq<char>> {
    seq!["todo"@, "in_progress"@, "done"@, "blocked"@]
}

/// The four task priority names.
pub open spec fn task_priority_names() -> Seq<Seq<char>> {
    seq!["low"@, "normal"@, "high"@, "urgent"@]
}

/// The three component status names.
pub open spec fn component_status_names() -> Seq<Seq<char>> {
    seq!["active"@, "deprecated"@, "planned"@]
}

// ---------------------------------------------------------------------------
// Creation
// ---------------------------------------------------------------------------

/// A request to create an entity.
#[derive(Debug)]
pub struct EntityCreateParams {
    /// Entity type: decision, task, note, prompt, component or link.
    pub entity_type: String,
    /// Title (required, 1 to 500 characters once trimmed).
    pub title: String,
    pub content: Option<String>,
    pub tags: Option<Vec<String>>,
    /// Type-specific properties.
    pub properties: Option<Vec<Property>>,
}

/// The fields every new entity takes from a creation request.
pub open spec fn base_built(b: EntityBase, p: EntityCreateParams, seq: u32, id: u128, now: Timestamp) -> bool {
    &&& b.id == id
    &&& b.title@ == trim_seq(p.title@)
    &&& b.content == p.content
    &&& b.tags@ == opt_strings(p.tags)
    &&& b.created_at == now
    &&& b.updated_at == now
    &&& b.created_by is None
    &&& b.sequence_number == seq
}

/// The text items of a list property, none when absent.
pub open spec fn list_or_empty(props: Seq<Property>, key: Seq<char>) -> Seq<Seq<char>> {
    match prop_list(props, key) {
        Some(l) => l,
        None => Seq::empty(),
    }
}

/// The decision-specific properties of a request are acceptable.
pub open spec fn decision_props_ok(props: Seq<Property>) -> bool {
    &&& (prop_text(props, "status"@) matches Some(s) ==> decision_status_named(s) is Some)
    &&& (prop_text(props, "context"@) matches Some(c) ==> byte_len(c) <= MAX_CONTEXT_SIZE)
}

/// `e` is the error for the first unacceptable decision property.
pub open spec fn decision_props_error(e: McpError, props: Seq<Property>) -> bool {
    let context_error = prop_text(props, "context"@) matches Some(c) && byte_len(c) > MAX_CONTEXT_SIZE
        && failure(e, "context"@, "Context exceeds maximum size of 51200"@);
    match prop_text(props, "status"@) {
        Some(s) => if decision_status_named(s) is None {
            enum_error(e, "status"@, s, decision_status_names())
        } else {
            context_error
        },
        None => context_error,
    }
}

/// A decision built from a creation request.
pub open spec fn decision_built(d: Decision, p: EntityCreateParams, seq: u32, id: u128, now: Timestamp) -> bool {
    let props = props_of(p.properties);
    &&& base_built(d.base, p, seq, id, now)
    &&& d.status == match prop_text(props, "status"@) {
        Some(s) => decision_status_named(s)->0,
        None => DecisionStatus::Proposed,
    }
    &&& opt_view(d.context) == prop_text(props, "context"@)
    &&& views(d.consequences@) == list_or_empty(props, "consequences"@)
    &&& opt_view(d.superseded_by) == prop_text(props, "superseded_by"@)
}

fn new_base(p: &EntityCreateParams, content: Option<String>, tags: Vec<String>, seq: u32, id: u128, now: Timestamp) -> (r: EntityBase)
    requires
        content == p.content,
        tags@ == opt_strings(p.tags),
    ensures
        base_built(r, *p, seq, id, now),
{
    let mut b = EntityBase::with_identity(trim(p.title.as_str()), seq, id, now);
    b.content = content;
    b.tags = tags;
    b
}

fn list_or_new(o: Option<Vec<String>>) -> (r: Vec<String>)
    ensures
        views(r@) == match o {
            Some(v) => views(v@),
            None => Seq::empty(),
        },
{
    match o {
        Some(v) => v,
        None => {
            let r: Vec<String> = Vec::new();
            assert(views(r@) =~= Seq::<Seq<char>>::empty());
            r
        },
    }
}

/// Builds a decision from a creation request whose common fields are valid.
pub fn build_decision(p: &EntityCreateParams, seq: u32, id: u128, now: Timestamp) -> (r: Result<Decision, McpError>)
    ensures
        r is Ok <==> decision_props_ok(props_of(p.properties)),
        r matches Ok(d) ==> decision_built(d, *p, seq, id, now),
        r matches Err(e) ==> decision_props_error(e, props_of(p.properties)),
{
    let ghost props = props_of(p.properties);
    let mut d = Decision::from_base(new_base(p, crate::entity::copy_opt(&p.content), strings_or_empty(&p.tags), seq, id, now));
    proof {
        reveal_strlit("status");
        reveal_strlit("context");
    }
    if let Some(status) = opt_get_text(&p.properties, "status") {
        match parse_decision_status(status.as_str()) {
            Ok(v) => {
                d.status = v;
            },
            Err(e) => {
                return Err(e);
            },
        }
    }
    if let Some(context) = opt_get_text(&p.properties, "context") {
        if str_byte_len(context.as_str()) > MAX_CONTEXT_SIZE {
            return Err(
                McpError::ValidationFailed {
                    field: String::from_str("context"),
                    message: String::from_str("Context exceeds maximum size of 51200"),
                },
            );
        }
        d.context = Some(context);
    }
    let consequences = list_or_new(opt_get_list(&p.properties, "consequences"));
    d.consequences = consequences;
    d.superseded_by = opt_get_text(&p.properties, "superseded_by");
    Ok(d)
}

/// The task-specific properties of a request are acceptable.
pub open spec fn task_props_ok(props: Seq<Property>) -> bool {
    &&& (prop_text(props, "status"@) matches Some(s) ==> task_status_named(s) is Some)
    &&& (prop_text(props, "priority"@) matches Some(s) ==> task_priority_named(s) is Some)
    &&& (prop_text(props, "due_date"@) matches Some(s) ==> ymd_parse(s) is Some)
}

/// `e` is the error for the first unacceptable task property.
pub open spec fn task_props_error(e: McpError, props: Seq<Property>) -> bool {
    let due_error = prop_text(props, "due_date"@) matches Some(s) && ymd_parse(s) is None
        && date_error(e, "due_date"@, s);
    let priority_error = match prop_text(props, "priority"@) {
        Some(s) => if task_priority_named(s) is None {
            enum_error(e, "priority"@, s, task_priority_names())
        } else {
            due_error
        },
        None => due_error,
    };
    match prop_text(props, "status"@) {
        Some(s) => if task_status_named(s) is None {
            enum_error(e, "status"@, s, task_status_names())
        } else {
            priority_error
        },
        None => priority_error,
    }
}

/// The due date a request's text names.
pub open spec fn named_date(s: Seq<char>) -> CalendarDate {
    let d = ymd_parse(s)->0;
    CalendarDate { year: d.0, month: d.1, day: d.2 }
}

/// A task built from a creation request.
pub open spec fn task_built(t: Task, p: EntityCreateParams, seq: u32, id: u128, now: Timestamp) -> bool {
    let props = props_of(p.properties);
    &&& base_built(t.base, p, seq, id, now)
    &&& t.status == match prop_text(props, "status"@) {
        Some(s) => task_status_named(s)->0,
        None => TaskStatus::Todo,
    }
    &&& t.priority == match prop_text(props, "priority"@) {
        Some(s) => task_priority_named(s)->0,
        None => TaskPriority::Normal,
    }
    &&& t.due_date == match prop_text(props, "due_date"@) {
        Some(s) => Some(named_date(s)),
        None => None,
    }
    &&& opt_view(t.assignee) == prop_text(props, "assignee"@)
}

/// Builds a task from a creation request whose common fields are valid.
pub fn build_task(p: &EntityCreateParams, seq: u32, id: u128, now: Timestamp) -> (r: Result<Task, McpError>)
    ensures
        r is Ok <==> task_props_ok(props_of(p.properties)),
        r matches Ok(t) ==> task_built(t, *p, seq, id, now),
        r matches Err(e) ==> task_props_error(e, props_of(p.properties)),
{
    let mut t = Task::from_base(new_base(p, crate::entity::copy_opt(&p.content), strings_or_empty(&p.tags), seq, id, now));
    proof {
        reveal_strlit("status");
        reveal_strlit("priority");
        reveal_strlit("due_date");
    }
    if let Some(status) = opt_get_text(&p.properties, "status") {
        match parse_task_status(status.as_str()) {
            Ok(v) => {
                t.status = v;
            },
            Err(e) => {
                return Err(e);
            },
        }
    }
    if let Some(priority) = opt_get_text(&p.properties, "priority") {
        match parse_task_priority(priority.as_str()) {
            Ok(v) => {
                t.priority = v;
            },
            Err(e) => {
                return Err(e);
            },
        }
    }
    if let Some(due) = opt_get_text(&p.properties, "due_date") {
        match parse_date("due_date", due.as_str()) {
            Ok(d) => {
                t.due_date = Some(d);
            },
            Err(e) => {
                return Err(e);
            },
        }
    }
    t.assignee = opt_get_text(&p.properties, "assignee");
    Ok(t)
}

/// A note built from a creation request.
pub open spec fn note_built(n: Note, p: EntityCreateParams, seq: u32, id: u128, now: Timestamp) -> bool {
    &&& base_built(n.base, p, seq, id, now)
    &&& opt_view(n.note_type) == prop_text(props_of(p.properties), "note_type"@)
}

/// Builds a note from a creation request whose common fields are valid.
pub fn build_note(p: &EntityCreateParams, seq: u32, id: u128, now: Timestamp) -> (r: Note)
    ensures
        note_built(r, *p, seq, id, now),
{
    let mut n = Note::from_base(new_base(p, crate::entity::copy_opt(&p.content), strings_or_empty(&p.tags), seq, id, now));
    n.note_type = opt_get_text(&p.properties, "note_type");
    n
}

/// The prompt-specific properties of a request are acceptable.
pub open spec fn prompt_props_ok(props: Seq<Property>) -> bool {
    &&& (prop_text(props, "template"@) matches Some(s) ==> byte_len(s) <= MAX_TEMPLATE_SIZE)
    &&& (prop_text(props, "output_schema"@) matches Some(s) ==> byte_len(s) <= MAX_OUTPUT_SCHEMA_SIZE)
}

/// `e` is the error for the first unacceptable prompt property.
pub open spec fn prompt_props_error(e: McpError, props: Seq<Property>) -> bool {
    if prop_text(props, "template"@) matches Some(s) && byte_len(s) > MAX_TEMPLATE_SIZE {
        failure(e, "template"@, "Template exceeds maximum size of 51200"@)
    } else {
        prop_text(props, "output_schema"@) matches Some(s) && byte_len(s) > MAX_OUTPUT_SCHEMA_SIZE
            && failure(e, "output_schema"@, "Output schema exceeds maximum size of 10240"@)
    }
}

/// A prompt built from a creation request.
pub open spec fn prompt_built(q: Prompt, p: EntityCreateParams, seq: u32, id: u128, now: Timestamp) -> bool {
    let props = props_of(p.properties);
    &&& base_built(q.base, p, seq, id, now)
    &&& opt_view(q.template) == prop_text(props, "template"@)
    &&& views(q.variables@) == list_or_empty(props, "variables"@)
    &&& opt_view(q.output_schema) == prop_text(props, "output_schema"@)
}

/// Builds a prompt from a creation request whose common fields are valid.
pub fn build_prompt(p: &EntityCreateParams, seq: u32, id: u128, now: Timestamp) -> (r: Result<Prompt, McpError>)
    ensures
        r is Ok <==> prompt_props_ok(props_of(p.properties)),
        r matches Ok(q) ==> prompt_built(q, *p, seq, id, now),
        r matches Err(e) ==> prompt_props_error(e, props_of(p.properties)),
{
    let mut q = Prompt::from_base(new_base(p, crate::entity::copy_opt(&p.content), strings_or_empty(&p.tags), seq, id, now));
    if let Some(template) = opt_get_text(&p.properties, "template") {
        if str_byte_len(template.as_str()) > MAX_TEMPLATE_SIZE {
            return Err(
                McpError::ValidationFailed {
                    field: String::from_str("template"),
                    message: String::from_str("Template exceeds maximum size of 51200"),
                },
            );
        }
        q.template = Some(template);
    }
    q.variables = list_or_new(opt_get_list(&p.properties, "variables"));
    if let Some(schema) = opt_get_text(&p.properties, "output_schema") {
        if str_byte_len(schema.as_str()) > MAX_OUTPUT_SCHEMA_SIZE {
            return Err(
                McpError::ValidationFailed {
                    field: String::from_str("output_schema"),
                    message: String::from_str("Output schema exceeds maximum size of 10240"),
                },
            );
        }
        q.output_schema = Some(schema);
    }
    Ok(q)
}

/// The component-specific properties of a request are acceptable.
pub open spec fn component_props_ok(props: Seq<Property>) -> bool {
    prop_text(props, "status"@) matches Some(s) ==> component_status_named(s) is Some
}

/// `e` is the error for an unacceptable component property.
pub open spec fn component_props_error(e: McpError, props: Seq<Property>) -> bool {
    prop_text(props, "status"@) matches Some(s) && enum_error(e, "status"@, s, component_status_names())
}

/// A component built from a creation request.
pub open spec fn component_built(c: Component, p: EntityCreateParams, seq: u32, id: u128, now: Timestamp) -> bool {
    let props = props_of(p.properties);
    &&& base_built(c.base, p, seq, id, now)
    &&& opt_view(c.component_type) == prop_text(props, "component_type"@)
    &&& c.status == match prop_text(props, "status"@) {
        Some(s) => component_status_named(s)->0,
        None => ComponentStatus::Active,
    }
    &&& opt_view(c.owner) == prop_text(props, "owner"@)
}

/// Builds a component from a creation request whose common fields are valid.
pub fn build_component(p: &EntityCreateParams, seq: u32, id: u128, now: Timestamp) -> (r: Result<Component, McpError>)
    ensures
        r is Ok <==> component_props_ok(props_of(p.properties)),
        r matches Ok(c) ==> component_built(c, *p, seq, id, now),
        r matches Err(e) ==> component_props_error(e, props_of(p.properties)),
{
    let mut c = Component::from_base(new_base(p, crate::entity::copy_opt(&p.content), strings_or_empty(&p.tags), seq, id, now));
    c.component_type = opt_get_text(&p.properties, "component_type");
    if let Some(status) = opt_get_text(&p.properties, "status") {
        match parse_component_status(status.as_str()) {
            Ok(v) => {
                c.status = v;
            },
            Err(e) => {
                return Err(e);
            },
        }
    }
    c.owner = opt_get_text(&p.properties, "owner");
    Ok(c)
}

/// The link-specific properties of a request are acceptable: a URL is given and valid.
pub open spec fn link_props_ok(props: Seq<Property>) -> bool {
    prop_text(props, "url"@) matches Some(u) && url_ok(u)
}

/// `e` is the error for a missing or invalid link URL.
pub open spec fn link_props_error(e: McpError, props: Seq<Property>) -> bool {
    match prop_text(props, "url"@) {
        Some(u) => url_error(e, u),
        None => failure(e, "url"@, "URL is required for link entities"@),
    }
}

/// A link built from a creation request.
pub open spec fn link_built(l: Link, p: EntityCreateParams, seq: u32, id: u128, now: Timestamp) -> bool {
    let props = props_of(p.properties);
    &&& base_built(l.base, p, seq, id, now)
    &&& Some(l.url@) == prop_text(props, "url"@)
    &&& opt_view(l.link_type) == prop_text(props, "link_type"@)
}

/// Builds a link from a creation request whose common fields are valid; the URL
/// is required.
pub fn build_link(p: &EntityCreateParams, seq: u32, id: u128, now: Timestamp) -> (r: Result<Link, McpError>)
    ensures
        r is Ok <==> link_props_ok(props_of(p.properties)),
        r matches Ok(l) ==> link_built(l, *p, seq, id, now),
        r matches Err(e) ==> link_props_error(e, props_of(p.properties)),
{
    let url = match opt_get_text(&p.properties, "url") {
        Some(u) => u,
        None => {
            return Err(
                McpError::ValidationFailed {
                    field: String::from_str("url"),
                    message: String::from_str("URL is required for link entities"),
                },
            );
        },
    };
    match validate_url(url.as_str()) {
        Ok(()) => {},
        Err(e) => {
            return Err(e);
        },
    }
    let mut l = Link::from_base(new_base(p, crate::entity::copy_opt(&p.content), strings_or_empty(&p.tags), seq, id, now), url);
    l.link_type = opt_get_text(&p.properties, "link_type");
    Ok(l)
}

/// A newly built entity of one of the six kinds.
#[derive(Debug)]
pub enum NewEntity {
    Decision(Decision),
    Task(Task),
    Note(Note),
    Prompt(Prompt),
    Component(Component),
    Link(Link),
}

/// The common fields of a creation request are valid: a known type, a title, and
/// acceptable content and tags.
pub open spec fn create_common_ok(p: EntityCreateParams) -> bool {
    &&& entity_type_names().contains(p.entity_type@)
    &&& title_ok(p.title@)
    &&& content_ok(p.content)
    &&& tags_ok(p.tags)
}

/// What a creation request yields once its common fields are valid: the entity
/// of its kind, built from it, or the error of its first unacceptable property.
pub open spec fn create_outcome(r: Result<NewEntity, McpError>, p: EntityCreateParams, seq: u32, id: u128, now: Timestamp) -> bool {
    let props = props_of(p.properties);
    match EntityKind::from_name(p.entity_type@) {
        Some(EntityKind::Decision) => (r is Ok <==> decision_props_ok(props))
            && (r matches Ok(x) ==> (x matches NewEntity::Decision(d) && decision_built(d, p, seq, id, now)))
            && (r matches Err(e) ==> decision_props_error(e, props)),
        Some(EntityKind::Task) => (r is Ok <==> task_props_ok(props))
            && (r matches Ok(x) ==> (x matches NewEntity::Task(t) && task_built(t, p, seq, id, now)))
            && (r matches Err(e) ==> task_props_error(e, props)),
        Some(EntityKind::Note) => r matches Ok(x) && (x matches NewEntity::Note(n) && note_built(n, p, seq, id, now)),
        Some(EntityKind::Prompt) => (r is Ok <==> prompt_props_ok(props))
            && (r matches Ok(x) ==> (x matches NewEntity::Prompt(q) && prompt_built(q, p, seq, id, now)))
            && (r matches Err(e) ==> prompt_props_error(e, props)),
        Some(EntityKind::Component) => (r is Ok <==> component_props_ok(props))
            && (r matches Ok(x) ==> (x matches NewEntity::Component(c) && component_built(c, p, seq, id, now)))
            && (r matches Err(e) ==> component_props_error(e, props)),
        Some(EntityKind::Link) => (r is Ok <==> link_props_ok(props))
            && (r matches Ok(x) ==> (x matches NewEntity::Link(l) && link_built(l, p, seq, id, now)))
            && (r matches Err(e) ==> link_props_error(e, props)),
        None => false,
    }
}

/// Builds the entity a creation request asks for, with sequence number `seq`,
/// UUID `id` and creation instant `now`. The type, title, content and tags are
/// checked first, in that order; then the properties of the entity's kind.
pub fn create_entity(p: &EntityCreateParams, seq: u32, id: u128, now: Timestamp) -> (r: Result<NewEntity, McpError>)
    ensures
        !entity_type_names().contains(p.entity_type@) ==> (r matches Err(McpError::EntityTypeInvalid { provided, valid })
            && provided@ == p.entity_type@ && views(valid@) == entity_type_names()),
        entity_type_names().contains(p.entity_type@) && !title_ok(p.title@) ==> (r matches Err(e) && title_error(e, p.title@)),
        entity_type_names().contains(p.entity_type@) && title_ok(p.title@) && !content_ok(p.content)
            ==> (r matches Err(e) && content_error(e, p.content)),
        entity_type_names().contains(p.entity_type@) && title_ok(p.title@) && content_ok(p.content) && !tags_ok(p.tags)
            ==> (r matches Err(e) && tags_error(e, p.tags)),
        create_common_ok(*p) ==> create_outcome(r, *p, seq, id, now),
{
    match validate_entity_type(p.entity_type.as_str()) {
        Ok(()) => {},
        Err(e) => {
            return Err(e);
        },
    }
    match validate_title(p.title.as_str()) {
        Ok(()) => {},
        Err(e) => {
            return Err(e);
        },
    }
    match validate_content(&p.content) {
        Ok(()) => {},
        Err(e) => {
            return Err(e);
        },
    }
    match validate_tags(&p.tags) {
        Ok(()) => {},
        Err(e) => {
            return Err(e);
        },
    }
    let kind = EntityKind::from_str_name(p.entity_type.as_str());
    proof {
        let j = choose|j: int| 0 <= j < entity_type_names().len() && entity_type_names()[j] == p.entity_type@;
        assert(0 <= j < 6 && entity_type_names()[j] == p.entity_type@);
    }
    match kind {
        Some(EntityKind::Decision) => match build_decision(p, seq, id, now) {
            Ok(d) => Ok(NewEntity::Decision(d)),
            Err(e) => Err(e),
        },
        Some(EntityKind::Task) => match build_task(p, seq, id, now) {
            Ok(t) => Ok(NewEntity::Task(t)),
            Err(e) => Err(e),
        },
        Some(EntityKind::Note) => Ok(NewEntity::Note(build_note(p, seq, id, now))),
        Some(EntityKind::Prompt) => match build_prompt(p, seq, id, now) {
            Ok(q) => Ok(NewEntity::Prompt(q)),
            Err(e) => Err(e),
        },
        Some(EntityKind::Component) => match build_component(p, seq, id, now) {
            Ok(c) => Ok(NewEntity::Component(c)),
            Err(e) => Err(e),
        },
        Some(EntityKind::Link) => match build_link(p, seq, id, now) {
            Ok(l) => Ok(NewEntity::Link(l)),
            Err(e) => Err(e),
        },
        None => Err(McpError::EntityNotFound { id: String::new() }),
    }
}

// ---------------------------------------------------------------------------
// Updates
// ---------------------------------------------------------------------------

/// A request to update the entity an identifier names.
#[derive(Debug)]
pub struct EntityUpdateParams {
    /// Identifier: a sequence number or a UUID prefix.
    pub id: String,
    pub title: Option<String>,
    pub content: Option<String>,
    pub add_tags: Option<Vec<String>>,
    pub remove_tags: Option<Vec<String>>,
    /// Type-specific properties to change.
    pub properties: Option<Vec<Property>>,
}

/// The checks an update request passes before any entity is looked up: a title,
/// where given, is valid; content and added tags are acceptable.
pub open spec fn update_common_ok(p: EntityUpdateParams) -> bool {
    &&& (p.title matches Some(t) ==> title_ok(t@))
    &&& content_ok(p.content)
    &&& tags_ok(p.add_tags)
}

/// The update properties of a request are acceptable for an entity of kind `k`.
pub open spec fn update_props_ok(k: EntityKind, props: Seq<Property>) -> bool {
    match k {
        EntityKind::Decision => prop_text(props, "status"@) matches Some(s) ==> decision_status_named(s) is Some,
        EntityKind::Task => task_props_ok(props),
        EntityKind::Component => component_props_ok(props),
        EntityKind::Link => prop_text(props, "url"@) matches Some(u) ==> url_ok(u),
        _ => true,
    }
}

/// `e` is the error for the first unacceptable update property for kind `k`.
pub open spec fn update_props_error(e: McpError, k: EntityKind, props: Seq<Property>) -> bool {
    match k {
        EntityKind::Decision => prop_text(props, "status"@) matches Some(s)
            && enum_error(e, "status"@, s, decision_status_names()),
        EntityKind::Task => task_props_error(e, props),
        EntityKind::Component => component_props_error(e, props),
        EntityKind::Link => prop_text(props, "url"@) matches Some(u) && url_error(e, u),
        _ => false,
    }
}

/// A text field after an update that may set it from a property.
pub open spec fn set_from(old: Option<String>, props: Seq<Property>, key: Seq<char>) -> Option<Seq<char>> {
    match prop_text(props, key) {
        Some(v) => Some(v),
        None => opt_view(old),
    }
}

/// What an update request does to the fields every entity has.
pub open spec fn base_changed(n: EntityBase, o: EntityBase, p: EntityUpdateParams, now: Timestamp) -> bool {
    base_updated(n, o, p.title, p.content, opt_strings(p.add_tags), opt_strings(p.remove_tags), now)
}

/// A decision after an update request.
pub open spec fn decision_changed(n: Decision, o: Decision, p: EntityUpdateParams, now: Timestamp) -> bool {
    let props = props_of(p.properties);
    &&& base_changed(n.base, o.base, p, now)
    &&& n.status == match prop_text(props, "status"@) {
        Some(s) => decision_status_named(s)->0,
        None => o.status,
    }
    &&& opt_view(n.context) == set_from(o.context, props, "context"@)
    &&& n.consequences == o.consequences
    &&& n.superseded_by == o.superseded_by
}

/// A task after an update request.
pub open spec fn task_changed(n: Task, o: Task, p: EntityUpdateParams, now: Timestamp) -> bool {
    let props = props_of(p.properties);
    &&& base_changed(n.base, o.base, p, now)
    &&& n.status == match prop_text(props, "status"@) {
        Some(s) => task_status_named(s)->0,
        None => o.status,
    }
    &&& n.priority == match prop_text(props, "priority"@) {
        Some(s) => task_priority_named(s)->0,
        None => o.priority,
    }
    &&& n.due_date == match prop_text(props, "due_date"@) {
        Some(s) => Some(named_date(s)),
        None => o.due_date,
    }
    &&& opt_view(n.assignee) == set_from(o.assignee, props, "assignee"@)
}

/// A note after an update request.
pub open spec fn note_changed(n: Note, o: Note, p: EntityUpdateParams, now: Timestamp) -> bool {
    &&& base_changed(n.base, o.base, p, now)
    &&& opt_view(n.note_type) == set_from(o.note_type, props_of(p.properties), "note_type"@)
}

/// A prompt after an update request: variables change as tags do.
pub open spec fn prompt_changed(n: Prompt, o: Prompt, p: EntityUpdateParams, now: Timestamp) -> bool {
    let props = props_of(p.properties);
    let add = list_or_empty(props, "add_variables"@);
    let remove = list_or_empty(props, "remove_variables"@);
    &&& base_changed(n.base, o.base, p, now)
    &&& opt_view(n.template) == set_from(o.template, props, "template"@)
    &&& opt_view(n.output_schema) == set_from(o.output_schema, props, "output_schema"@)
    &&& views(n.variables@) == if add.len() == 0 && remove.len() == 0 {
        views(o.variables@)
    } else {
        merged_tags(views(o.variables@), add, remove)
    }
}

/// A component after an update request.
pub open spec fn component_changed(n: Component, o: Component, p: EntityUpdateParams, now: Timestamp) -> bool {
    let props = props_of(p.properties);
    &&& base_changed(n.base, o.base, p, now)
    &&& n.status == match prop_text(props, "status"@) {
        Some(s) => component_status_named(s)->0,
        None => o.status,
    }
    &&& opt_view(n.component_type) == set_from(o.component_type, props, "component_type"@)
    &&& opt_view(n.owner) == set_from(o.owner, props, "owner"@)
}

/// A link after an update request.
pub open spec fn link_changed(n: Link, o: Link, p: EntityUpdateParams, now: Timestamp) -> bool {
    let props = props_of(p.properties);
    &&& base_changed(n.base, o.base, p, now)
    &&& Some(n.url@) == set_from(Some(o.url), props, "url"@)
    &&& opt_view(n.link_type) == set_from(o.link_type, props, "link_type"@)
}

/// The catalog after the `i`-th entity of kind `k` changed as the request asks,
/// everything else the same.
pub open spec fn changed_at(n: Catalog, o: Catalog, k: EntityKind, i: int, p: EntityUpdateParams, now: Timestamp) -> bool {
    &&& (k != EntityKind::Decision ==> n.decisions@ == o.decisions@)
    &&& (k != EntityKind::Task ==> n.tasks@ == o.tasks@)
    &&& (k != EntityKind::Note ==> n.notes@ == o.notes@)
    &&& (k != EntityKind::Prompt ==> n.prompts@ == o.prompts@)
    &&& (k != EntityKind::Component ==> n.components@ == o.components@)
    &&& (k != EntityKind::Link ==> n.links@ == o.links@)
    &&& n.relations@ == o.relations@
    &&& match k {
        EntityKind::Decision => n.decisions@ == o.decisions@.update(i, n.decisions@[i])
            && decision_changed(n.decisions@[i], o.decisions@[i], p, now),
        EntityKind::Task => n.tasks@ == o.tasks@.update(i, n.tasks@[i])
            && task_changed(n.tasks@[i], o.tasks@[i], p, now),
        EntityKind::Note => n.notes@ == o.notes@.update(i, n.notes@[i])
            && note_changed(n.notes@[i], o.notes@[i], p, now),
        EntityKind::Prompt => n.prompts@ == o.prompts@.update(i, n.prompts@[i])
            && prompt_changed(n.prompts@[i], o.prompts@[i], p, now),
        EntityKind::Component => n.components@ == o.components@.update(i, n.components@[i])
            && component_changed(n.components@[i], o.components@[i], p, now),
        EntityKind::Link => n.links@ == o.links@.update(i, n.links@[i])
            && link_changed(n.links@[i], o.links@[i], p, now),
    }
}

fn opt_to_set(v: Option<String>) -> (r: Option<Option<String>>)
    ensures
        match r {
            Some(x) => v is Some && x == v,
            None => v is None,
        },
{
    match v {
        Some(s) => Some(Some(s)),
        None => None,
    }
}

/// The payload of an update request for a decision.
pub fn decision_update_for(p: &EntityUpdateParams) -> (r: Result<DecisionUpdate, McpError>)
    ensures
        r is Ok <==> update_props_ok(EntityKind::Decision, props_of(p.properties)),
        r matches Err(e) ==> update_props_error(e, EntityKind::Decision, props_of(p.properties)),
        r matches Ok(u) ==> u.title == p.title && u.content == p.content
            && u.add_tags@ == opt_strings(p.add_tags) && u.remove_tags@ == opt_strings(p.remove_tags)
            && u.status == match prop_text(props_of(p.properties), "status"@) {
                Some(s) => decision_status_named(s),
                None => None,
            }
            && opt_view(u.context) == prop_text(props_of(p.properties), "context"@)
            && u.superseded_by is None,
{
    let status = match opt_get_text(&p.properties, "status") {
        Some(s) => match parse_decision_status(s.as_str()) {
            Ok(v) => Some(v),
            Err(e) => {
                return Err(e);
            },
        },
        None => None,
    };
    Ok(DecisionUpdate {
        title: crate::entity::copy_opt(&p.title),
        status,
        content: crate::entity::copy_opt(&p.content),
        context: opt_get_text(&p.properties, "context"),
        superseded_by: None,
        add_tags: strings_or_empty(&p.add_tags),
        remove_tags: strings_or_empty(&p.remove_tags),
    })
}

/// The payload of an update request for a task.
pub fn task_update_for(p: &EntityUpdateParams) -> (r: Result<TaskUpdate, McpError>)
    ensures
        r is Ok <==> update_props_ok(EntityKind::Task, props_of(p.properties)),
        r matches Err(e) ==> update_props_error(e, EntityKind::Task, props_of(p.properties)),
        r matches Ok(u) ==> u.title == p.title && u.content == p.content
            && u.add_tags@ == opt_strings(p.add_tags) && u.remove_tags@ == opt_strings(p.remove_tags)
            && u.status == match prop_text(props_of(p.properties), "status"@) {
                Some(s) => task_status_named(s),
                None => None,
            }
            && u.priority == match prop_text(props_of(p.properties), "priority"@) {
                Some(s) => task_priority_named(s),
                None => None,
            }
            && u.due_date == match prop_text(props_of(p.properties), "due_date"@) {
                Some(s) => Some(Some(named_date(s))),
                None => None,
            }
            && match u.assignee {
                Some(a) => a is Some && opt_view(a) == prop_text(props_of(p.properties), "assignee"@),
                None => prop_text(props_of(p.properties), "assignee"@) is None,
            },
{
    let status = match opt_get_text(&p.properties, "status") {
        Some(s) => match parse_task_status(s.as_str()) {
            Ok(v) => Some(v),
            Err(e) => {
                return Err(e);
            },
        },
        None => None,
    };
    let priority = match opt_get_text(&p.properties, "priority") {
        Some(s) => match parse_task_priority(s.as_str()) {
            Ok(v) => Some(v),
            Err(e) => {
                return Err(e);
            },
        },
        None => None,
    };
    let due_date = match opt_get_text(&p.properties, "due_date") {
        Some(s) => match parse_date("due_date", s.as_str()) {
            Ok(d) => Some(Some(d)),
            Err(e) => {
                return Err(e);
            },
        },
        None => None,
    };
    Ok(TaskUpdate {
        title: crate::entity::copy_opt(&p.title),
        status,
        priority,
        content: crate::entity::copy_opt(&p.content),
        due_date,
        assignee: opt_to_set(opt_get_text(&p.properties, "assignee")),
        add_tags: strings_or_empty(&p.add_tags),
        remove_tags: strings_or_empty(&p.remove_tags),
    })
}

/// The payload of an update request for a note.
pub fn note_update_for(p: &EntityUpdateParams) -> (r: NoteUpdate)
    ensures
        r.title == p.title && r.content == p.content
            && r.add_tags@ == opt_strings(p.add_tags) && r.remove_tags@ == opt_strings(p.remove_tags)
            && match r.note_type {
                Some(a) => a is Some && opt_view(a) == prop_text(props_of(p.properties), "note_type"@),
                None => prop_text(props_of(p.properties), "note_type"@) is None,
            },
{
    NoteUpdate {
        title: crate::entity::copy_opt(&p.title),
        content: crate::entity::copy_opt(&p.content),
        note_type: opt_to_set(opt_get_text(&p.properties, "note_type")),
        add_tags: strings_or_empty(&p.add_tags),
        remove_tags: strings_or_empty(&p.remove_tags),
    }
}

/// The payload of an update request for a prompt.
pub fn prompt_update_for(p: &EntityUpdateParams) -> (r: PromptUpdate)
    ensures
        r.title == p.title && r.content == p.content
            && r.add_tags@ == opt_strings(p.add_tags) && r.remove_tags@ == opt_strings(p.remove_tags)
            && match r.template {
                Some(a) => a is Some && opt_view(a) == prop_text(props_of(p.properties), "template"@),
                None => prop_text(props_of(p.properties), "template"@) is None,
            }
            && match r.output_schema {
                Some(a) => a is Some && opt_view(a) == prop_text(props_of(p.properties), "output_schema"@),
                None => prop_text(props_of(p.properties), "output_schema"@) is None,
            }
            && views(r.add_variables@) == list_or_empty(props_of(p.properties), "add_variables"@)
            && views(r.remove_variables@) == list_or_empty(props_of(p.properties), "remove_variables"@),
{
    PromptUpdate {
        title: crate::entity::copy_opt(&p.title),
        content: crate::entity::copy_opt(&p.content),
        template: opt_to_set(opt_get_text(&p.properties, "template")),
        output_schema: opt_to_set(opt_get_text(&p.properties, "output_schema")),
        add_variables: list_or_new(opt_get_list(&p.properties, "add_variables")),
        remove_variables: list_or_new(opt_get_list(&p.properties, "remove_variables")),
        add_tags: strings_or_empty(&p.add_tags),
        remove_tags: strings_or_empty(&p.remove_tags),
    }
}

/// The payload of an update request for a component.
pub fn component_update_for(p: &EntityUpdateParams) -> (r: Result<ComponentUpdate, McpError>)
    ensures
        r is Ok <==> update_props_ok(EntityKind::Component, props_of(p.properties)),
        r matches Err(e) ==> update_props_error(e, EntityKind::Component, props_of(p.properties)),
        r matches Ok(u) ==> u.title == p.title && u.content == p.content
            && u.add_tags@ == opt_strings(p.add_tags) && u.remove_tags@ == opt_strings(p.remove_tags)
            && u.status == match prop_text(props_of(p.properties), "status"@) {
                Some(s) => component_status_named(s),
                None => None,
            }
            && match u.component_type {
                Some(a) => a is Some && opt_view(a) == prop_text(props_of(p.properties), "component_type"@),
                None => prop_text(props_of(p.properties), "component_type"@) is None,
            }
            && match u.owner {
                Some(a) => a is Some && opt_view(a) == prop_text(props_of(p.properties), "owner"@),
                None => prop_text(props_of(p.properties), "owner"@) is None,
            },
{
    let status = match opt_get_text(&p.properties, "status") {
        Some(s) => match parse_component_status(s.as_str()) {
            Ok(v) => Some(v),
            Err(e) => {
                return Err(e);
            },
        },
        None => None,
    };
    Ok(ComponentUpdate {
        title: crate::entity::copy_opt(&p.title),
        content: crate::entity::copy_opt(&p.content),
        status,
        component_type: opt_to_set(opt_get_text(&p.properties, "component_type")),
        owner: opt_to_set(opt_get_text(&p.properties, "owner")),
        add_tags: strings_or_empty(&p.add_tags),
        remove_tags: strings_or_empty(&p.remove_tags),
    })
}

/// The payload of an update request for a link; a new URL is validated.
pub fn link_update_for(p: &EntityUpdateParams) -> (r: Result<LinkUpdate, McpError>)
    ensures
        r is Ok <==> update_props_ok(EntityKind::Link, props_of(p.properties)),
        r matches Err(e) ==> update_props_error(e, EntityKind::Link, props_of(p.properties)),
        r matches Ok(u) ==> u.title == p.title && u.content == p.content
            && u.add_tags@ == opt_strings(p.add_tags) && u.remove_tags@ == opt_strings(p.remove_tags)
            && opt_view(u.url) == prop_text(props_of(p.properties), "url"@)
            && match u.link_type {
                Some(a) => a is Some && opt_view(a) == prop_text(props_of(p.properties), "link_type"@),
                None => prop_text(props_of(p.properties), "link_type"@) is None,
            },
{
    let url = match opt_get_text(&p.properties, "url") {
        Some(u) => {
            match validate_url(u.as_str()) {
                Ok(()) => {},
                Err(e) => {
                    return Err(e);
                },
            }
            Some(u)
        },
        None => None,
    };
    Ok(LinkUpdate {
        title: crate::entity::copy_opt(&p.title),
        content: crate::entity::copy_opt(&p.content),
        url,
        link_type: opt_to_set(opt_get_text(&p.properties, "link_type")),
        add_tags: strings_or_empty(&p.add_tags),
        remove_tags: strings_or_empty(&p.remove_tags),
    })
}

fn update_decision_at(cat: &mut Catalog, i: usize, p: &EntityUpdateParams, now: Timestamp) -> (r: Result<(), McpError>)
    requires
        i < old(cat).decisions@.len(),
    ensures
        r is Ok <==> update_props_ok(EntityKind::Decision, props_of(p.properties)),
        r matches Err(e) ==> update_props_error(e, EntityKind::Decision, props_of(p.properties)) && *final(cat) == *old(cat),
        r is Ok ==> changed_at(*final(cat), *old(cat), EntityKind::Decision, i as int, *p, now),
{
    let u = match decision_update_for(p) {
        Ok(u) => u,
        Err(e) => {
            return Err(e);
        },
    };
    let ghost before = cat.decisions@;
    let mut e = cat.decisions.remove(i);
    apply_decision_update(&mut e, u, now);
    cat.decisions.insert(i, e);
    assert(cat.decisions@ =~= before.update(i as int, cat.decisions@[i as int]));
    Ok(())
}

fn update_task_at(cat: &mut Catalog, i: usize, p: &EntityUpdateParams, now: Timestamp) -> (r: Result<(), McpError>)
    requires
        i < old(cat).tasks@.len(),
    ensures
        r is Ok <==> update_props_ok(EntityKind::Task, props_of(p.properties)),
        r matches Err(e) ==> update_props_error(e, EntityKind::Task, props_of(p.properties)) && *final(cat) == *old(cat),
        r is Ok ==> changed_at(*final(cat), *old(cat), EntityKind::Task, i as int, *p, now),
{
    let u = match task_update_for(p) {
        Ok(u) => u,
        Err(e) => {
            return Err(e);
        },
    };
    let ghost before = cat.tasks@;
    let mut e = cat.tasks.remove(i);
    apply_task_update(&mut e, u, now);
    cat.tasks.insert(i, e);
    assert(cat.tasks@ =~= before.update(i as int, cat.tasks@[i as int]));
    Ok(())
}

fn update_note_at(cat: &mut Catalog, i: usize, p: &EntityUpdateParams, now: Timestamp) -> (r: Result<(), McpError>)
    requires
        i < old(cat).notes@.len(),
    ensures
        r is Ok,
        r is Ok ==> changed_at(*final(cat), *old(cat), EntityKind::Note, i as int, *p, now),
{
    let u = note_update_for(p);
    let ghost before = cat.notes@;
    let mut e = cat.notes.remove(i);
    apply_note_update(&mut e, u, now);
    cat.notes.insert(i, e);
    assert(cat.notes@ =~= before.update(i as int, cat.notes@[i as int]));
    Ok(())
}

fn update_prompt_at(cat: &mut Catalog, i: usize, p: &EntityUpdateParams, now: Timestamp) -> (r: Result<(), McpError>)
    requires
        i < old(cat).prompts@.len(),
    ensures
        r is Ok,
        r is Ok ==> changed_at(*final(cat), *old(cat), EntityKind::Prompt, i as int, *p, now),
{
    let u = prompt_update_for(p);
    let ghost before = cat.prompts@;
    let mut e = cat.prompts.remove(i);
    apply_prompt_update(&mut e, u, now);
    cat.prompts.insert(i, e);
    assert(cat.prompts@ =~= before.update(i as int, cat.prompts@[i as int]));
    Ok(())
}

fn update_component_at(cat: &mut Catalog, i: usize, p: &EntityUpdateParams, now: Timestamp) -> (r: Result<(), McpError>)
    requires
        i < old(cat).components@.len(),
    ensures
        r is Ok <==> update_props_ok(EntityKind::Component, props_of(p.properties)),
        r matches Err(e) ==> update_props_error(e, EntityKind::Component, props_of(p.properties)) && *final(cat) == *old(cat),
        r is Ok ==> changed_at(*final(cat), *old(cat), EntityKind::Component, i as int, *p, now),
{
    let u = match component_update_for(p) {
        Ok(u) => u,
        Err(e) => {
            return Err(e);
        },
    };
    let ghost before = cat.components@;
    let mut e = cat.components.remove(i);
    apply_component_update(&mut e, u, now);
    cat.components.insert(i, e);
    assert(cat.components@ =~= before.update(i as int, cat.components@[i as int]));
    Ok(())
}

fn update_link_at(cat: &mut Catalog, i: usize, p: &EntityUpdateParams, now: Timestamp) -> (r: Result<(), McpError>)
    requires
        i < old(cat).links@.len(),
    ensures
        r is Ok <==> update_props_ok(EntityKind::Link, props_of(p.properties)),
        r matches Err(e) ==> update_props_error(e, EntityKind::Link, props_of(p.properties)) && *final(cat) == *old(cat),
        r is Ok ==> changed_at(*final(cat), *old(cat), EntityKind::Link, i as int, *p, now),
{
    let u = match link_update_for(p) {
        Ok(u) => u,
        Err(e) => {
            return Err(e);
        },
    };
    let ghost before = cat.links@;
    let mut e = cat.links.remove(i);
    apply_link_update(&mut e, u, now);
    cat.links.insert(i, e);
    assert(cat.links@ =~= before.update(i as int, cat.links@[i as int]));
    Ok(())
}

/// Updates the entity an identifier names, as a request asks, at instant `now`.
/// The title (where given), content and added tags are checked first; then the
/// entity is looked up over all kinds in their canonical order; then the
/// properties of its kind are read into a payload, which is applied. The
/// catalog changes only when the result is `Ok`, and then only at the entity
/// returned.
pub fn update_entity(cat: &mut Catalog, p: &EntityUpdateParams, now: Timestamp) -> (r: Result<(EntityKind, usize), McpError>)
    ensures
        r is Err ==> *final(cat) == *old(cat),
        (p.title matches Some(t) && !title_ok(t@)) ==> (r matches Err(e) && title_error(e, p.title->0@)),
        (p.title matches Some(t) ==> title_ok(t@)) && !content_ok(p.content) ==> (r matches Err(e) && content_error(e, p.content)),
        (p.title matches Some(t) ==> title_ok(t@)) && content_ok(p.content) && !tags_ok(p.add_tags)
            ==> (r matches Err(e) && tags_error(e, p.add_tags)),
        update_common_ok(*p) && unresolved(&*old(cat), p.id@) ==> (r matches Err(McpError::EntityNotFound { id }) && id@ == p.id@),
        forall|k: EntityKind, i: int| update_common_ok(*p) && #[trigger] resolves_to(&*old(cat), p.id@, k, i) ==> {
            &&& (r is Ok <==> update_props_ok(k, props_of(p.properties)))
            &&& (r matches Ok(x) ==> x == (k, i as usize) && changed_at(*final(cat), *old(cat), k, i, *p, now))
            &&& (r matches Err(e) ==> update_props_error(e, k, props_of(p.properties)))
        },
{
    if let Some(t) = &p.title {
        match validate_title(t.as_str()) {
            Ok(()) => {},
            Err(e) => {
                return Err(e);
            },
        }
    }
    match validate_content(&p.content) {
        Ok(()) => {},
        Err(e) => {
            return Err(e);
        },
    }
    match validate_tags(&p.add_tags) {
        Ok(()) => {},
        Err(e) => {
            return Err(e);
        },
    }
    let is_sequence = is_sequence_id(p.id.as_str());
    let mut q: usize = 0;
    while q < 6
        invariant
            is_sequence == all_digits(p.id@),
            update_common_ok(*p),
            q <= 6,
            *cat == *old(cat),
            forall|x: int| 0 <= x < q ==> !kind_has_match(cat, #[trigger] EntityKind::at_rank(x), p.id@, is_sequence),
        decreases 6 - q,
    {
        let k = EntityKind::of_rank(q);
        if let Some(i) = find_in_kind(cat, k, p.id.as_str(), is_sequence) {
            proof {
                assert(resolves_to(&*old(cat), p.id@, k, i as int));
                assert forall|k2: EntityKind, i2: int| #[trigger] resolves_to(&*old(cat), p.id@, k2, i2) implies k2 == k && i2 == i by {
                    crate::lookup::lemma_resolution_unique(&*old(cat), p.id@, k, i as int, k2, i2);
                }
            }
            let res = match k {
                EntityKind::Decision => update_decision_at(cat, i, p, now),
                EntityKind::Task => update_task_at(cat, i, p, now),
                EntityKind::Note => update_note_at(cat, i, p, now),
                EntityKind::Prompt => update_prompt_at(cat, i, p, now),
                EntityKind::Component => update_component_at(cat, i, p, now),
                EntityKind::Link => update_link_at(cat, i, p, now),
            };
            return match res {
                Ok(()) => Ok((k, i)),
                Err(e) => Err(e),
            };
        }
        q = q + 1;
    }
    proof {
        assert forall|k2: EntityKind, i2: int| #[trigger] resolves_to(&*old(cat), p.id@, k2, i2) implies false by {
            assert(!kind_has_match(cat, EntityKind::at_rank(k2.rank()), p.id@, is_sequence));
            assert(EntityKind::at_rank(k2.rank()) == k2);
        }
    }
    Err(McpError::EntityNotFound { id: String::from_str(p.id.as_str()) })
}


} // verus!
