//! Stored records: how an entity or a relation is laid out as named fields in
//! the document store, and how a record is read back.
use vstd::prelude::*;
use vstd::string::StringExecFns;
use crate::clock::{
    parse_rfc3339, parse_uuid, parse_ymd, rfc3339_parse, uuid_parse, uuid_string, uuid_text,
    ymd_parse, CalendarDate, Timestamp, date_text,
};
use crate::entity::{
    Component, ComponentStatus, Decision, DecisionStatus, EntityBase, Link, Note, Prompt,
    Relation, RelationType, Task, TaskPriority, TaskStatus,
};
use crate::request::{
    component_status_named, decision_status_named, opt_view, task_priority_named,
    task_status_named,
};
use crate::text::{lowercase, str_eq, views};

verus! {

// ---------------------------------------------------------------------------
// Records
// ---------------------------------------------------------------------------

/// The value of a stored field: a text, an integer, a list (whose items are
/// texts or something else), a table (whose values are texts or something else),
/// or something else.
#[derive(Debug)]
pub enum FieldValue {
    Text(String),
    Int(i64),
    List(Vec<Option<String>>),
    Table(Vec<(String, Option<String>)>),
    Other,
}

/// A stored record: named fields.
#[derive(Debug)]
pub struct Record {
    pub fields: Vec<(String, FieldValue)>,
}

/// The value of the first field named `key`.
pub open spec fn field_of(fields: Seq<(String, FieldValue)>, key: Seq<char>) -> Option<FieldValue>
    decreases fields.len(),
{
    if fields.len() == 0 {
        None
    } else if fields[0].0@ == key {
        Some(fields[0].1)
    } else {
        field_of(fields.drop_first(), key)
    }
}

/// The field named `key`, where it is a text.
pub open spec fn text_of(fields: Seq<(String, FieldValue)>, key: Seq<char>) -> Option<Seq<char>> {
    match field_of(fields, key) {
        Some(FieldValue::Text(s)) => Some(s@),
        _ => None,
    }
}

/// The field named `key`, where it is an integer.
pub open spec fn int_of(fields: Seq<(String, FieldValue)>, key: Seq<char>) -> Option<i64> {
    match field_of(fields, key) {
        Some(FieldValue::Int(n)) => Some(n),
        _ => None,
    }
}

/// The text items of a list.
pub open spec fn texts(items: Seq<Option<String>>) -> Seq<Seq<char>>
    decreases items.len(),
{
    if items.len() == 0 {
        Seq::empty()
    } else {
        match items.last() {
            Some(s) => texts(items.drop_last()).push(s@),
            None => texts(items.drop_last()),
        }
    }
}

/// The text items of the field named `key`, where it is a list; none otherwise.
pub open spec fn items_of(fields: Seq<(String, FieldValue)>, key: Seq<char>) -> Seq<Seq<char>> {
    match field_of(fields, key) {
        Some(FieldValue::List(items)) => texts(items@),
        _ => Seq::empty(),
    }
}

/// The entries with text values of a map.
pub open spec fn text_pairs(entries: Seq<(String, Option<String>)>) -> Seq<(Seq<char>, Seq<char>)>
    decreases entries.len(),
{
    if entries.len() == 0 {
        Seq::empty()
    } else {
        match entries.last().1 {
            Some(v) => text_pairs(entries.drop_last()).push((entries.last().0@, v@)),
            None => text_pairs(entries.drop_last()),
        }
    }
}

/// The entries with text values of the field named `key`, where it is a map;
/// none otherwise.
pub open spec fn pairs_of(fields: Seq<(String, FieldValue)>, key: Seq<char>) -> Seq<(Seq<char>, Seq<char>)> {
    match field_of(fields, key) {
        Some(FieldValue::Table(entries)) => text_pairs(entries@),
        _ => Seq::empty(),
    }
}

/// The instant an RFC 3339 text stands for, where it reads.
pub open spec fn instant_of(s: Seq<char>) -> Option<Timestamp> {
    match rfc3339_parse(s) {
        Some(p) => Some(Timestamp { secs: p.0, nanos: p.1, date: CalendarDate { year: p.2, month: p.3, day: p.4 } }),
        None => None,
    }
}

/// The views of a list of key/value string pairs.
pub open spec fn pair_views(v: Seq<(String, String)>) -> Seq<(Seq<char>, Seq<char>)> {
    v.map_values(|p: (String, String)| (p.0@, p.1@))
}

fn find_field(rec: &Record, key: &str) -> (r: Option<usize>)
    ensures
        match r {
            Some(i) => i < rec.fields@.len() && field_of(rec.fields@, key@) == Some(rec.fields@[i as int].1),
            None => field_of(rec.fields@, key@) is None,
        },
{
    let mut i: usize = 0;
    assert(rec.fields@.skip(0) =~= rec.fields@);
    while i < rec.fields.len()
        invariant
            i <= rec.fields@.len(),
            field_of(rec.fields@, key@) == field_of(rec.fields@.skip(i as int), key@),
        decreases rec.fields.len() - i,
    {
        assert(rec.fields@.skip(i as int)[0] == rec.fields@[i as int]);
        if str_eq(rec.fields[i].0.as_str(), key) {
            return Some(i);
        }
        assert(rec.fields@.skip(i as int).drop_first() =~= rec.fields@.skip(i + 1));
        i = i + 1;
    }
    None
}

/// The field named `key`, where it is a text.
pub fn get_text_field(rec: &Record, key: &str) -> (r: Option<String>)
    ensures
        opt_view(r) == text_of(rec.fields@, key@),
{
    match find_field(rec, key) {
        Some(i) => match &rec.fields[i].1 {
            FieldValue::Text(s) => Some(s.clone()),
            _ => None,
        },
        None => None,
    }
}

/// The field named `key`, where it is an integer.
pub fn get_int_field(rec: &Record, key: &str) -> (r: Option<i64>)
    ensures
        r == int_of(rec.fields@, key@),
{
    match find_field(rec, key) {
        Some(i) => match &rec.fields[i].1 {
            FieldValue::Int(n) => Some(*n),
            _ => None,
        },
        None => None,
    }
}

/// The text items of the field named `key`, where it is a list; none otherwise.
pub fn get_items_field(rec: &Record, key: &str) -> (r: Vec<String>)
    ensures
        views(r@) == items_of(rec.fields@, key@),
{
    let mut out: Vec<String> = Vec::new();
    match find_field(rec, key) {
        Some(i) => match &rec.fields[i].1 {
            FieldValue::List(items) => {
                let mut j: usize = 0;
                while j < items.len()
                    invariant
                        j <= items.len(),
                        views(out@) == texts(items@.take(j as int)),
                    decreases items.len() - j,
                {
                    assert(items@.take(j + 1).drop_last() =~= items@.take(j as int));
                    match &items[j] {
                        Some(s) => {
                            let ghost old_out = out@;
                            out.push(s.clone());
                            assert(views(out@) =~= views(old_out).push(s@));
                        },
                        None => {},
                    }
                    j = j + 1;
                }
                assert(items@.take(items.len() as int) =~= items@);
            },
            _ => {
                assert(views(out@) =~= Seq::<Seq<char>>::empty());
            },
        },
        None => {
            assert(views(out@) =~= Seq::<Seq<char>>::empty());
        },
    }
    out
}

/// The entries with text values of the field named `key`, where it is a map; none otherwise.
pub fn get_pairs_field(rec: &Record, key: &str) -> (r: Vec<(String, String)>)
    ensures
        pair_views(r@) == pairs_of(rec.fields@, key@),
{
    let mut out: Vec<(String, String)> = Vec::new();
    match find_field(rec, key) {
        Some(i) => match &rec.fields[i].1 {
            FieldValue::Table(entries) => {
                let mut j: usize = 0;
                while j < entries.len()
                    invariant
                        j <= entries.len(),
                        pair_views(out@) == text_pairs(entries@.take(j as int)),
                    decreases entries.len() - j,
                {
                    assert(entries@.take(j + 1).drop_last() =~= entries@.take(j as int));
                    match &entries[j].1 {
                        Some(v) => {
                            let ghost old_out = out@;
                            out.push((entries[j].0.clone(), v.clone()));
                            assert(pair_views(out@) =~= pair_views(old_out).push((entries@[j as int].0@, v@)));
                        },
                        None => {},
                    }
                    j = j + 1;
                }
                assert(entries@.take(entries.len() as int) =~= entries@);
            },
            _ => {
                assert(pair_views(out@) =~= Seq::<(Seq<char>, Seq<char>)>::empty());
            },
        },
        None => {
            assert(pair_views(out@) =~= Seq::<(Seq<char>, Seq<char>)>::empty());
        },
    }
    out
}

/// The instant an RFC 3339 text stands for, where it reads; the text chrono
/// prints for an instant reads back as that instant.
pub fn read_instant(s: &str) -> (r: Option<Timestamp>)
    ensures
        r == instant_of(s@),
        crate::clock::reads_printed_instant(s@, r),
{
    parse_rfc3339(s)
}

// ---------------------------------------------------------------------------
// Reading the fields every entity has
// ---------------------------------------------------------------------------

/// The fields every entity needs are present and read: an `id` that is a UUID,
/// a `title`, a `sequence_number`, and `created_at` and `updated_at` instants.
pub open spec fn base_readable(f: Seq<(String, FieldValue)>) -> bool {
    &&& text_of(f, "id"@) matches Some(s) && uuid_parse(s) is Some
    &&& text_of(f, "title"@) is Some
    &&& int_of(f, "sequence_number"@) is Some
    &&& text_of(f, "created_at"@) matches Some(c) && instant_of(c) is Some
    &&& text_of(f, "updated_at"@) matches Some(u) && instant_of(u) is Some
}

/// `b` holds what a readable record says of the fields every entity has; the
/// sequence number is taken modulo 2^32, and the tags are the text items of `tags`.
pub open spec fn base_read(f: Seq<(String, FieldValue)>, b: EntityBase) -> bool {
    &&& Some(b.id) == uuid_parse(text_of(f, "id"@)->0)
    &&& forall|x: u128| text_of(f, "id"@) == Some(uuid_text(x)) ==> b.id == x
    &&& Some(b.title@) == text_of(f, "title"@)
    &&& b.sequence_number == int_of(f, "sequence_number"@)->0 as u32
    &&& Some(b.created_at) == instant_of(text_of(f, "created_at"@)->0)
    &&& Some(b.updated_at) == instant_of(text_of(f, "updated_at"@)->0)
    &&& opt_view(b.content) == text_of(f, "content"@)
    &&& opt_view(b.created_by) == text_of(f, "created_by"@)
    &&& views(b.tags@) == items_of(f, "tags"@)
}

/// A record written for `b` whose instants read back (see `printable`).
pub open spec fn stored_base(f: Seq<(String, FieldValue)>, b: EntityBase) -> bool {
    written_base(f, b) && printable(b.created_at) && printable(b.updated_at)
}

fn read_base(rec: &Record) -> (r: Option<EntityBase>)
    ensures
        r is Some <==> base_readable(rec.fields@),
        r matches Some(b) ==> base_read(rec.fields@, b),
        forall|b: EntityBase| #[trigger] stored_base(rec.fields@, b) ==> (r matches Some(e) && kept_instants(e, b)),
{
    let ghost f = rec.fields@;
    let id = match get_text_field(rec, "id") {
        Some(s) => match parse_uuid(s.as_str()) {
            Some(u) => u,
            None => {
                proof {
                    assert forall|b: EntityBase| #[trigger] stored_base(f, b) implies false by {
                        assert(s@ == uuid_text(b.id));
                    }
                }
                return None;
            },
        },
        None => {
            return None;
        },
    };
    let title = match get_text_field(rec, "title") {
        Some(t) => t,
        None => {
            return None;
        },
    };
    let seq: u32 = match get_int_field(rec, "sequence_number") {
        Some(n) => n as u32,
        None => {
            return None;
        },
    };
    let created_at = match get_text_field(rec, "created_at") {
        Some(s) => match read_instant(s.as_str()) {
            Some(t) => t,
            None => {
                proof {
                    assert forall|b: EntityBase| #[trigger] stored_base(f, b) implies false by {
                        assert(rfc3339_text(b.created_at.secs, b.created_at.nanos) == Some(s@));
                        let i = (b.created_at.secs, b.created_at.nanos);
                        assert(rfc3339_text(i.0, i.1) == Some(s@));
                    }
                }
                return None;
            },
        },
        None => {
            return None;
        },
    };
    let ghost created_text = text_of(f, "created_at"@)->0;
    let updated_at = match get_text_field(rec, "updated_at") {
        Some(s) => match read_instant(s.as_str()) {
            Some(t) => t,
            None => {
                proof {
                    assert forall|b: EntityBase| #[trigger] stored_base(f, b) implies false by {
                        assert(rfc3339_text(b.updated_at.secs, b.updated_at.nanos) == Some(s@));
                        let i = (b.updated_at.secs, b.updated_at.nanos);
                        assert(rfc3339_text(i.0, i.1) == Some(s@));
                    }
                }
                return None;
            },
        },
        None => {
            return None;
        },
    };
    let r = EntityBase {
        id,
        title,
        content: get_text_field(rec, "content"),
        tags: get_items_field(rec, "tags"),
        created_at,
        updated_at,
        created_by: get_text_field(rec, "created_by"),
        sequence_number: seq,
    };
    proof {
        assert forall|b: EntityBase| #[trigger] stored_base(f, b) implies kept_instants(r, b) by {
            let i = (b.created_at.secs, b.created_at.nanos);
            assert(rfc3339_text(i.0, i.1) == Some(created_text));
            let k = (b.updated_at.secs, b.updated_at.nanos);
            assert(rfc3339_text(k.0, k.1) == text_of(f, "updated_at"@));
        }
    }
    Some(r)
}

// ---------------------------------------------------------------------------
// Reading entities
// ---------------------------------------------------------------------------

/// A decision status read from a record: a known name, case-insensitively, else `proposed`.
pub open spec fn decision_status_read(s: Option<Seq<char>>) -> DecisionStatus {
    match s {
        Some(t) => match decision_status_named(t) {
            Some(v) => v,
            None => DecisionStatus::Proposed,
        },
        None => DecisionStatus::Proposed,
    }
}

/// A task status read from a record, else `todo`.
pub open spec fn task_status_read(s: Option<Seq<char>>) -> TaskStatus {
    match s {
        Some(t) => match task_status_named(t) {
            Some(v) => v,
            None => TaskStatus::Todo,
        },
        None => TaskStatus::Todo,
    }
}

/// A task priority read from a record, else `normal`.
pub open spec fn task_priority_read(s: Option<Seq<char>>) -> TaskPriority {
    match s {
        Some(t) => match task_priority_named(t) {
            Some(v) => v,
            None => TaskPriority::Normal,
        },
        None => TaskPriority::Normal,
    }
}

/// A component status read from a record, else `active`.
pub open spec fn component_status_read(s: Option<Seq<char>>) -> ComponentStatus {
    match s {
        Some(t) => match component_status_named(t) {
            Some(v) => v,
            None => ComponentStatus::Active,
        },
        None => ComponentStatus::Active,
    }
}

/// A due date read from a record: a `YYYY-MM-DD` text, else none.
pub open spec fn due_read(s: Option<Seq<char>>) -> Option<CalendarDate> {
    match s {
        Some(t) => match ymd_parse(t) {
            Some(d) => Some(CalendarDate { year: d.0, month: d.1, day: d.2 }),
            None => None,
        },
        None => None,
    }
}

fn read_decision_status(s: Option<String>) -> (r: DecisionStatus)
    ensures
        r == decision_status_read(opt_view(s)),
{
    match s {
        Some(t) => match DecisionStatus::parse(t.as_str()) {
            Ok(v) => v,
            Err(_) => DecisionStatus::Proposed,
        },
        None => DecisionStatus::Proposed,
    }
}

fn read_task_status(s: Option<String>) -> (r: TaskStatus)
    ensures
        r == task_status_read(opt_view(s)),
{
    match s {
        Some(t) => match TaskStatus::parse(t.as_str()) {
            Ok(v) => v,
            Err(_) => TaskStatus::Todo,
        },
        None => TaskStatus::Todo,
    }
}

fn read_task_priority(s: Option<String>) -> (r: TaskPriority)
    ensures
        r == task_priority_read(opt_view(s)),
{
    match s {
        Some(t) => match TaskPriority::parse(t.as_str()) {
            Ok(v) => v,
            Err(_) => TaskPriority::Normal,
        },
        None => TaskPriority::Normal,
    }
}

fn read_component_status(s: Option<String>) -> (r: ComponentStatus)
    ensures
        r == component_status_read(opt_view(s)),
{
    match s {
        Some(t) => match ComponentStatus::parse(t.as_str()) {
            Ok(v) => v,
            Err(_) => ComponentStatus::Active,
        },
        None => ComponentStatus::Active,
    }
}

fn read_due(s: Option<String>) -> (r: Option<CalendarDate>)
    ensures
        r == due_read(opt_view(s)),
{
    match s {
        Some(t) => parse_ymd(t.as_str()),
        None => None,
    }
}

/// `d` holds what a readable record says of a decision.
pub open spec fn decision_read(f: Seq<(String, FieldValue)>, d: Decision) -> bool {
    &&& base_read(f, d.base)
    &&& d.status == decision_status_read(text_of(f, "status"@))
    &&& opt_view(d.context) == text_of(f, "context"@)
    &&& views(d.consequences@) == items_of(f, "consequences"@)
    &&& opt_view(d.superseded_by) == text_of(f, "superseded_by"@)
}

/// Reads a decision from its record; `None` when a required field is missing or
/// does not read. An unknown status reads as `proposed`.
pub fn read_decision(rec: &Record) -> (r: Option<Decision>)
    ensures
        r is Some <==> base_readable(rec.fields@),
        r matches Some(d) ==> decision_read(rec.fields@, d),
        forall|x: Decision| #[trigger] written_decision(rec.fields@, x) && printable(x.base.created_at) && printable(x.base.updated_at)
            ==> (r matches Some(e) && kept_instants(e.base, x.base)),
{
    let base = match read_base(rec) {
        Some(b) => b,
        None => {
            proof {
                assert forall|x: Decision| #[trigger] written_decision(rec.fields@, x) && printable(x.base.created_at)
                    && printable(x.base.updated_at) implies false by {
                    assert(stored_base(rec.fields@, x.base));
                }
            }
            return None;
        },
    };
    proof {
        assert forall|x: Decision| #[trigger] written_decision(rec.fields@, x) && printable(x.base.created_at)
            && printable(x.base.updated_at) implies kept_instants(base, x.base) by {
            assert(stored_base(rec.fields@, x.base));
        }
    }
    Some(Decision {
        base,
        status: read_decision_status(get_text_field(rec, "status")),
        context: get_text_field(rec, "context"),
        consequences: get_items_field(rec, "consequences"),
        superseded_by: get_text_field(rec, "superseded_by"),
    })
}

/// `t` holds what a readable record says of a task.
pub open spec fn task_read(f: Seq<(String, FieldValue)>, t: Task) -> bool {
    &&& base_read(f, t.base)
    &&& t.status == task_status_read(text_of(f, "status"@))
    &&& t.priority == task_priority_read(text_of(f, "priority"@))
    &&& t.due_date == due_read(text_of(f, "due_date"@))
    &&& opt_view(t.assignee) == text_of(f, "assignee"@)
}

/// Reads a task from its record; `None` when a required field is missing or does
/// not read. An unknown status reads as `todo`, an unknown priority as `normal`,
/// an unreadable due date as none.
pub fn read_task(rec: &Record) -> (r: Option<Task>)
    ensures
        r is Some <==> base_readable(rec.fields@),
        r matches Some(t) ==> task_read(rec.fields@, t),
        forall|x: Task| #[trigger] written_task(rec.fields@, x) && printable(x.base.created_at) && printable(x.base.updated_at)
            ==> (r matches Some(e) && kept_instants(e.base, x.base)),
{
    let base = match read_base(rec) {
        Some(b) => b,
        None => {
            proof {
                assert forall|x: Task| #[trigger] written_task(rec.fields@, x) && printable(x.base.created_at)
                    && printable(x.base.updated_at) implies false by {
                    assert(stored_base(rec.fields@, x.base));
                }
            }
            return None;
        },
    };
    proof {
        assert forall|x: Task| #[trigger] written_task(rec.fields@, x) && printable(x.base.created_at)
            && printable(x.base.updated_at) implies kept_instants(base, x.base) by {
            assert(stored_base(rec.fields@, x.base));
        }
    }
    Some(Task {
        base,
        status: read_task_status(get_text_field(rec, "status")),
        priority: read_task_priority(get_text_field(rec, "priority")),
        due_date: read_due(get_text_field(rec, "due_date")),
        assignee: get_text_field(rec, "assignee"),
    })
}

/// `n` holds what a readable record says of a note.
pub open spec fn note_read(f: Seq<(String, FieldValue)>, n: Note) -> bool {
    &&& base_read(f, n.base)
    &&& opt_view(n.note_type) == text_of(f, "note_type"@)
}

/// Reads a note from its record; `None` when a required field is missing or does not read.
pub fn read_note(rec: &Record) -> (r: Option<Note>)
    ensures
        r is Some <==> base_readable(rec.fields@),
        r matches Some(n) ==> note_read(rec.fields@, n),
        forall|x: Note| #[trigger] written_note(rec.fields@, x) && printable(x.base.created_at) && printable(x.base.updated_at)
            ==> (r matches Some(e) && kept_instants(e.base, x.base)),
{
    let base = match read_base(rec) {
        Some(b) => b,
        None => {
            proof {
                assert forall|x: Note| #[trigger] written_note(rec.fields@, x) && printable(x.base.created_at)
                    && printable(x.base.updated_at) implies false by {
                    assert(stored_base(rec.fields@, x.base));
                }
            }
            return None;
        },
    };
    proof {
        assert forall|x: Note| #[trigger] written_note(rec.fields@, x) && printable(x.base.created_at)
            && printable(x.base.updated_at) implies kept_instants(base, x.base) by {
            assert(stored_base(rec.fields@, x.base));
        }
    }
    Some(Note { base, note_type: get_text_field(rec, "note_type") })
}

/// `p` holds what a readable record says of a prompt.
pub open spec fn prompt_read(f: Seq<(String, FieldValue)>, p: Prompt) -> bool {
    &&& base_read(f, p.base)
    &&& opt_view(p.template) == text_of(f, "template"@)
    &&& views(p.variables@) == items_of(f, "variables"@)
    &&& opt_view(p.output_schema) == text_of(f, "output_schema"@)
}

/// Reads a prompt from its record; `None` when a required field is missing or does not read.
pub fn read_prompt(rec: &Record) -> (r: Option<Prompt>)
    ensures
        r is Some <==> base_readable(rec.fields@),
        r matches Some(p) ==> prompt_read(rec.fields@, p),
        forall|x: Prompt| #[trigger] written_prompt(rec.fields@, x) && printable(x.base.created_at) && printable(x.base.updated_at)
            ==> (r matches Some(e) && kept_instants(e.base, x.base)),
{
    let base = match read_base(rec) {
        Some(b) => b,
        None => {
            proof {
                assert forall|x: Prompt| #[trigger] written_prompt(rec.fields@, x) && printable(x.base.created_at)
                    && printable(x.base.updated_at) implies false by {
                    assert(stored_base(rec.fields@, x.base));
                }
            }
            return None;
        },
    };
    proof {
        assert forall|x: Prompt| #[trigger] written_prompt(rec.fields@, x) && printable(x.base.created_at)
            && printable(x.base.updated_at) implies kept_instants(base, x.base) by {
            assert(stored_base(rec.fields@, x.base));
        }
    }
    Some(Prompt {
        base,
        template: get_text_field(rec, "template"),
        variables: get_items_field(rec, "variables"),
        output_schema: get_text_field(rec, "output_schema"),
    })
}

/// `c` holds what a readable record says of a component.
pub open spec fn component_read(f: Seq<(String, FieldValue)>, c: Component) -> bool {
    &&& base_read(f, c.base)
    &&& opt_view(c.component_type) == text_of(f, "component_type"@)
    &&& c.status == component_status_read(text_of(f, "status"@))
    &&& opt_view(c.owner) == text_of(f, "owner"@)
}

/// Reads a component from its record; `None` when a required field is missing or
/// does not read. An unknown status reads as `active`.
pub fn read_component(rec: &Record) -> (r: Option<Component>)
    ensures
        r is Some <==> base_readable(rec.fields@),
        r matches Some(c) ==> component_read(rec.fields@, c),
        forall|x: Component| #[trigger] written_component(rec.fields@, x) && printable(x.base.created_at) && printable(x.base.updated_at)
            ==> (r matches Some(e) && kept_instants(e.base, x.base)),
{
    let base = match read_base(rec) {
        Some(b) => b,
        None => {
            proof {
                assert forall|x: Component| #[trigger] written_component(rec.fields@, x) && printable(x.base.created_at)
                    && printable(x.base.updated_at) implies false by {
                    assert(stored_base(rec.fields@, x.base));
                }
            }
            return None;
        },
    };
    proof {
        assert forall|x: Component| #[trigger] written_component(rec.fields@, x) && printable(x.base.created_at)
            && printable(x.base.updated_at) implies kept_instants(base, x.base) by {
            assert(stored_base(rec.fields@, x.base));
        }
    }
    Some(Component {
        base,
        component_type: get_text_field(rec, "component_type"),
        status: read_component_status(get_text_field(rec, "status")),
        owner: get_text_field(rec, "owner"),
    })
}

/// `l` holds what a readable record says of a link.
pub open spec fn link_read(f: Seq<(String, FieldValue)>, l: Link) -> bool {
    &&& base_read(f, l.base)
    &&& Some(l.url@) == text_of(f, "url"@)
    &&& opt_view(l.link_type) == text_of(f, "link_type"@)
}

/// Reads a link from its record; `None` when a required field (the URL among
/// them) is missing or does not read.
pub fn read_link(rec: &Record) -> (r: Option<Link>)
    ensures
        r is Some <==> base_readable(rec.fields@) && text_of(rec.fields@, "url"@) is Some,
        r matches Some(l) ==> link_read(rec.fields@, l),
        forall|x: Link| #[trigger] written_link(rec.fields@, x) && printable(x.base.created_at) && printable(x.base.updated_at)
            ==> (r matches Some(e) && kept_instants(e.base, x.base)),
{
    let url = match get_text_field(rec, "url") {
        Some(u) => u,
        None => {
            return None;
        },
    };
    let base = match read_base(rec) {
        Some(b) => b,
        None => {
            proof {
                assert forall|x: Link| #[trigger] written_link(rec.fields@, x) && printable(x.base.created_at)
                    && printable(x.base.updated_at) implies false by {
                    assert(stored_base(rec.fields@, x.base));
                }
            }
            return None;
        },
    };
    proof {
        assert forall|x: Link| #[trigger] written_link(rec.fields@, x) && printable(x.base.created_at)
            && printable(x.base.updated_at) implies kept_instants(base, x.base) by {
            assert(stored_base(rec.fields@, x.base));
        }
    }
    Some(Link { base, url, link_type: get_text_field(rec, "link_type") })
}

/// The fields a relation needs are present and read: `source_id` and
/// `target_id` UUIDs, `source_type` and `target_type` texts, a known
/// `relation_type` (case-insensitively) and a `created_at` instant.
pub open spec fn relation_readable(f: Seq<(String, FieldValue)>) -> bool {
    &&& text_of(f, "source_id"@) matches Some(s) && uuid_parse(s) is Some
    &&& text_of(f, "source_type"@) is Some
    &&& text_of(f, "target_id"@) matches Some(s) && uuid_parse(s) is Some
    &&& text_of(f, "target_type"@) is Some
    &&& text_of(f, "relation_type"@) matches Some(s) && RelationType::from_name(lowercase(s)) is Some
    &&& text_of(f, "created_at"@) matches Some(c) && instant_of(c) is Some
}

/// `r` holds what a readable record says of a relation.
pub open spec fn relation_read(f: Seq<(String, FieldValue)>, r: Relation) -> bool {
    &&& Some(r.source_id) == uuid_parse(text_of(f, "source_id"@)->0)
    &&& forall|x: u128| text_of(f, "source_id"@) == Some(uuid_text(x)) ==> r.source_id == x
    &&& Some(r.source_type@) == text_of(f, "source_type"@)
    &&& Some(r.target_id) == uuid_parse(text_of(f, "target_id"@)->0)
    &&& forall|x: u128| text_of(f, "target_id"@) == Some(uuid_text(x)) ==> r.target_id == x
    &&& Some(r.target_type@) == text_of(f, "target_type"@)
    &&& Some(r.relation_type) == RelationType::from_name(lowercase(text_of(f, "relation_type"@)->0))
    &&& Some(r.created_at) == instant_of(text_of(f, "created_at"@)->0)
    &&& opt_view(r.created_by) == text_of(f, "created_by"@)
    &&& pair_views(r.properties@) == pairs_of(f, "properties"@)
}

/// Reads a relation from its record; `None` when a required field is missing or
/// does not read.
pub fn read_relation(rec: &Record) -> (r: Option<Relation>)
    ensures
        r is Some <==> relation_readable(rec.fields@),
        r matches Some(x) ==> relation_read(rec.fields@, x),
        forall|x: Relation| #[trigger] written_relation(rec.fields@, x) && printable(x.created_at) ==> (r matches Some(e)
            && e.relation_type == x.relation_type && e.created_at.secs == x.created_at.secs
            && e.created_at.nanos == x.created_at.nanos),
{
    let ghost f = rec.fields@;
    let source_id = match get_text_field(rec, "source_id") {
        Some(s) => match parse_uuid(s.as_str()) {
            Some(u) => u,
            None => {
                proof {
                    assert forall|x: Relation| #[trigger] written_relation(f, x) && printable(x.created_at) implies false by {
                        assert(s@ == uuid_text(x.source_id));
                    }
                }
                return None;
            },
        },
        None => {
            return None;
        },
    };
    let source_type = match get_text_field(rec, "source_type") {
        Some(t) => t,
        None => {
            return None;
        },
    };
    let target_id = match get_text_field(rec, "target_id") {
        Some(s) => match parse_uuid(s.as_str()) {
            Some(u) => u,
            None => {
                proof {
                    assert forall|x: Relation| #[trigger] written_relation(f, x) && printable(x.created_at) implies false by {
                        assert(s@ == uuid_text(x.target_id));
                    }
                }
                return None;
            },
        },
        None => {
            return None;
        },
    };
    let target_type = match get_text_field(rec, "target_type") {
        Some(t) => t,
        None => {
            return None;
        },
    };
    let relation_type = match get_text_field(rec, "relation_type") {
        Some(s) => match RelationType::parse(s.as_str()) {
            Ok(v) => v,
            Err(_) => {
                proof {
                    assert forall|x: Relation| #[trigger] written_relation(f, x) && printable(x.created_at) implies false by {
                        assert(s@ == x.relation_type.name());
                    }
                }
                return None;
            },
        },
        None => {
            return None;
        },
    };
    let ghost type_text = text_of(f, "relation_type"@)->0;
    let created_at = match get_text_field(rec, "created_at") {
        Some(s) => match read_instant(s.as_str()) {
            Some(t) => t,
            None => {
                proof {
                    assert forall|x: Relation| #[trigger] written_relation(f, x) && printable(x.created_at) implies false by {
                        let i = (x.created_at.secs, x.created_at.nanos);
                        assert(rfc3339_text(i.0, i.1) == Some(s@));
                    }
                }
                return None;
            },
        },
        None => {
            return None;
        },
    };
    let ghost created_text = text_of(f, "created_at"@)->0;
    let r = Relation {
        source_id,
        source_type,
        target_id,
        target_type,
        relation_type,
        created_at,
        created_by: get_text_field(rec, "created_by"),
        properties: get_pairs_field(rec, "properties"),
    };
    proof {
        assert forall|x: Relation| #[trigger] written_relation(f, x) && printable(x.created_at) implies
            r.relation_type == x.relation_type && r.created_at.secs == x.created_at.secs
            && r.created_at.nanos == x.created_at.nanos by {
            assert(type_text == x.relation_type.name());
            let i = (x.created_at.secs, x.created_at.nanos);
            assert(rfc3339_text(i.0, i.1) == Some(created_text));
        }
    }
    Some(r)
}

// ---------------------------------------------------------------------------
// Writing records
// ---------------------------------------------------------------------------

/// What chrono prints, as RFC 3339, for the instant at `secs` seconds and
/// `nanos` nanoseconds after the Unix epoch, where chrono can represent it.
pub uninterp spec fn rfc3339_text(secs: i64, nanos: u32) -> Option<Seq<char>>;

/// `chrono::DateTime::<Utc>::from_timestamp` then `to_rfc3339`: the text is named
/// `rfc3339_text` of the seconds and nanoseconds; `None` where chrono cannot
/// represent the instant, and always `Some` for an instant of years 0000 to 9999
/// without a leap second. The format itself is not stated here.
#[verifier::external_body]
pub(crate) fn format_rfc3339(t: &Timestamp) -> (r: Option<String>)
    ensures
        opt_view(r) == rfc3339_text(t.secs, t.nanos),
        crate::clock::rfc3339_printable(t.secs, t.nanos) ==> r is Some,
{
    match chrono::DateTime::<chrono::Utc>::from_timestamp(t.secs, t.nanos) {
        Some(d) => Some(d.to_rfc3339()),
        None => None,
    }
}

/// The text a field value holds, if it is a text.
pub open spec fn value_text(v: FieldValue) -> Option<Seq<char>> {
    match v {
        FieldValue::Text(s) => Some(s@),
        _ => None,
    }
}

fn text_value(o: Option<String>) -> (r: FieldValue)
    ensures
        value_text(r) == opt_view(o),
        !(r is List) && !(r is Table),
{
    match o {
        Some(s) => FieldValue::Text(s),
        None => FieldValue::Other,
    }
}

fn list_value(v: &Vec<String>) -> (r: FieldValue)
    ensures
        r matches FieldValue::List(items) && texts(items@) == views(v@),
{
    let mut items: Vec<Option<String>> = Vec::new();
    let mut i: usize = 0;
    while i < v.len()
        invariant
            i <= v.len(),
            texts(items@) == views(v@.take(i as int)),
        decreases v.len() - i,
    {
        let ghost old_items = items@;
        items.push(Some(v[i].clone()));
        assert(items@.drop_last() =~= old_items);
        assert(views(v@.take(i + 1)) =~= views(v@.take(i as int)).push(v@[i as int]@));
        i = i + 1;
    }
    assert(v@.take(v.len() as int) =~= v@);
    FieldValue::List(items)
}

fn named(key: &str, v: FieldValue) -> (r: (String, FieldValue))
    ensures
        r.0@ == key@,
        r.1 == v,
{
    (String::from_str(key), v)
}

proof fn lemma_lookup(f: Seq<(String, FieldValue)>, i: int)
    requires
        0 <= i < f.len(),
        forall|j: int| 0 <= j < i ==> (#[trigger] f[j]).0@ != f[i].0@,
    ensures
        field_of(f, f[i].0@) == Some(f[i].1),
    decreases i,
{
    if i > 0 {
        let g = f.drop_first();
        assert forall|j: int| 0 <= j < i - 1 implies (#[trigger] g[j]).0@ != g[i - 1].0@ by {
            assert(g[j] == f[j + 1]);
        }
        lemma_lookup(g, i - 1);
        assert(f[0].0@ != f[i].0@);
    }
}

/// An instant a record can hold so that it reads back: chrono prints it with a
/// four-digit year and it is no leap second.
pub open spec fn printable(t: Timestamp) -> bool {
    crate::clock::rfc3339_printable(t.secs, t.nanos)
}

/// The instants of `e` are those of `b`, to the nanosecond.
pub open spec fn kept_instants(e: EntityBase, b: EntityBase) -> bool {
    &&& e.created_at.secs == b.created_at.secs && e.created_at.nanos == b.created_at.nanos
    &&& e.updated_at.secs == b.updated_at.secs && e.updated_at.nanos == b.updated_at.nanos
}

/// What a record written for an entity says of the fields every entity has.
pub open spec fn written_base(f: Seq<(String, FieldValue)>, b: EntityBase) -> bool {
    &&& text_of(f, "id"@) == Some(uuid_text(b.id))
    &&& int_of(f, "sequence_number"@) == Some(b.sequence_number as i64)
    &&& text_of(f, "title"@) == Some(b.title@)
    &&& text_of(f, "created_at"@) == rfc3339_text(b.created_at.secs, b.created_at.nanos)
    &&& text_of(f, "updated_at"@) == rfc3339_text(b.updated_at.secs, b.updated_at.nanos)
    &&& (printable(b.created_at) ==> text_of(f, "created_at"@) is Some)
    &&& (printable(b.updated_at) ==> text_of(f, "updated_at"@) is Some)
    &&& text_of(f, "content"@) == opt_view(b.content)
    &&& text_of(f, "created_by"@) == opt_view(b.created_by)
    &&& items_of(f, "tags"@) == views(b.tags@)
}

/// The first nine fields of a record written for an entity: `id`, `type`,
/// `sequence_number`, `title`, `created_at`, `updated_at`, `content`,
/// `created_by` and `tags`, holding the entity's values.
pub open spec fn base_shape(f: Seq<(String, FieldValue)>, b: EntityBase, kind: Seq<char>) -> bool {
    &&& f.len() >= 9
    &&& f[0].0@ == "id"@ && value_text(f[0].1) == Some(uuid_text(b.id))
    &&& f[1].0@ == "type"@ && value_text(f[1].1) == Some(kind)
    &&& f[2].0@ == "sequence_number"@ && f[2].1 == FieldValue::Int(b.sequence_number as i64)
    &&& f[3].0@ == "title"@ && value_text(f[3].1) == Some(b.title@)
    &&& f[4].0@ == "created_at"@ && value_text(f[4].1) == rfc3339_text(b.created_at.secs, b.created_at.nanos)
    &&& f[5].0@ == "updated_at"@ && value_text(f[5].1) == rfc3339_text(b.updated_at.secs, b.updated_at.nanos)
    &&& (printable(b.created_at) ==> value_text(f[4].1) is Some)
    &&& (printable(b.updated_at) ==> value_text(f[5].1) is Some)
    &&& f[6].0@ == "content"@ && value_text(f[6].1) == opt_view(b.content)
    &&& f[7].0@ == "created_by"@ && value_text(f[7].1) == opt_view(b.created_by)
    &&& f[8].0@ == "tags"@ && (f[8].1 matches FieldValue::List(items) && texts(items@) == views(b.tags@))
}

fn base_fields(b: &EntityBase, kind: &str) -> (r: Vec<(String, FieldValue)>)
    ensures
        r@.len() == 9,
        base_shape(r@, *b, kind@),
{
    let mut r: Vec<(String, FieldValue)> = Vec::new();
    r.push(named("id", FieldValue::Text(uuid_string(b.id))));
    r.push(named("type", FieldValue::Text(String::from_str(kind))));
    r.push(named("sequence_number", FieldValue::Int(b.sequence_number as i64)));
    r.push(named("title", FieldValue::Text(b.title.clone())));
    r.push(named("created_at", text_value(format_rfc3339(&b.created_at))));
    r.push(named("updated_at", text_value(format_rfc3339(&b.updated_at))));
    r.push(named("content", text_value(crate::entity::copy_opt(&b.content))));
    r.push(named("created_by", text_value(crate::entity::copy_opt(&b.created_by))));
    r.push(named("tags", list_value(&b.tags)));
    r
}

proof fn lemma_base_written(f: Seq<(String, FieldValue)>, b: EntityBase, kind: Seq<char>)
    requires
        base_shape(f, b, kind),
    ensures
        written_base(f, b),
{
    reveal_strlit("id");
    reveal_strlit("type");
    reveal_strlit("sequence_number");
    reveal_strlit("title");
    reveal_strlit("created_at");
    reveal_strlit("updated_at");
    reveal_strlit("content");
    reveal_strlit("created_by");
    reveal_strlit("tags");
    assert("id"@.len() == 2 && "type"@.len() == 4 && "sequence_number"@.len() == 15 && "title"@.len() == 5);
    assert("created_at"@.len() == 10 && "updated_at"@.len() == 10 && "content"@.len() == 7);
    assert("created_by"@.len() == 10 && "tags"@.len() == 4);
    assert("created_at"@[0] != "updated_at"@[0]);
    assert("created_at"@[8] != "created_by"@[8]);
    assert("updated_at"@[0] != "created_by"@[0]);
    assert("type"@[1] != "tags"@[1]);
    lemma_lookup(f, 0);
    lemma_lookup(f, 2);
    lemma_lookup(f, 3);
    lemma_lookup(f, 4);
    lemma_lookup(f, 5);
    lemma_lookup(f, 6);
    lemma_lookup(f, 7);
    lemma_lookup(f, 8);
}

/// The fields every entity has, as a record written for `d` reads back into `e`.
pub open spec fn read_back_base(e: EntityBase, d: EntityBase) -> bool {
    &&& e.id == d.id
    &&& e.title@ == d.title@
    &&& e.sequence_number == d.sequence_number
    &&& opt_view(e.content) == opt_view(d.content)
    &&& opt_view(e.created_by) == opt_view(d.created_by)
    &&& views(e.tags@) == views(d.tags@)
    &&& Some(e.created_at) == instant_of(rfc3339_text(d.created_at.secs, d.created_at.nanos)->0)
    &&& Some(e.updated_at) == instant_of(rfc3339_text(d.updated_at.secs, d.updated_at.nanos)->0)
}

/// What a record written for a decision says of it.
pub open spec fn written_decision(f: Seq<(String, FieldValue)>, d: Decision) -> bool {
    &&& written_base(f, d.base)
    &&& text_of(f, "status"@) == Some(d.status.name())
    &&& text_of(f, "context"@) == opt_view(d.context)
    &&& text_of(f, "superseded_by"@) == opt_view(d.superseded_by)
    &&& items_of(f, "consequences"@) == views(d.consequences@)
}

/// The shape of a record written for a decision.
pub open spec fn decision_shape(f: Seq<(String, FieldValue)>, d: Decision) -> bool {
    &&& base_shape(f, d.base, "decision"@)
    &&& f.len() == 13
    &&& f[9].0@ == "status"@ && value_text(f[9].1) == Some(d.status.name())
    &&& f[10].0@ == "context"@ && value_text(f[10].1) == opt_view(d.context)
    &&& f[11].0@ == "superseded_by"@ && value_text(f[11].1) == opt_view(d.superseded_by)
    &&& f[12].0@ == "consequences"@ && (f[12].1 matches FieldValue::List(items) && texts(items@) == views(d.consequences@))
}

proof fn lemma_decision_written(f: Seq<(String, FieldValue)>, d: Decision)
    requires
        decision_shape(f, d),
    ensures
        written_decision(f, d),
{
    lemma_base_written(f, d.base, "decision"@);
    reveal_strlit("id");
    reveal_strlit("type");
    reveal_strlit("sequence_number");
    reveal_strlit("title");
    reveal_strlit("created_at");
    reveal_strlit("updated_at");
    reveal_strlit("content");
    reveal_strlit("created_by");
    reveal_strlit("tags");
    reveal_strlit("status");
    reveal_strlit("context");
    reveal_strlit("superseded_by");
    reveal_strlit("consequences");
    assert("id"@.len() == 2 && "type"@.len() == 4 && "sequence_number"@.len() == 15 && "title"@.len() == 5);
    assert("created_at"@.len() == 10 && "updated_at"@.len() == 10 && "content"@.len() == 7);
    assert("created_by"@.len() == 10 && "tags"@.len() == 4);
    assert("status"@.len() == 6);
    assert("context"@.len() == 7);
    assert("superseded_by"@.len() == 13);
    assert("consequences"@.len() == 12);
    assert("content"@[5] != "context"@[5]);
    lemma_lookup(f, 9);
    lemma_lookup(f, 10);
    lemma_lookup(f, 11);
    lemma_lookup(f, 12);
}

/// The record a decision is stored as: the fields every entity has (the `type`
/// being `decision`), then its own; an absent optional field, or an instant chrono
/// cannot print, is stored as neither text nor list.
pub fn decision_record(d: &Decision) -> (r: Record)
    ensures
        written_decision(r.fields@, *d),
{
    let mut f = base_fields(&d.base, "decision");
    f.push(named("status", FieldValue::Text(String::from_str(d.status.as_str()))));
    f.push(named("context", text_value(crate::entity::copy_opt(&d.context))));
    f.push(named("superseded_by", text_value(crate::entity::copy_opt(&d.superseded_by))));
    f.push(named("consequences", list_value(&d.consequences)));
    proof {
        lemma_decision_written(f@, *d);
    }
    Record { fields: f }
}

/// Reading back a decision's record gives back what was written: the same UUID,
/// title, sequence number, content, creator and tags; the instants chrono reads
/// from the texts it printed; and the decision's own fields.
pub proof fn lemma_decision_read_back(f: Seq<(String, FieldValue)>, d: Decision, e: Decision)
    requires
        written_decision(f, d),
        decision_read(f, e),
    ensures
        read_back_base(e.base, d.base),
        e.status == decision_status_read(Some(d.status.name())),
        opt_view(e.context) == opt_view(d.context),
        opt_view(e.superseded_by) == opt_view(d.superseded_by),
        views(e.consequences@) == views(d.consequences@),
{
}

/// What a record written for a task says of it.
pub open spec fn written_task(f: Seq<(String, FieldValue)>, t: Task) -> bool {
    &&& written_base(f, t.base)
    &&& text_of(f, "status"@) == Some(t.status.name())
    &&& text_of(f, "priority"@) == Some(t.priority.name())
    &&& text_of(f, "due_date"@) == match t.due_date { Some(x) => Some(date_text(x)), None => None }
    &&& text_of(f, "assignee"@) == opt_view(t.assignee)
}

/// The shape of a record written for a task.
pub open spec fn task_shape(f: Seq<(String, FieldValue)>, t: Task) -> bool {
    &&& base_shape(f, t.base, "task"@)
    &&& f.len() == 13
    &&& f[9].0@ == "status"@ && value_text(f[9].1) == Some(t.status.name())
    &&& f[10].0@ == "priority"@ && value_text(f[10].1) == Some(t.priority.name())
    &&& f[11].0@ == "due_date"@ && value_text(f[11].1) == match t.due_date { Some(x) => Some(date_text(x)), None => None }
    &&& f[12].0@ == "assignee"@ && value_text(f[12].1) == opt_view(t.assignee)
}

proof fn lemma_task_written(f: Seq<(String, FieldValue)>, t: Task)
    requires
        task_shape(f, t),
    ensures
        written_task(f, t),
{
    lemma_base_written(f, t.base, "task"@);
    reveal_strlit("id");
    reveal_strlit("type");
    reveal_strlit("sequence_number");
    reveal_strlit("title");
    reveal_strlit("created_at");
    reveal_strlit("updated_at");
    reveal_strlit("content");
    reveal_strlit("created_by");
    reveal_strlit("tags");
    reveal_strlit("status");
    reveal_strlit("priority");
    reveal_strlit("due_date");
    reveal_strlit("assignee");
    assert("id"@.len() == 2 && "type"@.len() == 4 && "sequence_number"@.len() == 15 && "title"@.len() == 5);
    assert("created_at"@.len() == 10 && "updated_at"@.len() == 10 && "content"@.len() == 7);
    assert("created_by"@.len() == 10 && "tags"@.len() == 4);
    assert("status"@.len() == 6);
    assert("priority"@.len() == 8);
    assert("due_date"@.len() == 8);
    assert("assignee"@.len() == 8);
    assert("priority"@[0] != "due_date"@[0]);
    assert("priority"@[0] != "assignee"@[0]);
    assert("due_date"@[0] != "assignee"@[0]);
    lemma_lookup(f, 9);
    lemma_lookup(f, 10);
    lemma_lookup(f, 11);
    lemma_lookup(f, 12);
}

/// The record a task is stored as: the fields every entity has (the `type`
/// being `task`), then its own; an absent optional field, or an instant chrono
/// cannot print, is stored as neither text nor list.
pub fn task_record(t: &Task) -> (r: Record)
    ensures
        written_task(r.fields@, *t),
{
    let mut f = base_fields(&t.base, "task");
    f.push(named("status", FieldValue::Text(String::from_str(t.status.as_str()))));
    f.push(named("priority", FieldValue::Text(String::from_str(t.priority.as_str()))));
    let due = match &t.due_date {
        Some(x) => Some(x.to_text()),
        None => None,
    };
    f.push(named("due_date", text_value(due)));
    f.push(named("assignee", text_value(crate::entity::copy_opt(&t.assignee))));
    proof {
        lemma_task_written(f@, *t);
    }
    Record { fields: f }
}

/// Reading back a task's record gives back what was written: the same UUID,
/// title, sequence number, content, creator and tags; the instants chrono reads
/// from the texts it printed; and the task's own fields.
pub proof fn lemma_task_read_back(f: Seq<(String, FieldValue)>, t: Task, e: Task)
    requires
        written_task(f, t),
        task_read(f, e),
    ensures
        read_back_base(e.base, t.base),
        e.status == task_status_read(Some(t.status.name())),
        e.priority == task_priority_read(Some(t.priority.name())),
        e.due_date == due_read(match t.due_date { Some(x) => Some(date_text(x)), None => None }),
        opt_view(e.assignee) == opt_view(t.assignee),
{
}

/// What a record written for a note says of it.
pub open spec fn written_note(f: Seq<(String, FieldValue)>, n: Note) -> bool {
    &&& written_base(f, n.base)
    &&& text_of(f, "note_type"@) == opt_view(n.note_type)
}

/// The shape of a record written for a note.
pub open spec fn note_shape(f: Seq<(String, FieldValue)>, n: Note) -> bool {
    &&& base_shape(f, n.base, "note"@)
    &&& f.len() == 10
    &&& f[9].0@ == "note_type"@ && value_text(f[9].1) == opt_view(n.note_type)
}

proof fn lemma_note_written(f: Seq<(String, FieldValue)>, n: Note)
    requires
        note_shape(f, n),
    ensures
        written_note(f, n),
{
    lemma_base_written(f, n.base, "note"@);
    reveal_strlit("id");
    reveal_strlit("type");
    reveal_strlit("sequence_number");
    reveal_strlit("title");
    reveal_strlit("created_at");
    reveal_strlit("updated_at");
    reveal_strlit("content");
    reveal_strlit("created_by");
    reveal_strlit("tags");
    reveal_strlit("note_type");
    assert("id"@.len() == 2 && "type"@.len() == 4 && "sequence_number"@.len() == 15 && "title"@.len() == 5);
    assert("created_at"@.len() == 10 && "updated_at"@.len() == 10 && "content"@.len() == 7);
    assert("created_by"@.len() == 10 && "tags"@.len() == 4);
    assert("note_type"@.len() == 9);

    lemma_lookup(f, 9);
}

/// The record a note is stored as: the fields every entity has (the `type`
/// being `note`), then its own; an absent optional field, or an instant chrono
/// cannot print, is stored as neither text nor list.
pub fn note_record(n: &Note) -> (r: Record)
    ensures
        written_note(r.fields@, *n),
{
    let mut f = base_fields(&n.base, "note");
    f.push(named("note_type", text_value(crate::entity::copy_opt(&n.note_type))));
    proof {
        lemma_note_written(f@, *n);
    }
    Record { fields: f }
}

/// Reading back a note's record gives back what was written: the same UUID,
/// title, sequence number, content, creator and tags; the instants chrono reads
/// from the texts it printed; and the note's own fields.
pub proof fn lemma_note_read_back(f: Seq<(String, FieldValue)>, n: Note, e: Note)
    requires
        written_note(f, n),
        note_read(f, e),
    ensures
        read_back_base(e.base, n.base),
        opt_view(e.note_type) == opt_view(n.note_type),
{
}

/// What a record written for a prompt says of it.
pub open spec fn written_prompt(f: Seq<(String, FieldValue)>, q: Prompt) -> bool {
    &&& written_base(f, q.base)
    &&& text_of(f, "template"@) == opt_view(q.template)
    &&& items_of(f, "variables"@) == views(q.variables@)
    &&& text_of(f, "output_schema"@) == opt_view(q.output_schema)
}

/// The shape of a record written for a prompt.
pub open spec fn prompt_shape(f: Seq<(String, FieldValue)>, q: Prompt) -> bool {
    &&& base_shape(f, q.base, "prompt"@)
    &&& f.len() == 12
    &&& f[9].0@ == "template"@ && value_text(f[9].1) == opt_view(q.template)
    &&& f[10].0@ == "variables"@ && (f[10].1 matches FieldValue::List(items) && texts(items@) == views(q.variables@))
    &&& f[11].0@ == "output_schema"@ && value_text(f[11].1) == opt_view(q.output_schema)
}

proof fn lemma_prompt_written(f: Seq<(String, FieldValue)>, q: Prompt)
    requires
        prompt_shape(f, q),
    ensures
        written_prompt(f, q),
{
    lemma_base_written(f, q.base, "prompt"@);
    reveal_strlit("id");
    reveal_strlit("type");
    reveal_strlit("sequence_number");
    reveal_strlit("title");
    reveal_strlit("created_at");
    reveal_strlit("updated_at");
    reveal_strlit("content");
    reveal_strlit("created_by");
    reveal_strlit("tags");
    reveal_strlit("template");
    reveal_strlit("variables");
    reveal_strlit("output_schema");
    assert("id"@.len() == 2 && "type"@.len() == 4 && "sequence_number"@.len() == 15 && "title"@.len() == 5);
    assert("created_at"@.len() == 10 && "updated_at"@.len() == 10 && "content"@.len() == 7);
    assert("created_by"@.len() == 10 && "tags"@.len() == 4);
    assert("template"@.len() == 8);
    assert("variables"@.len() == 9);
    assert("output_schema"@.len() == 13);

    lemma_lookup(f, 9);
    lemma_lookup(f, 10);
    lemma_lookup(f, 11);
}

/// The record a prompt is stored as: the fields every entity has (the `type`
/// being `prompt`), then its own; an absent optional field, or an instant chrono
/// cannot print, is stored as neither text nor list.
pub fn prompt_record(q: &Prompt) -> (r: Record)
    ensures
        written_prompt(r.fields@, *q),
{
    let mut f = base_fields(&q.base, "prompt");
    f.push(named("template", text_value(crate::entity::copy_opt(&q.template))));
    f.push(named("variables", list_value(&q.variables)));
    f.push(named("output_schema", text_value(crate::entity::copy_opt(&q.output_schema))));
    proof {
        lemma_prompt_written(f@, *q);
    }
    Record { fields: f }
}

/// Reading back a prompt's record gives back what was written: the same UUID,
/// title, sequence number, content, creator and tags; the instants chrono reads
/// from the texts it printed; and the prompt's own fields.
pub proof fn lemma_prompt_read_back(f: Seq<(String, FieldValue)>, q: Prompt, e: Prompt)
    requires
        written_prompt(f, q),
        prompt_read(f, e),
    ensures
        read_back_base(e.base, q.base),
        opt_view(e.template) == opt_view(q.template),
        views(e.variables@) == views(q.variables@),
        opt_view(e.output_schema) == opt_view(q.output_schema),
{
}

/// What a record written for a component says of it.
pub open spec fn written_component(f: Seq<(String, FieldValue)>, c: Component) -> bool {
    &&& written_base(f, c.base)
    &&& text_of(f, "component_type"@) == opt_view(c.component_type)
    &&& text_of(f, "status"@) == Some(c.status.name())
    &&& text_of(f, "owner"@) == opt_view(c.owner)
}

/// The shape of a record written for a component.
pub open spec fn component_shape(f: Seq<(String, FieldValue)>, c: Component) -> bool {
    &&& base_shape(f, c.base, "component"@)
    &&& f.len() == 12
    &&& f[9].0@ == "component_type"@ && value_text(f[9].1) == opt_view(c.component_type)
    &&& f[10].0@ == "status"@ && value_text(f[10].1) == Some(c.status.name())
    &&& f[11].0@ == "owner"@ && value_text(f[11].1) == opt_view(c.owner)
}

proof fn lemma_component_written(f: Seq<(String, FieldValue)>, c: Component)
    requires
        component_shape(f, c),
    ensures
        written_component(f, c),
{
    lemma_base_written(f, c.base, "component"@);
    reveal_strlit("id");
    reveal_strlit("type");
    reveal_strlit("sequence_number");
    reveal_strlit("title");
    reveal_strlit("created_at");
    reveal_strlit("updated_at");
    reveal_strlit("content");
    reveal_strlit("created_by");
    reveal_strlit("tags");
    reveal_strlit("component_type");
    reveal_strlit("status");
    reveal_strlit("owner");
    assert("id"@.len() == 2 && "type"@.len() == 4 && "sequence_number"@.len() == 15 && "title"@.len() == 5);
    assert("created_at"@.len() == 10 && "updated_at"@.len() == 10 && "content"@.len() == 7);
    assert("created_by"@.len() == 10 && "tags"@.len() == 4);
    assert("component_type"@.len() == 14);
    assert("status"@.len() == 6);
    assert("owner"@.len() == 5);
    assert("title"@[0] != "owner"@[0]);
    lemma_lookup(f, 9);
    lemma_lookup(f, 10);
    lemma_lookup(f, 11);
}

/// The record a component is stored as: the fields every entity has (the `type`
/// being `component`), then its own; an absent optional field, or an instant chrono
/// cannot print, is stored as neither text nor list.
pub fn component_record(c: &Component) -> (r: Record)
    ensures
        written_component(r.fields@, *c),
{
    let mut f = base_fields(&c.base, "component");
    f.push(named("component_type", text_value(crate::entity::copy_opt(&c.component_type))));
    f.push(named("status", FieldValue::Text(String::from_str(c.status.as_str()))));
    f.push(named("owner", text_value(crate::entity::copy_opt(&c.owner))));
    proof {
        lemma_component_written(f@, *c);
    }
    Record { fields: f }
}

/// Reading back a component's record gives back what was written: the same UUID,
/// title, sequence number, content, creator and tags; the instants chrono reads
/// from the texts it printed; and the component's own fields.
pub proof fn lemma_component_read_back(f: Seq<(String, FieldValue)>, c: Component, e: Component)
    requires
        written_component(f, c),
        component_read(f, e),
    ensures
        read_back_base(e.base, c.base),
        opt_view(e.component_type) == opt_view(c.component_type),
        e.status == component_status_read(Some(c.status.name())),
        opt_view(e.owner) == opt_view(c.owner),
{
}

/// What a record written for a link says of it.
pub open spec fn written_link(f: Seq<(String, FieldValue)>, l: Link) -> bool {
    &&& written_base(f, l.base)
    &&& text_of(f, "url"@) == Some(l.url@)
    &&& text_of(f, "link_type"@) == opt_view(l.link_type)
}

/// The shape of a record written for a link.
pub open spec fn link_shape(f: Seq<(String, FieldValue)>, l: Link) -> bool {
    &&& base_shape(f, l.base, "link"@)
    &&& f.len() == 11
    &&& f[9].0@ == "url"@ && value_text(f[9].1) == Some(l.url@)
    &&& f[10].0@ == "link_type"@ && value_text(f[10].1) == opt_view(l.link_type)
}

proof fn lemma_link_written(f: Seq<(String, FieldValue)>, l: Link)
    requires
        link_shape(f, l),
    ensures
        written_link(f, l),
{
    lemma_base_written(f, l.base, "link"@);
    reveal_strlit("id");
    reveal_strlit("type");
    reveal_strlit("sequence_number");
    reveal_strlit("title");
    reveal_strlit("created_at");
    reveal_strlit("updated_at");
    reveal_strlit("content");
    reveal_strlit("created_by");
    reveal_strlit("tags");
    reveal_strlit("url");
    reveal_strlit("link_type");
    assert("id"@.len() == 2 && "type"@.len() == 4 && "sequence_number"@.len() == 15 && "title"@.len() == 5);
    assert("created_at"@.len() == 10 && "updated_at"@.len() == 10 && "content"@.len() == 7);
    assert("created_by"@.len() == 10 && "tags"@.len() == 4);
    assert("url"@.len() == 3);
    assert("link_type"@.len() == 9);

    lemma_lookup(f, 9);
    lemma_lookup(f, 10);
}

/// The record a link is stored as: the fields every entity has (the `type`
/// being `link`), then its own; an absent optional field, or an instant chrono
/// cannot print, is stored as neither text nor list.
pub fn link_record(l: &Link) -> (r: Record)
    ensures
        written_link(r.fields@, *l),
{
    let mut f = base_fields(&l.base, "link");
    f.push(named("url", FieldValue::Text(l.url.clone())));
    f.push(named("link_type", text_value(crate::entity::copy_opt(&l.link_type))));
    proof {
        lemma_link_written(f@, *l);
    }
    Record { fields: f }
}

/// Reading back a link's record gives back what was written: the same UUID,
/// title, sequence number, content, creator and tags; the instants chrono reads
/// from the texts it printed; and the link's own fields.
pub proof fn lemma_link_read_back(f: Seq<(String, FieldValue)>, l: Link, e: Link)
    requires
        written_link(f, l),
        link_read(f, e),
    ensures
        read_back_base(e.base, l.base),
        e.url@ == l.url@,
        opt_view(e.link_type) == opt_view(l.link_type),
{
}

fn table_value(v: &Vec<(String, String)>) -> (r: FieldValue)
    ensures
        r matches FieldValue::Table(entries) && text_pairs(entries@) == pair_views(v@),
{
    let mut entries: Vec<(String, Option<String>)> = Vec::new();
    let mut i: usize = 0;
    while i < v.len()
        invariant
            i <= v.len(),
            text_pairs(entries@) == pair_views(v@.take(i as int)),
        decreases v.len() - i,
    {
        let ghost old_entries = entries@;
        entries.push((v[i].0.clone(), Some(v[i].1.clone())));
        assert(entries@.drop_last() =~= old_entries);
        assert(pair_views(v@.take(i + 1)) =~= pair_views(v@.take(i as int)).push((v@[i as int].0@, v@[i as int].1@)));
        i = i + 1;
    }
    assert(v@.take(v.len() as int) =~= v@);
    FieldValue::Table(entries)
}

/// What a record written for a relation says of it.
pub open spec fn written_relation(f: Seq<(String, FieldValue)>, r: Relation) -> bool {
    &&& text_of(f, "source_id"@) == Some(uuid_text(r.source_id))
    &&& text_of(f, "source_type"@) == Some(r.source_type@)
    &&& text_of(f, "target_id"@) == Some(uuid_text(r.target_id))
    &&& text_of(f, "target_type"@) == Some(r.target_type@)
    &&& text_of(f, "relation_type"@) == Some(r.relation_type.name())
    &&& text_of(f, "created_at"@) == rfc3339_text(r.created_at.secs, r.created_at.nanos)
    &&& (printable(r.created_at) ==> text_of(f, "created_at"@) is Some)
    &&& text_of(f, "created_by"@) == opt_view(r.created_by)
    &&& pairs_of(f, "properties"@) == pair_views(r.properties@)
}

/// The record a relation is stored as.
pub fn relation_record(r: &Relation) -> (out: Record)
    ensures
        written_relation(out.fields@, *r),
{
    let mut f: Vec<(String, FieldValue)> = Vec::new();
    f.push(named("source_id", FieldValue::Text(uuid_string(r.source_id))));
    f.push(named("source_type", FieldValue::Text(r.source_type.clone())));
    f.push(named("target_id", FieldValue::Text(uuid_string(r.target_id))));
    f.push(named("target_type", FieldValue::Text(r.target_type.clone())));
    f.push(named("relation_type", FieldValue::Text(String::from_str(r.relation_type.as_str()))));
    f.push(named("created_at", text_value(format_rfc3339(&r.created_at))));
    f.push(named("created_by", text_value(crate::entity::copy_opt(&r.created_by))));
    f.push(named("properties", table_value(&r.properties)));
    proof {
        reveal_strlit("source_id");
        reveal_strlit("source_type");
        reveal_strlit("target_id");
        reveal_strlit("target_type");
        reveal_strlit("relation_type");
        reveal_strlit("created_at");
        reveal_strlit("created_by");
        reveal_strlit("properties");
        assert("source_id"@.len() == 9 && "source_type"@.len() == 11 && "target_id"@.len() == 9);
        assert("target_type"@.len() == 11 && "relation_type"@.len() == 13 && "created_at"@.len() == 10);
        assert("created_by"@.len() == 10 && "properties"@.len() == 10);
        assert("source_id"@[0] != "target_id"@[0]);
        assert("source_type"@[0] != "target_type"@[0]);
        assert("created_at"@[8] != "created_by"@[8]);
        assert("created_at"@[0] != "properties"@[0]);
        assert("created_by"@[0] != "properties"@[0]);
        let g = f@;
        lemma_lookup(g, 0);
        lemma_lookup(g, 1);
        lemma_lookup(g, 2);
        lemma_lookup(g, 3);
        lemma_lookup(g, 4);
        lemma_lookup(g, 5);
        lemma_lookup(g, 6);
        lemma_lookup(g, 7);
    }
    Record { fields: f }
}

/// Reading back a relation's record gives back what was written: the same
/// source, target, their types, the relation type (its name read
/// case-insensitively), creator and properties, and the instant chrono reads
/// from the text it printed.
pub proof fn lemma_relation_read_back(f: Seq<(String, FieldValue)>, r: Relation, e: Relation)
    requires
        written_relation(f, r),
        relation_read(f, e),
    ensures
        e.source_id == r.source_id,
        e.source_type@ == r.source_type@,
        e.target_id == r.target_id,
        e.target_type@ == r.target_type@,
        Some(e.relation_type) == RelationType::from_name(lowercase(r.relation_type.name())),
        Some(e.created_at) == instant_of(rfc3339_text(r.created_at.secs, r.created_at.nanos)->0),
        opt_view(e.created_by) == opt_view(r.created_by),
        pair_views(e.properties@) == pair_views(r.properties@),
{
}

} // verus!
