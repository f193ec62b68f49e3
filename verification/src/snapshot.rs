//! Markdown snapshots of the knowledge base: file names, front matter, page
//! bodies, the task lists and the index page.
use vstd::prelude::*;
use vstd::string::StringExecFns;
use crate::clock::{date_text, not_earlier, uuid_string, uuid_text, CalendarDate, Timestamp};
use crate::entity::{
    copy_opt, copy_strings, Component, Decision, Link, Note, Prompt, Task, TaskPriority,
    TaskStatus,
};
use crate::slug::{slug_of, slugify};
use crate::text::{decimal, join, join_seq, push_decimal, push_padded3, push_str, str_eq, views, zero_padded};

verus! {

// ---------------------------------------------------------------------------
// Statistics and generated files
// ---------------------------------------------------------------------------

/// How many entities of each kind a snapshot holds, and the files it wrote.
#[derive(Debug)]
pub struct SnapshotStats {
    pub decisions: usize,
    pub tasks_total: usize,
    pub tasks_active: usize,
    pub tasks_completed: usize,
    pub notes: usize,
    pub prompts: usize,
    pub components: usize,
    pub links: usize,
    pub files_generated: Vec<String>,
}

impl SnapshotStats {
    /// The sum of the entity counts.
    pub open spec fn total(&self) -> int {
        self.decisions + self.tasks_total + self.notes + self.prompts + self.components + self.links
    }

    /// Statistics with every count zero and no file.
    pub fn new() -> (r: Self)
        ensures
            r.total() == 0,
            r.tasks_active == 0 && r.tasks_completed == 0,
            r.files_generated@.len() == 0,
    {
        SnapshotStats {
            decisions: 0,
            tasks_total: 0,
            tasks_active: 0,
            tasks_completed: 0,
            notes: 0,
            prompts: 0,
            components: 0,
            links: 0,
            files_generated: Vec::new(),
        }
    }

    /// Total number of entities.
    pub fn total_entities(&self) -> (r: usize)
        requires
            self.total() <= usize::MAX,
        ensures
            r == self.total(),
    {
        self.decisions + self.tasks_total + self.notes + self.prompts + self.components + self.links
    }
}

/// A file a snapshot wrote: its path below the snapshot directory and how many
/// entities it shows.
#[derive(Debug)]
pub struct GeneratedFile {
    pub relative_path: String,
    pub entity_count: usize,
}

// ---------------------------------------------------------------------------
// File names
// ---------------------------------------------------------------------------

/// The name a page gets from a slug: the slug itself when it is not taken yet,
/// otherwise the slug and the sequence number joined by a hyphen.
pub open spec fn unique_stem(slug: Seq<char>, sequence: u32, used: Seq<Seq<char>>) -> Seq<char> {
    if used.contains(slug) {
        slug + "-"@ + decimal(sequence as nat)
    } else {
        slug
    }
}

/// `used` with `x` added unless it is there already.
pub open spec fn set_add(used: Seq<Seq<char>>, x: Seq<char>) -> Seq<Seq<char>> {
    if used.contains(x) {
        used
    } else {
        used.push(x)
    }
}

/// Picks a file name for a page from its slug, avoiding the names already used:
/// `{slug}.md`, or `{slug}-{sequence}.md` when the slug is taken. The chosen stem
/// is recorded as used.
pub fn unique_filename(base_slug: &str, sequence: u32, used_slugs: &mut Vec<String>) -> (r: String)
    ensures
        r@ == unique_stem(base_slug@, sequence, views(old(used_slugs)@)) + ".md"@,
        views(final(used_slugs)@) == set_add(views(old(used_slugs)@), unique_stem(base_slug@, sequence, views(old(used_slugs)@))),
{
    let stem = if crate::lookup::has_exact_tag(used_slugs, base_slug) {
        let mut u = String::from_str(base_slug);
        push_str(&mut u, "-");
        push_decimal(&mut u, sequence as u64);
        u
    } else {
        String::from_str(base_slug)
    };
    if !crate::lookup::has_exact_tag(used_slugs, stem.as_str()) {
        let ghost before = used_slugs@;
        used_slugs.push(stem.clone());
        assert(views(used_slugs@) =~= views(before).push(stem@));
    }
    let mut r = stem;
    push_str(&mut r, ".md");
    r
}

/// A name chosen for a new page is recorded as used, and it is new whenever the
/// slug is new or the slug with the sequence number is.
pub proof fn lemma_unique_filename(slug: Seq<char>, sequence: u32, used: Seq<Seq<char>>)
    ensures
        set_add(used, unique_stem(slug, sequence, used)).contains(unique_stem(slug, sequence, used)),
        !used.contains(slug) || !used.contains(slug + "-"@ + decimal(sequence as nat))
            ==> !used.contains(unique_stem(slug, sequence, used)),
{
    let u = unique_stem(slug, sequence, used);
    if !used.contains(u) {
        assert(used.push(u)[used.len() as int] == u);
    }
}

/// The file name of a decision's page: `{sequence:03}-{slug}.md`.
pub open spec fn decision_file_name(d: Decision) -> Seq<char> {
    zero_padded(d.base.sequence_number as nat, 3) + "-"@ + slug_of(d.base.title@) + ".md"@
}

/// The file name of a decision's page.
pub fn decision_filename(d: &Decision) -> (r: String)
    ensures
        r@ == decision_file_name(*d),
{
    let mut r = String::new();
    push_padded3(&mut r, d.base.sequence_number as u64);
    push_str(&mut r, "-");
    let slug = slugify(d.base.title.as_str());
    push_str(&mut r, slug.as_str());
    push_str(&mut r, ".md");
    assert(r@ =~= decision_file_name(*d));
    r
}

// ---------------------------------------------------------------------------
// Front matter
// ---------------------------------------------------------------------------

/// The front matter of a decision's page.
#[derive(Debug)]
pub struct DecisionFrontmatter {
    pub id: String,
    pub sequence: u32,
    pub title: String,
    pub status: String,
    pub created: String,
    pub updated: String,
    pub created_by: Option<String>,
    pub tags: Vec<String>,
    pub superseded_by: Option<String>,
}

impl DecisionFrontmatter {
    /// The front matter of a decision: its identity, title, status, the dates it
    /// was created and updated, its author, tags and successor.
    pub fn from_decision(d: &Decision) -> (r: Self)
        ensures
            r.id@ == uuid_text(d.base.id),
            r.sequence == d.base.sequence_number,
            r.title == d.base.title,
            r.status@ == d.status.name(),
            r.created@ == date_text(d.base.created_at.date),
            r.updated@ == date_text(d.base.updated_at.date),
            r.created_by == d.base.created_by,
            r.tags@ == d.base.tags@,
            r.superseded_by == d.superseded_by,
    {
        DecisionFrontmatter {
            id: uuid_string(d.base.id),
            sequence: d.base.sequence_number,
            title: d.base.title.clone(),
            status: String::from_str(d.status.as_str()),
            created: d.base.created_at.date_string(),
            updated: d.base.updated_at.date_string(),
            created_by: copy_opt(&d.base.created_by),
            tags: copy_strings(&d.base.tags),
            superseded_by: copy_opt(&d.superseded_by),
        }
    }
}

/// The front matter of a note's page.
#[derive(Debug)]
pub struct NoteFrontmatter {
    pub id: String,
    pub sequence: u32,
    pub title: String,
    pub note_type: Option<String>,
    pub created: String,
    pub updated: String,
    pub created_by: Option<String>,
    pub tags: Vec<String>,
}

impl NoteFrontmatter {
    /// The front matter of a note.
    pub fn from_note(n: &Note) -> (r: Self)
        ensures
            r.id@ == uuid_text(n.base.id),
            r.sequence == n.base.sequence_number,
            r.title == n.base.title,
            r.note_type == n.note_type,
            r.created@ == date_text(n.base.created_at.date),
            r.updated@ == date_text(n.base.updated_at.date),
            r.created_by == n.base.created_by,
            r.tags@ == n.base.tags@,
    {
        NoteFrontmatter {
            id: uuid_string(n.base.id),
            sequence: n.base.sequence_number,
            title: n.base.title.clone(),
            note_type: copy_opt(&n.note_type),
            created: n.base.created_at.date_string(),
            updated: n.base.updated_at.date_string(),
            created_by: copy_opt(&n.base.created_by),
            tags: copy_strings(&n.base.tags),
        }
    }
}

/// The front matter of a prompt's page.
#[derive(Debug)]
pub struct PromptFrontmatter {
    pub id: String,
    pub sequence: u32,
    pub title: String,
    pub created: String,
    pub updated: String,
    pub created_by: Option<String>,
    pub tags: Vec<String>,
    pub variables: Vec<String>,
}

impl PromptFrontmatter {
    /// The front matter of a prompt.
    pub fn from_prompt(p: &Prompt) -> (r: Self)
        ensures
            r.id@ == uuid_text(p.base.id),
            r.sequence == p.base.sequence_number,
            r.title == p.base.title,
            r.created@ == date_text(p.base.created_at.date),
            r.updated@ == date_text(p.base.updated_at.date),
            r.created_by == p.base.created_by,
            r.tags@ == p.base.tags@,
            r.variables@ == p.variables@,
    {
        PromptFrontmatter {
            id: uuid_string(p.base.id),
            sequence: p.base.sequence_number,
            title: p.base.title.clone(),
            created: p.base.created_at.date_string(),
            updated: p.base.updated_at.date_string(),
            created_by: copy_opt(&p.base.created_by),
            tags: copy_strings(&p.base.tags),
            variables: copy_strings(&p.variables),
        }
    }
}

/// The front matter of a component's page.
#[derive(Debug)]
pub struct ComponentFrontmatter {
    pub id: String,
    pub sequence: u32,
    pub title: String,
    pub component_type: Option<String>,
    pub status: String,
    pub owner: Option<String>,
    pub created: String,
    pub updated: String,
    pub created_by: Option<String>,
    pub tags: Vec<String>,
}

impl ComponentFrontmatter {
    /// The front matter of a component.
    pub fn from_component(c: &Component) -> (r: Self)
        ensures
            r.id@ == uuid_text(c.base.id),
            r.sequence == c.base.sequence_number,
            r.title == c.base.title,
            r.component_type == c.component_type,
            r.status@ == c.status.name(),
            r.owner == c.owner,
            r.created@ == date_text(c.base.created_at.date),
            r.updated@ == date_text(c.base.updated_at.date),
            r.created_by == c.base.created_by,
            r.tags@ == c.base.tags@,
    {
        ComponentFrontmatter {
            id: uuid_string(c.base.id),
            sequence: c.base.sequence_number,
            title: c.base.title.clone(),
            component_type: copy_opt(&c.component_type),
            status: String::from_str(c.status.as_str()),
            owner: copy_opt(&c.owner),
            created: c.base.created_at.date_string(),
            updated: c.base.updated_at.date_string(),
            created_by: copy_opt(&c.base.created_by),
            tags: copy_strings(&c.base.tags),
        }
    }
}

/// The front matter of a link's page.
#[derive(Debug)]
pub struct LinkFrontmatter {
    pub id: String,
    pub sequence: u32,
    pub title: String,
    pub url: String,
    pub link_type: Option<String>,
    pub created: String,
    pub updated: String,
    pub created_by: Option<String>,
    pub tags: Vec<String>,
}

impl LinkFrontmatter {
    /// The front matter of a link.
    pub fn from_link(l: &Link) -> (r: Self)
        ensures
            r.id@ == uuid_text(l.base.id),
            r.sequence == l.base.sequence_number,
            r.title == l.base.title,
            r.url == l.url,
            r.link_type == l.link_type,
            r.created@ == date_text(l.base.created_at.date),
            r.updated@ == date_text(l.base.updated_at.date),
            r.created_by == l.base.created_by,
            r.tags@ == l.base.tags@,
    {
        LinkFrontmatter {
            id: uuid_string(l.base.id),
            sequence: l.base.sequence_number,
            title: l.base.title.clone(),
            url: l.url.clone(),
            link_type: copy_opt(&l.link_type),
            created: l.base.created_at.date_string(),
            updated: l.base.updated_at.date_string(),
            created_by: copy_opt(&l.base.created_by),
            tags: copy_strings(&l.base.tags),
        }
    }
}

// ---------------------------------------------------------------------------
// Page bodies
// ---------------------------------------------------------------------------

/// The text of an optional string when it is present and not empty.
pub open spec fn filled(o: Option<String>) -> Option<Seq<char>> {
    match o {
        Some(s) => if s@.len() > 0 {
            Some(s@)
        } else {
            None
        },
        None => None,
    }
}

/// One bullet line per item: `- {item}` and a line break.
pub open spec fn bullets(items: Seq<Seq<char>>) -> Seq<char>
    decreases items.len(),
{
    if items.len() == 0 {
        Seq::empty()
    } else {
        bullets(items.drop_last()) + "- "@ + items.last() + "\n"@
    }
}

/// The body of a decision's page: a Context section, then the decision text
/// (under a Decision heading when a context precedes it), then a Consequences
/// list; each part only when it has text.
pub open spec fn decision_body_text(d: Decision) -> Seq<char> {
    let context_part = match filled(d.context) {
        Some(c) => "\n## Context\n\n"@ + c + "\n"@,
        None => Seq::empty(),
    };
    let content_part = match filled(d.base.content) {
        Some(c) => (if context_part.len() > 0 { "\n## Decision\n\n"@ } else { Seq::empty() }) + c + "\n"@,
        None => Seq::empty(),
    };
    let consequences_part = if d.consequences@.len() > 0 {
        "\n## Consequences\n\n"@ + bullets(views(d.consequences@))
    } else {
        Seq::empty()
    };
    context_part + content_part + consequences_part
}

/// The markdown body of a decision's page.
pub fn decision_body(d: &Decision) -> (r: String)
    ensures
        r@ == decision_body_text(*d),
{
    let mut body = String::new();
    let ghost ctx_part = match filled(d.context) {
        Some(c) => "\n## Context\n\n"@ + c + "\n"@,
        None => Seq::<char>::empty(),
    };
    if let Some(context) = &d.context {
        if context.unicode_len() > 0 {
            push_str(&mut body, "\n## Context\n\n");
            push_str(&mut body, context.as_str());
            push_str(&mut body, "\n");
        }
    }
    assert(body@ =~= ctx_part);
    proof {
        reveal_strlit("\n## Context\n\n");
    }
    if let Some(content) = &d.base.content {
        if content.unicode_len() > 0 {
            if body.unicode_len() > 0 {
                push_str(&mut body, "\n## Decision\n\n");
            }
            push_str(&mut body, content.as_str());
            push_str(&mut body, "\n");
        }
    }
    let ghost upto = body@;
    if d.consequences.len() > 0 {
        push_str(&mut body, "\n## Consequences\n\n");
        let ghost head = body@;
        let ghost items = views(d.consequences@);
        let mut i: usize = 0;
        while i < d.consequences.len()
            invariant
                i <= d.consequences@.len(),
                items == views(d.consequences@),
                body@ == head + bullets(items.take(i as int)),
            decreases d.consequences.len() - i,
        {
            assert(items.take(i + 1).drop_last() =~= items.take(i as int));
            push_str(&mut body, "- ");
            push_str(&mut body, d.consequences[i].as_str());
            push_str(&mut body, "\n");
            assert(body@ =~= head + bullets(items.take(i + 1)));
            i = i + 1;
        }
        assert(items.take(d.consequences.len() as int) =~= items);
    }
    assert(body@ =~= decision_body_text(*d));
    body
}

/// The body of a prompt's page: its description, a Template section, and an
/// Output Schema section in a JSON code block (closed on a line of its own);
/// each part only when it has text.
pub open spec fn prompt_body_text(p: Prompt) -> Seq<char> {
    let content_part = match filled(p.base.content) {
        Some(c) => c + "\n"@,
        None => Seq::empty(),
    };
    let template_part = match filled(p.template) {
        Some(t) => "\n## Template\n\n"@ + t + "\n"@,
        None => Seq::empty(),
    };
    let schema_part = match filled(p.output_schema) {
        Some(s) => "\n## Output Schema\n\n"@ + "```json\n"@ + s + (if s.last() == '\n' {
            Seq::empty()
        } else {
            "\n"@
        }) + "```\n"@,
        None => Seq::empty(),
    };
    content_part + template_part + schema_part
}

/// The markdown body of a prompt's page.
pub fn prompt_body(p: &Prompt) -> (r: String)
    ensures
        r@ == prompt_body_text(*p),
{
    let mut body = String::new();
    if let Some(content) = &p.base.content {
        if content.unicode_len() > 0 {
            push_str(&mut body, content.as_str());
            push_str(&mut body, "\n");
        }
    }
    if let Some(template) = &p.template {
        if template.unicode_len() > 0 {
            push_str(&mut body, "\n## Template\n\n");
            push_str(&mut body, template.as_str());
            push_str(&mut body, "\n");
        }
    }
    if let Some(schema) = &p.output_schema {
        let n = schema.unicode_len();
        if n > 0 {
            push_str(&mut body, "\n## Output Schema\n\n");
            push_str(&mut body, "```json\n");
            push_str(&mut body, schema.as_str());
            if schema.as_str().get_char(n - 1) != '\n' {
                push_str(&mut body, "\n");
            }
            push_str(&mut body, "```\n");
        }
    }
    assert(body@ =~= prompt_body_text(*p));
    body
}

// ---------------------------------------------------------------------------
// Task lists
// ---------------------------------------------------------------------------

/// The first seven characters of a UUID's text.
pub open spec fn short_id(id: u128) -> Seq<char> {
    uuid_text(id).subrange(0, 7)
}

/// The details shown under a task: its due date, assignee and tags, where it has them.
pub open spec fn task_meta(t: Task) -> Seq<Seq<char>> {
    let due = match t.due_date {
        Some(d) => seq!["Due: "@ + date_text(d)],
        None => Seq::empty(),
    };
    let assignee = match t.assignee {
        Some(a) => seq!["Assignee: "@ + a@],
        None => Seq::empty(),
    };
    let tags = if t.base.tags@.len() > 0 {
        seq!["Tags: "@ + join_seq(views(t.base.tags@), ", "@)]
    } else {
        Seq::empty()
    };
    due + assignee + tags
}

/// The line of a task in the active list: a checkbox (ticked when done), the
/// bold title, `#` and the sequence number, the short UUID, a blocked marker for
/// a blocked task; then, on an indented line, its details joined by ` | `.
pub open spec fn task_line_text(t: Task) -> Seq<char> {
    let checkbox = if t.status == TaskStatus::Done { "[x]"@ } else { "[ ]"@ };
    let blocked = if t.status == TaskStatus::Blocked { " `[blocked]`"@ } else { Seq::empty() };
    let meta = task_meta(t);
    "- "@ + checkbox + " **"@ + t.base.title@ + "** `#"@ + decimal(t.base.sequence_number as nat) + "` `("@
        + short_id(t.base.id) + ")`"@ + blocked + (if meta.len() > 0 {
        "\n  "@ + join_seq(meta, " | "@)
    } else {
        Seq::empty()
    })
}

fn task_meta_parts(t: &Task) -> (r: Vec<String>)
    ensures
        views(r@) == task_meta(*t),
{
    let mut parts: Vec<String> = Vec::new();
    if let Some(d) = &t.due_date {
        let mut s = String::from_str("Due: ");
        let dt = d.to_text();
        push_str(&mut s, dt.as_str());
        parts.push(s);
    }
    if let Some(a) = &t.assignee {
        let mut s = String::from_str("Assignee: ");
        push_str(&mut s, a.as_str());
        parts.push(s);
    }
    if t.base.tags.len() > 0 {
        let mut s = String::from_str("Tags: ");
        let j = join(&t.base.tags, ", ");
        push_str(&mut s, j.as_str());
        parts.push(s);
    }
    assert(views(parts@) =~= task_meta(*t));
    parts
}

fn push_task_head(line: &mut String, t: &Task)
    ensures
        final(line)@ == old(line)@ + "** `#"@ + decimal(t.base.sequence_number as nat) + "` `("@ + short_id(t.base.id) + ")`"@,
{
    push_str(line, "** `#");
    push_decimal(line, t.base.sequence_number as u64);
    push_str(line, "` `(");
    let short = crate::clock::short_uuid(t.base.id);
    push_str(line, short.as_str());
    push_str(line, ")`");
}

/// The line of a task in the active list (see `task_line_text`).
pub fn format_task_line(t: &Task) -> (r: String)
    ensures
        r@ == task_line_text(*t),
{
    let mut line = String::from_str("- ");
    if t.status == TaskStatus::Done {
        push_str(&mut line, "[x]");
    } else {
        push_str(&mut line, "[ ]");
    }
    push_str(&mut line, " **");
    push_str(&mut line, t.base.title.as_str());
    push_task_head(&mut line, t);
    if t.status == TaskStatus::Blocked {
        push_str(&mut line, " `[blocked]`");
    }
    let meta = task_meta_parts(t);
    if meta.len() > 0 {
        push_str(&mut line, "\n  ");
        let j = join(&meta, " | ");
        push_str(&mut line, j.as_str());
    }
    assert(line@ =~= task_line_text(*t));
    line
}

/// The line of a task in the completed list: a ticked checkbox, the bold title,
/// `#` and the sequence number, the short UUID and the date it was last updated;
/// then its tags, on an indented line, where it has some.
pub open spec fn completed_line_text(t: Task) -> Seq<char> {
    "- [x] **"@ + t.base.title@ + "** `#"@ + decimal(t.base.sequence_number as nat) + "` `("@
        + short_id(t.base.id) + ")`"@ + " - Completed "@ + date_text(t.base.updated_at.date) + (if t.base.tags@.len() > 0 {
        "\n  Tags: "@ + join_seq(views(t.base.tags@), ", "@)
    } else {
        Seq::empty()
    })
}

/// The line of a task in the completed list (see `completed_line_text`).
pub fn format_completed_task_line(t: &Task) -> (r: String)
    ensures
        r@ == completed_line_text(*t),
{
    let mut line = String::from_str("- [x] **");
    push_str(&mut line, t.base.title.as_str());
    push_task_head(&mut line, t);
    push_str(&mut line, " - Completed ");
    let d = t.base.updated_at.date_string();
    push_str(&mut line, d.as_str());
    if t.base.tags.len() > 0 {
        push_str(&mut line, "\n  Tags: ");
        let j = join(&t.base.tags, ", ");
        push_str(&mut line, j.as_str());
    }
    assert(line@ =~= completed_line_text(*t));
    line
}

/// Where a task stands in the active list relative to another: dated tasks by
/// due date, soonest first, before undated ones; undated ones by sequence number.
pub open spec fn active_le(a: Task, b: Task) -> bool {
    match (a.due_date, b.due_date) {
        (Some(x), Some(y)) => !crate::clock::date_before(y, x),
        (Some(_), None) => true,
        (None, Some(_)) => false,
        (None, None) => a.base.sequence_number <= b.base.sequence_number,
    }
}

/// Where a task stands in the completed list relative to another: the most
/// recently updated first.
pub open spec fn completed_le(a: Task, b: Task) -> bool {
    !crate::clock::ts_before(a.base.updated_at, b.base.updated_at)
}

/// `order` lists positions of `tasks` in the order `le` asks for.
pub open spec fn ordered_by(tasks: Seq<Task>, order: Seq<usize>, le: spec_fn(Task, Task) -> bool) -> bool {
    &&& forall|i: int| 0 <= i < order.len() ==> (#[trigger] order[i]) < tasks.len()
    &&& forall|i: int, j: int| 0 <= i < j < order.len() ==> le(tasks[#[trigger] order[i] as int], tasks[#[trigger] order[j] as int])
}

/// `order` lists, once each, exactly the positions of the tasks that `keep` picks.
pub open spec fn lists_exactly(tasks: Seq<Task>, order: Seq<usize>, keep: spec_fn(Task) -> bool) -> bool {
    &&& order.no_duplicates()
    &&& forall|i: int| 0 <= i < order.len() ==> (#[trigger] order[i]) < tasks.len() && keep(tasks[order[i] as int])
    &&& forall|k: int| 0 <= k < tasks.len() && keep(#[trigger] tasks[k]) ==> order.contains(k as usize)
}

fn active_le_exec(a: &Task, b: &Task) -> (r: bool)
    ensures
        r == active_le(*a, *b),
{
    match (&a.due_date, &b.due_date) {
        (Some(x), Some(y)) => !y.is_before(x),
        (Some(_), None) => true,
        (None, Some(_)) => false,
        (None, None) => a.base.sequence_number <= b.base.sequence_number,
    }
}

fn completed_le_exec(a: &Task, b: &Task) -> (r: bool)
    ensures
        r == completed_le(*a, *b),
{
    !a.base.updated_at.is_before(&b.base.updated_at)
}

proof fn lemma_active_le_order()
    ensures
        forall|a: Task, b: Task| active_le(a, b) || active_le(b, a),
        forall|a: Task, b: Task, c: Task| active_le(a, b) && active_le(b, c) ==> active_le(a, c),
{
}

proof fn lemma_completed_le_order()
    ensures
        forall|a: Task, b: Task| completed_le(a, b) || completed_le(b, a),
        forall|a: Task, b: Task, c: Task| completed_le(a, b) && completed_le(b, c) ==> completed_le(a, c),
{
}

/// The active tasks of one priority, in the order the active list shows them.
pub fn active_order(tasks: &Vec<Task>, p: TaskPriority) -> (r: Vec<usize>)
    ensures
        lists_exactly(tasks@, r@, |t: Task| t.status != TaskStatus::Done && t.priority == p),
        ordered_by(tasks@, r@, |a: Task, b: Task| active_le(a, b)),
{
    let ghost keep = |t: Task| t.status != TaskStatus::Done && t.priority == p;
    let ghost le = |a: Task, b: Task| active_le(a, b);
    let mut out: Vec<usize> = Vec::new();
    let mut k: usize = 0;
    proof {
        lemma_active_le_order();
    }
    while k < tasks.len()
        invariant
            k <= tasks@.len(),
            keep == (|t: Task| t.status != TaskStatus::Done && t.priority == p),
            le == (|a: Task, b: Task| active_le(a, b)),
            out@.no_duplicates(),
            forall|i: int| 0 <= i < out@.len() ==> (#[trigger] out@[i]) < k && keep(tasks@[out@[i] as int]),
            forall|q: int| 0 <= q < k && keep(#[trigger] tasks@[q]) ==> out@.contains(q as usize),
            ordered_by(tasks@, out@, le),
            forall|a: Task, b: Task| active_le(a, b) || active_le(b, a),
            forall|a: Task, b: Task, c: Task| active_le(a, b) && active_le(b, c) ==> active_le(a, c),
        decreases tasks.len() - k,
    {
        let t = &tasks[k];
        if t.status != TaskStatus::Done && t.priority == p {
            let mut pos: usize = 0;
            while pos < out.len() && active_le_exec(&tasks[out[pos]], t)
                invariant
                    pos <= out@.len(),
                    forall|i: int| 0 <= i < out@.len() ==> (#[trigger] out@[i]) < k,
                    k < tasks@.len(),
                    *t == tasks@[k as int],
                    forall|i: int| 0 <= i < pos ==> active_le(tasks@[out@[i] as int], *t),
                decreases out@.len() - pos,
            {
                pos = pos + 1;
            }
            let ghost prev = out@;
            out.insert(pos, k);
            proof {
                assert(out@ == prev.insert(pos as int, k));
                assert forall|i: int, j: int| 0 <= i < j < out@.len() implies le(tasks@[#[trigger] out@[i] as int], tasks@[#[trigger] out@[j] as int]) by {
                    if j < pos {
                        assert(out@[i] == prev[i] && out@[j] == prev[j]);
                    } else if j == pos {
                        assert(out@[i] == prev[i]);
                    } else if i < pos {
                        assert(out@[i] == prev[i] && out@[j] == prev[j - 1]);
                        assert(!active_le(tasks@[prev[pos as int] as int], *t));
                        assert(active_le(*t, tasks@[prev[pos as int] as int]));
                        if j - 1 > pos {
                            assert(le(tasks@[prev[pos as int] as int], tasks@[prev[j - 1] as int]));
                        }
                    } else if i == pos {
                        assert(out@[j] == prev[j - 1]);
                        assert(active_le(*t, tasks@[prev[pos as int] as int]));
                        if j - 1 > pos {
                            assert(le(tasks@[prev[pos as int] as int], tasks@[prev[j - 1] as int]));
                        }
                    } else {
                        assert(out@[i] == prev[i - 1] && out@[j] == prev[j - 1]);
                    }
                }
                assert forall|a: int, b: int| 0 <= a < b < out@.len() implies out@[a] != out@[b] by {
                    if a < pos && b < pos {
                        assert(out@[a] == prev[a] && out@[b] == prev[b]);
                    } else if a < pos && b > pos {
                        assert(out@[a] == prev[a] && out@[b] == prev[b - 1]);
                    } else if a > pos {
                        assert(out@[a] == prev[a - 1] && out@[b] == prev[b - 1]);
                    } else if a == pos {
                        assert(out@[b] == prev[b - 1]);
                    } else {
                        assert(out@[a] == prev[a]);
                    }
                }
                assert forall|i: int| 0 <= i < out@.len() implies (#[trigger] out@[i]) < k + 1 && keep(tasks@[out@[i] as int]) by {
                    if i < pos {
                        assert(out@[i] == prev[i]);
                    } else if i > pos {
                        assert(out@[i] == prev[i - 1]);
                    }
                }
                assert forall|q: int| 0 <= q < k + 1 && keep(#[trigger] tasks@[q]) implies out@.contains(q as usize) by {
                    if q < k {
                        let w = choose|w: int| 0 <= w < prev.len() && prev[w] == q as usize;
                        if w < pos {
                            assert(out@[w] == q as usize);
                        } else {
                            assert(out@[w + 1] == q as usize);
                        }
                    } else {
                        assert(out@[pos as int] == k);
                    }
                }
            }
        }
        k = k + 1;
    }
    out
}

/// The completed tasks, in the order the completed list shows them.
pub fn completed_order(tasks: &Vec<Task>) -> (r: Vec<usize>)
    ensures
        lists_exactly(tasks@, r@, |t: Task| t.status == TaskStatus::Done),
        ordered_by(tasks@, r@, |a: Task, b: Task| completed_le(a, b)),
{
    let ghost keep = |t: Task| t.status == TaskStatus::Done;
    let ghost le = |a: Task, b: Task| completed_le(a, b);
    let mut out: Vec<usize> = Vec::new();
    let mut k: usize = 0;
    proof {
        lemma_completed_le_order();
    }
    while k < tasks.len()
        invariant
            k <= tasks@.len(),
            keep == (|t: Task| t.status == TaskStatus::Done),
            le == (|a: Task, b: Task| completed_le(a, b)),
            out@.no_duplicates(),
            forall|i: int| 0 <= i < out@.len() ==> (#[trigger] out@[i]) < k && keep(tasks@[out@[i] as int]),
            forall|q: int| 0 <= q < k && keep(#[trigger] tasks@[q]) ==> out@.contains(q as usize),
            ordered_by(tasks@, out@, le),
            forall|a: Task, b: Task| completed_le(a, b) || completed_le(b, a),
            forall|a: Task, b: Task, c: Task| completed_le(a, b) && completed_le(b, c) ==> completed_le(a, c),
        decreases tasks.len() - k,
    {
        let t = &tasks[k];
        if t.status == TaskStatus::Done {
            let mut pos: usize = 0;
            while pos < out.len() && completed_le_exec(&tasks[out[pos]], t)
                invariant
                    pos <= out@.len(),
                    forall|i: int| 0 <= i < out@.len() ==> (#[trigger] out@[i]) < k,
                    k < tasks@.len(),
                    *t == tasks@[k as int],
                    forall|i: int| 0 <= i < pos ==> completed_le(tasks@[out@[i] as int], *t),
                decreases out@.len() - pos,
            {
                pos = pos + 1;
            }
            let ghost prev = out@;
            out.insert(pos, k);
            proof {
                assert(out@ == prev.insert(pos as int, k));
                assert forall|i: int, j: int| 0 <= i < j < out@.len() implies le(tasks@[#[trigger] out@[i] as int], tasks@[#[trigger] out@[j] as int]) by {
                    if j < pos {
                        assert(out@[i] == prev[i] && out@[j] == prev[j]);
                    } else if j == pos {
                        assert(out@[i] == prev[i]);
                    } else if i < pos {
                        assert(out@[i] == prev[i] && out@[j] == prev[j - 1]);
                        assert(!completed_le(tasks@[prev[pos as int] as int], *t));
                        assert(completed_le(*t, tasks@[prev[pos as int] as int]));
                        if j - 1 > pos {
                            assert(le(tasks@[prev[pos as int] as int], tasks@[prev[j - 1] as int]));
                        }
                    } else if i == pos {
                        assert(out@[j] == prev[j - 1]);
                        assert(completed_le(*t, tasks@[prev[pos as int] as int]));
                        if j - 1 > pos {
                            assert(le(tasks@[prev[pos as int] as int], tasks@[prev[j - 1] as int]));
                        }
                    } else {
                        assert(out@[i] == prev[i - 1] && out@[j] == prev[j - 1]);
                    }
                }
                assert forall|a: int, b: int| 0 <= a < b < out@.len() implies out@[a] != out@[b] by {
                    if a < pos && b < pos {
                        assert(out@[a] == prev[a] && out@[b] == prev[b]);
                    } else if a < pos && b > pos {
                        assert(out@[a] == prev[a] && out@[b] == prev[b - 1]);
                    } else if a > pos {
                        assert(out@[a] == prev[a - 1] && out@[b] == prev[b - 1]);
                    } else if a == pos {
                        assert(out@[b] == prev[b - 1]);
                    } else {
                        assert(out@[a] == prev[a]);
                    }
                }
                assert forall|i: int| 0 <= i < out@.len() implies (#[trigger] out@[i]) < k + 1 && keep(tasks@[out@[i] as int]) by {
                    if i < pos {
                        assert(out@[i] == prev[i]);
                    } else if i > pos {
                        assert(out@[i] == prev[i - 1]);
                    }
                }
                assert forall|q: int| 0 <= q < k + 1 && keep(#[trigger] tasks@[q]) implies out@.contains(q as usize) by {
                    if q < k {
                        let w = choose|w: int| 0 <= w < prev.len() && prev[w] == q as usize;
                        if w < pos {
                            assert(out@[w] == q as usize);
                        } else {
                            assert(out@[w + 1] == q as usize);
                        }
                    } else {
                        assert(out@[pos as int] == k);
                    }
                }
            }
        }
        k = k + 1;
    }
    out
}

/// The heading of a priority's section in the active list.
pub open spec fn priority_heading(p: TaskPriority) -> Seq<char> {
    match p {
        TaskPriority::Urgent => "Urgent"@,
        TaskPriority::High => "High Priority"@,
        TaskPriority::Normal => "Normal Priority"@,
        TaskPriority::Low => "Low Priority"@,
    }
}

fn heading_of(p: TaskPriority) -> (r: &'static str)
    ensures
        r@ == priority_heading(p),
{
    match p {
        TaskPriority::Urgent => "Urgent",
        TaskPriority::High => "High Priority",
        TaskPriority::Normal => "Normal Priority",
        TaskPriority::Low => "Low Priority",
    }
}

/// The lines of the tasks at `order`, each followed by a blank line.
pub open spec fn lines_of(tasks: Seq<Task>, order: Seq<usize>, line: spec_fn(Task) -> Seq<char>) -> Seq<char>
    decreases order.len(),
{
    if order.len() == 0 {
        Seq::empty()
    } else {
        lines_of(tasks, order.drop_last(), line) + line(tasks[order.last() as int]) + "\n\n"@
    }
}

/// A priority's section of the active list: a heading and the lines of its
/// tasks in `order`; nothing when it has none.
pub open spec fn section_text(tasks: Seq<Task>, p: TaskPriority, order: Seq<usize>) -> Seq<char> {
    if order.len() == 0 {
        Seq::empty()
    } else {
        "## "@ + priority_heading(p) + "\n\n"@ + lines_of(tasks, order, |t: Task| task_line_text(t))
    }
}

/// The page closing: a rule and the time it was written.
pub open spec fn footer_text(label: Seq<char>, stamp: Seq<char>) -> Seq<char> {
    "---\n\n"@ + "*"@ + label + ": "@ + stamp + "*\n"@
}

/// The active task list: a title and a notice; then, by priority from urgent to
/// low, each priority's section (or a line saying there are none); then the
/// time it was written. `orders` gives each section's tasks, urgent first.
pub open spec fn active_page_text(tasks: Seq<Task>, orders: Seq<Seq<usize>>, stamp: Seq<char>) -> Seq<char> {
    "# Active Tasks\n\n"@ + "> Generated from Medulla. Do not edit directly.\n\n"@ + (if orders[0].len() == 0
        && orders[1].len() == 0 && orders[2].len() == 0 && orders[3].len() == 0 {
        "*No active tasks.*\n"@
    } else {
        section_text(tasks, TaskPriority::Urgent, orders[0]) + section_text(tasks, TaskPriority::High, orders[1])
            + section_text(tasks, TaskPriority::Normal, orders[2]) + section_text(tasks, TaskPriority::Low, orders[3])
    }) + footer_text("Last updated"@, stamp)
}

/// `orders` holds, for the priorities from urgent to low, the active tasks of
/// each in the order the active list shows them.
pub open spec fn active_orders_ok(tasks: Seq<Task>, orders: Seq<Seq<usize>>) -> bool {
    &&& orders.len() == 4
    &&& lists_exactly(tasks, orders[0], |t: Task| t.status != TaskStatus::Done && t.priority == TaskPriority::Urgent)
    &&& lists_exactly(tasks, orders[1], |t: Task| t.status != TaskStatus::Done && t.priority == TaskPriority::High)
    &&& lists_exactly(tasks, orders[2], |t: Task| t.status != TaskStatus::Done && t.priority == TaskPriority::Normal)
    &&& lists_exactly(tasks, orders[3], |t: Task| t.status != TaskStatus::Done && t.priority == TaskPriority::Low)
    &&& forall|k: int| 0 <= k < 4 ==> ordered_by(tasks, #[trigger] orders[k], |a: Task, b: Task| active_le(a, b))
}

fn push_lines(out: &mut String, tasks: &Vec<Task>, order: &Vec<usize>, completed: bool)
    requires
        forall|i: int| 0 <= i < order@.len() ==> (#[trigger] order@[i]) < tasks@.len(),
    ensures
        final(out)@ == old(out)@ + lines_of(tasks@, order@, if completed {
            |t: Task| completed_line_text(t)
        } else {
            |t: Task| task_line_text(t)
        }),
{
    let ghost f = if completed {
        |t: Task| completed_line_text(t)
    } else {
        |t: Task| task_line_text(t)
    };
    let ghost start = out@;
    let mut i: usize = 0;
    while i < order.len()
        invariant
            i <= order@.len(),
            forall|j: int| 0 <= j < order@.len() ==> (#[trigger] order@[j]) < tasks@.len(),
            f == (if completed {
                |t: Task| completed_line_text(t)
            } else {
                |t: Task| task_line_text(t)
            }),
            out@ == start + lines_of(tasks@, order@.take(i as int), f),
        decreases order.len() - i,
    {
        assert(order@.take(i + 1).drop_last() =~= order@.take(i as int));
        let t = &tasks[order[i]];
        let line = if completed {
            format_completed_task_line(t)
        } else {
            format_task_line(t)
        };
        push_str(out, line.as_str());
        push_str(out, "\n\n");
        assert(out@ =~= start + lines_of(tasks@, order@.take(i + 1), f));
        i = i + 1;
    }
    assert(order@.take(order.len() as int) =~= order@);
}


/// How many of the first `n` tasks `keep` picks.
pub open spec fn count_where(tasks: Seq<Task>, keep: spec_fn(Task) -> bool, n: int) -> nat
    decreases n,
{
    if n <= 0 || n > tasks.len() {
        0
    } else {
        count_where(tasks, keep, n - 1) + (if keep(tasks[n - 1]) { 1nat } else { 0nat })
    }
}

fn count_open(tasks: &Vec<Task>, done: bool) -> (r: usize)
    ensures
        r == count_where(tasks@, if done {
            |t: Task| t.status == TaskStatus::Done
        } else {
            |t: Task| t.status != TaskStatus::Done
        }, tasks@.len() as int),
{
    let ghost keep = if done {
        |t: Task| t.status == TaskStatus::Done
    } else {
        |t: Task| t.status != TaskStatus::Done
    };
    let mut c: usize = 0;
    let mut i: usize = 0;
    while i < tasks.len()
        invariant
            i <= tasks@.len(),
            keep == (if done {
                |t: Task| t.status == TaskStatus::Done
            } else {
                |t: Task| t.status != TaskStatus::Done
            }),
            c == count_where(tasks@, keep, i as int),
            c <= i,
        decreases tasks.len() - i,
    {
        if (tasks[i].status == TaskStatus::Done) == done {
            c = c + 1;
        }
        i = i + 1;
    }
    c
}


fn push_footer(out: &mut String, label: &str, stamp: &str)
    ensures
        final(out)@ == old(out)@ + footer_text(label@, stamp@),
{
    push_str(out, "---\n\n");
    push_str(out, "*");
    push_str(out, label);
    push_str(out, ": ");
    push_str(out, stamp);
    push_str(out, "*\n");
    assert(out@ =~= old(out)@ + footer_text(label@, stamp@));
}

/// The completed task list: a title and a notice; the completed tasks, most
/// recently updated first (or a line saying there are none); then the time it
/// was written. `order` gives the tasks shown.
pub open spec fn completed_page_text(tasks: Seq<Task>, order: Seq<usize>, stamp: Seq<char>) -> Seq<char> {
    "# Completed Tasks\n\n"@ + "> Generated from Medulla. Do not edit directly.\n\n"@ + (if order.len() == 0 {
        "*No completed tasks.*\n"@
    } else {
        lines_of(tasks, order, |t: Task| completed_line_text(t))
    }) + footer_text("Last updated"@, stamp)
}

/// `order` lists the completed tasks in the order the completed list shows them.
pub open spec fn completed_order_ok(tasks: Seq<Task>, order: Seq<usize>) -> bool {
    &&& lists_exactly(tasks, order, |t: Task| t.status == TaskStatus::Done)
    &&& ordered_by(tasks, order, |a: Task, b: Task| completed_le(a, b))
}

/// The completed task list page, written at `stamp`, and how many tasks it shows.
pub fn completed_tasks_page(tasks: &Vec<Task>, stamp: &str) -> (r: (String, usize))
    ensures
        exists|order: Seq<usize>| #[trigger] completed_order_ok(tasks@, order)
            && r.0@ == completed_page_text(tasks@, order, stamp@),
        r.1 == count_where(tasks@, |t: Task| t.status == TaskStatus::Done, tasks@.len() as int),
{
    let order = completed_order(tasks);
    assert(completed_order_ok(tasks@, order@));
    let mut content = String::from_str("# Completed Tasks\n\n");
    push_str(&mut content, "> Generated from Medulla. Do not edit directly.\n\n");
    if order.len() == 0 {
        push_str(&mut content, "*No completed tasks.*\n");
    } else {
        push_lines(&mut content, tasks, &order, true);
    }
    push_footer(&mut content, "Last updated", stamp);
    assert(content@ =~= completed_page_text(tasks@, order@, stamp@));
    (content, count_open(tasks, true))
}

/// The active task list page, written at `stamp`, and how many tasks it shows.
#[verifier::spinoff_prover]
pub fn active_tasks_page(tasks: &Vec<Task>, stamp: &str) -> (r: (String, usize))
    ensures
        exists|orders: Seq<Seq<usize>>| #[trigger] active_orders_ok(tasks@, orders)
            && r.0@ == active_page_text(tasks@, orders, stamp@)
            && r.1 == count_where(tasks@, |t: Task| t.status != TaskStatus::Done, tasks@.len() as int),
{
    let urgent = active_order(tasks, TaskPriority::Urgent);
    let high = active_order(tasks, TaskPriority::High);
    let normal = active_order(tasks, TaskPriority::Normal);
    let low = active_order(tasks, TaskPriority::Low);
    let ghost orders = seq![urgent@, high@, normal@, low@];
    assert(orders[0] == urgent@ && orders[1] == high@ && orders[2] == normal@ && orders[3] == low@);
    assert(active_orders_ok(tasks@, orders));
    let mut content = String::from_str("# Active Tasks\n\n");
    push_str(&mut content, "> Generated from Medulla. Do not edit directly.\n\n");
    let ghost head = content@;
    if urgent.len() == 0 && high.len() == 0 && normal.len() == 0 && low.len() == 0 {
        push_str(&mut content, "*No active tasks.*\n");
    } else {
        let groups = [(TaskPriority::Urgent, &urgent), (TaskPriority::High, &high), (TaskPriority::Normal, &normal), (TaskPriority::Low, &low)];
        let mut g: usize = 0;
        while g < 4
            invariant
                g <= 4,
                groups@.len() == 4,
                groups@[0] == (TaskPriority::Urgent, &urgent) && groups@[1] == (TaskPriority::High, &high),
                groups@[2] == (TaskPriority::Normal, &normal) && groups@[3] == (TaskPriority::Low, &low),
                active_orders_ok(tasks@, orders),
                orders[0] == urgent@ && orders[1] == high@ && orders[2] == normal@ && orders[3] == low@,
                content@ == head + (if g == 0 {
                    Seq::empty()
                } else if g == 1 {
                    section_text(tasks@, TaskPriority::Urgent, orders[0])
                } else if g == 2 {
                    section_text(tasks@, TaskPriority::Urgent, orders[0]) + section_text(tasks@, TaskPriority::High, orders[1])
                } else if g == 3 {
                    section_text(tasks@, TaskPriority::Urgent, orders[0]) + section_text(tasks@, TaskPriority::High, orders[1])
                        + section_text(tasks@, TaskPriority::Normal, orders[2])
                } else {
                    section_text(tasks@, TaskPriority::Urgent, orders[0]) + section_text(tasks@, TaskPriority::High, orders[1])
                        + section_text(tasks@, TaskPriority::Normal, orders[2]) + section_text(tasks@, TaskPriority::Low, orders[3])
                }),
            decreases 4 - g,
        {
            let (p, order) = groups[g];
            let ghost before = content@;
            proof {
                assert(lists_exactly(tasks@, orders[g as int], |t: Task| t.status != TaskStatus::Done && t.priority == p));
            }
            if order.len() > 0 {
                push_str(&mut content, "## ");
                push_str(&mut content, heading_of(p));
                push_str(&mut content, "\n\n");
                push_lines(&mut content, tasks, order, false);
            }
            assert(content@ =~= before + section_text(tasks@, p, order@));
            g = g + 1;
        }
    }
    push_footer(&mut content, "Last updated", stamp);
    assert(content@ =~= active_page_text(tasks@, orders, stamp@));
    (content, count_open(tasks, false))
}

// ---------------------------------------------------------------------------
// Orders by key
// ---------------------------------------------------------------------------

/// `order` lists each position below `n` exactly once.
pub open spec fn is_permutation(order: Seq<usize>, n: int) -> bool {
    &&& order.len() == n
    &&& order.no_duplicates()
    &&& forall|i: int| 0 <= i < order.len() ==> (#[trigger] order[i]) < n
}

/// `order` lists positions in non-decreasing order of their keys, and
/// positions with equal keys in increasing order (as a stable sort leaves them).
pub open spec fn sorted_by_keys(keys: Seq<i128>, order: Seq<usize>) -> bool {
    &&& forall|i: int, j: int| 0 <= i < j < order.len() ==> keys[#[trigger] order[i] as int] <= keys[#[trigger] order[j] as int]
    &&& forall|i: int, j: int| 0 <= i < j < order.len() && keys[#[trigger] order[i] as int] == keys[#[trigger] order[j] as int]
        ==> order[i] < order[j]
}

proof fn lemma_permutation_covers(o: Seq<usize>, n: int, x: int)
    requires
        is_permutation(o, n),
        0 <= x < n,
    ensures
        o.contains(x as usize),
{
    broadcast use vstd::seq_lib::seq_to_set_is_finite;
    let oi = o.map_values(|v: usize| v as int);
    assert(oi.no_duplicates()) by {
        assert forall|i: int, j: int| 0 <= i < oi.len() && 0 <= j < oi.len() && i != j implies oi[i] != oi[j] by {
            assert(o[i] != o[j]);
        }
    }
    oi.unique_seq_to_set();
    vstd::set_lib::lemma_int_range(0, n);
    assert(oi.to_set().subset_of(vstd::set_lib::set_int_range(0, n))) by {
        assert forall|y: int| oi.to_set().contains(y) implies vstd::set_lib::set_int_range(0, n).contains(y) by {
            let i = choose|i: int| 0 <= i < oi.len() && oi[i] == y;
            assert(o[i] < n);
        }
    }
    vstd::set_lib::lemma_subset_equality(oi.to_set(), vstd::set_lib::set_int_range(0, n));
    assert(vstd::set_lib::set_int_range(0, n).contains(x));
    assert(oi.to_set().contains(x));
    let i = choose|i: int| 0 <= i < oi.len() && oi[i] == x;
    assert(o[i] == x as usize);
}

proof fn lemma_stable_prefix(keys: Seq<i128>, o1: Seq<usize>, o2: Seq<usize>, i: int)
    requires
        is_permutation(o1, keys.len() as int),
        is_permutation(o2, keys.len() as int),
        sorted_by_keys(keys, o1),
        sorted_by_keys(keys, o2),
        0 <= i <= keys.len(),
    ensures
        forall|k: int| 0 <= k < i ==> o1[k] == o2[k],
    decreases i,
{
    if i > 0 {
        lemma_stable_prefix(keys, o1, o2, i - 1);
        let k = i - 1;
        let a = o1[k];
        let b = o2[k];
        if a != b {
            let n = keys.len() as int;
            lemma_permutation_covers(o1, n, b as int);
            lemma_permutation_covers(o2, n, a as int);
            let p = choose|p: int| 0 <= p < o1.len() && o1[p] == b;
            let q = choose|q: int| 0 <= q < o2.len() && o2[q] == a;
            if p < k {
                assert(o2[p] == o1[p]);
            }
            if q < k {
                assert(o1[q] == o2[q]);
            }
            assert(p > k && q > k);
            assert(keys[a as int] <= keys[b as int]);
            assert(keys[b as int] <= keys[a as int]);
            assert(a < b);
            assert(b < a);
        }
    }
}

/// A stable order by key is unique: two permutations that both list positions
/// in order of key, equal keys in order of position, are the same.
pub proof fn lemma_stable_order_unique(keys: Seq<i128>, o1: Seq<usize>, o2: Seq<usize>)
    requires
        is_permutation(o1, keys.len() as int),
        is_permutation(o2, keys.len() as int),
        sorted_by_keys(keys, o1),
        sorted_by_keys(keys, o2),
    ensures
        o1 == o2,
{
    lemma_stable_prefix(keys, o1, o2, keys.len() as int);
    assert(o1 =~= o2);
}

/// The positions of `keys`, ordered by key; positions with equal keys keep
/// their order.
pub fn key_order(keys: &Vec<i128>) -> (r: Vec<usize>)
    ensures
        is_permutation(r@, keys@.len() as int),
        sorted_by_keys(keys@, r@),
{
    let mut out: Vec<usize> = Vec::new();
    let mut k: usize = 0;
    while k < keys.len()
        invariant
            k <= keys@.len(),
            out@.len() == k,
            out@.no_duplicates(),
            forall|i: int| 0 <= i < out@.len() ==> (#[trigger] out@[i]) < k,
            sorted_by_keys(keys@, out@),
        decreases keys.len() - k,
    {
        let key = keys[k];
        let mut pos: usize = 0;
        while pos < out.len() && keys[out[pos]] <= key
            invariant
                pos <= out@.len(),
                k < keys@.len(),
                key == keys@[k as int],
                forall|i: int| 0 <= i < out@.len() ==> (#[trigger] out@[i]) < k,
                forall|i: int| 0 <= i < pos ==> keys@[out@[i] as int] <= key,
            decreases out@.len() - pos,
        {
            pos = pos + 1;
        }
        let ghost prev = out@;
        out.insert(pos, k);
        proof {
            assert(out@ == prev.insert(pos as int, k));
            assert forall|i: int, j: int| 0 <= i < j < out@.len() implies keys@[#[trigger] out@[i] as int] <= keys@[#[trigger] out@[j] as int] by {
                if j < pos {
                    assert(out@[i] == prev[i] && out@[j] == prev[j]);
                } else if j == pos {
                    assert(out@[i] == prev[i]);
                } else if i < pos {
                    assert(out@[i] == prev[i] && out@[j] == prev[j - 1]);
                    assert(keys@[prev[pos as int] as int] > key);
                    if j - 1 > pos {
                        assert(keys@[prev[pos as int] as int] <= keys@[prev[j - 1] as int]);
                    }
                } else if i == pos {
                    assert(out@[j] == prev[j - 1]);
                    assert(keys@[prev[pos as int] as int] > key);
                    if j - 1 > pos {
                        assert(keys@[prev[pos as int] as int] <= keys@[prev[j - 1] as int]);
                    }
                } else {
                    assert(out@[i] == prev[i - 1] && out@[j] == prev[j - 1]);
                }
            }
            assert forall|i: int, j: int| 0 <= i < j < out@.len() && keys@[#[trigger] out@[i] as int] == keys@[#[trigger] out@[j] as int]
                implies out@[i] < out@[j] by {
                if j < pos {
                    assert(out@[i] == prev[i] && out@[j] == prev[j]);
                } else if j == pos {
                    assert(out@[i] == prev[i]);
                } else if i < pos {
                    assert(out@[i] == prev[i] && out@[j] == prev[j - 1]);
                } else if i == pos {
                    assert(out@[j] == prev[j - 1]);
                    assert(keys@[prev[pos as int] as int] > key);
                    if j - 1 > pos {
                        assert(keys@[prev[pos as int] as int] <= keys@[prev[j - 1] as int]);
                    }
                } else {
                    assert(out@[i] == prev[i - 1] && out@[j] == prev[j - 1]);
                }
            }
            assert forall|a: int, b: int| 0 <= a < b < out@.len() implies out@[a] != out@[b] by {
                if a < pos && b < pos {
                    assert(out@[a] == prev[a] && out@[b] == prev[b]);
                } else if a < pos && b > pos {
                    assert(out@[a] == prev[a] && out@[b] == prev[b - 1]);
                } else if a > pos {
                    assert(out@[a] == prev[a - 1] && out@[b] == prev[b - 1]);
                } else if a == pos {
                    assert(out@[b] == prev[b - 1]);
                } else {
                    assert(out@[a] == prev[a]);
                }
            }
            assert forall|i: int| 0 <= i < out@.len() implies (#[trigger] out@[i]) < k + 1 by {
                if i < pos {
                    assert(out@[i] == prev[i]);
                } else if i > pos {
                    assert(out@[i] == prev[i - 1]);
                }
            }
        }
        k = k + 1;
    }
    out
}

// ---------------------------------------------------------------------------
// The index page
// ---------------------------------------------------------------------------

/// The text of one item per position of `order`, in order.
pub open spec fn joined_lines<T>(items: Seq<T>, order: Seq<usize>, f: spec_fn(T) -> Seq<char>) -> Seq<char>
    decreases order.len(),
{
    if order.len() == 0 {
        Seq::empty()
    } else {
        joined_lines(items, order.drop_last(), f) + f(items[order.last() as int])
    }
}

/// A recent change shown on the index page.
#[derive(Debug)]
pub struct RecentActivity {
    /// The kind of entity, capitalised.
    pub entity_type: String,
    pub title: String,
    /// The page it links to, below the snapshot directory.
    pub link: String,
    /// Its status or type, where it has one.
    pub status: Option<String>,
    pub updated_at: Timestamp,
}

/// A recent change as values.
pub struct ActivityRow {
    pub kind: Seq<char>,
    pub title: Seq<char>,
    pub link: Seq<char>,
    pub status: Option<Seq<char>>,
    pub updated: Timestamp,
}

impl RecentActivity {
    /// The change as values.
    pub open spec fn row(self) -> ActivityRow {
        ActivityRow {
            kind: self.entity_type@,
            title: self.title@,
            link: self.link@,
            status: match self.status {
                Some(s) => Some(s@),
                None => None,
            },
            updated: self.updated_at,
        }
    }
}

/// The page name of an entity shown under its slug: `{dir}/{slug}.md`.
pub open spec fn slug_page(dir: Seq<char>, title: Seq<char>) -> Seq<char> {
    dir + "/"@ + slug_of(title) + ".md"@
}

/// The changes of a list of entities, in order; `row` gives each one's, or none.
pub open spec fn rows_of<T>(items: Seq<T>, row: spec_fn(T) -> Option<ActivityRow>) -> Seq<ActivityRow>
    decreases items.len(),
{
    if items.len() == 0 {
        Seq::empty()
    } else {
        rows_of(items.drop_last(), row) + match row(items.last()) {
            Some(r) => seq![r],
            None => Seq::empty(),
        }
    }
}

/// The change a decision shows: its page and status.
pub open spec fn decision_row(d: Decision) -> Option<ActivityRow> {
    Some(ActivityRow { kind: "Decision"@, title: d.base.title@, link: "decisions/"@ + decision_file_name(d), status: Some(d.status.name()), updated: d.base.updated_at })
}

/// The change an open task shows (a done task shows none): the active list, at its sequence number.
pub open spec fn task_row(t: Task) -> Option<ActivityRow> {
    if t.status == TaskStatus::Done {
        None
    } else {
        Some(ActivityRow { kind: "Task"@, title: t.base.title@, link: "tasks/active.md#"@ + decimal(t.base.sequence_number as nat), status: Some(t.status.name()), updated: t.base.updated_at })
    }
}

/// The change a note shows: its page and type.
pub open spec fn note_row(n: Note) -> Option<ActivityRow> {
    Some(ActivityRow { kind: "Note"@, title: n.base.title@, link: slug_page("notes"@, n.base.title@), status: match n.note_type { Some(s) => Some(s@), None => None }, updated: n.base.updated_at })
}

/// The change a prompt shows: its page.
pub open spec fn prompt_row(p: Prompt) -> Option<ActivityRow> {
    Some(ActivityRow { kind: "Prompt"@, title: p.base.title@, link: slug_page("prompts"@, p.base.title@), status: None, updated: p.base.updated_at })
}

/// The change a component shows: its page and status.
pub open spec fn component_row(c: Component) -> Option<ActivityRow> {
    Some(ActivityRow { kind: "Component"@, title: c.base.title@, link: slug_page("components"@, c.base.title@), status: Some(c.status.name()), updated: c.base.updated_at })
}

/// The change a link shows: its page and type.
pub open spec fn link_row(l: Link) -> Option<ActivityRow> {
    Some(ActivityRow { kind: "Link"@, title: l.base.title@, link: slug_page("links"@, l.base.title@), status: match l.link_type { Some(s) => Some(s@), None => None }, updated: l.base.updated_at })
}

/// All changes, kind after kind: decisions, open tasks, notes, prompts, components, links.
pub open spec fn all_rows(ds: Seq<Decision>, ts: Seq<Task>, ns: Seq<Note>, ps: Seq<Prompt>, cs: Seq<Component>, ls: Seq<Link>) -> Seq<ActivityRow> {
    rows_of(ds, |d: Decision| decision_row(d)) + rows_of(ts, |t: Task| task_row(t)) + rows_of(ns, |n: Note| note_row(n))
        + rows_of(ps, |p: Prompt| prompt_row(p)) + rows_of(cs, |c: Component| component_row(c)) + rows_of(ls, |l: Link| link_row(l))
}

/// The sort key that puts the most recently updated first.
pub open spec fn recency_key(t: Timestamp) -> int {
    -(t.secs * 1_000_000_000 + t.nanos)
}

fn recency_sort_key(t: &Timestamp) -> (r: i128)
    ensures
        r == recency_key(*t),
{
    -((t.secs as i128) * 1_000_000_000 + (t.nanos as i128))
}

fn slug_link(dir: &str, title: &str) -> (r: String)
    ensures
        r@ == slug_page(dir@, title@),
{
    let mut r = String::from_str(dir);
    push_str(&mut r, "/");
    let slug = slugify(title);
    push_str(&mut r, slug.as_str());
    push_str(&mut r, ".md");
    assert(r@ =~= slug_page(dir@, title@));
    r
}

fn push_activity(out: &mut Vec<RecentActivity>, kind: &str, title: &String, link: String, status: Option<String>, updated: Timestamp)
    ensures
        final(out)@.len() == old(out)@.len() + 1,
        forall|i: int| 0 <= i < old(out)@.len() ==> #[trigger] final(out)@[i] == old(out)@[i],
        final(out)@.last().row() == (ActivityRow { kind: kind@, title: title@, link: link@, status: match status { Some(s) => Some(s@), None => None }, updated }),
{
    out.push(RecentActivity { entity_type: String::from_str(kind), title: title.clone(), link, status, updated_at: updated });
}

/// The changes of a list, as values.
pub open spec fn rows_view(v: Seq<RecentActivity>) -> Seq<ActivityRow> {
    v.map_values(|a: RecentActivity| a.row())
}

fn push_decision_rows(out: &mut Vec<RecentActivity>, items: &Vec<Decision>)
    ensures
        rows_view(final(out)@) == rows_view(old(out)@) + rows_of(items@, |x: Decision| decision_row(x)),
{
    let ghost start = rows_view(out@);
    let ghost f = |x: Decision| decision_row(x);
    let mut i: usize = 0;
    while i < items.len()
        invariant
            i <= items@.len(),
            f == (|x: Decision| decision_row(x)),
            rows_view(out@) == start + rows_of(items@.take(i as int), f),
        decreases items.len() - i,
    {
        assert(items@.take(i + 1).drop_last() =~= items@.take(i as int));
        let e = &items[i];
        let ghost before = out@;
        proof {
            reveal_strlit("Decision");
        }
        {
            let link = { let mut l = String::from_str("decisions/"); let f = decision_filename(e); push_str(&mut l, f.as_str()); l };
            let status = Some(String::from_str(e.status.as_str()));
            push_activity(out, "Decision", &e.base.title, link, status, e.base.updated_at);
        }
        proof {
            if out@.len() > before.len() {
                assert(rows_view(out@) =~= rows_view(before).push(out@.last().row()));
            } else {
                assert(out@ == before);
            }
        }
        assert(rows_view(out@) =~= start + rows_of(items@.take(i + 1), f)) by {
            assert(items@.take(i + 1).last() == *e);
        }
        i = i + 1;
    }
    assert(items@.take(items.len() as int) =~= items@);
}

fn push_task_rows(out: &mut Vec<RecentActivity>, items: &Vec<Task>)
    ensures
        rows_view(final(out)@) == rows_view(old(out)@) + rows_of(items@, |x: Task| task_row(x)),
{
    let ghost start = rows_view(out@);
    let ghost f = |x: Task| task_row(x);
    let mut i: usize = 0;
    while i < items.len()
        invariant
            i <= items@.len(),
            f == (|x: Task| task_row(x)),
            rows_view(out@) == start + rows_of(items@.take(i as int), f),
        decreases items.len() - i,
    {
        assert(items@.take(i + 1).drop_last() =~= items@.take(i as int));
        let e = &items[i];
        let ghost before = out@;
        proof {
            reveal_strlit("Task");
        }
        {
            if e.status != TaskStatus::Done {
                let link = { let mut l = String::from_str("tasks/active.md#"); push_decimal(&mut l, e.base.sequence_number as u64); l };
                let status = Some(String::from_str(e.status.as_str()));
                push_activity(out, "Task", &e.base.title, link, status, e.base.updated_at);
            }
        }
        proof {
            if out@.len() > before.len() {
                assert(rows_view(out@) =~= rows_view(before).push(out@.last().row()));
            } else {
                assert(out@ == before);
            }
        }
        assert(rows_view(out@) =~= start + rows_of(items@.take(i + 1), f)) by {
            assert(items@.take(i + 1).last() == *e);
        }
        i = i + 1;
    }
    assert(items@.take(items.len() as int) =~= items@);
}

fn push_note_rows(out: &mut Vec<RecentActivity>, items: &Vec<Note>)
    ensures
        rows_view(final(out)@) == rows_view(old(out)@) + rows_of(items@, |x: Note| note_row(x)),
{
    let ghost start = rows_view(out@);
    let ghost f = |x: Note| note_row(x);
    let mut i: usize = 0;
    while i < items.len()
        invariant
            i <= items@.len(),
            f == (|x: Note| note_row(x)),
            rows_view(out@) == start + rows_of(items@.take(i as int), f),
        decreases items.len() - i,
    {
        assert(items@.take(i + 1).drop_last() =~= items@.take(i as int));
        let e = &items[i];
        let ghost before = out@;
        proof {
            reveal_strlit("Note");
        }
        {
            let link = slug_link("notes", e.base.title.as_str());
            let status = copy_opt(&e.note_type);
            push_activity(out, "Note", &e.base.title, link, status, e.base.updated_at);
        }
        proof {
            if out@.len() > before.len() {
                assert(rows_view(out@) =~= rows_view(before).push(out@.last().row()));
            } else {
                assert(out@ == before);
            }
        }
        assert(rows_view(out@) =~= start + rows_of(items@.take(i + 1), f)) by {
            assert(items@.take(i + 1).last() == *e);
        }
        i = i + 1;
    }
    assert(items@.take(items.len() as int) =~= items@);
}

fn push_prompt_rows(out: &mut Vec<RecentActivity>, items: &Vec<Prompt>)
    ensures
        rows_view(final(out)@) == rows_view(old(out)@) + rows_of(items@, |x: Prompt| prompt_row(x)),
{
    let ghost start = rows_view(out@);
    let ghost f = |x: Prompt| prompt_row(x);
    let mut i: usize = 0;
    while i < items.len()
        invariant
            i <= items@.len(),
            f == (|x: Prompt| prompt_row(x)),
            rows_view(out@) == start + rows_of(items@.take(i as int), f),
        decreases items.len() - i,
    {
        assert(items@.take(i + 1).drop_last() =~= items@.take(i as int));
        let e = &items[i];
        let ghost before = out@;
        proof {
            reveal_strlit("Prompt");
        }
        {
            let link = slug_link("prompts", e.base.title.as_str());
            let status = None;
            push_activity(out, "Prompt", &e.base.title, link, status, e.base.updated_at);
        }
        proof {
            if out@.len() > before.len() {
                assert(rows_view(out@) =~= rows_view(before).push(out@.last().row()));
            } else {
                assert(out@ == before);
            }
        }
        assert(rows_view(out@) =~= start + rows_of(items@.take(i + 1), f)) by {
            assert(items@.take(i + 1).last() == *e);
        }
        i = i + 1;
    }
    assert(items@.take(items.len() as int) =~= items@);
}

fn push_component_rows(out: &mut Vec<RecentActivity>, items: &Vec<Component>)
    ensures
        rows_view(final(out)@) == rows_view(old(out)@) + rows_of(items@, |x: Component| component_row(x)),
{
    let ghost start = rows_view(out@);
    let ghost f = |x: Component| component_row(x);
    let mut i: usize = 0;
    while i < items.len()
        invariant
            i <= items@.len(),
            f == (|x: Component| component_row(x)),
            rows_view(out@) == start + rows_of(items@.take(i as int), f),
        decreases items.len() - i,
    {
        assert(items@.take(i + 1).drop_last() =~= items@.take(i as int));
        let e = &items[i];
        let ghost before = out@;
        proof {
            reveal_strlit("Component");
        }
        {
            let link = slug_link("components", e.base.title.as_str());
            let status = Some(String::from_str(e.status.as_str()));
            push_activity(out, "Component", &e.base.title, link, status, e.base.updated_at);
        }
        proof {
            if out@.len() > before.len() {
                assert(rows_view(out@) =~= rows_view(before).push(out@.last().row()));
            } else {
                assert(out@ == before);
            }
        }
        assert(rows_view(out@) =~= start + rows_of(items@.take(i + 1), f)) by {
            assert(items@.take(i + 1).last() == *e);
        }
        i = i + 1;
    }
    assert(items@.take(items.len() as int) =~= items@);
}

fn push_link_rows(out: &mut Vec<RecentActivity>, items: &Vec<Link>)
    ensures
        rows_view(final(out)@) == rows_view(old(out)@) + rows_of(items@, |x: Link| link_row(x)),
{
    let ghost start = rows_view(out@);
    let ghost f = |x: Link| link_row(x);
    let mut i: usize = 0;
    while i < items.len()
        invariant
            i <= items@.len(),
            f == (|x: Link| link_row(x)),
            rows_view(out@) == start + rows_of(items@.take(i as int), f),
        decreases items.len() - i,
    {
        assert(items@.take(i + 1).drop_last() =~= items@.take(i as int));
        let e = &items[i];
        let ghost before = out@;
        proof {
            reveal_strlit("Link");
        }
        {
            let link = slug_link("links", e.base.title.as_str());
            let status = copy_opt(&e.link_type);
            push_activity(out, "Link", &e.base.title, link, status, e.base.updated_at);
        }
        proof {
            if out@.len() > before.len() {
                assert(rows_view(out@) =~= rows_view(before).push(out@.last().row()));
            } else {
                assert(out@ == before);
            }
        }
        assert(rows_view(out@) =~= start + rows_of(items@.take(i + 1), f)) by {
            assert(items@.take(i + 1).last() == *e);
        }
        i = i + 1;
    }
    assert(items@.take(items.len() as int) =~= items@);
}

fn duplicate_activity(a: &RecentActivity) -> (r: RecentActivity)
    ensures
        r.row() == a.row(),
{
    RecentActivity {
        entity_type: a.entity_type.clone(),
        title: a.title.clone(),
        link: a.link.clone(),
        status: copy_opt(&a.status),
        updated_at: a.updated_at,
    }
}

/// The sort keys of changes: most recently updated first.
pub open spec fn recency_keys(rows: Seq<ActivityRow>) -> Seq<i128> {
    rows.map_values(|r: ActivityRow| recency_key(r.updated) as i128)
}

/// The rows at the positions of `order`, in that order.
pub open spec fn pick<T>(items: Seq<T>, order: Seq<usize>) -> Seq<T> {
    order.map_values(|i: usize| items[i as int])
}

/// The recent changes of all entities, most recently updated first: decisions,
/// open tasks, notes, prompts, components and links, each with its page and its
/// status or type. Changes at the same instant keep the order of their kinds.
pub fn collect_recent_activity(
    ds: &Vec<Decision>,
    ts: &Vec<Task>,
    ns: &Vec<Note>,
    ps: &Vec<Prompt>,
    cs: &Vec<Component>,
    ls: &Vec<Link>,
) -> (r: Vec<RecentActivity>)
    ensures
        exists|order: Seq<usize>|
            #![trigger is_permutation(order, all_rows(ds@, ts@, ns@, ps@, cs@, ls@).len() as int)]
            is_permutation(order, all_rows(ds@, ts@, ns@, ps@, cs@, ls@).len() as int)
            && sorted_by_keys(recency_keys(all_rows(ds@, ts@, ns@, ps@, cs@, ls@)), order)
            && rows_view(r@) == pick(all_rows(ds@, ts@, ns@, ps@, cs@, ls@), order),
{
    let mut all: Vec<RecentActivity> = Vec::new();
    assert(rows_view(all@) =~= Seq::<ActivityRow>::empty());
    push_decision_rows(&mut all, ds);
    push_task_rows(&mut all, ts);
    push_note_rows(&mut all, ns);
    push_prompt_rows(&mut all, ps);
    push_component_rows(&mut all, cs);
    push_link_rows(&mut all, ls);
    let ghost rows = all_rows(ds@, ts@, ns@, ps@, cs@, ls@);
    assert(rows_view(all@) =~= rows);
    let mut keys: Vec<i128> = Vec::new();
    let mut i: usize = 0;
    while i < all.len()
        invariant
            i <= all@.len(),
            keys@.len() == i,
            forall|j: int| 0 <= j < i ==> keys@[j] == recency_key(all@[j].updated_at),
        decreases all.len() - i,
    {
        keys.push(recency_sort_key(&all[i].updated_at));
        i = i + 1;
    }
    assert(keys@ =~= recency_keys(rows));
    let order = key_order(&keys);
    let mut out: Vec<RecentActivity> = Vec::new();
    let mut k: usize = 0;
    while k < order.len()
        invariant
            k <= order@.len(),
            is_permutation(order@, all@.len() as int),
            rows_view(all@) == rows,
            rows_view(out@) == pick(rows, order@.take(k as int)),
        decreases order.len() - k,
    {
        let a = duplicate_activity(&all[order[k]]);
        let ghost before = out@;
        proof {
            assert(rows_view(all@)[order@[k as int] as int] == all@[order@[k as int] as int].row());
            assert(a.row() == rows[order@[k as int] as int]);
        }
        out.push(a);
        assert(rows_view(out@) =~= rows_view(before).push(a.row()));
        assert(order@.take(k + 1).drop_last() =~= order@.take(k as int));
        assert(rows_view(out@) =~= pick(rows, order@.take(k + 1)));
        k = k + 1;
    }
    assert(order@.take(order.len() as int) =~= order@);
    out
}

/// The summary table of the index page.
pub open spec fn summary_text(st: SnapshotStats) -> Seq<char> {
    "## Summary\n\n"@ + "| Type | Count |\n"@ + "|------|-------|\n"@
        + "| Decisions | "@ + decimal(st.decisions as nat) + " |\n"@
        + "| Tasks | "@ + decimal(st.tasks_total as nat) + " ("@ + decimal(st.tasks_active as nat) + " active) |\n"@
        + "| Notes | "@ + decimal(st.notes as nat) + " |\n"@
        + "| Prompts | "@ + decimal(st.prompts as nat) + " |\n"@
        + "| Components | "@ + decimal(st.components as nat) + " |\n"@
        + "| Links | "@ + decimal(st.links as nat) + " |\n"@ + "\n"@
}

/// The line of a recent change: its kind in bold, its title linked to its page,
/// its status or type, and the date it was updated in italics.
pub open spec fn activity_line(a: ActivityRow) -> Seq<char> {
    "- **"@ + a.kind + "**: ["@ + a.title + "]("@ + a.link + ")"@ + (match a.status {
        Some(s) => " - "@ + s,
        None => Seq::empty(),
    }) + "  \n  _"@ + date_text(a.updated.date) + "_\n"@
}

/// The lines of changes, in order.
pub open spec fn activity_lines(rows: Seq<ActivityRow>) -> Seq<char>
    decreases rows.len(),
{
    if rows.len() == 0 {
        Seq::empty()
    } else {
        activity_lines(rows.drop_last()) + activity_line(rows.last())
    }
}

/// The recent activity section: the five most recent changes, if there are any.
pub open spec fn recent_section(recent: Seq<ActivityRow>) -> Seq<char> {
    if recent.len() == 0 {
        Seq::empty()
    } else {
        let shown = if recent.len() > 5 { recent.take(5) } else { recent };
        "## Recent Activity\n\n"@ + activity_lines(shown) + "\n"@
    }
}

/// The quick link of a decision: number, title, page and status.
pub open spec fn decision_link(d: Decision) -> Seq<char> {
    "- ["@ + zero_padded(d.base.sequence_number as nat, 3) + " - "@ + d.base.title@ + "](decisions/"@ + decision_file_name(d) + ") `"@ + d.status.name() + "`\n"@
}

/// The quick link of a component: title, page and status.
pub open spec fn component_link(c: Component) -> Seq<char> {
    "- ["@ + c.base.title@ + "]("@ + slug_page("components"@, c.base.title@) + ") `"@ + c.status.name() + "`\n"@
}

/// The quick link of a note: title, page and type.
pub open spec fn note_link(n: Note) -> Seq<char> {
    "- ["@ + n.base.title@ + "]("@ + slug_page("notes"@, n.base.title@) + ")"@ + (match n.note_type {
        Some(t) => " `"@ + t@ + "`"@,
        None => Seq::empty(),
    }) + "\n"@
}

/// The quick link of a prompt: title and page.
pub open spec fn prompt_link(p: Prompt) -> Seq<char> {
    "- ["@ + p.base.title@ + "]("@ + slug_page("prompts"@, p.base.title@) + ")\n"@
}

/// The quick link of a link: title, page and type.
pub open spec fn link_link(l: Link) -> Seq<char> {
    "- ["@ + l.base.title@ + "]("@ + slug_page("links"@, l.base.title@) + ")"@ + (match l.link_type {
        Some(t) => " `"@ + t@ + "`"@,
        None => Seq::empty(),
    }) + "\n"@
}

/// The decisions part of the quick links.
pub open spec fn decisions_part(ds: Seq<Decision>, dord: Seq<usize>) -> Seq<char> {
    if ds.len() == 0 {
        Seq::empty()
    } else {
        "### Decisions\n\n"@ + joined_lines(ds, dord, |d: Decision| decision_link(d)) + "\n"@
    }
}

/// The active tasks part of the quick links.
pub open spec fn active_part(st: SnapshotStats) -> Seq<char> {
    if st.tasks_active > 0 {
        "### Active Tasks\n\n"@ + "See [tasks/active.md](tasks/active.md)\n\n"@
    } else {
        Seq::empty()
    }
}

/// The components part of the quick links.
pub open spec fn components_part(cs: Seq<Component>, cord: Seq<usize>) -> Seq<char> {
    if cs.len() == 0 {
        Seq::empty()
    } else {
        "### Components\n\n"@ + joined_lines(cs, cord, |c: Component| component_link(c)) + "\n"@
    }
}

/// The notes part of the quick links: the first five in `nord`, and how many more there are.
pub open spec fn notes_part(st: SnapshotStats, ns: Seq<Note>, nord: Seq<usize>) -> Seq<char> {
    if st.notes > 0 {
        "### Notes\n\n"@ + joined_lines(ns, if nord.len() > 5 { nord.take(5) } else { nord }, |n: Note| note_link(n)) + (if ns.len() > 5 {
            "\n*...and "@ + decimal((ns.len() - 5) as nat) + " more notes*\n"@
        } else {
            Seq::empty()
        }) + "\n"@
    } else {
        Seq::empty()
    }
}

/// The prompts part of the quick links.
pub open spec fn prompts_part(st: SnapshotStats, ps: Seq<Prompt>, pord: Seq<usize>) -> Seq<char> {
    if st.prompts > 0 {
        "### Prompts\n\n"@ + joined_lines(ps, pord, |p: Prompt| prompt_link(p)) + "\n"@
    } else {
        Seq::empty()
    }
}

/// The links part of the quick links.
pub open spec fn links_part(st: SnapshotStats, ls: Seq<Link>, lord: Seq<usize>) -> Seq<char> {
    if st.links > 0 {
        "### Links\n\n"@ + joined_lines(ls, lord, |l: Link| link_link(l)) + "\n"@
    } else {
        Seq::empty()
    }
}

/// The quick links: decisions, a pointer to the active tasks, components, the
/// five most recently updated notes (and how many more there are), prompts and
/// links; each part only where there is something to show.
pub open spec fn quick_links(st: SnapshotStats, ds: Seq<Decision>, dord: Seq<usize>, cs: Seq<Component>, cord: Seq<usize>, ns: Seq<Note>, nord: Seq<usize>, ps: Seq<Prompt>, pord: Seq<usize>, ls: Seq<Link>, lord: Seq<usize>) -> Seq<char> {
    "## Quick Links\n\n"@ + decisions_part(ds, dord) + active_part(st) + components_part(cs, cord) + notes_part(st, ns, nord)
        + prompts_part(st, ps, pord) + links_part(st, ls, lord)
}

/// The heading of the index page.
pub open spec fn readme_head(st: SnapshotStats) -> Seq<char> {
    "# Project Knowledge Base\n\n"@ + "> Auto-generated by [Medulla](https://github.com/jordanstella/medulla). Do not edit directly.\n\n"@ + summary_text(st)
}

/// The sort keys of sequence numbers.
pub open spec fn seq_keys<T>(items: Seq<T>, seqno: spec_fn(T) -> u32) -> Seq<i128> {
    items.map_values(|x: T| seqno(x) as i128)
}

fn decision_link_text(x: &Decision) -> (r: String)
    ensures
        r@ == decision_link(*x),
{
    let mut r = String::from_str("- [");
    push_padded3(&mut r, x.base.sequence_number as u64);
    push_str(&mut r, " - ");
    push_str(&mut r, x.base.title.as_str());
    push_str(&mut r, "](decisions/");
    let f = decision_filename(x);
    push_str(&mut r, f.as_str());
    push_str(&mut r, ") `");
    push_str(&mut r, x.status.as_str());
    push_str(&mut r, "`\n");
    assert(r@ =~= decision_link(*x));
    r
}

fn push_decision_links(out: &mut String, items: &Vec<Decision>, order: &Vec<usize>, count: usize)
    requires
        count <= order@.len(),
        forall|i: int| 0 <= i < order@.len() ==> (#[trigger] order@[i]) < items@.len(),
    ensures
        final(out)@ == old(out)@ + joined_lines(items@, order@.take(count as int), |x: Decision| decision_link(x)),
{
    let ghost f = |x: Decision| decision_link(x);
    let ghost start = out@;
    let mut i: usize = 0;
    while i < count
        invariant
            i <= count,
            count <= order@.len(),
            forall|j: int| 0 <= j < order@.len() ==> (#[trigger] order@[j]) < items@.len(),
            f == (|x: Decision| decision_link(x)),
            out@ == start + joined_lines(items@, order@.take(i as int), f),
        decreases count - i,
    {
        assert(order@.take(i + 1).drop_last() =~= order@.take(i as int));
        let line = decision_link_text(&items[order[i]]);
        push_str(out, line.as_str());
        assert(out@ =~= start + joined_lines(items@, order@.take(i + 1), f));
        i = i + 1;
    }
}

fn component_link_text(x: &Component) -> (r: String)
    ensures
        r@ == component_link(*x),
{
    let mut r = String::from_str("- [");
    push_str(&mut r, x.base.title.as_str());
    push_str(&mut r, "](");
    let f = slug_link("components", x.base.title.as_str());
    push_str(&mut r, f.as_str());
    push_str(&mut r, ") `");
    push_str(&mut r, x.status.as_str());
    push_str(&mut r, "`\n");
    assert(r@ =~= component_link(*x));
    r
}

fn push_component_links(out: &mut String, items: &Vec<Component>, order: &Vec<usize>, count: usize)
    requires
        count <= order@.len(),
        forall|i: int| 0 <= i < order@.len() ==> (#[trigger] order@[i]) < items@.len(),
    ensures
        final(out)@ == old(out)@ + joined_lines(items@, order@.take(count as int), |x: Component| component_link(x)),
{
    let ghost f = |x: Component| component_link(x);
    let ghost start = out@;
    let mut i: usize = 0;
    while i < count
        invariant
            i <= count,
            count <= order@.len(),
            forall|j: int| 0 <= j < order@.len() ==> (#[trigger] order@[j]) < items@.len(),
            f == (|x: Component| component_link(x)),
            out@ == start + joined_lines(items@, order@.take(i as int), f),
        decreases count - i,
    {
        assert(order@.take(i + 1).drop_last() =~= order@.take(i as int));
        let line = component_link_text(&items[order[i]]);
        push_str(out, line.as_str());
        assert(out@ =~= start + joined_lines(items@, order@.take(i + 1), f));
        i = i + 1;
    }
}

fn note_link_text(x: &Note) -> (r: String)
    ensures
        r@ == note_link(*x),
{
    let mut r = String::from_str("- [");
    push_str(&mut r, x.base.title.as_str());
    push_str(&mut r, "](");
    let f = slug_link("notes", x.base.title.as_str());
    push_str(&mut r, f.as_str());
    push_str(&mut r, ")");
    if let Some(t) = &x.note_type {
        push_str(&mut r, " `");
        push_str(&mut r, t.as_str());
        push_str(&mut r, "`");
    }
    push_str(&mut r, "\n");
    assert(r@ =~= note_link(*x));
    r
}

fn push_note_links(out: &mut String, items: &Vec<Note>, order: &Vec<usize>, count: usize)
    requires
        count <= order@.len(),
        forall|i: int| 0 <= i < order@.len() ==> (#[trigger] order@[i]) < items@.len(),
    ensures
        final(out)@ == old(out)@ + joined_lines(items@, order@.take(count as int), |x: Note| note_link(x)),
{
    let ghost f = |x: Note| note_link(x);
    let ghost start = out@;
    let mut i: usize = 0;
    while i < count
        invariant
            i <= count,
            count <= order@.len(),
            forall|j: int| 0 <= j < order@.len() ==> (#[trigger] order@[j]) < items@.len(),
            f == (|x: Note| note_link(x)),
            out@ == start + joined_lines(items@, order@.take(i as int), f),
        decreases count - i,
    {
        assert(order@.take(i + 1).drop_last() =~= order@.take(i as int));
        let line = note_link_text(&items[order[i]]);
        push_str(out, line.as_str());
        assert(out@ =~= start + joined_lines(items@, order@.take(i + 1), f));
        i = i + 1;
    }
}

fn prompt_link_text(x: &Prompt) -> (r: String)
    ensures
        r@ == prompt_link(*x),
{
    let mut r = String::from_str("- [");
    push_str(&mut r, x.base.title.as_str());
    push_str(&mut r, "](");
    let f = slug_link("prompts", x.base.title.as_str());
    push_str(&mut r, f.as_str());
    push_str(&mut r, ")\n");
    assert(r@ =~= prompt_link(*x));
    r
}

fn push_prompt_links(out: &mut String, items: &Vec<Prompt>, order: &Vec<usize>, count: usize)
    requires
        count <= order@.len(),
        forall|i: int| 0 <= i < order@.len() ==> (#[trigger] order@[i]) < items@.len(),
    ensures
        final(out)@ == old(out)@ + joined_lines(items@, order@.take(count as int), |x: Prompt| prompt_link(x)),
{
    let ghost f = |x: Prompt| prompt_link(x);
    let ghost start = out@;
    let mut i: usize = 0;
    while i < count
        invariant
            i <= count,
            count <= order@.len(),
            forall|j: int| 0 <= j < order@.len() ==> (#[trigger] order@[j]) < items@.len(),
            f == (|x: Prompt| prompt_link(x)),
            out@ == start + joined_lines(items@, order@.take(i as int), f),
        decreases count - i,
    {
        assert(order@.take(i + 1).drop_last() =~= order@.take(i as int));
        let line = prompt_link_text(&items[order[i]]);
        push_str(out, line.as_str());
        assert(out@ =~= start + joined_lines(items@, order@.take(i + 1), f));
        i = i + 1;
    }
}

fn link_link_text(x: &Link) -> (r: String)
    ensures
        r@ == link_link(*x),
{
    let mut r = String::from_str("- [");
    push_str(&mut r, x.base.title.as_str());
    push_str(&mut r, "](");
    let f = slug_link("links", x.base.title.as_str());
    push_str(&mut r, f.as_str());
    push_str(&mut r, ")");
    if let Some(t) = &x.link_type {
        push_str(&mut r, " `");
        push_str(&mut r, t.as_str());
        push_str(&mut r, "`");
    }
    push_str(&mut r, "\n");
    assert(r@ =~= link_link(*x));
    r
}

fn push_link_links(out: &mut String, items: &Vec<Link>, order: &Vec<usize>, count: usize)
    requires
        count <= order@.len(),
        forall|i: int| 0 <= i < order@.len() ==> (#[trigger] order@[i]) < items@.len(),
    ensures
        final(out)@ == old(out)@ + joined_lines(items@, order@.take(count as int), |x: Link| link_link(x)),
{
    let ghost f = |x: Link| link_link(x);
    let ghost start = out@;
    let mut i: usize = 0;
    while i < count
        invariant
            i <= count,
            count <= order@.len(),
            forall|j: int| 0 <= j < order@.len() ==> (#[trigger] order@[j]) < items@.len(),
            f == (|x: Link| link_link(x)),
            out@ == start + joined_lines(items@, order@.take(i as int), f),
        decreases count - i,
    {
        assert(order@.take(i + 1).drop_last() =~= order@.take(i as int));
        let line = link_link_text(&items[order[i]]);
        push_str(out, line.as_str());
        assert(out@ =~= start + joined_lines(items@, order@.take(i + 1), f));
        i = i + 1;
    }
}

fn activity_line_text(a: &RecentActivity) -> (r: String)
    ensures
        r@ == activity_line(a.row()),
{
    let mut r = String::from_str("- **");
    push_str(&mut r, a.entity_type.as_str());
    push_str(&mut r, "**: [");
    push_str(&mut r, a.title.as_str());
    push_str(&mut r, "](");
    push_str(&mut r, a.link.as_str());
    push_str(&mut r, ")");
    if let Some(st) = &a.status {
        push_str(&mut r, " - ");
        push_str(&mut r, st.as_str());
    }
    push_str(&mut r, "  \n  _");
    let d = a.updated_at.date_string();
    push_str(&mut r, d.as_str());
    push_str(&mut r, "_\n");
    assert(r@ =~= activity_line(a.row()));
    r
}

fn push_decimal_usize(s: &mut String, n: usize)
    ensures
        final(s)@ == old(s)@ + decimal(n as nat),
{
    push_decimal(s, n as u64);
}

fn seq_order_of(keys: Vec<i128>) -> (r: Vec<usize>)
    ensures
        is_permutation(r@, keys@.len() as int),
        sorted_by_keys(keys@, r@),
{
    key_order(&keys)
}

/// `text` is the index page for these statistics and entities, written at
/// `stamp`: `ro` orders the recent changes, and the other orders list the
/// quick links.
pub open spec fn readme_is(
    text: Seq<char>,
    st: SnapshotStats,
    ds: Seq<Decision>,
    ts: Seq<Task>,
    ns: Seq<Note>,
    ps: Seq<Prompt>,
    cs: Seq<Component>,
    ls: Seq<Link>,
    stamp: Seq<char>,
    ro: Seq<usize>,
    dord: Seq<usize>,
    cord: Seq<usize>,
    nord: Seq<usize>,
    pord: Seq<usize>,
    lord: Seq<usize>,
) -> bool {
    let rows = all_rows(ds, ts, ns, ps, cs, ls);
    &&& is_permutation(ro, rows.len() as int) && sorted_by_keys(recency_keys(rows), ro)
    &&& is_permutation(dord, ds.len() as int) && sorted_by_keys(seq_keys(ds, |d: Decision| d.base.sequence_number), dord)
    &&& is_permutation(cord, cs.len() as int) && sorted_by_keys(seq_keys(cs, |c: Component| c.base.sequence_number), cord)
    &&& is_permutation(nord, ns.len() as int) && sorted_by_keys(ns.map_values(|n: Note| recency_key(n.base.updated_at) as i128), nord)
    &&& is_permutation(pord, ps.len() as int) && sorted_by_keys(seq_keys(ps, |p: Prompt| p.base.sequence_number), pord)
    &&& is_permutation(lord, ls.len() as int) && sorted_by_keys(seq_keys(ls, |l: Link| l.base.sequence_number), lord)
    &&& text == readme_head(st) + recent_section(pick(rows, ro)) + quick_links(st, ds, dord, cs, cord, ns, nord, ps, pord, ls, lord)
        + footer_text("Generated"@, stamp)
}

fn push_summary(out: &mut String, st: &SnapshotStats)
    ensures
        final(out)@ == old(out)@ + summary_text(*st),
{
    push_str(out, "## Summary\n\n");
    push_str(out, "| Type | Count |\n");
    push_str(out, "|------|-------|\n");
    push_str(out, "| Decisions | ");
    push_decimal_usize(out, st.decisions);
    push_str(out, " |\n");
    push_str(out, "| Tasks | ");
    push_decimal_usize(out, st.tasks_total);
    push_str(out, " (");
    push_decimal_usize(out, st.tasks_active);
    push_str(out, " active) |\n");
    push_str(out, "| Notes | ");
    push_decimal_usize(out, st.notes);
    push_str(out, " |\n");
    push_str(out, "| Prompts | ");
    push_decimal_usize(out, st.prompts);
    push_str(out, " |\n");
    push_str(out, "| Components | ");
    push_decimal_usize(out, st.components);
    push_str(out, " |\n");
    push_str(out, "| Links | ");
    push_decimal_usize(out, st.links);
    push_str(out, " |\n");
    push_str(out, "\n");
    assert(out@ =~= old(out)@ + summary_text(*st));
}

fn push_recent(out: &mut String, recent: &Vec<RecentActivity>)
    ensures
        final(out)@ == old(out)@ + recent_section(rows_view(recent@)),
{
    let ghost rows = rows_view(recent@);
    if recent.len() == 0 {
        return;
    }
    push_str(out, "## Recent Activity\n\n");
    let ghost start = out@;
    let count: usize = if recent.len() > 5 {
        5
    } else {
        recent.len()
    };
    let mut i: usize = 0;
    while i < count
        invariant
            i <= count,
            count <= recent@.len(),
            rows == rows_view(recent@),
            out@ == start + activity_lines(rows.take(i as int)),
        decreases count - i,
    {
        assert(rows.take(i + 1).drop_last() =~= rows.take(i as int));
        assert(rows[i as int] == recent@[i as int].row());
        let line = activity_line_text(&recent[i]);
        push_str(out, line.as_str());
        i = i + 1;
    }
    proof {
        if rows.len() <= 5 {
            assert(rows.take(count as int) =~= rows);
        }
    }
    push_str(out, "\n");
}

fn decision_seq_keys(ds: &Vec<Decision>) -> (r: Vec<i128>)
    ensures
        r@ == seq_keys(ds@, |d: Decision| d.base.sequence_number),
{
    let mut r: Vec<i128> = Vec::new();
    let mut i: usize = 0;
    while i < ds.len()
        invariant
            i <= ds@.len(),
            r@ == seq_keys(ds@.take(i as int), |d: Decision| d.base.sequence_number),
        decreases ds.len() - i,
    {
        r.push(ds[i].base.sequence_number as i128);
        assert(r@ =~= seq_keys(ds@.take(i + 1), |d: Decision| d.base.sequence_number));
        i = i + 1;
    }
    assert(ds@.take(ds.len() as int) =~= ds@);
    r
}

fn component_seq_keys(xs: &Vec<Component>) -> (r: Vec<i128>)
    ensures
        r@ == seq_keys(xs@, |x: Component| x.base.sequence_number),
{
    let mut r: Vec<i128> = Vec::new();
    let mut i: usize = 0;
    while i < xs.len()
        invariant
            i <= xs@.len(),
            r@ == seq_keys(xs@.take(i as int), |x: Component| x.base.sequence_number),
        decreases xs.len() - i,
    {
        r.push(xs[i].base.sequence_number as i128);
        assert(r@ =~= seq_keys(xs@.take(i + 1), |x: Component| x.base.sequence_number));
        i = i + 1;
    }
    assert(xs@.take(xs.len() as int) =~= xs@);
    r
}

fn prompt_seq_keys(xs: &Vec<Prompt>) -> (r: Vec<i128>)
    ensures
        r@ == seq_keys(xs@, |x: Prompt| x.base.sequence_number),
{
    let mut r: Vec<i128> = Vec::new();
    let mut i: usize = 0;
    while i < xs.len()
        invariant
            i <= xs@.len(),
            r@ == seq_keys(xs@.take(i as int), |x: Prompt| x.base.sequence_number),
        decreases xs.len() - i,
    {
        r.push(xs[i].base.sequence_number as i128);
        assert(r@ =~= seq_keys(xs@.take(i + 1), |x: Prompt| x.base.sequence_number));
        i = i + 1;
    }
    assert(xs@.take(xs.len() as int) =~= xs@);
    r
}

fn link_seq_keys(xs: &Vec<Link>) -> (r: Vec<i128>)
    ensures
        r@ == seq_keys(xs@, |x: Link| x.base.sequence_number),
{
    let mut r: Vec<i128> = Vec::new();
    let mut i: usize = 0;
    while i < xs.len()
        invariant
            i <= xs@.len(),
            r@ == seq_keys(xs@.take(i as int), |x: Link| x.base.sequence_number),
        decreases xs.len() - i,
    {
        r.push(xs[i].base.sequence_number as i128);
        assert(r@ =~= seq_keys(xs@.take(i + 1), |x: Link| x.base.sequence_number));
        i = i + 1;
    }
    assert(xs@.take(xs.len() as int) =~= xs@);
    r
}

fn note_recency_keys(xs: &Vec<Note>) -> (r: Vec<i128>)
    ensures
        r@ == xs@.map_values(|n: Note| recency_key(n.base.updated_at) as i128),
{
    let mut r: Vec<i128> = Vec::new();
    let mut i: usize = 0;
    while i < xs.len()
        invariant
            i <= xs@.len(),
            r@ == xs@.take(i as int).map_values(|n: Note| recency_key(n.base.updated_at) as i128),
        decreases xs.len() - i,
    {
        r.push(recency_sort_key(&xs[i].base.updated_at));
        assert(r@ =~= xs@.take(i + 1).map_values(|n: Note| recency_key(n.base.updated_at) as i128));
        i = i + 1;
    }
    assert(xs@.take(xs.len() as int) =~= xs@);
    r
}

fn push_decisions_part(out: &mut String, ds: &Vec<Decision>, dord: &Vec<usize>)
    requires
        is_permutation(dord@, ds@.len() as int),
    ensures
        final(out)@ == old(out)@ + decisions_part(ds@, dord@),
{
    if ds.len() > 0 {
        push_str(out, "### Decisions\n\n");
        push_decision_links(out, ds, dord, dord.len());
        push_str(out, "\n");
        assert(dord@.take(dord@.len() as int) =~= dord@);
    }
    assert(out@ =~= old(out)@ + decisions_part(ds@, dord@));
}

fn push_components_part(out: &mut String, cs: &Vec<Component>, cord: &Vec<usize>)
    requires
        is_permutation(cord@, cs@.len() as int),
    ensures
        final(out)@ == old(out)@ + components_part(cs@, cord@),
{
    if cs.len() > 0 {
        push_str(out, "### Components\n\n");
        push_component_links(out, cs, cord, cord.len());
        push_str(out, "\n");
        assert(cord@.take(cord@.len() as int) =~= cord@);
    }
    assert(out@ =~= old(out)@ + components_part(cs@, cord@));
}

fn push_notes_part(out: &mut String, st: &SnapshotStats, ns: &Vec<Note>, nord: &Vec<usize>)
    requires
        is_permutation(nord@, ns@.len() as int),
    ensures
        final(out)@ == old(out)@ + notes_part(*st, ns@, nord@),
{
    if st.notes > 0 {
        push_str(out, "### Notes\n\n");
        let count: usize = if nord.len() > 5 {
            5
        } else {
            nord.len()
        };
        push_note_links(out, ns, nord, count);
        if ns.len() > 5 {
            push_str(out, "\n*...and ");
            push_decimal_usize(out, ns.len() - 5);
            push_str(out, " more notes*\n");
        }
        push_str(out, "\n");
        proof {
            if nord@.len() <= 5 {
                assert(nord@.take(nord@.len() as int) =~= nord@);
            }
        }
    }
    assert(out@ =~= old(out)@ + notes_part(*st, ns@, nord@));
}

fn push_prompts_part(out: &mut String, st: &SnapshotStats, ps: &Vec<Prompt>, pord: &Vec<usize>)
    requires
        is_permutation(pord@, ps@.len() as int),
    ensures
        final(out)@ == old(out)@ + prompts_part(*st, ps@, pord@),
{
    if st.prompts > 0 {
        push_str(out, "### Prompts\n\n");
        push_prompt_links(out, ps, pord, pord.len());
        push_str(out, "\n");
        assert(pord@.take(pord@.len() as int) =~= pord@);
    }
    assert(out@ =~= old(out)@ + prompts_part(*st, ps@, pord@));
}

fn push_links_part(out: &mut String, st: &SnapshotStats, ls: &Vec<Link>, lord: &Vec<usize>)
    requires
        is_permutation(lord@, ls@.len() as int),
    ensures
        final(out)@ == old(out)@ + links_part(*st, ls@, lord@),
{
    if st.links > 0 {
        push_str(out, "### Links\n\n");
        push_link_links(out, ls, lord, lord.len());
        push_str(out, "\n");
        assert(lord@.take(lord@.len() as int) =~= lord@);
    }
    assert(out@ =~= old(out)@ + links_part(*st, ls@, lord@));
}

fn push_active_part(out: &mut String, st: &SnapshotStats)
    ensures
        final(out)@ == old(out)@ + active_part(*st),
{
    if st.tasks_active > 0 {
        push_str(out, "### Active Tasks\n\n");
        push_str(out, "See [tasks/active.md](tasks/active.md)\n\n");
    }
    assert(out@ =~= old(out)@ + active_part(*st));
}

/// The index page of a snapshot, written at `stamp`: a title and notice, the
/// summary table, then either a line saying there are no entities yet, or the
/// recent activity and the quick links; then the time it was written.
#[verifier::spinoff_prover]
pub fn readme(
    st: &SnapshotStats,
    ds: &Vec<Decision>,
    ts: &Vec<Task>,
    ns: &Vec<Note>,
    ps: &Vec<Prompt>,
    cs: &Vec<Component>,
    ls: &Vec<Link>,
    stamp: &str,
) -> (r: String)
    requires
        st.total() <= usize::MAX,
    ensures
        st.total() == 0 ==> r@ == readme_head(*st) + "*No entities yet. Use `medulla add` to create your first entity.*\n\n"@
            + footer_text("Generated"@, stamp@),
        st.total() != 0 ==> exists|ro: Seq<usize>, dord: Seq<usize>, cord: Seq<usize>, nord: Seq<usize>, pord: Seq<usize>, lord: Seq<usize>|
            #[trigger] readme_is(r@, *st, ds@, ts@, ns@, ps@, cs@, ls@, stamp@, ro, dord, cord, nord, pord, lord),
{
    let mut content = String::from_str("# Project Knowledge Base\n\n");
    push_str(&mut content, "> Auto-generated by [Medulla](https://github.com/jordanstella/medulla). Do not edit directly.\n\n");
    push_summary(&mut content, st);
    let ghost head = content@;
    assert(head =~= readme_head(*st));
    if st.total_entities() == 0 {
        push_str(&mut content, "*No entities yet. Use `medulla add` to create your first entity.*\n\n");
        push_footer(&mut content, "Generated", stamp);
        assert(content@ =~= readme_head(*st) + "*No entities yet. Use `medulla add` to create your first entity.*\n\n"@
            + footer_text("Generated"@, stamp@));
        return content;
    }
    let recent = collect_recent_activity(ds, ts, ns, ps, cs, ls);
    let ghost rows = all_rows(ds@, ts@, ns@, ps@, cs@, ls@);
    let ghost ro = choose|o: Seq<usize>| is_permutation(o, rows.len() as int) && sorted_by_keys(recency_keys(rows), o)
        && rows_view(recent@) == pick(rows, o);
    push_recent(&mut content, &recent);
    let ghost after_recent = content@;
    push_str(&mut content, "## Quick Links\n\n");
    let dord = seq_order_of(decision_seq_keys(ds));
    let cord = seq_order_of(component_seq_keys(cs));
    let nord = seq_order_of(note_recency_keys(ns));
    let pord = seq_order_of(prompt_seq_keys(ps));
    let lord = seq_order_of(link_seq_keys(ls));
    push_decisions_part(&mut content, ds, &dord);
    push_active_part(&mut content, st);
    push_components_part(&mut content, cs, &cord);
    push_notes_part(&mut content, st, ns, &nord);
    push_prompts_part(&mut content, st, ps, &pord);
    push_links_part(&mut content, st, ls, &lord);
    push_footer(&mut content, "Generated", stamp);
    proof {
        assert(content@ =~= readme_head(*st) + recent_section(pick(rows, ro)) + quick_links(*st, ds@, dord@, cs@, cord@, ns@, nord@, ps@, pord@, ls@, lord@)
            + footer_text("Generated"@, stamp@));
        assert(readme_is(content@, *st, ds@, ts@, ns@, ps@, cs@, ls@, stamp@, ro, dord@, cord@, nord@, pord@, lord@));
    }
    content
}

/// The index page is determined by what it is written from: any two texts that
/// both meet `readme`'s description for the same entities, statistics and stamp
/// are the same text (each listing's order, ties included, is fixed).
pub proof fn lemma_readme_determined(
    t1: Seq<char>,
    t2: Seq<char>,
    st: SnapshotStats,
    ds: Seq<Decision>,
    ts: Seq<Task>,
    ns: Seq<Note>,
    ps: Seq<Prompt>,
    cs: Seq<Component>,
    ls: Seq<Link>,
    stamp: Seq<char>,
    o1: (Seq<usize>, Seq<usize>, Seq<usize>, Seq<usize>, Seq<usize>, Seq<usize>),
    o2: (Seq<usize>, Seq<usize>, Seq<usize>, Seq<usize>, Seq<usize>, Seq<usize>),
)
    requires
        readme_is(t1, st, ds, ts, ns, ps, cs, ls, stamp, o1.0, o1.1, o1.2, o1.3, o1.4, o1.5),
        readme_is(t2, st, ds, ts, ns, ps, cs, ls, stamp, o2.0, o2.1, o2.2, o2.3, o2.4, o2.5),
    ensures
        t1 == t2,
{
    let rows = all_rows(ds, ts, ns, ps, cs, ls);
    lemma_stable_order_unique(recency_keys(rows), o1.0, o2.0);
    lemma_stable_order_unique(seq_keys(ds, |d: Decision| d.base.sequence_number), o1.1, o2.1);
    lemma_stable_order_unique(seq_keys(cs, |c: Component| c.base.sequence_number), o1.2, o2.2);
    lemma_stable_order_unique(ns.map_values(|n: Note| recency_key(n.base.updated_at) as i128), o1.3, o2.3);
    lemma_stable_order_unique(seq_keys(ps, |p: Prompt| p.base.sequence_number), o1.4, o2.4);
    lemma_stable_order_unique(seq_keys(ls, |l: Link| l.base.sequence_number), o1.5, o2.5);
}

/// The file names pages get, in order, from their slugs and sequence numbers,
/// each avoiding the names before it (see `unique_filename`).
pub open spec fn page_names(slugs: Seq<Seq<char>>, seqs: Seq<u32>) -> (Seq<Seq<char>>, Seq<Seq<char>>)
    decreases slugs.len(),
{
    if slugs.len() == 0 || seqs.len() < slugs.len() {
        (Seq::empty(), Seq::empty())
    } else {
        let prev = page_names(slugs.drop_last(), seqs.take(slugs.len() - 1));
        let stem = unique_stem(slugs.last(), seqs[slugs.len() - 1], prev.1);
        (prev.0.push(stem + ".md"@), set_add(prev.1, stem))
    }
}

/// The file names of pages shown under their slugs, in order (see `page_names`).
pub fn unique_page_names(slugs: &Vec<String>, seqs: &Vec<u32>) -> (r: Vec<String>)
    requires
        seqs@.len() == slugs@.len(),
    ensures
        views(r@) == page_names(views(slugs@), seqs@).0,
{
    let mut used: Vec<String> = Vec::new();
    let mut names: Vec<String> = Vec::new();
    let mut i: usize = 0;
    assert(views(names@) =~= Seq::<Seq<char>>::empty());
    assert(views(used@) =~= Seq::<Seq<char>>::empty());
    while i < slugs.len()
        invariant
            i <= slugs@.len(),
            seqs@.len() == slugs@.len(),
            (views(names@), views(used@)) == page_names(views(slugs@).take(i as int), seqs@.take(i as int)),
        decreases slugs.len() - i,
    {
        assert(views(slugs@).take(i + 1).drop_last() =~= views(slugs@).take(i as int));
        assert(seqs@.take(i + 1).take(i as int) =~= seqs@.take(i as int));
        let ghost before = views(names@);
        let name = unique_filename(slugs[i].as_str(), seqs[i], &mut used);
        names.push(name);
        assert(views(names@) =~= before.push(names@.last()@));
        i = i + 1;
    }
    assert(views(slugs@).take(slugs.len() as int) =~= views(slugs@));
    assert(seqs@.take(slugs.len() as int) =~= seqs@);
    names
}

// ---------------------------------------------------------------------------
// The order of the task pages
// ---------------------------------------------------------------------------

/// The completed list shows the most recently updated tasks first: of two listed
/// tasks, the earlier in the list was updated no earlier than the later.
pub proof fn lemma_completed_most_recent_first(tasks: Seq<Task>, order: Seq<usize>)
    requires
        completed_order_ok(tasks, order),
    ensures
        forall|i: int, j: int| 0 <= i < j < order.len() ==>
            not_earlier(tasks[#[trigger] order[i] as int].base.updated_at, tasks[#[trigger] order[j] as int].base.updated_at),
{
    assert forall|i: int, j: int| 0 <= i < j < order.len() implies
        not_earlier(tasks[#[trigger] order[i] as int].base.updated_at, tasks[#[trigger] order[j] as int].base.updated_at) by {
        assert(completed_le(tasks[order[i] as int], tasks[order[j] as int]));
    }
}

/// The active list orders each priority's tasks by due day, the soonest first
/// and dated tasks before undated ones; undated ones by sequence number.
pub proof fn lemma_active_soonest_first(tasks: Seq<Task>, orders: Seq<Seq<usize>>)
    requires
        active_orders_ok(tasks, orders),
    ensures
        forall|k: int, i: int, j: int| 0 <= k < 4 && 0 <= i < j < orders[k].len() ==> {
            let a = tasks[#[trigger] orders[k][i] as int];
            let b = tasks[#[trigger] orders[k][j] as int];
            match (a.due_date, b.due_date) {
                (Some(x), Some(y)) => x.year < y.year || (x.year == y.year && x.month < y.month)
                    || (x.year == y.year && x.month == y.month && x.day <= y.day),
                (None, Some(_)) => false,
                (None, None) => a.base.sequence_number <= b.base.sequence_number,
                (Some(_), None) => true,
            }
        },
{
    assert forall|k: int, i: int, j: int| 0 <= k < 4 && 0 <= i < j < orders[k].len() implies {
        let a = tasks[#[trigger] orders[k][i] as int];
        let b = tasks[#[trigger] orders[k][j] as int];
        match (a.due_date, b.due_date) {
            (Some(x), Some(y)) => x.year < y.year || (x.year == y.year && x.month < y.month)
                || (x.year == y.year && x.month == y.month && x.day <= y.day),
            (None, Some(_)) => false,
            (None, None) => a.base.sequence_number <= b.base.sequence_number,
            (Some(_), None) => true,
        }
    } by {
        assert(ordered_by(tasks, orders[k], |a: Task, b: Task| active_le(a, b)));
        assert(active_le(tasks[orders[k][i] as int], tasks[orders[k][j] as int]));
    }
}

/// Recent activity is listed most recently updated first: of two rows shown in
/// that order, the earlier was updated no earlier than the later (for instants
/// whose nanoseconds are below one second, as the clock gives them).
pub proof fn lemma_recent_most_recent_first(rows: Seq<ActivityRow>, order: Seq<usize>)
    requires
        is_permutation(order, rows.len() as int),
        sorted_by_keys(recency_keys(rows), order),
        forall|k: int| 0 <= k < rows.len() ==> 0 <= (#[trigger] rows[k]).updated.nanos < 1_000_000_000,
    ensures
        forall|i: int, j: int| 0 <= i < j < order.len() ==>
            not_earlier(rows[#[trigger] order[i] as int].updated, rows[#[trigger] order[j] as int].updated),
{
    assert forall|i: int, j: int| 0 <= i < j < order.len() implies
        not_earlier(rows[#[trigger] order[i] as int].updated, rows[#[trigger] order[j] as int].updated) by {
        let a = rows[order[i] as int].updated;
        let b = rows[order[j] as int].updated;
        let ka = recency_keys(rows)[order[i] as int];
        let kb = recency_keys(rows)[order[j] as int];
        assert(ka <= kb);
        assert(ka == recency_key(a) as i128);
        assert(kb == recency_key(b) as i128);
        lemma_instant_order(a, b);
    }
}

proof fn lemma_instant_order(a: Timestamp, b: Timestamp)
    requires
        0 <= a.nanos < 1_000_000_000,
        0 <= b.nanos < 1_000_000_000,
        recency_key(a) as i128 <= recency_key(b) as i128,
    ensures
        not_earlier(a, b),
{
    let x: int = a.secs as int;
    let y: int = b.secs as int;
    let n: int = a.nanos as int;
    let m: int = b.nanos as int;
    assert(recency_key(a) == -(x * 1_000_000_000 + n));
    assert(recency_key(b) == -(y * 1_000_000_000 + m));
    assert(-0x8000_0000_0000_0000_0000_0000_0000_0000 <= recency_key(a) < 0x8000_0000_0000_0000_0000_0000_0000_0000) by (nonlinear_arith)
        requires
            -0x8000_0000_0000_0000 <= x < 0x8000_0000_0000_0000,
            0 <= n < 1_000_000_000,
            recency_key(a) == -(x * 1_000_000_000 + n),
    ;
    assert(-0x8000_0000_0000_0000_0000_0000_0000_0000 <= recency_key(b) < 0x8000_0000_0000_0000_0000_0000_0000_0000) by (nonlinear_arith)
        requires
            -0x8000_0000_0000_0000 <= y < 0x8000_0000_0000_0000,
            0 <= m < 1_000_000_000,
            recency_key(b) == -(y * 1_000_000_000 + m),
    ;
    assert(x > y || (x == y && n >= m)) by (nonlinear_arith)
        requires
            x * 1_000_000_000 + n >= y * 1_000_000_000 + m,
            0 <= n < 1_000_000_000,
            0 <= m < 1_000_000_000,
    ;
}

} // verus!
