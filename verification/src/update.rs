//! Updates of stored entities: the update payloads, what applying one does to
//! an entity, and how an update request's properties become a payload.
use vstd::prelude::*;
use crate::clock::{ymd_parse, CalendarDate, Timestamp};
use crate::entity::{
    ComponentStatus, Component, Decision, DecisionStatus, EntityBase, Link, Note, Prompt, Task,
    TaskPriority, TaskStatus,
};
use crate::error::McpError;
use crate::text::{str_eq, views};
use crate::tools::{
    parse_component_status, parse_date, parse_decision_status, parse_task_priority,
    parse_task_status, validate_url,
};

verus! {

// ---------------------------------------------------------------------------
// Tag lists
// ---------------------------------------------------------------------------

/// The tags of `existing` that `remove` does not name, in order.
pub open spec fn kept_tags(existing: Seq<Seq<char>>, remove: Seq<Seq<char>>) -> Seq<Seq<char>>
    decreases existing.len(),
{
    if existing.len() == 0 {
        existing
    } else if remove.contains(existing.last()) {
        kept_tags(existing.drop_last(), remove)
    } else {
        kept_tags(existing.drop_last(), remove).push(existing.last())
    }
}

/// `cur` with each tag of `add` appended, in order, unless it is there already.
pub open spec fn added_tags(cur: Seq<Seq<char>>, add: Seq<Seq<char>>) -> Seq<Seq<char>>
    decreases add.len(),
{
    if add.len() == 0 {
        cur
    } else {
        let prev = added_tags(cur, add.drop_last());
        if prev.contains(add.last()) {
            prev
        } else {
            prev.push(add.last())
        }
    }
}

/// The tags after an update: the existing ones that are not removed, then the
/// added ones that are not already present.
pub open spec fn merged_tags(existing: Seq<Seq<char>>, add: Seq<Seq<char>>, remove: Seq<Seq<char>>) -> Seq<Seq<char>> {
    added_tags(kept_tags(existing, remove), add)
}

proof fn lemma_kept(existing: Seq<Seq<char>>, remove: Seq<Seq<char>>)
    ensures
        forall|t: Seq<char>| kept_tags(existing, remove).contains(t) <==> (existing.contains(t) && !remove.contains(t)),
        existing.no_duplicates() ==> kept_tags(existing, remove).no_duplicates(),
    decreases existing.len(),
{
    if existing.len() > 0 {
        let e = existing.drop_last();
        lemma_kept(e, remove);
        assert forall|t: Seq<char>| existing.contains(t) <==> (e.contains(t) || t == existing.last()) by {
            if existing.contains(t) {
                let i = choose|i: int| 0 <= i < existing.len() && existing[i] == t;
                if i < existing.len() - 1 {
                    assert(e[i] == t);
                }
            }
            if e.contains(t) {
                let i = choose|i: int| 0 <= i < e.len() && e[i] == t;
                assert(existing[i] == t);
            }
            if t == existing.last() {
                assert(existing[existing.len() - 1] == t);
            }
        }
        let k = kept_tags(e, remove);
        if !remove.contains(existing.last()) {
            assert forall|t: Seq<char>| k.push(existing.last()).contains(t) <==> (k.contains(t) || t == existing.last()) by {
                let p = k.push(existing.last());
                if p.contains(t) {
                    let i = choose|i: int| 0 <= i < p.len() && p[i] == t;
                    if i < k.len() {
                        assert(k[i] == t);
                    }
                }
                if k.contains(t) {
                    let i = choose|i: int| 0 <= i < k.len() && k[i] == t;
                    assert(p[i] == t);
                }
                if t == existing.last() {
                    assert(p[k.len() as int] == t);
                }
            }
            if existing.no_duplicates() {
                assert(e.no_duplicates()) by {
                    assert forall|i: int, j: int| 0 <= i < j < e.len() implies e[i] != e[j] by {
                        assert(existing[i] == e[i] && existing[j] == e[j]);
                    }
                }
                assert(!e.contains(existing.last())) by {
                    if e.contains(existing.last()) {
                        let i = choose|i: int| 0 <= i < e.len() && e[i] == existing.last();
                        assert(existing[i] == existing[existing.len() - 1]);
                    }
                }
                assert(!k.contains(existing.last()));
                assert(k.push(existing.last()).no_duplicates()) by {
                    let p = k.push(existing.last());
                    assert forall|i: int, j: int| 0 <= i < j < p.len() implies p[i] != p[j] by {
                        if j == p.len() - 1 {
                            assert(p[i] == k[i]);
                        } else {
                            assert(p[i] == k[i] && p[j] == k[j]);
                        }
                    }
                }
            }
        } else {
            if existing.no_duplicates() {
                assert(e.no_duplicates()) by {
                    assert forall|i: int, j: int| 0 <= i < j < e.len() implies e[i] != e[j] by {
                        assert(existing[i] == e[i] && existing[j] == e[j]);
                    }
                }
            }
        }
    }
}

proof fn lemma_added(cur: Seq<Seq<char>>, add: Seq<Seq<char>>)
    ensures
        forall|t: Seq<char>| added_tags(cur, add).contains(t) <==> (cur.contains(t) || add.contains(t)),
        cur.no_duplicates() ==> added_tags(cur, add).no_duplicates(),
    decreases add.len(),
{
    if add.len() > 0 {
        let a = add.drop_last();
        lemma_added(cur, a);
        let prev = added_tags(cur, a);
        let x = add.last();
        assert forall|t: Seq<char>| add.contains(t) <==> (a.contains(t) || t == x) by {
            if add.contains(t) {
                let i = choose|i: int| 0 <= i < add.len() && add[i] == t;
                if i < add.len() - 1 {
                    assert(a[i] == t);
                }
            }
            if a.contains(t) {
                let i = choose|i: int| 0 <= i < a.len() && a[i] == t;
                assert(add[i] == t);
            }
            if t == x {
                assert(add[add.len() - 1] == t);
            }
        }
        if !prev.contains(x) {
            let p = prev.push(x);
            assert forall|t: Seq<char>| p.contains(t) <==> (prev.contains(t) || t == x) by {
                if p.contains(t) {
                    let i = choose|i: int| 0 <= i < p.len() && p[i] == t;
                    if i < prev.len() {
                        assert(prev[i] == t);
                    }
                }
                if prev.contains(t) {
                    let i = choose|i: int| 0 <= i < prev.len() && prev[i] == t;
                    assert(p[i] == t);
                }
                if t == x {
                    assert(p[prev.len() as int] == t);
                }
            }
            if cur.no_duplicates() {
                assert forall|i: int, j: int| 0 <= i < j < p.len() implies p[i] != p[j] by {
                    if j == p.len() - 1 {
                        assert(p[i] == prev[i]);
                    } else {
                        assert(p[i] == prev[i] && p[j] == prev[j]);
                    }
                }
            }
        }
    }
}

/// What a tag update keeps and adds: every added tag is present afterwards; an
/// existing tag stays exactly when it is not removed or is added again; no other
/// tag appears; and a list without repeats stays without repeats.
pub proof fn lemma_merged_tags(existing: Seq<Seq<char>>, add: Seq<Seq<char>>, remove: Seq<Seq<char>>)
    ensures
        forall|t: Seq<char>| #[trigger] merged_tags(existing, add, remove).contains(t) <==> ((existing.contains(t) && !remove.contains(t)) || add.contains(t)),
        existing.no_duplicates() ==> merged_tags(existing, add, remove).no_duplicates(),
{
    lemma_kept(existing, remove);
    lemma_added(kept_tags(existing, remove), add);
}

fn contains_text(v: &Vec<String>, t: &str) -> (r: bool)
    ensures
        r == views(v@).contains(t@),
{
    crate::lookup::has_exact_tag(v, t)
}

/// The tags after an update (see `merged_tags`).
pub fn merge_tags(existing: &Vec<String>, add: &Vec<String>, remove: &Vec<String>) -> (r: Vec<String>)
    ensures
        views(r@) == merged_tags(views(existing@), views(add@), views(remove@)),
{
    let ghost ve = views(existing@);
    let ghost va = views(add@);
    let ghost vr = views(remove@);
    let mut r: Vec<String> = Vec::new();
    let mut i: usize = 0;
    while i < existing.len()
        invariant
            ve == views(existing@),
            vr == views(remove@),
            i <= existing.len(),
            views(r@) == kept_tags(ve.take(i as int), vr),
        decreases existing.len() - i,
    {
        assert(ve.take(i + 1).drop_last() =~= ve.take(i as int));
        assert(ve.take(i + 1).last() == existing@[i as int]@);
        if !contains_text(remove, existing[i].as_str()) {
            let ghost old_r = r@;
            r.push(existing[i].clone());
            assert(views(r@) =~= views(old_r).push(existing@[i as int]@));
        }
        i = i + 1;
    }
    assert(ve.take(existing.len() as int) =~= ve);
    let ghost kept = views(r@);
    let mut j: usize = 0;
    while j < add.len()
        invariant
            va == views(add@),
            j <= add.len(),
            views(r@) == added_tags(kept, va.take(j as int)),
        decreases add.len() - j,
    {
        assert(va.take(j + 1).drop_last() =~= va.take(j as int));
        assert(va.take(j + 1).last() == add@[j as int]@);
        if !contains_text(&r, add[j].as_str()) {
            let ghost old_r = r@;
            r.push(add[j].clone());
            assert(views(r@) =~= views(old_r).push(add@[j as int]@));
        }
        j = j + 1;
    }
    assert(va.take(add.len() as int) =~= va);
    r
}

// ---------------------------------------------------------------------------
// Payloads
// ---------------------------------------------------------------------------

/// Update payload for a decision.
#[derive(Debug)]
pub struct DecisionUpdate {
    pub title: Option<String>,
    pub status: Option<DecisionStatus>,
    pub content: Option<String>,
    pub context: Option<String>,
    /// `Some(None)` clears the successor, `Some(Some(id))` sets it.
    pub superseded_by: Option<Option<String>>,
    pub add_tags: Vec<String>,
    pub remove_tags: Vec<String>,
}

/// Update payload for a task. For the due date and the assignee, `Some(None)`
/// clears the field and `Some(Some(v))` sets it.
#[derive(Debug)]
pub struct TaskUpdate {
    pub title: Option<String>,
    pub status: Option<TaskStatus>,
    pub priority: Option<TaskPriority>,
    pub content: Option<String>,
    pub due_date: Option<Option<CalendarDate>>,
    pub assignee: Option<Option<String>>,
    pub add_tags: Vec<String>,
    pub remove_tags: Vec<String>,
}

/// Update payload for a note.
#[derive(Debug)]
pub struct NoteUpdate {
    pub title: Option<String>,
    pub content: Option<String>,
    pub note_type: Option<Option<String>>,
    pub add_tags: Vec<String>,
    pub remove_tags: Vec<String>,
}

/// Update payload for a prompt.
#[derive(Debug)]
pub struct PromptUpdate {
    pub title: Option<String>,
    pub content: Option<String>,
    pub template: Option<Option<String>>,
    pub output_schema: Option<Option<String>>,
    pub add_variables: Vec<String>,
    pub remove_variables: Vec<String>,
    pub add_tags: Vec<String>,
    pub remove_tags: Vec<String>,
}

/// Update payload for a component.
#[derive(Debug)]
pub struct ComponentUpdate {
    pub title: Option<String>,
    pub content: Option<String>,
    pub status: Option<ComponentStatus>,
    pub component_type: Option<Option<String>>,
    pub owner: Option<Option<String>>,
    pub add_tags: Vec<String>,
    pub remove_tags: Vec<String>,
}

/// Update payload for a link.
#[derive(Debug)]
pub struct LinkUpdate {
    pub title: Option<String>,
    pub content: Option<String>,
    pub url: Option<String>,
    pub link_type: Option<Option<String>>,
    pub add_tags: Vec<String>,
    pub remove_tags: Vec<String>,
}

// ---------------------------------------------------------------------------
// Applying a payload
// ---------------------------------------------------------------------------

/// The value of an optional field after an update that may replace it.
pub open spec fn replaced<T>(old: T, new: Option<T>) -> T {
    match new {
        Some(v) => v,
        None => old,
    }
}

/// What an update does to the fields every entity has: the modification time
/// is `now`; title and content are replaced where given; tags change only when
/// some are added or removed, as `merged_tags` says.
pub open spec fn base_updated(
    new: EntityBase,
    old: EntityBase,
    title: Option<String>,
    content: Option<String>,
    add: Seq<String>,
    remove: Seq<String>,
    now: Timestamp,
) -> bool {
    &&& new.id == old.id
    &&& new.sequence_number == old.sequence_number
    &&& new.created_at == old.created_at
    &&& new.created_by == old.created_by
    &&& new.updated_at == now
    &&& new.title == replaced(old.title, title)
    &&& new.content == match content {
        Some(c) => Some(c),
        None => old.content,
    }
    &&& views(new.tags@) == if add.len() == 0 && remove.len() == 0 {
        views(old.tags@)
    } else {
        merged_tags(views(old.tags@), views(add), views(remove))
    }
}

fn update_base(
    base: &mut EntityBase,
    title: Option<String>,
    content: Option<String>,
    add: &Vec<String>,
    remove: &Vec<String>,
    now: Timestamp,
)
    ensures
        base_updated(*final(base), *old(base), title, content, add@, remove@, now),
{
    base.updated_at = now;
    if let Some(t) = title {
        base.title = t;
    }
    if let Some(c) = content {
        base.content = Some(c);
    }
    if add.len() != 0 || remove.len() != 0 {
        let tags = merge_tags(&base.tags, add, remove);
        base.tags = tags;
    }
}

/// Applies a decision update at instant `now`.
pub fn apply_decision_update(d: &mut Decision, u: DecisionUpdate, now: Timestamp)
    ensures
        base_updated(final(d).base, old(d).base, u.title, u.content, u.add_tags@, u.remove_tags@, now),
        final(d).status == replaced(old(d).status, u.status),
        final(d).context == match u.context {
            Some(c) => Some(c),
            None => old(d).context,
        },
        final(d).consequences == old(d).consequences,
        final(d).superseded_by == replaced(old(d).superseded_by, u.superseded_by),
{
    update_base(&mut d.base, u.title, u.content, &u.add_tags, &u.remove_tags, now);
    if let Some(s) = u.status {
        d.status = s;
    }
    if let Some(c) = u.context {
        d.context = Some(c);
    }
    if let Some(v) = u.superseded_by {
        d.superseded_by = v;
    }
}

/// Applies a task update at instant `now`.
pub fn apply_task_update(t: &mut Task, u: TaskUpdate, now: Timestamp)
    ensures
        base_updated(final(t).base, old(t).base, u.title, u.content, u.add_tags@, u.remove_tags@, now),
        final(t).status == replaced(old(t).status, u.status),
        final(t).priority == replaced(old(t).priority, u.priority),
        final(t).due_date == replaced(old(t).due_date, u.due_date),
        final(t).assignee == replaced(old(t).assignee, u.assignee),
{
    update_base(&mut t.base, u.title, u.content, &u.add_tags, &u.remove_tags, now);
    if let Some(s) = u.status {
        t.status = s;
    }
    if let Some(p) = u.priority {
        t.priority = p;
    }
    if let Some(d) = u.due_date {
        t.due_date = d;
    }
    if let Some(a) = u.assignee {
        t.assignee = a;
    }
}

/// Applies a note update at instant `now`.
pub fn apply_note_update(n: &mut Note, u: NoteUpdate, now: Timestamp)
    ensures
        base_updated(final(n).base, old(n).base, u.title, u.content, u.add_tags@, u.remove_tags@, now),
        final(n).note_type == replaced(old(n).note_type, u.note_type),
{
    update_base(&mut n.base, u.title, u.content, &u.add_tags, &u.remove_tags, now);
    if let Some(v) = u.note_type {
        n.note_type = v;
    }
}

/// Applies a prompt update at instant `now`; variables change as tags do.
pub fn apply_prompt_update(p: &mut Prompt, u: PromptUpdate, now: Timestamp)
    ensures
        base_updated(final(p).base, old(p).base, u.title, u.content, u.add_tags@, u.remove_tags@, now),
        final(p).template == replaced(old(p).template, u.template),
        final(p).output_schema == replaced(old(p).output_schema, u.output_schema),
        views(final(p).variables@) == if u.add_variables@.len() == 0 && u.remove_variables@.len() == 0 {
            views(old(p).variables@)
        } else {
            merged_tags(views(old(p).variables@), views(u.add_variables@), views(u.remove_variables@))
        },
{
    update_base(&mut p.base, u.title, u.content, &u.add_tags, &u.remove_tags, now);
    if let Some(v) = u.template {
        p.template = v;
    }
    if let Some(v) = u.output_schema {
        p.output_schema = v;
    }
    if u.add_variables.len() != 0 || u.remove_variables.len() != 0 {
        let vars = merge_tags(&p.variables, &u.add_variables, &u.remove_variables);
        p.variables = vars;
    }
}

/// Applies a component update at instant `now`.
pub fn apply_component_update(c: &mut Component, u: ComponentUpdate, now: Timestamp)
    ensures
        base_updated(final(c).base, old(c).base, u.title, u.content, u.add_tags@, u.remove_tags@, now),
        final(c).status == replaced(old(c).status, u.status),
        final(c).component_type == replaced(old(c).component_type, u.component_type),
        final(c).owner == replaced(old(c).owner, u.owner),
{
    update_base(&mut c.base, u.title, u.content, &u.add_tags, &u.remove_tags, now);
    if let Some(s) = u.status {
        c.status = s;
    }
    if let Some(v) = u.component_type {
        c.component_type = v;
    }
    if let Some(v) = u.owner {
        c.owner = v;
    }
}

/// Applies a link update at instant `now`.
pub fn apply_link_update(l: &mut Link, u: LinkUpdate, now: Timestamp)
    ensures
        base_updated(final(l).base, old(l).base, u.title, u.content, u.add_tags@, u.remove_tags@, now),
        final(l).url == replaced(old(l).url, u.url),
        final(l).link_type == replaced(old(l).link_type, u.link_type),
{
    update_base(&mut l.base, u.title, u.content, &u.add_tags, &u.remove_tags, now);
    if let Some(v) = u.url {
        l.url = v;
    }
    if let Some(v) = u.link_type {
        l.link_type = v;
    }
}

} // verus!
