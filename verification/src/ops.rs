//! Operations on the catalog: deleting entities, the task and decision
//! conveniences, and adding and removing relations.
use vstd::prelude::*;
use vstd::string::StringExecFns;
use crate::clock::{uuid_string, uuid_text, ymd_parse, Timestamp};
use crate::entity::{DecisionStatus, Relation, RelationType, TaskStatus};
use crate::error::McpError;
use crate::lookup::{
    all_digits, find_in_kind, first_match, is_sequence_id, kind_has_match, resolve_entity_id,
    resolves_to, unresolved, Catalog, EntityKind,
};
use crate::params::{
    DecisionSupersedeParams, EntityDeleteParams, RelationCreateParams, RelationDeleteParams,
    TaskCompleteParams, TaskRescheduleParams,
};
use crate::request::{date_error, named_date};
use crate::text::lowercase;
use crate::tools::parse_date;
use crate::update::{
    apply_decision_update, apply_task_update, base_updated, DecisionUpdate, TaskUpdate,
};

verus! {

// ---------------------------------------------------------------------------
// Deleting entities
// ---------------------------------------------------------------------------

/// The catalog without the `i`-th entity of kind `k`, everything else the same.
pub open spec fn removed_at(n: Catalog, o: Catalog, k: EntityKind, i: int) -> bool {
    &&& n.decisions@ == if k == EntityKind::Decision { o.decisions@.remove(i) } else { o.decisions@ }
    &&& n.tasks@ == if k == EntityKind::Task { o.tasks@.remove(i) } else { o.tasks@ }
    &&& n.notes@ == if k == EntityKind::Note { o.notes@.remove(i) } else { o.notes@ }
    &&& n.prompts@ == if k == EntityKind::Prompt { o.prompts@.remove(i) } else { o.prompts@ }
    &&& n.components@ == if k == EntityKind::Component { o.components@.remove(i) } else { o.components@ }
    &&& n.links@ == if k == EntityKind::Link { o.links@.remove(i) } else { o.links@ }
    &&& n.relations@ == o.relations@
}

fn remove_at(cat: &mut Catalog, k: EntityKind, i: usize) -> (id: u128)
    requires
        i < old(cat).bases(k).len(),
    ensures
        removed_at(*final(cat), *old(cat), k, i as int),
        id == old(cat).bases(k)[i as int].id,
{
    match k {
        EntityKind::Decision => cat.decisions.remove(i).base.id,
        EntityKind::Task => cat.tasks.remove(i).base.id,
        EntityKind::Note => cat.notes.remove(i).base.id,
        EntityKind::Prompt => cat.prompts.remove(i).base.id,
        EntityKind::Component => cat.components.remove(i).base.id,
        EntityKind::Link => cat.links.remove(i).base.id,
    }
}

/// Deletes the entity an identifier names (looked up over all kinds in their
/// canonical order); gives its kind, its former position and its UUID.
/// `EntityNotFound` when none answers, and then nothing changes.
pub fn delete_entity(cat: &mut Catalog, p: &EntityDeleteParams) -> (r: Result<(EntityKind, usize, u128), McpError>)
    ensures
        match r {
            Ok((k, i, uuid)) => resolves_to(&*old(cat), p.id@, k, i as int) && removed_at(*final(cat), *old(cat), k, i as int)
                && uuid == old(cat).bases(k)[i as int].id,
            Err(e) => unresolved(&*old(cat), p.id@) && *final(cat) == *old(cat)
                && (e matches McpError::EntityNotFound { id: x } && x@ == p.id@),
        },
{
    let id = p.id.as_str();
    match resolve_entity_id(cat, id) {
        Ok((k, i)) => {
            let uuid = remove_at(cat, k, i);
            Ok((k, i, uuid))
        },
        Err(e) => Err(e),
    }
}

// ---------------------------------------------------------------------------
// Task conveniences
// ---------------------------------------------------------------------------

fn empty_strings() -> (r: Vec<String>)
    ensures
        r@.len() == 0,
{
    Vec::new()
}

/// The tasks after the `i`-th was stamped `now` and given `status`, due date
/// `due` (where given); nothing else changes.
pub open spec fn task_set_at(n: Catalog, o: Catalog, i: int, status: Option<TaskStatus>, due: Option<crate::clock::CalendarDate>, now: Timestamp) -> bool {
    &&& n.tasks@ == o.tasks@.update(i, n.tasks@[i])
    &&& n.decisions@ == o.decisions@ && n.notes@ == o.notes@ && n.prompts@ == o.prompts@
    &&& n.components@ == o.components@ && n.links@ == o.links@ && n.relations@ == o.relations@
    &&& base_updated(n.tasks@[i].base, o.tasks@[i].base, None, None, Seq::empty(), Seq::empty(), now)
    &&& n.tasks@[i].status == match status { Some(s) => s, None => o.tasks@[i].status }
    &&& n.tasks@[i].priority == o.tasks@[i].priority
    &&& n.tasks@[i].due_date == match due { Some(d) => Some(d), None => o.tasks@[i].due_date }
    &&& n.tasks@[i].assignee == o.tasks@[i].assignee
}

fn set_task_at(cat: &mut Catalog, i: usize, status: Option<TaskStatus>, due: Option<crate::clock::CalendarDate>, now: Timestamp)
    requires
        i < old(cat).tasks@.len(),
    ensures
        task_set_at(*final(cat), *old(cat), i as int, status, due, now),
{
    let u = TaskUpdate {
        title: None,
        status,
        priority: None,
        content: None,
        due_date: match due {
            Some(d) => Some(Some(d)),
            None => None,
        },
        assignee: None,
        add_tags: empty_strings(),
        remove_tags: empty_strings(),
    };
    let ghost before = cat.tasks@;
    let mut t = cat.tasks.remove(i);
    apply_task_update(&mut t, u, now);
    cat.tasks.insert(i, t);
    assert(cat.tasks@ =~= before.update(i as int, cat.tasks@[i as int]));
}

/// Marks the task an identifier names as done, at instant `now`. Only tasks are
/// searched; `EntityNotFound` when none answers, and then nothing changes.
pub fn complete_task(cat: &mut Catalog, p: &TaskCompleteParams, now: Timestamp) -> (r: Result<usize, McpError>)
    ensures
        match r {
            Ok(i) => first_match(&*old(cat), EntityKind::Task, p.id@, all_digits(p.id@), i as int)
                && task_set_at(*final(cat), *old(cat), i as int, Some(TaskStatus::Done), None, now),
            Err(e) => !kind_has_match(&*old(cat), EntityKind::Task, p.id@, all_digits(p.id@)) && *final(cat) == *old(cat)
                && (e matches McpError::EntityNotFound { id: x } && x@ == p.id@),
        },
{
    let id = p.id.as_str();
    let is_sequence = is_sequence_id(id);
    match find_in_kind(cat, EntityKind::Task, id, is_sequence) {
        Some(i) => {
            set_task_at(cat, i, Some(TaskStatus::Done), None, now);
            Ok(i)
        },
        None => Err(McpError::EntityNotFound { id: String::from_str(id) }),
    }
}

/// Gives the task an identifier names a new due date, at instant `now`. The date
/// is read first (`YYYY-MM-DD`, else `InvalidDateFormat`); then only tasks are
/// searched. Nothing changes on an error.
pub fn reschedule_task(cat: &mut Catalog, p: &TaskRescheduleParams, now: Timestamp) -> (r: Result<usize, McpError>)
    ensures
        ymd_parse(p.due_date@) is None ==> (r matches Err(e) && date_error(e, "due_date"@, p.due_date@)),
        r is Err ==> *final(cat) == *old(cat),
        ymd_parse(p.due_date@) is Some ==> match r {
            Ok(i) => first_match(&*old(cat), EntityKind::Task, p.id@, all_digits(p.id@), i as int)
                && task_set_at(*final(cat), *old(cat), i as int, None, Some(named_date(p.due_date@)), now),
            Err(e) => !kind_has_match(&*old(cat), EntityKind::Task, p.id@, all_digits(p.id@))
                && (e matches McpError::EntityNotFound { id: x } && x@ == p.id@),
        },
{
    let id = p.id.as_str();
    let due_date = p.due_date.as_str();
    let d = match parse_date("due_date", due_date) {
        Ok(d) => d,
        Err(e) => {
            return Err(e);
        },
    };
    let is_sequence = is_sequence_id(id);
    match find_in_kind(cat, EntityKind::Task, id, is_sequence) {
        Some(i) => {
            set_task_at(cat, i, None, Some(d), now);
            Ok(i)
        },
        None => Err(McpError::EntityNotFound { id: String::from_str(id) }),
    }
}

// ---------------------------------------------------------------------------
// Relations
// ---------------------------------------------------------------------------

/// What identifies a relation: its source, type and target.
pub open spec fn rel_key(r: Relation) -> (u128, RelationType, u128) {
    (r.source_id, r.relation_type, r.target_id)
}

/// The relations whose key is not `k`, in order.
pub open spec fn without_key(rels: Seq<Relation>, k: (u128, RelationType, u128)) -> Seq<Relation>
    decreases rels.len(),
{
    if rels.len() == 0 {
        rels
    } else if rel_key(rels.last()) == k {
        without_key(rels.drop_last(), k)
    } else {
        without_key(rels.drop_last(), k).push(rels.last())
    }
}

/// The relations after `r` is stored: any relation with its key is replaced by it.
pub open spec fn with_relation(rels: Seq<Relation>, r: Relation) -> Seq<Relation> {
    without_key(rels, rel_key(r)).push(r)
}

/// No relation has the key `k`.
pub open spec fn key_absent(rels: Seq<Relation>, k: (u128, RelationType, u128)) -> bool {
    forall|i: int| 0 <= i < rels.len() ==> rel_key(#[trigger] rels[i]) != k
}

/// No two relations share a key.
pub open spec fn keys_unique(rels: Seq<Relation>) -> bool {
    forall|i: int, j: int| 0 <= i < j < rels.len() ==> rel_key(#[trigger] rels[i]) != rel_key(#[trigger] rels[j])
}

proof fn lemma_without_key(rels: Seq<Relation>, k: (u128, RelationType, u128))
    ensures
        key_absent(without_key(rels, k), k),
        key_absent(rels, k) ==> without_key(rels, k) == rels,
        forall|x: Relation| #[trigger] without_key(rels, k).contains(x) ==> rels.contains(x),
        forall|x: Relation| rels.contains(x) && rel_key(x) != k ==> #[trigger] without_key(rels, k).contains(x),
        keys_unique(rels) ==> keys_unique(without_key(rels, k)),
    decreases rels.len(),
{
    if rels.len() > 0 {
        let d = rels.drop_last();
        lemma_without_key(d, k);
        let w = without_key(d, k);
        assert forall|x: Relation| rels.contains(x) implies d.contains(x) || x == rels.last() by {
            let i = choose|i: int| 0 <= i < rels.len() && rels[i] == x;
            if i < rels.len() - 1 {
                assert(d[i] == x);
            }
        }
        assert forall|x: Relation| d.contains(x) implies rels.contains(x) by {
            let i = choose|i: int| 0 <= i < d.len() && d[i] == x;
            assert(rels[i] == x);
        }
        assert(rels.contains(rels.last())) by {
            assert(rels[rels.len() - 1] == rels.last());
        }
        if key_absent(rels, k) {
            assert forall|i: int| 0 <= i < d.len() implies rel_key(#[trigger] d[i]) != k by {
                assert(d[i] == rels[i]);
            }
            assert(rel_key(rels[rels.len() - 1]) != k);
            assert(w.push(rels.last()) =~= rels);
        }
        if keys_unique(rels) {
            assert forall|i: int, j: int| 0 <= i < j < d.len() implies rel_key(#[trigger] d[i]) != rel_key(#[trigger] d[j]) by {
                assert(d[i] == rels[i] && d[j] == rels[j]);
            }
        }
        if rel_key(rels.last()) != k {
            let p = w.push(rels.last());
            assert forall|x: Relation| #[trigger] p.contains(x) implies w.contains(x) || x == rels.last() by {
                let i = choose|i: int| 0 <= i < p.len() && p[i] == x;
                if i < w.len() {
                    assert(w[i] == x);
                }
            }
            assert forall|x: Relation| w.contains(x) implies #[trigger] p.contains(x) by {
                let i = choose|i: int| 0 <= i < w.len() && w[i] == x;
                assert(p[i] == x);
            }
            assert(p[w.len() as int] == rels.last());
            assert forall|i: int| 0 <= i < p.len() implies rel_key(#[trigger] p[i]) != k by {
                if i < w.len() {
                    assert(p[i] == w[i]);
                }
            }
            if keys_unique(rels) {
                assert forall|i: int, j: int| 0 <= i < j < p.len() implies rel_key(#[trigger] p[i]) != rel_key(#[trigger] p[j]) by {
                    if j == p.len() - 1 {
                        assert(p[i] == w[i]);
                        assert(w.contains(w[i]));
                        assert(d.contains(w[i]));
                        let a = choose|a: int| 0 <= a < d.len() && d[a] == w[i];
                        assert(rels[a] == d[a]);
                        assert(rels[rels.len() - 1] == rels.last());
                    } else {
                        assert(p[i] == w[i] && p[j] == w[j]);
                    }
                }
            }
        }
    }
}

/// Storing a relation and then deleting its key leaves the relations as they
/// were without that key; where no relation had that key, exactly as they were.
pub proof fn lemma_add_then_delete(rels: Seq<Relation>, r: Relation)
    ensures
        without_key(with_relation(rels, r), rel_key(r)) == without_key(rels, rel_key(r)),
        key_absent(rels, rel_key(r)) ==> without_key(with_relation(rels, r), rel_key(r)) == rels,
{
    let w = without_key(rels, rel_key(r));
    assert(with_relation(rels, r).drop_last() =~= w);
    lemma_without_key(rels, rel_key(r));
    lemma_without_key(w, rel_key(r));
}

/// After a relation is stored, it is the one relation with its key; every other
/// relation is kept; and keys stay unique.
pub proof fn lemma_with_relation(rels: Seq<Relation>, r: Relation)
    ensures
        with_relation(rels, r).contains(r),
        forall|i: int| 0 <= i < with_relation(rels, r).len() && rel_key(#[trigger] with_relation(rels, r)[i]) == rel_key(r)
            ==> with_relation(rels, r)[i] == r,
        forall|x: Relation| rels.contains(x) && rel_key(x) != rel_key(r) ==> #[trigger] with_relation(rels, r).contains(x),
        keys_unique(rels) ==> keys_unique(with_relation(rels, r)),
{
    let w = without_key(rels, rel_key(r));
    let p = w.push(r);
    lemma_without_key(rels, rel_key(r));
    assert(p[w.len() as int] == r);
    assert forall|x: Relation| rels.contains(x) && rel_key(x) != rel_key(r) implies #[trigger] p.contains(x) by {
        assert(w.contains(x));
        let i = choose|i: int| 0 <= i < w.len() && w[i] == x;
        assert(p[i] == x);
    }
    assert forall|i: int| 0 <= i < p.len() && rel_key(#[trigger] p[i]) == rel_key(r) implies p[i] == r by {
        if i < w.len() {
            assert(p[i] == w[i]);
        }
    }
    if keys_unique(rels) {
        assert forall|i: int, j: int| 0 <= i < j < p.len() implies rel_key(#[trigger] p[i]) != rel_key(#[trigger] p[j]) by {
            if j == p.len() - 1 {
                assert(p[i] == w[i]);
            } else {
                assert(p[i] == w[i] && p[j] == w[j]);
            }
        }
    }
}

fn remove_key(rels: &mut Vec<Relation>, k: (u128, RelationType, u128))
    ensures
        final(rels)@ == without_key(old(rels)@, k),
{
    let ghost start = rels@;
    let mut out: Vec<Relation> = Vec::new();
    let mut i: usize = 0;
    let n = rels.len();
    while i < n
        invariant
            n == start.len(),
            rels@ == start.skip(i as int),
            i <= n,
            out@ == without_key(start.take(i as int), k),
        decreases n - i,
    {
        let ghost rest = rels@;
        let r = rels.remove(0);
        assert(start.take(i + 1).drop_last() =~= start.take(i as int));
        assert(start.take(i + 1).last() == r);
        assert(rels@ =~= start.skip(i + 1));
        if !(r.source_id == k.0 && r.relation_type == k.1 && r.target_id == k.2) {
            out.push(r);
        }
        i = i + 1;
    }
    assert(start.take(n as int) =~= start);
    *rels = out;
}

/// Stores a relation: any relation with the same source, type and target is
/// replaced by it.
pub fn add_relation(cat: &mut Catalog, r: Relation)
    ensures
        final(cat).relations@ == with_relation(old(cat).relations@, r),
        final(cat).decisions@ == old(cat).decisions@ && final(cat).tasks@ == old(cat).tasks@,
        final(cat).notes@ == old(cat).notes@ && final(cat).prompts@ == old(cat).prompts@,
        final(cat).components@ == old(cat).components@ && final(cat).links@ == old(cat).links@,
{
    remove_key(&mut cat.relations, (r.source_id, r.relation_type, r.target_id));
    cat.relations.push(r);
}

/// Deletes the relation with a source, type and target, if there is one.
pub fn delete_relation(cat: &mut Catalog, source: u128, rt: RelationType, target: u128)
    ensures
        final(cat).relations@ == without_key(old(cat).relations@, (source, rt, target)),
        final(cat).decisions@ == old(cat).decisions@ && final(cat).tasks@ == old(cat).tasks@,
        final(cat).notes@ == old(cat).notes@ && final(cat).prompts@ == old(cat).prompts@,
        final(cat).components@ == old(cat).components@ && final(cat).links@ == old(cat).links@,
{
    remove_key(&mut cat.relations, (source, rt, target));
}

/// A relation as a create request makes it: from the entity at `(ks, is)` to
/// the one at `(kt, it)`, each with its kind's name, stamped `now`, with no
/// creator and no properties.
pub open spec fn made_relation(r: Relation, cat: Catalog, ks: EntityKind, is: int, kt: EntityKind, it: int, t: RelationType, now: Timestamp) -> bool {
    &&& r.source_id == cat.bases(ks)[is].id
    &&& r.source_type@ == ks.name()
    &&& r.target_id == cat.bases(kt)[it].id
    &&& r.target_type@ == kt.name()
    &&& r.relation_type == t
    &&& r.created_at == now
    &&& r.created_by is None
    &&& r.properties@.len() == 0
}

/// Only the relations changed.
pub open spec fn entities_same(n: Catalog, o: Catalog) -> bool {
    &&& n.decisions@ == o.decisions@ && n.tasks@ == o.tasks@ && n.notes@ == o.notes@
    &&& n.prompts@ == o.prompts@ && n.components@ == o.components@ && n.links@ == o.links@
}

/// `e` is the error for a relation type that does not read.
pub open spec fn relation_type_error(e: McpError, s: Seq<char>) -> bool {
    e matches McpError::ValidationFailed { field, message } && field@ == "relation_type"@
        && message@ == "Unknown relation type: "@ + s
}

fn parse_relation_type(s: &str) -> (r: Result<RelationType, McpError>)
    ensures
        match RelationType::from_name(lowercase(s@)) {
            Some(t) => r == Ok::<RelationType, McpError>(t),
            None => r matches Err(e) && relation_type_error(e, s@),
        },
{
    match RelationType::parse(s) {
        Ok(t) => Ok(t),
        Err(m) => Err(McpError::ValidationFailed { field: String::from_str("relation_type"), message: m }),
    }
}

fn kind_name_string(k: EntityKind) -> (r: String)
    ensures
        r@ == k.name(),
{
    String::from_str(k.as_str())
}

/// Creates a relation between the entities two identifiers name (each looked up
/// over all kinds), of a type read case-insensitively, stamped `now`; it
/// replaces any relation with the same source, type and target. Gives the new
/// relation's position. The source is resolved first, then the target, then
/// the type; nothing changes on an error.
pub fn create_relation(cat: &mut Catalog, p: &RelationCreateParams, now: Timestamp) -> (r: Result<usize, McpError>)
    ensures
        r is Err ==> *final(cat) == *old(cat),
        unresolved(&*old(cat), p.source_id@) ==> (r matches Err(McpError::EntityNotFound { id }) && id@ == p.source_id@),
        !unresolved(&*old(cat), p.source_id@) && unresolved(&*old(cat), p.target_id@)
            ==> (r matches Err(McpError::EntityNotFound { id }) && id@ == p.target_id@),
        forall|ks: EntityKind, is: int, kt: EntityKind, it: int|
            #![trigger resolves_to(&*old(cat), p.source_id@, ks, is), resolves_to(&*old(cat), p.target_id@, kt, it)]
            resolves_to(&*old(cat), p.source_id@, ks, is) && resolves_to(&*old(cat), p.target_id@, kt, it) ==>
            match RelationType::from_name(lowercase(p.relation_type@)) {
                Some(t) => r matches Ok(j) && j == final(cat).relations@.len() - 1
                    && made_relation(final(cat).relations@[j as int], *old(cat), ks, is, kt, it, t, now)
                    && final(cat).relations@ == with_relation(old(cat).relations@, final(cat).relations@[j as int])
                    && entities_same(*final(cat), *old(cat)),
                None => r matches Err(e) && relation_type_error(e, p.relation_type@),
            },
{
    let source_id = p.source_id.as_str();
    let target_id = p.target_id.as_str();
    let relation_type = p.relation_type.as_str();
    let (ks, is) = match resolve_entity_id(cat, source_id) {
        Ok(x) => x,
        Err(e) => {
            proof {
                assert forall|k2: EntityKind, i2: int| #[trigger] resolves_to(&*old(cat), source_id@, k2, i2) implies false by {
                    crate::lookup::lemma_resolved(&*old(cat), source_id@, k2, i2);
                }
            }
            return Err(e);
        },
    };
    proof {
        crate::lookup::lemma_resolved(&*old(cat), source_id@, ks, is as int);
    }
    let (kt, it) = match resolve_entity_id(cat, target_id) {
        Ok(x) => x,
        Err(e) => {
            proof {
                assert forall|k2: EntityKind, i2: int| #[trigger] resolves_to(&*old(cat), target_id@, k2, i2) implies false by {
                    crate::lookup::lemma_resolved(&*old(cat), target_id@, k2, i2);
                }
            }
            return Err(e);
        },
    };
    proof {
        crate::lookup::lemma_resolved(&*old(cat), target_id@, kt, it as int);
    }
    proof {
        assert forall|ks2: EntityKind, is2: int| #[trigger] resolves_to(&*old(cat), source_id@, ks2, is2) implies ks2 == ks && is2 == is by {
            crate::lookup::lemma_resolution_unique(&*old(cat), source_id@, ks, is as int, ks2, is2);
        }
        assert forall|kt2: EntityKind, it2: int| #[trigger] resolves_to(&*old(cat), target_id@, kt2, it2) implies kt2 == kt && it2 == it by {
            crate::lookup::lemma_resolution_unique(&*old(cat), target_id@, kt, it as int, kt2, it2);
        }
    }
    let t = match parse_relation_type(relation_type) {
        Ok(t) => t,
        Err(e) => {
            return Err(e);
        },
    };
    let source_uuid = cat.base_at(ks, is).id;
    let target_uuid = cat.base_at(kt, it).id;
    let rel = Relation::with_time(source_uuid, kind_name_string(ks), target_uuid, kind_name_string(kt), t, now);
    let ghost made = rel;
    add_relation(cat, rel);
    let j = cat.relations.len() - 1;
    assert(cat.relations@[j as int] == made);
    Ok(j)
}

/// Deletes the relation of a type between the entities two identifiers name (each
/// looked up over all kinds); gives the key that was deleted. The source is
/// resolved first, then the target, then the type; nothing changes on an error,
/// and deleting a key that no relation has changes nothing.
pub fn remove_relation(cat: &mut Catalog, p: &RelationDeleteParams) -> (r: Result<(u128, RelationType, u128), McpError>)
    ensures
        r is Err ==> *final(cat) == *old(cat),
        unresolved(&*old(cat), p.source_id@) ==> (r matches Err(McpError::EntityNotFound { id }) && id@ == p.source_id@),
        !unresolved(&*old(cat), p.source_id@) && unresolved(&*old(cat), p.target_id@)
            ==> (r matches Err(McpError::EntityNotFound { id }) && id@ == p.target_id@),
        forall|ks: EntityKind, is: int, kt: EntityKind, it: int|
            #![trigger resolves_to(&*old(cat), p.source_id@, ks, is), resolves_to(&*old(cat), p.target_id@, kt, it)]
            resolves_to(&*old(cat), p.source_id@, ks, is) && resolves_to(&*old(cat), p.target_id@, kt, it) ==>
            match RelationType::from_name(lowercase(p.relation_type@)) {
                Some(t) => r == Ok::<(u128, RelationType, u128), McpError>((old(cat).bases(ks)[is].id, t, old(cat).bases(kt)[it].id))
                    && final(cat).relations@ == without_key(old(cat).relations@, (old(cat).bases(ks)[is].id, t, old(cat).bases(kt)[it].id))
                    && entities_same(*final(cat), *old(cat)),
                None => r matches Err(e) && relation_type_error(e, p.relation_type@),
            },
{
    let source_id = p.source_id.as_str();
    let target_id = p.target_id.as_str();
    let relation_type = p.relation_type.as_str();
    let (ks, is) = match resolve_entity_id(cat, source_id) {
        Ok(x) => x,
        Err(e) => {
            proof {
                assert forall|k2: EntityKind, i2: int| #[trigger] resolves_to(&*old(cat), source_id@, k2, i2) implies false by {
                    crate::lookup::lemma_resolved(&*old(cat), source_id@, k2, i2);
                }
            }
            return Err(e);
        },
    };
    proof {
        crate::lookup::lemma_resolved(&*old(cat), source_id@, ks, is as int);
    }
    let (kt, it) = match resolve_entity_id(cat, target_id) {
        Ok(x) => x,
        Err(e) => {
            proof {
                assert forall|k2: EntityKind, i2: int| #[trigger] resolves_to(&*old(cat), target_id@, k2, i2) implies false by {
                    crate::lookup::lemma_resolved(&*old(cat), target_id@, k2, i2);
                }
            }
            return Err(e);
        },
    };
    proof {
        crate::lookup::lemma_resolved(&*old(cat), target_id@, kt, it as int);
    }
    proof {
        assert forall|ks2: EntityKind, is2: int| #[trigger] resolves_to(&*old(cat), source_id@, ks2, is2) implies ks2 == ks && is2 == is by {
            crate::lookup::lemma_resolution_unique(&*old(cat), source_id@, ks, is as int, ks2, is2);
        }
        assert forall|kt2: EntityKind, it2: int| #[trigger] resolves_to(&*old(cat), target_id@, kt2, it2) implies kt2 == kt && it2 == it by {
            crate::lookup::lemma_resolution_unique(&*old(cat), target_id@, kt, it as int, kt2, it2);
        }
    }
    let t = match parse_relation_type(relation_type) {
        Ok(t) => t,
        Err(e) => {
            return Err(e);
        },
    };
    let source_uuid = cat.base_at(ks, is).id;
    let target_uuid = cat.base_at(kt, it).id;
    delete_relation(cat, source_uuid, t, target_uuid);
    Ok((source_uuid, t, target_uuid))
}

// ---------------------------------------------------------------------------
// Superseding a decision
// ---------------------------------------------------------------------------

/// `i` is the first decision with UUID `u`.
pub open spec fn first_decision(cat: Catalog, u: u128, i: int) -> bool {
    &&& 0 <= i < cat.decisions@.len()
    &&& cat.decisions@[i].base.id == u
    &&& forall|j: int| 0 <= j < i ==> (#[trigger] cat.decisions@[j]).base.id != u
}

/// Some decision has UUID `u`.
pub open spec fn has_decision(cat: Catalog, u: u128) -> bool {
    exists|i: int| 0 <= i < cat.decisions@.len() && (#[trigger] cat.decisions@[i]).base.id == u
}

fn find_decision(cat: &Catalog, u: u128) -> (r: Option<usize>)
    ensures
        match r {
            Some(i) => first_decision(*cat, u, i as int),
            None => !has_decision(*cat, u),
        },
{
    let mut i: usize = 0;
    while i < cat.decisions.len()
        invariant
            i <= cat.decisions@.len(),
            forall|j: int| 0 <= j < i ==> (#[trigger] cat.decisions@[j]).base.id != u,
        decreases cat.decisions.len() - i,
    {
        if cat.decisions[i].base.id == u {
            return Some(i);
        }
        i = i + 1;
    }
    None
}

/// The catalog after the decision at `i` was superseded by the decision with UUID
/// `by`, at `now`: its status is `superseded`, its successor the text of `by`, its
/// modification time `now`; a `supersedes` relation from the successor to it is stored.
pub open spec fn superseded_at(n: Catalog, o: Catalog, i: int, by: u128, now: Timestamp) -> bool {
    let d = n.decisions@[i];
    let od = o.decisions@[i];
    &&& n.decisions@ == o.decisions@.update(i, d)
    &&& n.tasks@ == o.tasks@ && n.notes@ == o.notes@ && n.prompts@ == o.prompts@
    &&& n.components@ == o.components@ && n.links@ == o.links@
    &&& base_updated(d.base, od.base, None, None, Seq::empty(), Seq::empty(), now)
    &&& d.status == DecisionStatus::Superseded
    &&& d.context == od.context
    &&& d.consequences == od.consequences
    &&& d.superseded_by matches Some(s) && s@ == uuid_text(by)
    &&& n.relations@.len() > 0
    &&& n.relations@ == with_relation(o.relations@, n.relations@.last())
    &&& n.relations@.last().source_id == by
    &&& n.relations@.last().source_type@ == "decision"@
    &&& n.relations@.last().target_id == od.base.id
    &&& n.relations@.last().target_type@ == "decision"@
    &&& n.relations@.last().relation_type == RelationType::Supersedes
    &&& n.relations@.last().created_at == now
    &&& n.relations@.last().created_by is None
    &&& n.relations@.last().properties@.len() == 0
}

/// Supersedes a decision by another, at instant `now`. Both identifiers are looked
/// up over all kinds (the old one first); each must then name a decision. The old
/// decision is marked superseded by the new one, and a `supersedes` relation from
/// the new to the old is stored. Gives the old decision's position; nothing
/// changes on an error.
pub fn supersede_decision(cat: &mut Catalog, p: &DecisionSupersedeParams, now: Timestamp) -> (r: Result<usize, McpError>)
    ensures
        r is Err ==> *final(cat) == *old(cat),
        unresolved(&*old(cat), p.old_id@) ==> (r matches Err(McpError::EntityNotFound { id }) && id@ == p.old_id@),
        !unresolved(&*old(cat), p.old_id@) && unresolved(&*old(cat), p.new_id@)
            ==> (r matches Err(McpError::EntityNotFound { id }) && id@ == p.new_id@),
        forall|ko: EntityKind, io: int, kn: EntityKind, inew: int|
            #![trigger resolves_to(&*old(cat), p.old_id@, ko, io), resolves_to(&*old(cat), p.new_id@, kn, inew)]
            resolves_to(&*old(cat), p.old_id@, ko, io) && resolves_to(&*old(cat), p.new_id@, kn, inew) ==> {
                let uo = old(cat).bases(ko)[io].id;
                let un = old(cat).bases(kn)[inew].id;
                &&& !has_decision(*old(cat), uo) ==> (r matches Err(McpError::EntityNotFound { id }) && id@ == p.old_id@)
                &&& has_decision(*old(cat), uo) && !has_decision(*old(cat), un)
                    ==> (r matches Err(McpError::EntityNotFound { id }) && id@ == p.new_id@)
                &&& has_decision(*old(cat), uo) && has_decision(*old(cat), un) ==> (r matches Ok(i)
                    && first_decision(*old(cat), uo, i as int) && superseded_at(*final(cat), *old(cat), i as int, un, now))
            },
{
    let old_id = p.old_id.as_str();
    let new_id = p.new_id.as_str();
    let (ko, io) = match resolve_entity_id(cat, old_id) {
        Ok(x) => x,
        Err(e) => {
            proof {
                assert forall|k2: EntityKind, i2: int| #[trigger] resolves_to(&*old(cat), old_id@, k2, i2) implies false by {
                    crate::lookup::lemma_resolved(&*old(cat), old_id@, k2, i2);
                }
            }
            return Err(e);
        },
    };
    proof {
        crate::lookup::lemma_resolved(&*old(cat), old_id@, ko, io as int);
    }
    let (kn, inew) = match resolve_entity_id(cat, new_id) {
        Ok(x) => x,
        Err(e) => {
            proof {
                assert forall|k2: EntityKind, i2: int| #[trigger] resolves_to(&*old(cat), new_id@, k2, i2) implies false by {
                    crate::lookup::lemma_resolved(&*old(cat), new_id@, k2, i2);
                }
            }
            return Err(e);
        },
    };
    proof {
        crate::lookup::lemma_resolved(&*old(cat), new_id@, kn, inew as int);
    }
    proof {
        assert forall|k2: EntityKind, i2: int| #[trigger] resolves_to(&*old(cat), old_id@, k2, i2) implies k2 == ko && i2 == io by {
            crate::lookup::lemma_resolution_unique(&*old(cat), old_id@, ko, io as int, k2, i2);
        }
        assert forall|k2: EntityKind, i2: int| #[trigger] resolves_to(&*old(cat), new_id@, k2, i2) implies k2 == kn && i2 == inew by {
            crate::lookup::lemma_resolution_unique(&*old(cat), new_id@, kn, inew as int, k2, i2);
        }
    }
    let uo = cat.base_at(ko, io).id;
    let un = cat.base_at(kn, inew).id;
    let i = match find_decision(cat, uo) {
        Some(i) => i,
        None => {
            return Err(McpError::EntityNotFound { id: String::from_str(old_id) });
        },
    };
    match find_decision(cat, un) {
        Some(_) => {},
        None => {
            return Err(McpError::EntityNotFound { id: String::from_str(new_id) });
        },
    }
    let u = DecisionUpdate {
        title: None,
        status: Some(DecisionStatus::Superseded),
        content: None,
        context: None,
        superseded_by: Some(Some(uuid_string(un))),
        add_tags: empty_strings(),
        remove_tags: empty_strings(),
    };
    let ghost before = cat.decisions@;
    let mut d = cat.decisions.remove(i);
    apply_decision_update(&mut d, u, now);
    cat.decisions.insert(i, d);
    assert(cat.decisions@ =~= before.update(i as int, cat.decisions@[i as int]));
    let rel = Relation::with_time(
        un,
        String::from_str("decision"),
        uo,
        String::from_str("decision"),
        RelationType::Supersedes,
        now,
    );
    let ghost made = rel;
    add_relation(cat, rel);
    assert(cat.relations@.last() == made);
    Ok(i)
}

} // verus!
