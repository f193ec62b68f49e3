//! What the tool requests decide that reads the relation graph, the task lists
//! and the search index, and the outcome of a batch of operations.
use vstd::prelude::*;
use vstd::string::StringExecFns;
use vstd::string::StrSliceExecFns;
use crate::cache::SearchResult;
use crate::clock::{uuid_string, uuid_text};
use crate::entity::Relation;
use crate::error::{entity_type_names, McpError, DEFAULT_MAX_DEPTH, MAX_BATCH_SIZE};
use crate::graph::{
    direction_named, find_path, is_orphan, is_route, named_by_relation, parse_direction,
    positions_from, positions_to, get_relations_from, get_relations_to, Direction,
};
use crate::lookup::{all_kinds, resolve_entity_id, resolves_to, unresolved, Catalog, EntityKind};
use crate::params::{
    BatchError, BatchOperationResult, BatchResult, GraphOrphansParams, GraphPathParams,
    GraphRelationsParams, RelationResponse, SearchFulltextParams, TaskBlockedParams,
    TaskReadyParams,
};
use crate::queue::{
    blocked_entries_follow, effective_limit, get_blocked_tasks, get_ready_tasks, get_task_blockers,
    is_ready, is_top, is_waiting, lists_blockers, ready_entries_follow, ready_key, waiting_key,
    BlockedTask, ReadyTask, TaskBlocker,
};
use crate::text::{trim, trim_seq, views};
use crate::tools::validate_entity_type;

verus! {


// ---------------------------------------------------------------------------
// Relations of an entity
// ---------------------------------------------------------------------------

/// The direction a request asks for: `both` when it names none.
pub open spec fn direction_asked(d: Option<String>) -> Option<Direction> {
    match d {
        Some(s) => direction_named(s@),
        None => Some(Direction::Both),
    }
}

/// The relations of one entity: its UUID and the positions of the relations
/// from it and to it.
#[derive(Debug)]
pub struct EntityRelations {
    pub entity_id: u128,
    pub outgoing: Vec<usize>,
    pub incoming: Vec<usize>,
}

/// The relations of the entity an identifier names (looked up over all kinds):
/// those from it unless the direction is `to`, and those to it unless it is
/// `from`. The direction is checked first.
/// What `graph_relations` answers for a request: a validation error for an
/// unknown direction, `EntityNotFound` for an identifier nothing answers to, and
/// otherwise the entity's relations in the directions asked for.
pub open spec fn relations_answer(cat: &Catalog, p: &GraphRelationsParams, r: Result<EntityRelations, McpError>) -> bool {
    &&& direction_asked(p.direction) is None ==> (r matches Err(McpError::ValidationFailed { field, message })
        && field@ == "direction"@ && message@ == "Direction must be 'from', 'to', or 'both'"@)
    &&& direction_asked(p.direction) is Some && unresolved(cat, p.id@)
        ==> (r matches Err(McpError::EntityNotFound { id }) && id@ == p.id@)
    &&& forall|k: EntityKind, i: int| direction_asked(p.direction) is Some && #[trigger] resolves_to(cat, p.id@, k, i) ==> {
        let u = cat.bases(k)[i].id;
        let d = direction_asked(p.direction)->0;
        r matches Ok(x) && x.entity_id == u
            && x.outgoing@ == (if d != Direction::To { positions_from(cat.relations@, uuid_text(u), cat.relations@.len() as int) } else { Seq::empty() })
            && x.incoming@ == (if d != Direction::From { positions_to(cat.relations@, uuid_text(u), cat.relations@.len() as int) } else { Seq::empty() })
    }
}

pub fn graph_relations(cat: &Catalog, p: &GraphRelationsParams) -> (r: Result<EntityRelations, McpError>)
    ensures
        relations_answer(cat, p, r),
{
    let d = match &p.direction {
        Some(s) => parse_direction(Some(s.as_str())),
        None => parse_direction(None),
    };
    let d = match d {
        Ok(d) => d,
        Err(e) => {
            return Err(e);
        },
    };
    let (k, i) = match resolve_entity_id(cat, p.id.as_str()) {
        Ok(x) => x,
        Err(e) => {
            proof {
                assert forall|k2: EntityKind, i2: int| #[trigger] resolves_to(cat, p.id@, k2, i2) implies false by {
                    crate::lookup::lemma_resolved(cat, p.id@, k2, i2);
                }
            }
            return Err(e);
        },
    };
    proof {
        crate::lookup::lemma_resolved(cat, p.id@, k, i as int);
        assert forall|k2: EntityKind, i2: int| #[trigger] resolves_to(cat, p.id@, k2, i2) implies k2 == k && i2 == i by {
            crate::lookup::lemma_resolution_unique(cat, p.id@, k, i as int, k2, i2);
        }
    }
    let u = cat.base_at(k, i).id;
    let text = uuid_string(u);
    let outgoing = if d != Direction::To {
        get_relations_from(&cat.relations, text.as_str())
    } else {
        Vec::new()
    };
    let incoming = if d != Direction::From {
        get_relations_to(&cat.relations, text.as_str())
    } else {
        Vec::new()
    };
    Ok(EntityRelations { entity_id: u, outgoing, incoming })
}

// ---------------------------------------------------------------------------
// Paths
// ---------------------------------------------------------------------------

/// The depth a path request allows: 10 relations when it names none.
pub open spec fn depth_asked(d: Option<u32>) -> nat {
    match d {
        Some(n) => n as nat,
        None => 10,
    }
}

/// A shortest path between the entities two identifiers name (each looked up
/// over all kinds, the first one first): `Some` path exactly when one of at
/// most the allowed number of relations joins them.
pub fn graph_path(cat: &Catalog, p: &GraphPathParams) -> (r: Result<Option<Vec<u128>>, McpError>)
    ensures
        unresolved(cat, p.from_id@) ==> (r matches Err(McpError::EntityNotFound { id }) && id@ == p.from_id@),
        !unresolved(cat, p.from_id@) && unresolved(cat, p.to_id@)
            ==> (r matches Err(McpError::EntityNotFound { id }) && id@ == p.to_id@),
        forall|kf: EntityKind, jf: int, kt: EntityKind, jt: int|
            #![trigger resolves_to(cat, p.from_id@, kf, jf), resolves_to(cat, p.to_id@, kt, jt)]
            resolves_to(cat, p.from_id@, kf, jf) && resolves_to(cat, p.to_id@, kt, jt) ==> {
                let a = cat.bases(kf)[jf].id;
                let b = cat.bases(kt)[jt].id;
                let m = depth_asked(p.max_depth);
                r matches Ok(found) && match found {
                    Some(path) => is_route(cat.relations@, a, b, m, path@)
                        && forall|q: Seq<u128>| #[trigger] is_route(cat.relations@, a, b, m, q) ==> path@.len() <= q.len(),
                    None => forall|q: Seq<u128>| !#[trigger] is_route(cat.relations@, a, b, m, q),
                }
            },
{
    let max_depth: usize = match p.max_depth {
        Some(d) => d as usize,
        None => DEFAULT_MAX_DEPTH,
    };
    let (kf, jf) = match resolve_entity_id(cat, p.from_id.as_str()) {
        Ok(x) => x,
        Err(e) => {
            proof {
                assert forall|k2: EntityKind, i2: int| #[trigger] resolves_to(cat, p.from_id@, k2, i2) implies false by {
                    crate::lookup::lemma_resolved(cat, p.from_id@, k2, i2);
                }
            }
            return Err(e);
        },
    };
    proof {
        crate::lookup::lemma_resolved(cat, p.from_id@, kf, jf as int);
    }
    let (kt, jt) = match resolve_entity_id(cat, p.to_id.as_str()) {
        Ok(x) => x,
        Err(e) => {
            proof {
                assert forall|k2: EntityKind, i2: int| #[trigger] resolves_to(cat, p.to_id@, k2, i2) implies false by {
                    crate::lookup::lemma_resolved(cat, p.to_id@, k2, i2);
                }
            }
            return Err(e);
        },
    };
    proof {
        crate::lookup::lemma_resolved(cat, p.to_id@, kt, jt as int);
        assert forall|k2: EntityKind, i2: int| #[trigger] resolves_to(cat, p.from_id@, k2, i2) implies k2 == kf && i2 == jf by {
            crate::lookup::lemma_resolution_unique(cat, p.from_id@, kf, jf as int, k2, i2);
        }
        assert forall|k2: EntityKind, i2: int| #[trigger] resolves_to(cat, p.to_id@, k2, i2) implies k2 == kt && i2 == jt by {
            crate::lookup::lemma_resolution_unique(cat, p.to_id@, kt, jt as int, k2, i2);
        }
    }
    let a = cat.base_at(kf, jf).id;
    let b = cat.base_at(kt, jt).id;
    Ok(find_path(&cat.relations, a, b, max_depth))
}

// ---------------------------------------------------------------------------
// Orphans
// ---------------------------------------------------------------------------

/// The entities of kind `k`, among its first `n`, that no relation names, in order.
pub open spec fn kind_orphans(cat: &Catalog, k: EntityKind, n: int) -> Seq<(EntityKind, usize)>
    decreases n,
{
    if n <= 0 || n > cat.bases(k).len() {
        Seq::empty()
    } else {
        kind_orphans(cat, k, n - 1) + (if is_orphan(cat.relations@, cat.bases(k)[n - 1].id) {
            seq![(k, (n - 1) as usize)]
        } else {
            Seq::empty()
        })
    }
}

/// The entities of the given kinds that no relation names, kind after kind.
pub open spec fn orphans_of(cat: &Catalog, ks: Seq<EntityKind>) -> Seq<(EntityKind, usize)>
    decreases ks.len(),
{
    if ks.len() == 0 {
        Seq::empty()
    } else {
        orphans_of(cat, ks.drop_last()) + kind_orphans(cat, ks.last(), cat.bases(ks.last()).len() as int)
    }
}

/// The kinds a request names: the one its type names, or all of them.
pub open spec fn kinds_asked(t: Option<String>) -> Seq<EntityKind> {
    match t {
        Some(s) => seq![EntityKind::from_name(s@)->0],
        None => all_kinds(),
    }
}

/// The first `n` items of a sequence, or all of it when it is shorter.
pub open spec fn first_n<T>(s: Seq<T>, n: nat) -> Seq<T> {
    if s.len() <= n {
        s
    } else {
        s.take(n as int)
    }
}

fn push_kind_orphans(cat: &Catalog, k: EntityKind, out: &mut Vec<(EntityKind, usize)>)
    ensures
        final(out)@ == old(out)@ + kind_orphans(cat, k, cat.bases(k).len() as int),
{
    let ghost start = out@;
    let n = cat.count(k);
    let mut i: usize = 0;
    while i < n
        invariant
            n == cat.bases(k).len(),
            i <= n,
            out@ == start + kind_orphans(cat, k, i as int),
        decreases n - i,
    {
        let id = cat.base_at(k, i).id;
        if !named_by_relation(&cat.relations, id) {
            out.push((k, i));
        }
        assert(out@ =~= start + kind_orphans(cat, k, i + 1));
        i = i + 1;
    }
}

pub(crate) fn first_items<T>(v: Vec<T>, n: usize) -> (r: Vec<T>)
    ensures
        r@ == first_n(v@, n as nat),
{
    let ghost start = v@;
    let mut v = v;
    let mut r: Vec<T> = Vec::new();
    let len = v.len();
    let mut i: usize = 0;
    while i < len && i < n
        invariant
            len == start.len(),
            i <= len,
            i <= n,
            v@ == start.skip(i as int),
            r@ == start.take(i as int),
        decreases len - i,
    {
        let x = v.remove(0);
        assert(v@ =~= start.skip(i + 1));
        r.push(x);
        assert(r@ =~= start.take(i + 1));
        i = i + 1;
    }
    if len <= n {
        assert(start.take(len as int) =~= start);
    }
    assert(r@ == first_n(start, n as nat));
    r
}

/// The entities that no relation names, of the kind a request names (the type
/// checked first) or of all kinds in order: the `limit` first (50 by default,
/// at most 100).
pub fn graph_orphans(cat: &Catalog, p: &GraphOrphansParams) -> (r: Result<Vec<(EntityKind, usize)>, McpError>)
    ensures
        (p.entity_type matches Some(t) && !entity_type_names().contains(t@)) ==> (r matches Err(
            McpError::EntityTypeInvalid { provided, valid },
        ) && provided@ == p.entity_type->0@ && views(valid@) == entity_type_names()),
        (p.entity_type matches Some(t) ==> entity_type_names().contains(t@)) ==> (r matches Ok(v)
            && v@ == first_n(orphans_of(cat, kinds_asked(p.entity_type)), effective_limit(p.limit))),
{
    let limit: usize = match p.limit {
        Some(l) => if l > 100 {
            100
        } else {
            l as usize
        },
        None => 50,
    };
    let mut all: Vec<(EntityKind, usize)> = Vec::new();
    match &p.entity_type {
        Some(t) => {
            match validate_entity_type(t.as_str()) {
                Ok(()) => {},
                Err(e) => {
                    return Err(e);
                },
            }
            match EntityKind::from_str_name(t.as_str()) {
                Some(k) => {
                    push_kind_orphans(cat, k, &mut all);
                    assert(seq![k].drop_last() =~= Seq::<EntityKind>::empty());
                    assert(orphans_of(cat, Seq::<EntityKind>::empty()) == Seq::<(EntityKind, usize)>::empty());
                    assert(all@ =~= orphans_of(cat, seq![k]));
                },
                None => {
                    proof {
                        let j = choose|j: int| 0 <= j < entity_type_names().len() && entity_type_names()[j] == t@;
                        assert(0 <= j < 6 && entity_type_names()[j] == t@);
                    }
                    return Ok(Vec::new());
                },
            }
        },
        None => {
            let mut q: usize = 0;
            while q < 6
                invariant
                    q <= 6,
                    all@ == orphans_of(cat, all_kinds().take(q as int)),
                decreases 6 - q,
            {
                let k = EntityKind::of_rank(q);
                proof {
                    assert(all_kinds().take(q + 1).drop_last() =~= all_kinds().take(q as int));
                    assert(all_kinds()[q as int] == EntityKind::at_rank(q as int));
                }
                push_kind_orphans(cat, k, &mut all);
                q = q + 1;
            }
            assert(all_kinds().take(6) =~= all_kinds());
        },
    }
    Ok(first_items(all, limit))
}

// ---------------------------------------------------------------------------
// Task lists
// ---------------------------------------------------------------------------

/// `r` is the ready list: the `limit` first ready tasks in queue order.
pub open spec fn is_ready_list(tasks: Seq<crate::entity::Task>, rels: Seq<Relation>, limit: Option<u32>, r: Seq<ReadyTask>) -> bool {
    exists|order: Seq<usize>|
        #[trigger] ready_entries_follow(r, order, tasks) && is_top(
            tasks.map_values(|t: crate::entity::Task| ready_key(t)),
            tasks.map_values(|t: crate::entity::Task| is_ready(tasks, rels, t)),
            effective_limit(limit),
            order,
        )
}

/// `r` is the blocked list: the `limit` first waiting tasks in queue order, each
/// with its blockers.
pub open spec fn is_blocked_list(tasks: Seq<crate::entity::Task>, rels: Seq<Relation>, limit: Option<u32>, r: Seq<BlockedTask>) -> bool {
    exists|order: Seq<usize>|
        #[trigger] blocked_entries_follow(tasks, rels, r, order) && is_top(
            tasks.map_values(|t: crate::entity::Task| waiting_key(t)),
            tasks.map_values(|t: crate::entity::Task| is_waiting(tasks, rels, t)),
            effective_limit(limit),
            order,
        )
}

/// The tasks ready to work on, as a request asks for them.
pub fn task_ready(cat: &Catalog, p: &TaskReadyParams) -> (r: Vec<ReadyTask>)
    ensures
        is_ready_list(cat.tasks@, cat.relations@, p.limit, r@),
{
    get_ready_tasks(&cat.tasks, &cat.relations, p.limit)
}

/// What a blocked-tasks request answers: the blockers of one task, with its
/// UUID, or the blocked tasks.
#[derive(Debug)]
pub enum BlockedAnswer {
    Blockers(u128, Vec<TaskBlocker>),
    Blocked(Vec<BlockedTask>),
}

/// With an identifier, the open blockers of the entity it names (looked up over
/// all kinds); without one, the blocked tasks, at most `limit`.
pub fn task_blocked(cat: &Catalog, p: &TaskBlockedParams) -> (r: Result<BlockedAnswer, McpError>)
    ensures
        match p.id {
            Some(id) => {
                &&& unresolved(cat, id@) ==> (r matches Err(McpError::EntityNotFound { id: x }) && x@ == id@)
                &&& forall|k: EntityKind, i: int| #[trigger] resolves_to(cat, id@, k, i) ==> (r matches Ok(
                    BlockedAnswer::Blockers(u, b),
                ) && u == cat.bases(k)[i].id && lists_blockers(cat.tasks@, cat.relations@, uuid_text(u), b@))
            },
            None => r matches Ok(BlockedAnswer::Blocked(v)) && is_blocked_list(cat.tasks@, cat.relations@, p.limit, v@),
        },
{
    match &p.id {
        Some(id) => {
            let (k, i) = match resolve_entity_id(cat, id.as_str()) {
                Ok(x) => x,
                Err(e) => {
                    proof {
                        assert forall|k2: EntityKind, i2: int| #[trigger] resolves_to(cat, id@, k2, i2) implies false by {
                            crate::lookup::lemma_resolved(cat, id@, k2, i2);
                        }
                    }
                    return Err(e);
                },
            };
            proof {
                crate::lookup::lemma_resolved(cat, id@, k, i as int);
                assert forall|k2: EntityKind, i2: int| #[trigger] resolves_to(cat, id@, k2, i2) implies k2 == k && i2 == i by {
                    crate::lookup::lemma_resolution_unique(cat, id@, k, i as int, k2, i2);
                }
            }
            let u = cat.base_at(k, i).id;
            let text = uuid_string(u);
            let b = get_task_blockers(&cat.tasks, &cat.relations, text.as_str());
            Ok(BlockedAnswer::Blockers(u, b))
        },
        None => Ok(BlockedAnswer::Blocked(get_blocked_tasks(&cat.tasks, &cat.relations, p.limit))),
    }
}

// ---------------------------------------------------------------------------
// Full-text search
// ---------------------------------------------------------------------------

/// Checks a search request and says which kinds to search, in order, and how
/// many hits to keep: the query must not be blank, and a type, where given,
/// must be known.
pub fn search_plan(p: &SearchFulltextParams) -> (r: Result<(Vec<EntityKind>, usize), McpError>)
    ensures
        trim_seq(p.query@).len() == 0 ==> (r matches Err(McpError::ValidationFailed { field, message })
            && field@ == "query"@ && message@ == "Search query cannot be empty"@),
        trim_seq(p.query@).len() > 0 && (p.entity_type matches Some(t) && !entity_type_names().contains(t@))
            ==> (r matches Err(McpError::EntityTypeInvalid { provided, valid })
            && provided@ == p.entity_type->0@ && views(valid@) == entity_type_names()),
        trim_seq(p.query@).len() > 0 && (p.entity_type matches Some(t) ==> entity_type_names().contains(t@))
            ==> (r matches Ok((ks, n)) && ks@ == kinds_asked(p.entity_type) && n == effective_limit(p.limit)),
{
    let q = trim(p.query.as_str());
    if q.as_str().unicode_len() == 0 {
        return Err(McpError::ValidationFailed {
            field: String::from_str("query"),
            message: String::from_str("Search query cannot be empty"),
        });
    }
    let limit: usize = match p.limit {
        Some(l) => if l > 100 {
            100
        } else {
            l as usize
        },
        None => 50,
    };
    let mut kinds: Vec<EntityKind> = Vec::new();
    match &p.entity_type {
        Some(t) => {
            match validate_entity_type(t.as_str()) {
                Ok(()) => {},
                Err(e) => {
                    return Err(e);
                },
            }
            match EntityKind::from_str_name(t.as_str()) {
                Some(k) => {
                    kinds.push(k);
                    assert(kinds@ =~= seq![k]);
                },
                None => {
                    proof {
                        let j = choose|j: int| 0 <= j < entity_type_names().len() && entity_type_names()[j] == t@;
                        assert(0 <= j < 6 && entity_type_names()[j] == t@);
                    }
                    return Ok((kinds, limit));
                },
            }
        },
        None => {
            let mut q: usize = 0;
            while q < 6
                invariant
                    q <= 6,
                    kinds@ == all_kinds().take(q as int),
                decreases 6 - q,
            {
                kinds.push(EntityKind::of_rank(q));
                assert(kinds@ =~= all_kinds().take(q + 1));
                q = q + 1;
            }
            assert(all_kinds().take(6) =~= all_kinds());
        },
    }
    Ok((kinds, limit))
}

/// The hits of a search: the hits of each kind searched, kind after kind, cut to
/// the first `limit`.
pub fn collect_hits(per_kind: Vec<Vec<SearchResult>>, limit: usize) -> (r: Vec<SearchResult>)
    ensures
        r@ == first_n(per_kind@.map_values(|v: Vec<SearchResult>| v@).flatten(), limit as nat),
{
    let ghost groups = per_kind@.map_values(|v: Vec<SearchResult>| v@);
    let mut rest = per_kind;
    assert forall|x: int| 0 <= x < rest@.len() implies (#[trigger] rest@[x])@ == groups[0 + x] by {}
    let mut all: Vec<SearchResult> = Vec::new();
    let n = rest.len();
    let mut i: usize = 0;
    while i < n
        invariant
            n == groups.len(),
            i <= n,
            rest@.len() == n - i,
            forall|x: int| 0 <= x < rest@.len() ==> (#[trigger] rest@[x])@ == groups[i + x],
            all@ == groups.take(i as int).flatten(),
        decreases n - i,
    {
        let ghost before = rest@;
        let mut v = rest.remove(0);
        assert(rest@ =~= before.skip(1));
        assert(v@ == groups[i as int]) by {
            assert(before[0]@ == groups[i + 0]);
        }
        assert forall|x: int| 0 <= x < rest@.len() implies (#[trigger] rest@[x])@ == groups[i + 1 + x] by {
            assert(rest@[x] == before[x + 1]);
            assert(before[x + 1]@ == groups[i + (x + 1)]);
        }
        let ghost start = all@;
        let m = v.len();
        let mut j: usize = 0;
        let ghost g = v@;
        while j < m
            invariant
                m == g.len(),
                j <= m,
                v@ == g.skip(j as int),
                all@ == start + g.take(j as int),
            decreases m - j,
        {
            let x = v.remove(0);
            assert(v@ =~= g.skip(j + 1));
            all.push(x);
            assert(all@ =~= start + g.take(j + 1));
            j = j + 1;
        }
        assert(g.take(m as int) =~= g);
        proof {
            let t = groups.take(i + 1);
            assert(t.drop_last() =~= groups.take(i as int));
            groups.take(i as int).lemma_flatten_push(g);
            assert(groups.take(i as int).push(g) =~= t);
        }
        i = i + 1;
    }
    assert(groups.take(n as int) =~= groups);
    first_items(all, limit)
}

// ---------------------------------------------------------------------------
// Relations as answers
// ---------------------------------------------------------------------------

/// A relation as a tool answers it: UUIDs as hyphenated text, the type's name,
/// and the creation instant in RFC 3339; `None` where the instant cannot be
/// printed.
pub fn relation_to_response(r: &Relation) -> (out: Option<RelationResponse>)
    ensures
        match out {
            Some(x) => x.source_id@ == uuid_text(r.source_id) && x.source_type == r.source_type
                && x.target_id@ == uuid_text(r.target_id) && x.target_type == r.target_type
                && x.relation_type@ == r.relation_type.name()
                && crate::record::rfc3339_text(r.created_at.secs, r.created_at.nanos) == Some(x.created_at@),
            None => crate::record::rfc3339_text(r.created_at.secs, r.created_at.nanos) is None,
        },
{
    match crate::record::format_rfc3339(&r.created_at) {
        Some(t) => Some(RelationResponse {
            source_id: uuid_string(r.source_id),
            source_type: r.source_type.clone(),
            target_id: uuid_string(r.target_id),
            target_type: r.target_type.clone(),
            relation_type: String::from_str(r.relation_type.as_str()),
            created_at: t,
        }),
        None => None,
    }
}

// ---------------------------------------------------------------------------
// Batches
// ---------------------------------------------------------------------------

/// A batch holds at most 100 operations.
pub fn check_batch_size(n: usize) -> (r: Result<(), McpError>)
    ensures
        r is Ok <==> n <= MAX_BATCH_SIZE,
        r matches Err(e) ==> (e matches McpError::ValidationFailed { field, message } && field@ == "operations"@
            && message@ == "Maximum 100 operations allowed per batch"@),
{
    if n > MAX_BATCH_SIZE {
        Err(McpError::ValidationFailed {
            field: String::from_str("operations"),
            message: String::from_str("Maximum 100 operations allowed per batch"),
        })
    } else {
        Ok(())
    }
}

/// The kinds of operation a batch holds.
#[derive(Debug, Clone, Copy, PartialEq, Eq, Structural)]
pub enum BatchKind {
    Create,
    Update,
    Delete,
}

/// The error code of a failed operation of a kind.
pub open spec fn failure_code(k: BatchKind) -> Seq<char> {
    match k {
        BatchKind::Create => "CREATE_FAILED"@,
        BatchKind::Update => "UPDATE_FAILED"@,
        BatchKind::Delete => "DELETE_FAILED"@,
    }
}

/// `r` reports the operation at `index`, of a kind, that had this outcome: on
/// success the identifier it answers with, on failure the code of its kind and
/// the error's message.
pub open spec fn reports(r: BatchOperationResult, index: int, kind: BatchKind, outcome: Result<String, McpError>) -> bool {
    &&& r.index == index
    &&& r.success == outcome is Ok
    &&& match outcome {
        Ok(id) => r.id == Some(id) && r.error is None,
        Err(e) => r.id is None && (r.error matches Some(b) && b.code@ == failure_code(kind)
            && b.message@ == e.message_text()),
    }
}

/// The entry of the operation at `index`.
pub fn batch_entry(index: usize, kind: BatchKind, outcome: Result<String, McpError>) -> (r: BatchOperationResult)
    ensures
        reports(r, index as int, kind, outcome),
{
    match outcome {
        Ok(id) => BatchOperationResult { index, success: true, id: Some(id), error: None },
        Err(e) => {
            let code = match kind {
                BatchKind::Create => String::from_str("CREATE_FAILED"),
                BatchKind::Update => String::from_str("UPDATE_FAILED"),
                BatchKind::Delete => String::from_str("DELETE_FAILED"),
            };
            BatchOperationResult {
                index,
                success: false,
                id: None,
                error: Some(BatchError { code, message: e.message() }),
            }
        },
    }
}

/// How many of the first `n` outcomes succeeded.
pub open spec fn successes(rs: Seq<BatchOperationResult>, n: int) -> nat
    decreases n,
{
    if n <= 0 || n > rs.len() {
        0
    } else {
        successes(rs, n - 1) + if rs[n - 1].success { 1nat } else { 0nat }
    }
}

/// The outcomes of a batch with how many succeeded and how many failed.
pub fn tally(results: Vec<BatchOperationResult>) -> (r: BatchResult)
    ensures
        r.results@ == results@,
        r.succeeded == successes(results@, results@.len() as int),
        r.succeeded + r.failed == results@.len(),
{
    let mut succeeded: usize = 0;
    let mut i: usize = 0;
    while i < results.len()
        invariant
            i <= results@.len(),
            succeeded == successes(results@, i as int),
            succeeded <= i,
        decreases results.len() - i,
    {
        if results[i].success {
            succeeded = succeeded + 1;
        }
        i = i + 1;
    }
    let failed = results.len() - succeeded;
    BatchResult { results, succeeded, failed }
}

/// The report of a batch whose operations, run one after another, had these
/// outcomes: the entry of each operation at its own index, in order, with how
/// many succeeded and how many failed.
pub fn batch_report(outcomes: Vec<(BatchKind, Result<String, McpError>)>) -> (r: BatchResult)
    ensures
        r.results@.len() == outcomes@.len(),
        forall|i: int| 0 <= i < outcomes@.len() ==> reports(#[trigger] r.results@[i], i, outcomes@[i].0, outcomes@[i].1),
        r.succeeded == successes(r.results@, r.results@.len() as int),
        r.succeeded + r.failed == outcomes@.len(),
{
    let ghost all = outcomes@;
    assert(all.len() == outcomes.len());
    let mut rest = outcomes;
    let mut results: Vec<BatchOperationResult> = Vec::new();
    let mut i: usize = 0;
    while rest.len() > 0
        invariant
            i == results@.len(),
            i + rest@.len() == all.len(),
            all.len() <= usize::MAX,
            rest@ == all.subrange(i as int, all.len() as int),
            forall|j: int| 0 <= j < i ==> reports(#[trigger] results@[j], j, all[j].0, all[j].1),
        decreases rest@.len(),
    {
        let (kind, outcome) = rest.remove(0);
        let e = batch_entry(i, kind, outcome);
        results.push(e);
        i = i + 1;
        assert(rest@ =~= all.subrange(i as int, all.len() as int));
    }
    tally(results)
}

// ---------------------------------------------------------------------------
// The relations listed by direction
// ---------------------------------------------------------------------------

proof fn lemma_positions_from_exact(rels: Seq<Relation>, u: u128, n: int)
    requires
        0 <= n <= rels.len(),
        rels.len() <= usize::MAX,
    ensures
        forall|m: int| 0 <= m < positions_from(rels, uuid_text(u), n).len() ==> (#[trigger] positions_from(rels, uuid_text(u), n)[m]) < n,
        forall|j: int| 0 <= j < n ==> (positions_from(rels, uuid_text(u), n).contains(j as usize) <==> (#[trigger] rels[j]).source_id == u),
    decreases n,
{
    if n > 0 {
        lemma_positions_from_exact(rels, u, n - 1);
        let prev = positions_from(rels, uuid_text(u), n - 1);
        let cur = positions_from(rels, uuid_text(u), n);
        if uuid_text(rels[n - 1].source_id) == uuid_text(u) {
            crate::clock::lemma_uuid_text_injective(rels[n - 1].source_id, u);
        }
        assert forall|m: int| 0 <= m < cur.len() implies (#[trigger] cur[m]) < n by {
            if m < prev.len() {
                assert(cur[m] == prev[m]);
            }
        }
        assert forall|j: int| 0 <= j < n implies (cur.contains(j as usize) <==> (#[trigger] rels[j]).source_id == u) by {
            if j < n - 1 {
                if prev.contains(j as usize) {
                    let m = choose|m: int| 0 <= m < prev.len() && prev[m] == j as usize;
                    assert(cur[m] == prev[m]);
                }
                if cur.contains(j as usize) {
                    let m = choose|m: int| 0 <= m < cur.len() && cur[m] == j as usize;
                    if m >= prev.len() {
                        assert(cur[m] == (n - 1) as usize);
                    } else {
                        assert(cur[m] == prev[m]);
                    }
                }
            } else {
                if rels[j].source_id == u {
                    assert(cur[prev.len() as int] == (n - 1) as usize);
                }
                if cur.contains(j as usize) {
                    let m = choose|m: int| 0 <= m < cur.len() && cur[m] == j as usize;
                    if m < prev.len() {
                        assert(cur[m] == prev[m]);
                    }
                }
            }
        }
    }
}

proof fn lemma_positions_to_exact(rels: Seq<Relation>, u: u128, n: int)
    requires
        0 <= n <= rels.len(),
        rels.len() <= usize::MAX,
    ensures
        forall|m: int| 0 <= m < positions_to(rels, uuid_text(u), n).len() ==> (#[trigger] positions_to(rels, uuid_text(u), n)[m]) < n,
        forall|j: int| 0 <= j < n ==> (positions_to(rels, uuid_text(u), n).contains(j as usize) <==> (#[trigger] rels[j]).target_id == u),
    decreases n,
{
    if n > 0 {
        lemma_positions_to_exact(rels, u, n - 1);
        let prev = positions_to(rels, uuid_text(u), n - 1);
        let cur = positions_to(rels, uuid_text(u), n);
        if uuid_text(rels[n - 1].target_id) == uuid_text(u) {
            crate::clock::lemma_uuid_text_injective(rels[n - 1].target_id, u);
        }
        assert forall|m: int| 0 <= m < cur.len() implies (#[trigger] cur[m]) < n by {
            if m < prev.len() {
                assert(cur[m] == prev[m]);
            }
        }
        assert forall|j: int| 0 <= j < n implies (cur.contains(j as usize) <==> (#[trigger] rels[j]).target_id == u) by {
            if j < n - 1 {
                if prev.contains(j as usize) {
                    let m = choose|m: int| 0 <= m < prev.len() && prev[m] == j as usize;
                    assert(cur[m] == prev[m]);
                }
                if cur.contains(j as usize) {
                    let m = choose|m: int| 0 <= m < cur.len() && cur[m] == j as usize;
                    if m >= prev.len() {
                        assert(cur[m] == (n - 1) as usize);
                    } else {
                        assert(cur[m] == prev[m]);
                    }
                }
            } else {
                if rels[j].target_id == u {
                    assert(cur[prev.len() as int] == (n - 1) as usize);
                }
                if cur.contains(j as usize) {
                    let m = choose|m: int| 0 <= m < cur.len() && cur[m] == j as usize;
                    if m < prev.len() {
                        assert(cur[m] == prev[m]);
                    }
                }
            }
        }
    }
}

/// `xs` lists, by position, exactly the relations whose source is `u`.
pub open spec fn lists_sources(xs: Seq<usize>, rels: Seq<Relation>, u: u128) -> bool {
    &&& forall|m: int| 0 <= m < xs.len() ==> (#[trigger] xs[m]) < rels.len()
    &&& forall|j: int| 0 <= j < rels.len() ==> (xs.contains(j as usize) <==> (#[trigger] rels[j]).source_id == u)
}

/// `xs` lists, by position, exactly the relations whose target is `u`.
pub open spec fn lists_targets(xs: Seq<usize>, rels: Seq<Relation>, u: u128) -> bool {
    &&& forall|m: int| 0 <= m < xs.len() ==> (#[trigger] xs[m]) < rels.len()
    &&& forall|j: int| 0 <= j < rels.len() ==> (xs.contains(j as usize) <==> (#[trigger] rels[j]).target_id == u)
}

/// The relations of an entity by direction: with `from` exactly the relations
/// whose source is the entity are listed as outgoing and none as incoming; with
/// `to` exactly those whose target is the entity, as incoming, and none as
/// outgoing; with `both`, or no direction, both.
pub proof fn lemma_relations_by_direction(cat: &Catalog, p: &GraphRelationsParams, r: Result<EntityRelations, McpError>, k: EntityKind, i: int)
    requires
        relations_answer(cat, p, r),
        resolves_to(cat, p.id@, k, i),
        cat.relations@.len() <= usize::MAX,
    ensures
        (p.direction matches Some(s) && s@ == "from"@) ==> (r matches Ok(x) && x.entity_id == cat.bases(k)[i].id
            && lists_sources(x.outgoing@, cat.relations@, cat.bases(k)[i].id) && x.incoming@.len() == 0),
        (p.direction matches Some(s) && s@ == "to"@) ==> (r matches Ok(x) && x.entity_id == cat.bases(k)[i].id
            && lists_targets(x.incoming@, cat.relations@, cat.bases(k)[i].id) && x.outgoing@.len() == 0),
        (p.direction is None || (p.direction matches Some(s) && s@ == "both"@)) ==> (r matches Ok(x) && x.entity_id == cat.bases(k)[i].id
            && lists_sources(x.outgoing@, cat.relations@, cat.bases(k)[i].id)
            && lists_targets(x.incoming@, cat.relations@, cat.bases(k)[i].id)),
{
    let u = cat.bases(k)[i].id;
    let rels = cat.relations@;
    reveal_strlit("from");
    reveal_strlit("to");
    reveal_strlit("both");
    assert("from"@.len() == 4 && "to"@.len() == 2 && "both"@.len() == 4);
    assert("from"@[0] != "both"@[0]);
    lemma_positions_from_exact(rels, u, rels.len() as int);
    lemma_positions_to_exact(rels, u, rels.len() as int);
    match p.direction {
        Some(s) => {
            if s@ == "from"@ {
                assert(direction_named(s@) == Some(Direction::From));
            } else if s@ == "to"@ {
                assert(direction_named(s@) == Some(Direction::To));
            } else if s@ == "both"@ {
                assert(direction_named(s@) == Some(Direction::Both));
            }
        },
        None => {},
    }
    if direction_asked(p.direction) is Some {
        assert(resolves_to(cat, p.id@, k, i));
        let x = r->Ok_0;
        let d = direction_asked(p.direction)->0;
        assert(x.outgoing@ == (if d != Direction::To { positions_from(rels, uuid_text(u), rels.len() as int) } else { Seq::empty() }));
        assert(x.incoming@ == (if d != Direction::From { positions_to(rels, uuid_text(u), rels.len() as int) } else { Seq::empty() }));
        if d != Direction::To {
            assert(forall|j: int| 0 <= j < rels.len() ==> (x.outgoing@.contains(j as usize) <==> (#[trigger] rels[j]).source_id == u));
            assert forall|m: int| 0 <= m < x.outgoing@.len() implies (#[trigger] x.outgoing@[m]) < rels.len() by {
                assert(x.outgoing@[m] == positions_from(rels, uuid_text(u), rels.len() as int)[m]);
            }
            assert(lists_sources(x.outgoing@, rels, u));
        }
        if d != Direction::From {
            assert(forall|j: int| 0 <= j < rels.len() ==> (x.incoming@.contains(j as usize) <==> (#[trigger] rels[j]).target_id == u));
            assert forall|m: int| 0 <= m < x.incoming@.len() implies (#[trigger] x.incoming@[m]) < rels.len() by {
                assert(x.incoming@[m] == positions_to(rels, uuid_text(u), rels.len() as int)[m]);
            }
            assert(lists_targets(x.incoming@, rels, u));
        }
    }
}

} // verus!
