//! Finding entities: the catalog of everything the store holds, lookup by
//! sequence number or UUID prefix, and filtered, paged listing.
use vstd::prelude::*;
use vstd::string::StringExecFns;
use crate::clock::{uuid_string, uuid_text};
use crate::entity::{Component, Decision, EntityBase, Link, Note, Prompt, Relation, Task};
use crate::error::{entity_type_names, McpError};
use crate::queue::effective_limit;
use crate::text::{chars_of, decimal, decimal_string, is_prefix, lowercase, starts_with, str_eq, to_lowercase, views};
use crate::params::{EntityGetParams, EntityListParams};
use crate::tools::validate_entity_type;

verus! {

// ---------------------------------------------------------------------------
// Entity kinds
// ---------------------------------------------------------------------------

/// The six kinds of entity.
#[derive(Debug, Clone, Copy, PartialEq, Eq, Structural)]
pub enum EntityKind {
    Decision,
    Task,
    Note,
    Prompt,
    Component,
    Link,
}

impl EntityKind {
    /// Position of the kind in the canonical order of entity types.
    pub open spec fn rank(self) -> int {
        match self {
            EntityKind::Decision => 0,
            EntityKind::Task => 1,
            EntityKind::Note => 2,
            EntityKind::Prompt => 3,
            EntityKind::Component => 4,
            EntityKind::Link => 5,
        }
    }

    /// The kind's type name.
    pub open spec fn name(self) -> Seq<char> {
        entity_type_names()[self.rank()]
    }

    /// The kind at a position of the canonical order.
    pub open spec fn at_rank(i: int) -> EntityKind {
        if i <= 0 {
            EntityKind::Decision
        } else if i == 1 {
            EntityKind::Task
        } else if i == 2 {
            EntityKind::Note
        } else if i == 3 {
            EntityKind::Prompt
        } else if i == 4 {
            EntityKind::Component
        } else {
            EntityKind::Link
        }
    }

    /// The kind a type name names.
    pub open spec fn from_name(s: Seq<char>) -> Option<EntityKind> {
        if exists|i: int| 0 <= i < 6 && entity_type_names()[i] == s {
            Some(EntityKind::at_rank(choose|i: int| 0 <= i < 6 && entity_type_names()[i] == s))
        } else {
            None
        }
    }

    pub fn of_rank(i: usize) -> (r: EntityKind)
        requires
            i < 6,
        ensures
            r == EntityKind::at_rank(i as int),
            r.rank() == i,
    {
        if i == 0 {
            EntityKind::Decision
        } else if i == 1 {
            EntityKind::Task
        } else if i == 2 {
            EntityKind::Note
        } else if i == 3 {
            EntityKind::Prompt
        } else if i == 4 {
            EntityKind::Component
        } else {
            EntityKind::Link
        }
    }

    /// The kind's type name.
    pub fn as_str(&self) -> (r: &'static str)
        ensures
            r@ == self.name(),
    {
        proof {
            reveal_strlit("decision");
            reveal_strlit("task");
            reveal_strlit("note");
            reveal_strlit("prompt");
            reveal_strlit("component");
            reveal_strlit("link");
        }
        match self {
            EntityKind::Decision => "decision",
            EntityKind::Task => "task",
            EntityKind::Note => "note",
            EntityKind::Prompt => "prompt",
            EntityKind::Component => "component",
            EntityKind::Link => "link",
        }
    }

    /// Reads a type name.
    pub fn from_str_name(s: &str) -> (r: Option<EntityKind>)
        ensures
            r == EntityKind::from_name(s@),
            r matches Some(k) ==> k.name() == s@,
    {
        let mut i: usize = 0;
        while i < 6
            invariant
                i <= 6,
                forall|j: int| 0 <= j < i ==> entity_type_names()[j] != s@,
            decreases 6 - i,
        {
            let k = EntityKind::of_rank(i);
            if str_eq(k.as_str(), s) {
                proof {
                    lemma_names_distinct();
                    let c = choose|j: int| 0 <= j < 6 && entity_type_names()[j] == s@;
                    assert(c == i);
                }
                return Some(k);
            }
            i = i + 1;
        }
        None
    }
}

proof fn lemma_names_distinct()
    ensures
        forall|i: int, j: int| 0 <= i < 6 && 0 <= j < 6 && i != j ==> entity_type_names()[i] != entity_type_names()[j],
{
    reveal_strlit("decision");
    reveal_strlit("task");
    reveal_strlit("note");
    reveal_strlit("prompt");
    reveal_strlit("component");
    reveal_strlit("link");
    let n = entity_type_names();
    assert(n[0][0] == 'd' && n[1][0] == 't' && n[2][0] == 'n' && n[3][0] == 'p' && n[4][0] == 'c' && n[5][0] == 'l');
    assert(n[1][1] == 'a');
}

// ---------------------------------------------------------------------------
// The catalog
// ---------------------------------------------------------------------------

/// Everything the store holds, one list per kind, each in the store's order.
#[derive(Debug)]
pub struct Catalog {
    pub decisions: Vec<Decision>,
    pub tasks: Vec<Task>,
    pub notes: Vec<Note>,
    pub prompts: Vec<Prompt>,
    pub components: Vec<Component>,
    pub links: Vec<Link>,
    /// The relations, at most one for each source, type and target.
    pub relations: Vec<Relation>,
}

impl Catalog {
    /// The bases of the entities of one kind, in order.
    pub open spec fn bases(&self, k: EntityKind) -> Seq<EntityBase> {
        match k {
            EntityKind::Decision => self.decisions@.map_values(|e: Decision| e.base),
            EntityKind::Task => self.tasks@.map_values(|e: Task| e.base),
            EntityKind::Note => self.notes@.map_values(|e: Note| e.base),
            EntityKind::Prompt => self.prompts@.map_values(|e: Prompt| e.base),
            EntityKind::Component => self.components@.map_values(|e: Component| e.base),
            EntityKind::Link => self.links@.map_values(|e: Link| e.base),
        }
    }

    /// The status name of an entity, for the kinds that have one.
    pub open spec fn status_of(&self, k: EntityKind, i: int) -> Option<Seq<char>> {
        match k {
            EntityKind::Decision => Some(self.decisions@[i].status.name()),
            EntityKind::Task => Some(self.tasks@[i].status.name()),
            EntityKind::Component => Some(self.components@[i].status.name()),
            _ => None,
        }
    }

    /// How many entities of a kind the catalog holds.
    pub fn count(&self, k: EntityKind) -> (r: usize)
        ensures
            r == self.bases(k).len(),
    {
        match k {
            EntityKind::Decision => self.decisions.len(),
            EntityKind::Task => self.tasks.len(),
            EntityKind::Note => self.notes.len(),
            EntityKind::Prompt => self.prompts.len(),
            EntityKind::Component => self.components.len(),
            EntityKind::Link => self.links.len(),
        }
    }

    /// The base of the `i`-th entity of a kind.
    pub fn base_at(&self, k: EntityKind, i: usize) -> (r: &EntityBase)
        requires
            i < self.bases(k).len(),
        ensures
            *r == self.bases(k)[i as int],
    {
        match k {
            EntityKind::Decision => &self.decisions[i].base,
            EntityKind::Task => &self.tasks[i].base,
            EntityKind::Note => &self.notes[i].base,
            EntityKind::Prompt => &self.prompts[i].base,
            EntityKind::Component => &self.components[i].base,
            EntityKind::Link => &self.links[i].base,
        }
    }

    /// The status name of the `i`-th entity of a kind, for the kinds that have one.
    pub fn status_at(&self, k: EntityKind, i: usize) -> (r: Option<&'static str>)
        requires
            i < self.bases(k).len(),
        ensures
            match r {
                Some(s) => self.status_of(k, i as int) == Some(s@),
                None => self.status_of(k, i as int) is None,
            },
    {
        match k {
            EntityKind::Decision => Some(self.decisions[i].status.as_str()),
            EntityKind::Task => Some(self.tasks[i].status.as_str()),
            EntityKind::Component => Some(self.components[i].status.as_str()),
            _ => None,
        }
    }
}

// ---------------------------------------------------------------------------
// Sequence numbers
// ---------------------------------------------------------------------------

/// The sequence number that the next entity of a kind takes, given the last one
/// recorded for that kind (0 before the first): one more, where that fits in a `u32`.
pub fn sequence_after(recorded: i64) -> (r: Option<u32>)
    ensures
        r is Some <==> 0 <= recorded + 1 <= u32::MAX,
        r matches Some(n) ==> n == recorded + 1,
{
    if -1 <= recorded && recorded < 4294967295i64 {
        Some((recorded + 1) as u32)
    } else {
        None
    }
}

/// What is recorded for a kind once an entity with sequence number `seq` is
/// stored: the larger of the two, so that a number once handed out is not
/// handed out again.
pub fn recorded_after(recorded: i64, seq: u32) -> (r: i64)
    ensures
        r == (if seq > recorded { seq as int } else { recorded as int }),
        r >= seq,
        r >= recorded,
{
    let s: i64 = seq as i64;
    if s > recorded {
        s
    } else {
        recorded
    }
}

// ---------------------------------------------------------------------------
// Identifiers
// ---------------------------------------------------------------------------

/// `s` without its occurrences of `c`.
pub open spec fn without_char(s: Seq<char>, c: char) -> Seq<char>
    decreases s.len(),
{
    if s.len() == 0 {
        s
    } else if s.last() == c {
        without_char(s.drop_last(), c)
    } else {
        without_char(s.drop_last(), c).push(s.last())
    }
}

/// Removes every occurrence of a character.
pub fn remove_char(s: &str, c: char) -> (r: String)
    ensures
        r@ == without_char(s@, c),
{
    let v = chars_of(s);
    let mut r = String::new();
    let mut i: usize = 0;
    while i < v.len()
        invariant
            v@ == s@,
            i <= v.len(),
            r@ == without_char(s@.take(i as int), c),
        decreases v.len() - i,
    {
        assert(s@.take(i + 1).drop_last() =~= s@.take(i as int));
        if v[i] != c {
            crate::text::push_char(&mut r, v[i]);
        }
        i = i + 1;
    }
    assert(s@.take(v.len() as int) =~= s@);
    r
}

/// Every character is an ASCII digit (true of the empty text).
pub open spec fn all_digits(s: Seq<char>) -> bool {
    forall|i: int| 0 <= i < s.len() ==> '0' <= #[trigger] s[i] && s[i] <= '9'
}

/// Whether an identifier is written as a sequence number: ASCII digits only.
pub fn is_sequence_id(id: &str) -> (r: bool)
    ensures
        r == all_digits(id@),
{
    let v = chars_of(id);
    let mut i: usize = 0;
    while i < v.len()
        invariant
            v@ == id@,
            i <= v.len(),
            forall|k: int| 0 <= k < i ==> '0' <= #[trigger] id@[k] && id@[k] <= '9',
        decreases v.len() - i,
    {
        if !('0' <= v[i] && v[i] <= '9') {
            return false;
        }
        i = i + 1;
    }
    true
}

/// An entity answers to an identifier: as a sequence number, its number written
/// in decimal; otherwise a prefix, hyphens dropped and compared in lowercase, of
/// its UUID with hyphens dropped.
pub open spec fn id_matches(base: EntityBase, id: Seq<char>, is_sequence: bool) -> bool {
    if is_sequence {
        decimal(base.sequence_number as nat) == id
    } else {
        is_prefix(
            lowercase(without_char(id, '-')),
            lowercase(without_char(uuid_text(base.id), '-')),
        )
    }
}

/// Whether an entity answers to an identifier (see `id_matches`).
pub fn matches_id(base: &EntityBase, id: &str, is_sequence: bool) -> (r: bool)
    ensures
        r == id_matches(*base, id@, is_sequence),
{
    if is_sequence {
        let s = decimal_string(base.sequence_number as u64);
        str_eq(s.as_str(), id)
    } else {
        let full = uuid_string(base.id);
        let uuid_str = remove_char(full.as_str(), '-');
        let bare = remove_char(id, '-');
        let search_id = to_lowercase(bare.as_str());
        let hay = to_lowercase(uuid_str.as_str());
        starts_with(hay.as_str(), search_id.as_str())
    }
}

/// Some entity of kind `k` answers to the identifier.
pub open spec fn kind_has_match(cat: &Catalog, k: EntityKind, id: Seq<char>, is_sequence: bool) -> bool {
    exists|i: int| 0 <= i < cat.bases(k).len() && id_matches(#[trigger] cat.bases(k)[i], id, is_sequence)
}

/// `i` is the first entity of kind `k` that answers to the identifier.
pub open spec fn first_match(cat: &Catalog, k: EntityKind, id: Seq<char>, is_sequence: bool, i: int) -> bool {
    &&& 0 <= i < cat.bases(k).len()
    &&& id_matches(cat.bases(k)[i], id, is_sequence)
    &&& forall|j: int| 0 <= j < i ==> !id_matches(#[trigger] cat.bases(k)[j], id, is_sequence)
}

/// The first entity of a kind that answers to an identifier, in the store's order.
pub fn find_in_kind(cat: &Catalog, k: EntityKind, id: &str, is_sequence: bool) -> (r: Option<usize>)
    ensures
        match r {
            Some(i) => first_match(cat, k, id@, is_sequence, i as int),
            None => !kind_has_match(cat, k, id@, is_sequence),
        },
{
    let n = cat.count(k);
    let mut i: usize = 0;
    while i < n
        invariant
            n == cat.bases(k).len(),
            i <= n,
            forall|j: int| 0 <= j < i ==> !id_matches(#[trigger] cat.bases(k)[j], id@, is_sequence),
        decreases n - i,
    {
        if matches_id(cat.base_at(k, i), id, is_sequence) {
            return Some(i);
        }
        i = i + 1;
    }
    None
}

/// `(k, i)` is where a lookup over all kinds, in their canonical order, lands:
/// the first match of the first kind that has one.
pub open spec fn resolves_to(cat: &Catalog, id: Seq<char>, k: EntityKind, i: int) -> bool {
    &&& first_match(cat, k, id, all_digits(id), i)
    &&& forall|r: int| 0 <= r < k.rank() ==> !kind_has_match(cat, #[trigger] EntityKind::at_rank(r), id, all_digits(id))
}

/// No entity of any kind answers to the identifier.
pub open spec fn unresolved(cat: &Catalog, id: Seq<char>) -> bool {
    forall|r: int| 0 <= r < 6 ==> !kind_has_match(cat, #[trigger] EntityKind::at_rank(r), id, all_digits(id))
}

/// Finds the entity an identifier names, over all kinds in their canonical order;
/// `EntityNotFound` when none answers.
pub fn resolve_entity_id(cat: &Catalog, id: &str) -> (r: Result<(EntityKind, usize), McpError>)
    ensures
        match r {
            Ok((k, i)) => resolves_to(cat, id@, k, i as int),
            Err(e) => unresolved(cat, id@) && (e matches McpError::EntityNotFound { id: x } && x@ == id@),
        },
{
    let is_sequence = is_sequence_id(id);
    let mut r: usize = 0;
    while r < 6
        invariant
            is_sequence == all_digits(id@),
            r <= 6,
            forall|q: int| 0 <= q < r ==> !kind_has_match(cat, #[trigger] EntityKind::at_rank(q), id@, is_sequence),
        decreases 6 - r,
    {
        let k = EntityKind::of_rank(r);
        if let Some(i) = find_in_kind(cat, k, id, is_sequence) {
            return Ok((k, i));
        }
        r = r + 1;
    }
    Err(McpError::EntityNotFound { id: String::from_str(id) })
}

/// Finds an entity for a `get`: with a type hint, the hint is validated and only
/// that kind is searched; without one, all kinds are, in order.
pub fn find_entity(cat: &Catalog, p: &EntityGetParams) -> (r: Result<(EntityKind, usize), McpError>)
    ensures
        match p.entity_type {
            Some(t) => match EntityKind::from_name(t@) {
                Some(k) => match r {
                    Ok((k2, i)) => k2 == k && first_match(cat, k, p.id@, all_digits(p.id@), i as int),
                    Err(e) => !kind_has_match(cat, k, p.id@, all_digits(p.id@))
                        && (e matches McpError::EntityNotFound { id: x } && x@ == p.id@),
                },
                None => r matches Err(McpError::EntityTypeInvalid { provided, valid })
                    && provided@ == t@ && views(valid@) == entity_type_names(),
            },
            None => match r {
                Ok((k, i)) => resolves_to(cat, p.id@, k, i as int),
                Err(e) => unresolved(cat, p.id@) && (e matches McpError::EntityNotFound { id: x } && x@ == p.id@),
            },
        },
{
    let id = p.id.as_str();
    let hint: Option<&str> = match &p.entity_type {
        Some(t) => Some(t.as_str()),
        None => None,
    };
    match hint {
        Some(t) => {
            match validate_entity_type(t) {
                Err(e) => {
                    proof {
                        if EntityKind::from_name(t@) is Some {
                            let c = choose|j: int| 0 <= j < 6 && entity_type_names()[j] == t@;
                            assert(entity_type_names().contains(t@));
                        }
                    }
                    return Err(e);
                },
                Ok(()) => {},
            }
            let k = match EntityKind::from_str_name(t) {
                Some(k) => k,
                None => {
                    proof {
                        let j = choose|j: int| 0 <= j < entity_type_names().len() && entity_type_names()[j] == t@;
                        assert(0 <= j < 6 && entity_type_names()[j] == t@);
                    }
                    return Err(McpError::EntityNotFound { id: String::from_str(id) });
                },
            };
            let is_sequence = is_sequence_id(id);
            match find_in_kind(cat, k, id, is_sequence) {
                Some(i) => Ok((k, i)),
                None => Err(McpError::EntityNotFound { id: String::from_str(id) }),
            }
        },
        None => resolve_entity_id(cat, id),
    }
}

// ---------------------------------------------------------------------------
// Listing
// ---------------------------------------------------------------------------

/// An entity passes the list filters: its status equals the status asked for
/// (an entity without a status fails any), and it carries the tag asked for.
pub open spec fn passes_list_filter(base: EntityBase, status: Option<Seq<char>>, want_status: Option<Seq<char>>, want_tag: Option<Seq<char>>) -> bool {
    &&& (want_status matches Some(s) ==> status == Some(s))
    &&& (want_tag matches Some(t) ==> views(base.tags@).contains(t))
}

/// Whether an entity passes the list filters (see `passes_list_filter`).
pub fn matches_filters(base: &EntityBase, want_status: Option<&str>, want_tag: Option<&str>, status: Option<&str>) -> (r: bool)
    ensures
        r == passes_list_filter(
            *base,
            match status { Some(s) => Some(s@), None => None },
            match want_status { Some(s) => Some(s@), None => None },
            match want_tag { Some(s) => Some(s@), None => None },
        ),
{
    if let Some(fs) = want_status {
        match status {
            Some(es) => {
                if !str_eq(es, fs) {
                    return false;
                }
            },
            None => {
                return false;
            },
        }
    }
    if let Some(ft) = want_tag {
        return has_exact_tag(&base.tags, ft);
    }
    true
}

/// Whether a list of tags holds `tag`.
pub fn has_exact_tag(tags: &Vec<String>, tag: &str) -> (r: bool)
    ensures
        r == views(tags@).contains(tag@),
{
    let ghost vs = views(tags@);
    let mut i: usize = 0;
    while i < tags.len()
        invariant
            vs == views(tags@),
            i <= tags.len(),
            forall|j: int| 0 <= j < i ==> vs[j] != tag@,
        decreases tags.len() - i,
    {
        if str_eq(tags[i].as_str(), tag) {
            assert(vs[i as int] == tag@);
            return true;
        }
        i = i + 1;
    }
    false
}

/// The entities of kind `k`, among the first `n`, that pass the list filters,
/// in the store's order.
pub open spec fn kind_hits(cat: &Catalog, k: EntityKind, want_status: Option<Seq<char>>, want_tag: Option<Seq<char>>, n: int) -> Seq<(EntityKind, usize)>
    decreases n,
{
    if n <= 0 || n > cat.bases(k).len() {
        Seq::empty()
    } else {
        kind_hits(cat, k, want_status, want_tag, n - 1) + (if passes_list_filter(
            cat.bases(k)[n - 1],
            cat.status_of(k, n - 1),
            want_status,
            want_tag,
        ) {
            seq![(k, (n - 1) as usize)]
        } else {
            Seq::empty()
        })
    }
}

/// The hits of the kinds `ks`, kind after kind.
pub open spec fn hits(cat: &Catalog, ks: Seq<EntityKind>, want_status: Option<Seq<char>>, want_tag: Option<Seq<char>>) -> Seq<(EntityKind, usize)>
    decreases ks.len(),
{
    if ks.len() == 0 {
        Seq::empty()
    } else {
        hits(cat, ks.drop_last(), want_status, want_tag) + kind_hits(
            cat,
            ks.last(),
            want_status,
            want_tag,
            cat.bases(ks.last()).len() as int,
        )
    }
}

/// The kinds in their canonical order.
pub open spec fn all_kinds() -> Seq<EntityKind> {
    seq![
        EntityKind::Decision,
        EntityKind::Task,
        EntityKind::Note,
        EntityKind::Prompt,
        EntityKind::Component,
        EntityKind::Link,
    ]
}

/// A page of a listing: the entities shown, the number that passed the filters,
/// and the limit and offset used.
#[derive(Debug)]
pub struct ListPage {
    pub items: Vec<(EntityKind, usize)>,
    pub total: usize,
    pub limit: usize,
    pub offset: usize,
}

/// The page `offset`, `limit` of a sequence: what is left after skipping
/// `offset` items, cut to at most `limit`.
pub open spec fn page_of<T>(s: Seq<T>, offset: int, limit: int) -> Seq<T> {
    if offset >= s.len() {
        Seq::empty()
    } else if s.len() - offset <= limit {
        s.subrange(offset, s.len() as int)
    } else {
        s.subrange(offset, offset + limit)
    }
}

fn kind_hits_into(cat: &Catalog, k: EntityKind, want_status: Option<&str>, want_tag: Option<&str>, out: &mut Vec<(EntityKind, usize)>)
    ensures
        final(out)@ == old(out)@ + kind_hits(
            cat,
            k,
            match want_status { Some(s) => Some(s@), None => None },
            match want_tag { Some(s) => Some(s@), None => None },
            cat.bases(k).len() as int,
        ),
{
    let ghost ws = match want_status { Some(s) => Some(s@), None => None };
    let ghost wt = match want_tag { Some(s) => Some(s@), None => None };
    let ghost start = out@;
    let n = cat.count(k);
    let mut i: usize = 0;
    while i < n
        invariant
            n == cat.bases(k).len(),
            i <= n,
            ws == match want_status { Some(s) => Some(s@), None => None },
            wt == match want_tag { Some(s) => Some(s@), None => None },
            out@ == start + kind_hits(cat, k, ws, wt, i as int),
        decreases n - i,
    {
        let base = cat.base_at(k, i);
        let st = cat.status_at(k, i);
        if matches_filters(base, want_status, want_tag, st) {
            out.push((k, i));
        }
        proof {
            let st_spec = match st { Some(s) => Some(s@), None => None };
            assert(st_spec == cat.status_of(k, i as int));
        }
        assert(out@ =~= start + kind_hits(cat, k, ws, wt, i + 1));
        i = i + 1;
    }
}

/// Lists entities: those of the hinted kind (the hint validated first) or of all
/// kinds in order, that pass the status and tag filters; then the page at
/// `offset` (0 by default) of at most `limit` (50 by default, at most 100).
pub fn list_entities(cat: &Catalog, req: &EntityListParams) -> (r: Result<ListPage, McpError>)
    ensures
        ({
            let ws = match req.status { Some(s) => Some(s@), None => None };
            let wt = match req.tag { Some(s) => Some(s@), None => None };
            let lim = effective_limit(req.limit);
            let off: int = match req.offset { Some(o) => o as int, None => 0 };
            match req.entity_type {
                Some(t) => match EntityKind::from_name(t@) {
                    Some(k) => r matches Ok(p) && p.total == hits(cat, seq![k], ws, wt).len()
                        && p.items@ == page_of(hits(cat, seq![k], ws, wt), off, lim as int)
                        && p.limit == lim && p.offset == off,
                    None => r matches Err(McpError::EntityTypeInvalid { provided, valid })
                        && provided@ == t@ && views(valid@) == entity_type_names(),
                },
                None => r matches Ok(p) && p.total == hits(cat, all_kinds(), ws, wt).len()
                    && p.items@ == page_of(hits(cat, all_kinds(), ws, wt), off, lim as int)
                    && p.limit == lim && p.offset == off,
            }
        }),
{
    let kind_hint: Option<&str> = match &req.entity_type {
        Some(t) => Some(t.as_str()),
        None => None,
    };
    let want_status: Option<&str> = match &req.status {
        Some(t) => Some(t.as_str()),
        None => None,
    };
    let want_tag: Option<&str> = match &req.tag {
        Some(t) => Some(t.as_str()),
        None => None,
    };
    let limit = req.limit;
    let offset = req.offset;
    let ghost ws = match want_status { Some(s) => Some(s@), None => None };
    let ghost wt = match want_tag { Some(s) => Some(s@), None => None };
    let lim: usize = match limit {
        Some(l) => if l > 100 {
            100
        } else {
            l as usize
        },
        None => 50,
    };
    let off: usize = match offset {
        Some(o) => o as usize,
        None => 0,
    };
    let mut all: Vec<(EntityKind, usize)> = Vec::new();
    match kind_hint {
        Some(t) => {
            match validate_entity_type(t) {
                Err(e) => {
                    proof {
                        if EntityKind::from_name(t@) is Some {
                            let c = choose|j: int| 0 <= j < 6 && entity_type_names()[j] == t@;
                            assert(entity_type_names().contains(t@));
                        }
                    }
                    return Err(e);
                },
                Ok(()) => {},
            }
            let k = match EntityKind::from_str_name(t) {
                Some(k) => k,
                None => {
                    proof {
                        let j = choose|j: int| 0 <= j < entity_type_names().len() && entity_type_names()[j] == t@;
                        assert(0 <= j < 6 && entity_type_names()[j] == t@);
                    }
                    return Err(McpError::InternalError { message: String::from_str("unknown entity type") });
                },
            };
            kind_hits_into(cat, k, want_status, want_tag, &mut all);
            proof {
                assert(seq![k].drop_last() =~= Seq::<EntityKind>::empty());
                assert(seq![k].last() == k);
                assert(hits(cat, Seq::<EntityKind>::empty(), ws, wt) =~= Seq::<(EntityKind, usize)>::empty());
                assert(all@ =~= hits(cat, seq![k], ws, wt));
            }
        },
        None => {
            let mut q: usize = 0;
            while q < 6
                invariant
                    q <= 6,
                    ws == match want_status { Some(s) => Some(s@), None => None },
                    wt == match want_tag { Some(s) => Some(s@), None => None },
                    all@ == hits(cat, all_kinds().take(q as int), ws, wt),
                decreases 6 - q,
            {
                let k = EntityKind::of_rank(q);
                kind_hits_into(cat, k, want_status, want_tag, &mut all);
                proof {
                    assert(all_kinds().take(q + 1).drop_last() =~= all_kinds().take(q as int));
                    assert(all_kinds().take(q + 1).last() == k);
                }
                q = q + 1;
            }
            proof {
                assert(all_kinds().take(6) =~= all_kinds());
            }
        },
    }
    let total = all.len();
    let mut items: Vec<(EntityKind, usize)> = Vec::new();
    let mut i: usize = off;
    let ghost s = all@;
    while i < total && items.len() < lim
        invariant
            s == all@,
            total == s.len(),
            off <= i,
            items@.len() <= lim,
            i == off + items@.len(),
            off < total ==> i <= total && items@ == s.subrange(off as int, i as int),
            off >= total ==> items@.len() == 0,
        decreases total - i,
    {
        items.push(all[i]);
        assert(items@ =~= s.subrange(off as int, i + 1));
        i = i + 1;
    }
    proof {
        if off < total {
            if total - off <= lim {
                assert(items@ =~= s.subrange(off as int, total as int));
            } else {
                assert(items@ =~= s.subrange(off as int, off + lim));
            }
        } else {
            assert(items@ =~= Seq::<(EntityKind, usize)>::empty());
        }
    }
    Ok(ListPage { items, total, limit: lim, offset: off })
}

/// A lookup over all kinds lands in at most one place.
pub proof fn lemma_resolution_unique(cat: &Catalog, id: Seq<char>, k: EntityKind, i: int, k2: EntityKind, i2: int)
    requires
        resolves_to(cat, id, k, i),
        resolves_to(cat, id, k2, i2),
    ensures
        k2 == k && i2 == i,
{
    if k.rank() < k2.rank() {
        assert(EntityKind::at_rank(k.rank()) == k);
        assert(!kind_has_match(cat, EntityKind::at_rank(k.rank()), id, all_digits(id)));
    } else if k2.rank() < k.rank() {
        assert(EntityKind::at_rank(k2.rank()) == k2);
        assert(!kind_has_match(cat, EntityKind::at_rank(k2.rank()), id, all_digits(id)));
    } else {
        assert(k == k2);
    }
}

/// An identifier that a lookup lands on is not unresolved.
pub proof fn lemma_resolved(cat: &Catalog, id: Seq<char>, k: EntityKind, i: int)
    requires
        resolves_to(cat, id, k, i),
    ensures
        !unresolved(cat, id),
{
    assert(EntityKind::at_rank(k.rank()) == k);
    assert(kind_has_match(cat, EntityKind::at_rank(k.rank()), id, all_digits(id)));
}

/// An all-digit identifier names an entity by its sequence number, exactly: an
/// entity it resolves to has that number written in decimal as the identifier.
pub proof fn lemma_sequence_id_resolves_exactly(cat: &Catalog, id: Seq<char>, k: EntityKind, i: int)
    requires
        all_digits(id),
        resolves_to(cat, id, k, i),
    ensures
        decimal(cat.bases(k)[i].sequence_number as nat) == id,
{
}

/// An all-digit identifier that is the decimal sequence number of some entity
/// resolves (to the first such entity of the first kind that has one).
pub proof fn lemma_sequence_id_found(cat: &Catalog, id: Seq<char>, k: EntityKind, i: int)
    requires
        all_digits(id),
        0 <= i < cat.bases(k).len(),
        decimal(cat.bases(k)[i].sequence_number as nat) == id,
    ensures
        !unresolved(cat, id),
{
    assert(EntityKind::at_rank(k.rank()) == k);
    assert(id_matches(cat.bases(k)[i], id, true));
    assert(kind_has_match(cat, EntityKind::at_rank(k.rank()), id, all_digits(id)));
}

/// The full UUID text of an entity resolves, and never as a sequence number.
pub proof fn lemma_uuid_id_found(cat: &Catalog, k: EntityKind, i: int)
    requires
        0 <= i < cat.bases(k).len(),
    ensures
        !all_digits(uuid_text(cat.bases(k)[i].id)),
        !unresolved(cat, uuid_text(cat.bases(k)[i].id)),
{
    let id = uuid_text(cat.bases(k)[i].id);
    crate::clock::lemma_uuid_text_shape(cat.bases(k)[i].id);
    assert(!('0' <= id[8] && id[8] <= '9'));
    let h = lowercase(without_char(id, '-'));
    assert(h.subrange(0, h.len() as int) =~= h);
    assert(id_matches(cat.bases(k)[i], id, false));
    assert(EntityKind::at_rank(k.rank()) == k);
    assert(kind_has_match(cat, EntityKind::at_rank(k.rank()), id, all_digits(id)));
}

} // verus!
