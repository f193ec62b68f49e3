//! What the command line decides: finding the entity an argument names,
//! reading relation arguments, and updating an entity from command-line options.
use vstd::prelude::*;
use vstd::string::StringExecFns;
use vstd::string::StrSliceExecFns;
use crate::clock::{parse_uuid, parse_ymd, uuid_parse, uuid_string, uuid_text, ymd_parse, CalendarDate, Timestamp};
use crate::entity::{
    Component, ComponentStatus, Decision, DecisionStatus, EntityBase, Link, Note, Prompt, Relation,
    RelationType, Task, TaskPriority, TaskStatus, message_with,
};
use crate::error::MedullaError;
use crate::cache::SearchResult;
use crate::lookup::{all_kinds, Catalog, EntityKind};
use crate::search::{filed_tag_list, filed_tags, matches_metadata, passes, FilterMetadata, FilterModel, SearchFilter};
use crate::tool::{first_items, first_n};
use crate::ops::{add_relation, delete_relation, with_relation, without_key};
use crate::request::{component_status_named, decision_status_named, task_priority_named, task_status_named};
use crate::text::{chars_of, is_prefix, lowercase, starts_with, string_from_range, views};
use crate::update::{
    apply_component_update, apply_decision_update, apply_link_update, apply_note_update,
    apply_prompt_update, apply_task_update, base_updated, ComponentUpdate, DecisionUpdate,
    LinkUpdate, NoteUpdate, PromptUpdate, TaskUpdate,
};

verus! {

// ---------------------------------------------------------------------------
// Numbers on the command line
// ---------------------------------------------------------------------------

/// The value of a text of decimal digits.
pub open spec fn digits_value(s: Seq<char>) -> nat
    decreases s.len(),
{
    if s.len() == 0 {
        0
    } else {
        digits_value(s.drop_last()) * 10 + ((s.last() as nat) - 48) as nat
    }
}

/// Every character is an ASCII digit.
pub open spec fn all_ascii_digits(s: Seq<char>) -> bool {
    forall|i: int| 0 <= i < s.len() ==> '0' <= #[trigger] s[i] && s[i] <= '9'
}

/// The `u32` a text reads as, as `str::parse::<u32>` reads it: an optional `+`,
/// then at least one digit, and a value that fits.
pub open spec fn u32_text(s: Seq<char>) -> Option<u32> {
    let d = if s.len() > 0 && s[0] == '+' { s.skip(1) } else { s };
    if d.len() > 0 && all_ascii_digits(d) && digits_value(d) <= u32::MAX {
        Some(digits_value(d) as u32)
    } else {
        None
    }
}

/// Reads a `u32` as `str::parse::<u32>` does (see `u32_text`).
pub fn parse_u32(s: &str) -> (r: Option<u32>)
    ensures
        r == u32_text(s@),
{
    let v = chars_of(s);
    let start: usize = if v.len() > 0 && v[0] == '+' {
        1
    } else {
        0
    };
    let ghost d = if s@.len() > 0 && s@[0] == '+' { s@.skip(1) } else { s@ };
    assert(d =~= s@.skip(start as int));
    if start >= v.len() {
        return None;
    }
    let mut value: u64 = 0;
    let mut i: usize = start;
    while i < v.len()
        invariant
            v@ == s@,
            start <= i <= v@.len(),
            d == s@.skip(start as int),
            d == (if s@.len() > 0 && s@[0] == '+' { s@.skip(1) } else { s@ }),
            forall|k: int| start <= k < i ==> '0' <= #[trigger] s@[k] && s@[k] <= '9',
            value == digits_value(s@.subrange(start as int, i as int)),
            value <= u32::MAX,
        decreases v.len() - i,
    {
        let c = v[i];
        if !('0' <= c && c <= '9') {
            proof {
                assert(d[i - start] == c);
                assert(!all_ascii_digits(d));
            }
            return None;
        }
        let digit = (c as u32 - 48) as u64;
        assert(s@.subrange(start as int, i + 1).drop_last() =~= s@.subrange(start as int, i as int));
        let next = value * 10 + digit;
        if next > 4294967295 {
            proof {
                let t = s@.subrange(start as int, i + 1);
                assert(digits_value(t) == next);
                assert(d.take((i + 1 - start) as int) =~= t);
                if all_ascii_digits(d) {
                    lemma_digits_value_prefix(d, (i + 1 - start) as int);
                }
            }
            return None;
        }
        value = next;
        i = i + 1;
    }
    assert(s@.subrange(start as int, v.len() as int) =~= d);
    Some(value as u32)
}

/// A longer digit text is worth at least as much as its prefixes.
proof fn lemma_digits_value_prefix(d: Seq<char>, n: int)
    requires
        0 <= n <= d.len(),
        all_ascii_digits(d),
    ensures
        digits_value(d.take(n)) <= digits_value(d),
    decreases d.len() - n,
{
    if n < d.len() {
        lemma_digits_value_prefix(d, n + 1);
        assert(d.take(n + 1).drop_last() =~= d.take(n));
        assert('0' <= d[n] && d[n] <= '9');
    } else {
        assert(d.take(n) =~= d);
    }
}

// ---------------------------------------------------------------------------
// Finding entities
// ---------------------------------------------------------------------------

/// An entity answers to a command-line identifier: a number names a sequence
/// number; anything else is a prefix of the hyphenated UUID text.
pub open spec fn cli_matches(base: EntityBase, id: Seq<char>) -> bool {
    match u32_text(id) {
        Some(n) => base.sequence_number == n,
        None => is_prefix(id, uuid_text(base.id)),
    }
}

/// `i` is the first entity of kind `k` that answers to a command-line identifier.
pub open spec fn cli_first(cat: &Catalog, k: EntityKind, id: Seq<char>, i: int) -> bool {
    &&& 0 <= i < cat.bases(k).len()
    &&& cli_matches(cat.bases(k)[i], id)
    &&& forall|j: int| 0 <= j < i ==> !cli_matches(#[trigger] cat.bases(k)[j], id)
}

/// Some entity of kind `k` answers to a command-line identifier.
pub open spec fn cli_has(cat: &Catalog, k: EntityKind, id: Seq<char>) -> bool {
    exists|i: int| 0 <= i < cat.bases(k).len() && cli_matches(#[trigger] cat.bases(k)[i], id)
}

fn cli_matches_exec(base: &EntityBase, id: &str, n: Option<u32>) -> (r: bool)
    requires
        n == u32_text(id@),
    ensures
        r == cli_matches(*base, id@),
{
    match n {
        Some(v) => base.sequence_number == v,
        None => {
            let t = uuid_string(base.id);
            starts_with(t.as_str(), id)
        },
    }
}

fn cli_find_in_kind(cat: &Catalog, k: EntityKind, id: &str, n: Option<u32>) -> (r: Option<usize>)
    requires
        n == u32_text(id@),
    ensures
        match r {
            Some(i) => cli_first(cat, k, id@, i as int),
            None => !cli_has(cat, k, id@),
        },
{
    let count = cat.count(k);
    let mut i: usize = 0;
    while i < count
        invariant
            count == cat.bases(k).len(),
            n == u32_text(id@),
            i <= count,
            forall|j: int| 0 <= j < i ==> !cli_matches(#[trigger] cat.bases(k)[j], id@),
        decreases count - i,
    {
        if cli_matches_exec(cat.base_at(k, i), id, n) {
            return Some(i);
        }
        i = i + 1;
    }
    None
}

/// Finds the entity a command-line identifier names, over all kinds in their
/// canonical order; `EntityNotFound` when none answers.
pub fn find_entity_by_id(cat: &Catalog, id: &str) -> (r: Result<(EntityKind, usize), MedullaError>)
    ensures
        match r {
            Ok((k, i)) => cli_first(cat, k, id@, i as int)
                && forall|q: int| 0 <= q < k.rank() ==> !cli_has(cat, #[trigger] EntityKind::at_rank(q), id@),
            Err(e) => (forall|q: int| 0 <= q < 6 ==> !cli_has(cat, #[trigger] EntityKind::at_rank(q), id@))
                && (e matches MedullaError::EntityNotFound(x) && x@ == id@),
        },
{
    let n = parse_u32(id);
    let mut q: usize = 0;
    while q < 6
        invariant
            n == u32_text(id@),
            q <= 6,
            forall|x: int| 0 <= x < q ==> !cli_has(cat, #[trigger] EntityKind::at_rank(x), id@),
        decreases 6 - q,
    {
        let k = EntityKind::of_rank(q);
        if let Some(i) = cli_find_in_kind(cat, k, id, n) {
            return Ok((k, i));
        }
        q = q + 1;
    }
    Err(MedullaError::EntityNotFound(String::from_str(id)))
}

/// Finds the decision a command-line identifier names: the first one whose
/// sequence number it is, or whose UUID text it begins.
pub fn find_decision_by_id(cat: &Catalog, id: &str) -> (r: Option<usize>)
    ensures
        match r {
            Some(i) => cli_first(cat, EntityKind::Decision, id@, i as int),
            None => !cli_has(cat, EntityKind::Decision, id@),
        },
{
    let n = parse_u32(id);
    cli_find_in_kind(cat, EntityKind::Decision, id, n)
}

/// Finds the task a command-line identifier names and gives its UUID.
pub fn resolve_task_id(cat: &Catalog, id: &str) -> (r: Result<u128, MedullaError>)
    ensures
        match r {
            Ok(u) => exists|i: int| cli_first(cat, EntityKind::Task, id@, i) && u == #[trigger] cat.tasks@[i].base.id,
            Err(e) => !cli_has(cat, EntityKind::Task, id@) && (e matches MedullaError::EntityNotFound(x) && x@ == id@),
        },
{
    let n = parse_u32(id);
    match cli_find_in_kind(cat, EntityKind::Task, id, n) {
        Some(i) => {
            proof {
                assert(cat.bases(EntityKind::Task)[i as int] == cat.tasks@[i as int].base);
            }
            Ok(cat.tasks[i].base.id)
        },
        None => Err(MedullaError::EntityNotFound(String::from_str(id))),
    }
}

/// The title shown for an entity: the title of the first entity with that UUID,
/// kinds in their canonical order; the first seven characters of the UUID text
/// when there is none.
pub fn entity_title(cat: &Catalog, id: u128) -> (r: String)
    ensures
        (exists|k: EntityKind, i: int| 0 <= i < cat.bases(k).len() && (#[trigger] cat.bases(k)[i]).id == id)
            ==> exists|k: EntityKind, i: int| 0 <= i < cat.bases(k).len() && (#[trigger] cat.bases(k)[i]).id == id
            && r@ == cat.bases(k)[i].title@,
        !(exists|k: EntityKind, i: int| 0 <= i < cat.bases(k).len() && (#[trigger] cat.bases(k)[i]).id == id)
            ==> r@ == uuid_text(id).subrange(0, 7),
{
    let mut q: usize = 0;
    while q < 6
        invariant
            q <= 6,
            forall|x: int, i: int| 0 <= x < q && 0 <= i < cat.bases(EntityKind::at_rank(x)).len()
                ==> (#[trigger] cat.bases(EntityKind::at_rank(x))[i]).id != id,
        decreases 6 - q,
    {
        let k = EntityKind::of_rank(q);
        let count = cat.count(k);
        let mut i: usize = 0;
        while i < count
            invariant
                count == cat.bases(k).len(),
                k == EntityKind::at_rank(q as int),
                q < 6,
                i <= count,
                forall|j: int| 0 <= j < i ==> (#[trigger] cat.bases(k)[j]).id != id,
            decreases count - i,
        {
            let b = cat.base_at(k, i);
            if b.id == id {
                return b.title.clone();
            }
            i = i + 1;
        }
        q = q + 1;
    }
    proof {
        assert forall|k: EntityKind, i: int| 0 <= i < cat.bases(k).len() implies (#[trigger] cat.bases(k)[i]).id != id by {
            assert(EntityKind::at_rank(k.rank()) == k);
        }
    }
    crate::clock::short_uuid(id)
}

// ---------------------------------------------------------------------------
// Relation arguments
// ---------------------------------------------------------------------------

/// The message for a relation argument without a `:`.
pub open spec fn relation_format_text(s: Seq<char>) -> Seq<char> {
    "Invalid relation format '"@ + s + "'. Expected 'type:target_id'"@
}

/// The position of the first `:` in a text that holds one.
pub open spec fn first_colon(s: Seq<char>) -> int {
    choose|i: int| 0 <= i < s.len() && s[i] == ':' && forall|j: int| 0 <= j < i ==> s[j] != ':'
}

/// What a relation argument `type:target_id` reads as, when it reads: the text
/// before the first `:` names a relation type (case-insensitively) and the
/// rest is a UUID.
pub open spec fn relation_arg(s: Seq<char>) -> Option<(RelationType, u128)> {
    if !s.contains(':') {
        None
    } else {
        let i = first_colon(s);
        match RelationType::from_name(lowercase(s.take(i))) {
            None => None,
            Some(t) => match uuid_parse(s.skip(i + 1)) {
                None => None,
                Some(u) => Some((t, u)),
            },
        }
    }
}

/// Reads a relation argument `type:target_id`: the text before the first `:` is
/// a relation type (read case-insensitively), the rest a UUID. Each failure is a
/// storage error with its own message.
pub fn parse_relation_string(s: &str) -> (r: Result<(RelationType, u128), MedullaError>)
    ensures
        !s@.contains(':') ==> (r matches Err(MedullaError::Storage(m)) && m@ == relation_format_text(s@)),
        s@.contains(':') ==> {
            let i = first_colon(s@);
            let head = s@.take(i);
            let tail = s@.skip(i + 1);
            match RelationType::from_name(lowercase(head)) {
                None => r matches Err(MedullaError::Storage(m)) && m@ == "Unknown relation type: "@ + head,
                Some(t) => match uuid_parse(tail) {
                    None => r matches Err(MedullaError::Storage(m)) && m@ == "Invalid UUID in relation: "@ + tail,
                    Some(u) => r == Ok::<(RelationType, u128), MedullaError>((t, u)),
                },
            }
        },
        match r {
            Ok(p) => relation_arg(s@) == Some(p),
            Err(_) => relation_arg(s@) is None,
        },
{
    let v = chars_of(s);
    let mut i: usize = 0;
    while i < v.len() && v[i] != ':'
        invariant
            v@ == s@,
            i <= v@.len(),
            forall|j: int| 0 <= j < i ==> s@[j] != ':',
        decreases v.len() - i,
    {
        i = i + 1;
    }
    if i == v.len() {
        proof {
            assert forall|j: int| 0 <= j < s@.len() implies s@[j] != ':' by {}
        }
        let mut m = String::from_str("Invalid relation format '");
        crate::text::push_str(&mut m, s);
        crate::text::push_str(&mut m, "'. Expected 'type:target_id'");
        assert(m@ =~= relation_format_text(s@));
        return Err(MedullaError::Storage(m));
    }
    proof {
        assert(s@[i as int] == ':');
        assert(s@.contains(':'));
        let c = first_colon(s@);
        if c < i {
        } else if c > i {
            assert(s@[i as int] != ':');
        }
        assert(c == i);
    }
    let head = string_from_range(&v, 0, i);
    let tail = string_from_range(&v, i + 1, v.len());
    assert(head@ =~= s@.take(i as int));
    assert(tail@ =~= s@.skip(i + 1));
    let t = match RelationType::parse(head.as_str()) {
        Ok(t) => t,
        Err(e) => {
            return Err(MedullaError::Storage(e));
        },
    };
    match parse_uuid(tail.as_str()) {
        Some(u) => Ok((t, u)),
        None => Err(MedullaError::Storage(message_with("Invalid UUID in relation: ", tail.as_str()))),
    }
}

/// The (type, target) pairs that a list of relation arguments reads as, in
/// order, skipping those that do not read.
pub open spec fn read_relation_args(args: Seq<String>) -> Seq<(RelationType, u128)>
    decreases args.len(),
{
    if args.len() == 0 {
        Seq::empty()
    } else {
        let before = read_relation_args(args.drop_last());
        match relation_arg(args.last()@) {
            Some(p) => before.push(p),
            None => before,
        }
    }
}

/// The relations that relation arguments ask for from one entity, with an
/// `unknown` target type, made by `created_by` at `now`, one for each argument
/// that reads and in the arguments' order; and, for each argument that does not
/// read, its position (in increasing order) and error.
pub fn relations_from_args(
    source: u128,
    source_type: &str,
    args: &Vec<String>,
    created_by: &Option<String>,
    now: Timestamp,
) -> (r: (Vec<Relation>, Vec<(usize, MedullaError)>))
    ensures
        r.0@.len() == read_relation_args(args@).len(),
        r.0@.len() + r.1@.len() == args@.len(),
        forall|i: int| 0 <= i < r.0@.len() ==> {
            let rel = #[trigger] r.0@[i];
            &&& rel.source_id == source && rel.source_type@ == source_type@
            &&& rel.relation_type == read_relation_args(args@)[i].0
            &&& rel.target_id == read_relation_args(args@)[i].1
            &&& rel.target_type@ == "unknown"@ && rel.created_at == now
            &&& rel.created_by == *created_by && rel.properties@.len() == 0
        },
        forall|i: int| 0 <= i < r.1@.len() ==> {
            let k = (#[trigger] r.1@[i]).0 as int;
            k < args@.len() && relation_arg(args@[k]@) is None
        },
        forall|i: int, j: int| 0 <= i < j < r.1@.len() ==> (#[trigger] r.1@[i]).0 < (#[trigger] r.1@[j]).0,
{
    let mut rels: Vec<Relation> = Vec::new();
    let mut errors: Vec<(usize, MedullaError)> = Vec::new();
    let mut i: usize = 0;
    while i < args.len()
        invariant
            i <= args@.len(),
            rels@.len() + errors@.len() == i,
            rels@.len() == read_relation_args(args@.take(i as int)).len(),
            forall|j: int| 0 <= j < rels@.len() ==> {
                let rel = #[trigger] rels@[j];
                &&& rel.source_id == source && rel.source_type@ == source_type@
                &&& rel.relation_type == read_relation_args(args@.take(i as int))[j].0
                &&& rel.target_id == read_relation_args(args@.take(i as int))[j].1
                &&& rel.target_type@ == "unknown"@ && rel.created_at == now
                &&& rel.created_by == *created_by && rel.properties@.len() == 0
            },
            forall|j: int| 0 <= j < errors@.len() ==> {
                let k = (#[trigger] errors@[j]).0 as int;
                k < i && relation_arg(args@[k]@) is None
            },
            forall|a: int, b: int| 0 <= a < b < errors@.len() ==> (#[trigger] errors@[a]).0 < (#[trigger] errors@[b]).0,
        decreases args.len() - i,
    {
        assert(args@.take(i + 1).drop_last() =~= args@.take(i as int));
        assert(args@.take(i + 1).last() == args@[i as int]);
        let res = parse_relation_string(args[i].as_str());
        match res {
            Ok((t, target)) => {
                let mut rel = Relation::with_time(
                    source,
                    String::from_str(source_type),
                    target,
                    String::from_str("unknown"),
                    t,
                    now,
                );
                rel.created_by = crate::entity::copy_opt(created_by);
                rels.push(rel);
            },
            Err(e) => {
                errors.push((i, e));
            },
        }
        i = i + 1;
    }
    assert(args@.take(i as int) =~= args@);
    (rels, errors)
}


// ---------------------------------------------------------------------------
// Updating from command-line options
// ---------------------------------------------------------------------------

/// The options of an update on the command line. `content` is the text read
/// from standard input, where it was asked for.
#[derive(Debug)]
pub struct CliUpdate {
    pub title: Option<String>,
    pub status: Option<String>,
    pub add_tags: Vec<String>,
    pub remove_tags: Vec<String>,
    pub content: Option<String>,
}

/// Content read from standard input replaces the content only when it is not empty.
pub open spec fn cli_content(c: Option<String>) -> Option<String> {
    match c {
        Some(s) => if s@.len() > 0 { Some(s) } else { None },
        None => None,
    }
}

/// A status option that does not name a status of the kind leaves the status as it was.
pub open spec fn status_after<T>(old: T, given: Option<String>, named: spec_fn(Seq<char>) -> Option<T>) -> T {
    match given {
        Some(s) => match named(s@) {
            Some(v) => v,
            None => old,
        },
        None => old,
    }
}

/// What a command-line update does to the fields every entity has.
pub open spec fn cli_base(n: EntityBase, o: EntityBase, a: CliUpdate, now: Timestamp) -> bool {
    base_updated(n, o, a.title, cli_content(a.content), a.add_tags@, a.remove_tags@, now)
}

/// The catalog after the `i`-th entity of kind `k` changed as command-line
/// options ask, everything else the same.
pub open spec fn cli_changed(n: Catalog, o: Catalog, k: EntityKind, i: int, a: CliUpdate, now: Timestamp) -> bool {
    &&& (k != EntityKind::Decision ==> n.decisions@ == o.decisions@)
    &&& (k != EntityKind::Task ==> n.tasks@ == o.tasks@)
    &&& (k != EntityKind::Note ==> n.notes@ == o.notes@)
    &&& (k != EntityKind::Prompt ==> n.prompts@ == o.prompts@)
    &&& (k != EntityKind::Component ==> n.components@ == o.components@)
    &&& (k != EntityKind::Link ==> n.links@ == o.links@)
    &&& n.relations@ == o.relations@
    &&& match k {
        EntityKind::Decision => {
            let (x, y) = (n.decisions@[i], o.decisions@[i]);
            &&& n.decisions@ == o.decisions@.update(i, x)
            &&& cli_base(x.base, y.base, a, now)
            &&& x.status == status_after(y.status, a.status, |s: Seq<char>| decision_status_named(s))
            &&& x.context == y.context && x.consequences == y.consequences
            &&& x.superseded_by == y.superseded_by
        },
        EntityKind::Task => {
            let (x, y) = (n.tasks@[i], o.tasks@[i]);
            &&& n.tasks@ == o.tasks@.update(i, x)
            &&& cli_base(x.base, y.base, a, now)
            &&& x.status == status_after(y.status, a.status, |s: Seq<char>| task_status_named(s))
            &&& x.priority == y.priority && x.due_date == y.due_date && x.assignee == y.assignee
        },
        EntityKind::Note => {
            let (x, y) = (n.notes@[i], o.notes@[i]);
            &&& n.notes@ == o.notes@.update(i, x)
            &&& cli_base(x.base, y.base, a, now)
            &&& x.note_type == y.note_type
        },
        EntityKind::Prompt => {
            let (x, y) = (n.prompts@[i], o.prompts@[i]);
            &&& n.prompts@ == o.prompts@.update(i, x)
            &&& cli_base(x.base, y.base, a, now)
            &&& x.template == y.template && x.output_schema == y.output_schema
            &&& views(x.variables@) == views(y.variables@)
        },
        EntityKind::Component => {
            let (x, y) = (n.components@[i], o.components@[i]);
            &&& n.components@ == o.components@.update(i, x)
            &&& cli_base(x.base, y.base, a, now)
            &&& x.status == status_after(y.status, a.status, |s: Seq<char>| component_status_named(s))
            &&& x.component_type == y.component_type && x.owner == y.owner
        },
        EntityKind::Link => {
            let (x, y) = (n.links@[i], o.links@[i]);
            &&& n.links@ == o.links@.update(i, x)
            &&& cli_base(x.base, y.base, a, now)
            &&& x.url == y.url && x.link_type == y.link_type
        },
    }
}

fn content_from_input(c: Option<String>) -> (r: Option<String>)
    ensures
        r == cli_content(c),
{
    match c {
        Some(s) => if s.as_str().unicode_len() > 0 { Some(s) } else { None },
        None => None,
    }
}

fn decision_status_option(s: &Option<String>) -> (r: Option<DecisionStatus>)
    ensures
        r == match *s {
            Some(t) => decision_status_named(t@),
            None => None,
        },
{
    match s {
        Some(t) => match DecisionStatus::parse(t.as_str()) {
            Ok(v) => Some(v),
            Err(_) => None,
        },
        None => None,
    }
}

fn task_status_option(s: &Option<String>) -> (r: Option<TaskStatus>)
    ensures
        r == match *s {
            Some(t) => task_status_named(t@),
            None => None,
        },
{
    match s {
        Some(t) => match TaskStatus::parse(t.as_str()) {
            Ok(v) => Some(v),
            Err(_) => None,
        },
        None => None,
    }
}

fn component_status_option(s: &Option<String>) -> (r: Option<ComponentStatus>)
    ensures
        r == match *s {
            Some(t) => component_status_named(t@),
            None => None,
        },
{
    match s {
        Some(t) => match ComponentStatus::parse(t.as_str()) {
            Ok(v) => Some(v),
            Err(_) => None,
        },
        None => None,
    }
}

/// Updates the `i`-th entity of kind `k` as command-line options ask, at
/// instant `now`: title and tags as given, content where standard input gave
/// some, and a status where the option names one of the kind (an option that
/// does not is ignored). Nothing else changes.
pub fn cli_update_entity(cat: &mut Catalog, k: EntityKind, i: usize, a: CliUpdate, now: Timestamp)
    requires
        i < old(cat).bases(k).len(),
    ensures
        cli_changed(*final(cat), *old(cat), k, i as int, a, now),
{
    let content = content_from_input(a.content);
    match k {
        EntityKind::Decision => {
            let u = DecisionUpdate {
                title: a.title,
                status: decision_status_option(&a.status),
                content,
                context: None,
                superseded_by: None,
                add_tags: a.add_tags,
                remove_tags: a.remove_tags,
            };
            let ghost before = cat.decisions@;
            let mut e = cat.decisions.remove(i);
            apply_decision_update(&mut e, u, now);
            cat.decisions.insert(i, e);
            assert(cat.decisions@ =~= before.update(i as int, cat.decisions@[i as int]));
        },
        EntityKind::Task => {
            let u = TaskUpdate {
                title: a.title,
                status: task_status_option(&a.status),
                priority: None,
                content,
                due_date: None,
                assignee: None,
                add_tags: a.add_tags,
                remove_tags: a.remove_tags,
            };
            let ghost before = cat.tasks@;
            let mut e = cat.tasks.remove(i);
            apply_task_update(&mut e, u, now);
            cat.tasks.insert(i, e);
            assert(cat.tasks@ =~= before.update(i as int, cat.tasks@[i as int]));
        },
        EntityKind::Note => {
            let u = NoteUpdate {
                title: a.title,
                content,
                note_type: None,
                add_tags: a.add_tags,
                remove_tags: a.remove_tags,
            };
            let ghost before = cat.notes@;
            let mut e = cat.notes.remove(i);
            apply_note_update(&mut e, u, now);
            cat.notes.insert(i, e);
            assert(cat.notes@ =~= before.update(i as int, cat.notes@[i as int]));
        },
        EntityKind::Prompt => {
            let u = PromptUpdate {
                title: a.title,
                content,
                template: None,
                output_schema: None,
                add_variables: Vec::new(),
                remove_variables: Vec::new(),
                add_tags: a.add_tags,
                remove_tags: a.remove_tags,
            };
            let ghost before = cat.prompts@;
            let mut e = cat.prompts.remove(i);
            apply_prompt_update(&mut e, u, now);
            cat.prompts.insert(i, e);
            assert(cat.prompts@ =~= before.update(i as int, cat.prompts@[i as int]));
        },
        EntityKind::Component => {
            let u = ComponentUpdate {
                title: a.title,
                content,
                status: component_status_option(&a.status),
                component_type: None,
                owner: None,
                add_tags: a.add_tags,
                remove_tags: a.remove_tags,
            };
            let ghost before = cat.components@;
            let mut e = cat.components.remove(i);
            apply_component_update(&mut e, u, now);
            cat.components.insert(i, e);
            assert(cat.components@ =~= before.update(i as int, cat.components@[i as int]));
        },
        EntityKind::Link => {
            let u = LinkUpdate {
                title: a.title,
                content,
                url: None,
                link_type: None,
                add_tags: a.add_tags,
                remove_tags: a.remove_tags,
            };
            let ghost before = cat.links@;
            let mut e = cat.links.remove(i);
            apply_link_update(&mut e, u, now);
            cat.links.insert(i, e);
            assert(cat.links@ =~= before.update(i as int, cat.links@[i as int]));
        },
    }
}


// ---------------------------------------------------------------------------
// Adding entities from command-line options
// ---------------------------------------------------------------------------

/// The options of `add` that every kind takes. `content` is the text read from
/// standard input, where it was asked for; `created_by` the author to record.
#[derive(Debug)]
pub struct CliNew {
    pub title: String,
    pub tags: Vec<String>,
    pub content: Option<String>,
    pub created_by: Option<String>,
}

/// The fields a new entity takes from the `add` options, its sequence number,
/// UUID and creation instant.
pub open spec fn cli_base_built(b: EntityBase, a: CliNew, seq: u32, id: u128, now: Timestamp) -> bool {
    &&& b.id == id
    &&& b.title == a.title
    &&& b.content == cli_content(a.content)
    &&& b.tags == a.tags
    &&& b.created_at == now
    &&& b.updated_at == now
    &&& b.created_by == a.created_by
    &&& b.sequence_number == seq
}

/// A named value, or the default where the text names none.
pub open spec fn named_or<T>(s: Seq<char>, named: spec_fn(Seq<char>) -> Option<T>, default: T) -> T {
    match named(s) {
        Some(v) => v,
        None => default,
    }
}

fn new_base(a: CliNew, seq: u32, id: u128, now: Timestamp) -> (b: EntityBase)
    ensures
        cli_base_built(b, a, seq, id, now),
{
    let mut b = EntityBase::with_identity(a.title, seq, id, now);
    b.content = content_from_input(a.content);
    b.tags = a.tags;
    b.created_by = a.created_by;
    b
}

/// A new decision from the `add` options; a status that names none is `proposed`.
pub fn cli_new_decision(a: CliNew, status: &str, seq: u32, id: u128, now: Timestamp) -> (d: Decision)
    ensures
        cli_base_built(d.base, a, seq, id, now),
        d.status == named_or(status@, |s: Seq<char>| decision_status_named(s), DecisionStatus::Proposed),
        d.context is None && d.consequences@.len() == 0 && d.superseded_by is None,
{
    let mut d = Decision::from_base(new_base(a, seq, id, now));
    if let Ok(v) = DecisionStatus::parse(status) {
        d.status = v;
    }
    d
}

/// A due date option: the date it names as `YYYY-MM-DD`, none where it names none.
pub open spec fn cli_due(due: Option<String>) -> Option<CalendarDate> {
    match due {
        Some(s) => match ymd_parse(s@) {
            Some((y, m, d)) => Some(CalendarDate { year: y, month: m, day: d }),
            None => None,
        },
        None => None,
    }
}

/// A new task from the `add` options; a status or priority that names none is
/// `todo` or `normal`, and a due date that does not read is left out.
pub fn cli_new_task(
    a: CliNew,
    status: &str,
    priority: &str,
    due: Option<String>,
    assignee: Option<String>,
    seq: u32,
    id: u128,
    now: Timestamp,
) -> (t: Task)
    ensures
        cli_base_built(t.base, a, seq, id, now),
        t.status == named_or(status@, |s: Seq<char>| task_status_named(s), TaskStatus::Todo),
        t.priority == named_or(priority@, |s: Seq<char>| task_priority_named(s), TaskPriority::Normal),
        t.due_date == cli_due(due),
        t.assignee == assignee,
{
    let mut t = Task::from_base(new_base(a, seq, id, now));
    if let Ok(v) = TaskStatus::parse(status) {
        t.status = v;
    }
    if let Ok(v) = TaskPriority::parse(priority) {
        t.priority = v;
    }
    t.due_date = match &due {
        Some(s) => parse_ymd(s.as_str()),
        None => None,
    };
    t.assignee = assignee;
    t
}

/// A new note from the `add` options.
pub fn cli_new_note(a: CliNew, note_type: Option<String>, seq: u32, id: u128, now: Timestamp) -> (n: Note)
    ensures
        cli_base_built(n.base, a, seq, id, now),
        n.note_type == note_type,
{
    let mut n = Note::from_base(new_base(a, seq, id, now));
    n.note_type = note_type;
    n
}

/// A new prompt from the `add` options.
pub fn cli_new_prompt(
    a: CliNew,
    template: Option<String>,
    variables: Vec<String>,
    output_schema: Option<String>,
    seq: u32,
    id: u128,
    now: Timestamp,
) -> (p: Prompt)
    ensures
        cli_base_built(p.base, a, seq, id, now),
        p.template == template && p.variables == variables && p.output_schema == output_schema,
{
    let mut p = Prompt::from_base(new_base(a, seq, id, now));
    p.template = template;
    p.variables = variables;
    p.output_schema = output_schema;
    p
}

/// A new component from the `add` options; a status that names none is `active`.
pub fn cli_new_component(
    a: CliNew,
    component_type: Option<String>,
    status: &str,
    owner: Option<String>,
    seq: u32,
    id: u128,
    now: Timestamp,
) -> (c: Component)
    ensures
        cli_base_built(c.base, a, seq, id, now),
        c.status == named_or(status@, |s: Seq<char>| component_status_named(s), ComponentStatus::Active),
        c.component_type == component_type && c.owner == owner,
{
    let mut c = Component::from_base(new_base(a, seq, id, now));
    if let Ok(v) = ComponentStatus::parse(status) {
        c.status = v;
    }
    c.component_type = component_type;
    c.owner = owner;
    c
}

/// A new link from the `add` options.
pub fn cli_new_link(a: CliNew, url: String, link_type: Option<String>, seq: u32, id: u128, now: Timestamp) -> (l: Link)
    ensures
        cli_base_built(l.base, a, seq, id, now),
        l.url == url && l.link_type == link_type,
{
    let mut l = Link::from_base(new_base(a, seq, id, now), url);
    l.link_type = link_type;
    l
}

// ---------------------------------------------------------------------------
// Deleting from the command line
// ---------------------------------------------------------------------------

/// The relations that do not touch an entity, in order.
pub open spec fn detached(rels: Seq<Relation>, id: u128) -> Seq<Relation>
    decreases rels.len(),
{
    if rels.len() == 0 {
        rels
    } else {
        let before = detached(rels.drop_last(), id);
        if rels.last().source_id == id || rels.last().target_id == id {
            before
        } else {
            before.push(rels.last())
        }
    }
}

fn detach(rels: &mut Vec<Relation>, id: u128)
    ensures
        final(rels)@ == detached(old(rels)@, id),
{
    let ghost start = rels@;
    let mut kept: Vec<Relation> = Vec::new();
    let n = rels.len();
    let mut j: usize = 0;
    while j < n
        invariant
            n == start.len(),
            rels@ == start.skip(j as int),
            j <= n,
            kept@ == detached(start.take(j as int), id),
        decreases n - j,
    {
        let r = rels.remove(0);
        assert(start.take(j + 1).drop_last() =~= start.take(j as int));
        assert(start.take(j + 1).last() == r);
        assert(rels@ =~= start.skip(j + 1));
        if !(r.source_id == id || r.target_id == id) {
            kept.push(r);
        }
        j = j + 1;
    }
    assert(start.take(n as int) =~= start);
    *rels = kept;
}

/// Deletes the `i`-th entity of kind `k` together with every relation from or
/// to it; gives its UUID.
pub fn cli_delete_entity(cat: &mut Catalog, k: EntityKind, i: usize) -> (id: u128)
    requires
        i < old(cat).bases(k).len(),
    ensures
        id == old(cat).bases(k)[i as int].id,
        final(cat).relations@ == detached(old(cat).relations@, id),
        final(cat).decisions@ == if k == EntityKind::Decision { old(cat).decisions@.remove(i as int) } else { old(cat).decisions@ },
        final(cat).tasks@ == if k == EntityKind::Task { old(cat).tasks@.remove(i as int) } else { old(cat).tasks@ },
        final(cat).notes@ == if k == EntityKind::Note { old(cat).notes@.remove(i as int) } else { old(cat).notes@ },
        final(cat).prompts@ == if k == EntityKind::Prompt { old(cat).prompts@.remove(i as int) } else { old(cat).prompts@ },
        final(cat).components@ == if k == EntityKind::Component { old(cat).components@.remove(i as int) } else { old(cat).components@ },
        final(cat).links@ == if k == EntityKind::Link { old(cat).links@.remove(i as int) } else { old(cat).links@ },
{
    let id = match k {
        EntityKind::Decision => cat.decisions.remove(i).base.id,
        EntityKind::Task => cat.tasks.remove(i).base.id,
        EntityKind::Note => cat.notes.remove(i).base.id,
        EntityKind::Prompt => cat.prompts.remove(i).base.id,
        EntityKind::Component => cat.components.remove(i).base.id,
        EntityKind::Link => cat.links.remove(i).base.id,
    };
    detach(&mut cat.relations, id);
    id
}

// ---------------------------------------------------------------------------
// Relations between entities named on the command line
// ---------------------------------------------------------------------------

/// The entity at `(k, i)` is the one a command-line identifier names: the first
/// that answers to it, kinds in their canonical order.
pub open spec fn cli_named(cat: &Catalog, id: Seq<char>, k: EntityKind, i: int) -> bool {
    &&& cli_first(cat, k, id, i)
    &&& forall|q: int| 0 <= q < k.rank() ==> !cli_has(cat, #[trigger] EntityKind::at_rank(q), id)
}

/// No entity answers to a command-line identifier.
pub open spec fn cli_unnamed(cat: &Catalog, id: Seq<char>) -> bool {
    forall|q: int| 0 <= q < 6 ==> !cli_has(cat, #[trigger] EntityKind::at_rank(q), id)
}

/// A command-line identifier names at most one entity.
pub proof fn lemma_cli_named_unique(cat: &Catalog, id: Seq<char>, k: EntityKind, i: int, k2: EntityKind, i2: int)
    requires
        cli_named(cat, id, k, i),
        cli_named(cat, id, k2, i2),
    ensures
        k == k2 && i == i2,
{
    assert(EntityKind::at_rank(k.rank()) == k);
    assert(EntityKind::at_rank(k2.rank()) == k2);
    assert(cli_matches(cat.bases(k)[i], id));
    assert(cli_matches(cat.bases(k2)[i2], id));
    assert(cli_has(cat, k, id));
    assert(cli_has(cat, k2, id));
    if k.rank() < k2.rank() {
        assert(!cli_has(cat, EntityKind::at_rank(k.rank()), id));
    }
    if k2.rank() < k.rank() {
        assert(!cli_has(cat, EntityKind::at_rank(k2.rank()), id));
    }
    assert(k == k2);
    if i < i2 {
        assert(!cli_matches(cat.bases(k)[i], id));
    }
    if i2 < i {
        assert(!cli_matches(cat.bases(k)[i2], id));
    }
}

/// The relation a command line makes between the entities at `(ks, is)` and
/// `(kt, it)`: their UUIDs and type names, the given type, creator and instant,
/// and no properties.
pub open spec fn cli_relation(
    rel: Relation,
    cat: &Catalog,
    ks: EntityKind,
    is: int,
    kt: EntityKind,
    it: int,
    t: RelationType,
    created_by: Option<String>,
    now: Timestamp,
) -> bool {
    &&& rel.source_id == cat.bases(ks)[is].id && rel.source_type@ == ks.name()
    &&& rel.target_id == cat.bases(kt)[it].id && rel.target_type@ == kt.name()
    &&& rel.relation_type == t && rel.created_at == now && rel.created_by == created_by
    &&& rel.properties@.len() == 0
}

/// Only the relations of the catalog differ.
pub open spec fn same_entities(a: Catalog, b: Catalog) -> bool {
    &&& a.decisions@ == b.decisions@ && a.tasks@ == b.tasks@ && a.notes@ == b.notes@
    &&& a.prompts@ == b.prompts@ && a.components@ == b.components@ && a.links@ == b.links@
}

fn named_pair(cat: &Catalog, source: &str, target: &str) -> (r: Result<(EntityKind, usize, EntityKind, usize), MedullaError>)
    ensures
        cli_unnamed(cat, source@) ==> (r matches Err(MedullaError::EntityNotFound(x)) && x@ == source@),
        forall|ks: EntityKind, is: int| #[trigger] cli_named(cat, source@, ks, is) && cli_unnamed(cat, target@)
            ==> (r matches Err(MedullaError::EntityNotFound(x)) && x@ == target@),
        forall|ks: EntityKind, is: int, kt: EntityKind, it: int|
            #[trigger] cli_named(cat, source@, ks, is) && #[trigger] cli_named(cat, target@, kt, it)
            ==> r == Ok::<(EntityKind, usize, EntityKind, usize), MedullaError>((ks, is as usize, kt, it as usize)),
        r matches Ok((ks, is, kt, it)) ==> cli_named(cat, source@, ks, is as int) && cli_named(cat, target@, kt, it as int),
{
    let (ks, is) = match find_entity_by_id(cat, source) {
        Ok(p) => p,
        Err(e) => {
            proof {
                assert forall|k: EntityKind, i: int| #[trigger] cli_named(cat, source@, k, i) implies false by {
                    assert(EntityKind::at_rank(k.rank()) == k);
                    assert(cli_matches(cat.bases(k)[i], source@));
                }
            }
            return Err(e);
        },
    };
    let (kt, it) = match find_entity_by_id(cat, target) {
        Ok(p) => p,
        Err(e) => {
            proof {
                assert forall|k: EntityKind, i: int| #[trigger] cli_named(cat, target@, k, i) implies false by {
                    assert(EntityKind::at_rank(k.rank()) == k);
                    assert(cli_matches(cat.bases(k)[i], target@));
                }
                assert forall|k: EntityKind, i: int| #[trigger] cli_named(cat, source@, k, i) implies k == ks && i == is by {
                    lemma_cli_named_unique(cat, source@, ks, is as int, k, i);
                }
                assert(!cli_unnamed(cat, source@)) by {
                    assert(EntityKind::at_rank(ks.rank()) == ks);
                    assert(cli_matches(cat.bases(ks)[is as int], source@));
                }
            }
            return Err(e);
        },
    };
    proof {
        assert forall|a: EntityKind, b: int, c: EntityKind, d: int|
            #[trigger] cli_named(cat, source@, a, b) && #[trigger] cli_named(cat, target@, c, d)
            implies a == ks && b == is && c == kt && d == it by {
            lemma_cli_named_unique(cat, source@, ks, is as int, a, b);
            lemma_cli_named_unique(cat, target@, kt, it as int, c, d);
        }
        assert(!cli_unnamed(cat, source@)) by {
            assert(EntityKind::at_rank(ks.rank()) == ks);
            assert(cli_matches(cat.bases(ks)[is as int], source@));
        }
        assert(!cli_unnamed(cat, target@)) by {
            assert(EntityKind::at_rank(kt.rank()) == kt);
            assert(cli_matches(cat.bases(kt)[it as int], target@));
        }
    }
    Ok((ks, is, kt, it))
}

/// Relates two entities named on the command line: the source, then the target
/// are looked up (`EntityNotFound` for the first that names nothing), the type
/// is read case-insensitively (a storage error when it names none), and the
/// relation is stored, replacing any with the same source, type and target.
/// Nothing changes on an error; the stored relation is the catalog's last.
pub fn cli_add_relation(
    cat: &mut Catalog,
    source: &str,
    target: &str,
    relation_type: &str,
    created_by: Option<String>,
    now: Timestamp,
) -> (r: Result<(), MedullaError>)
    ensures
        r is Err ==> *final(cat) == *old(cat),
        cli_unnamed(&*old(cat), source@) ==> (r matches Err(MedullaError::EntityNotFound(x)) && x@ == source@),
        forall|ks: EntityKind, is: int| #[trigger] cli_named(&*old(cat), source@, ks, is) && cli_unnamed(&*old(cat), target@)
            ==> (r matches Err(MedullaError::EntityNotFound(x)) && x@ == target@),
        forall|ks: EntityKind, is: int, kt: EntityKind, it: int|
            #[trigger] cli_named(&*old(cat), source@, ks, is) && #[trigger] cli_named(&*old(cat), target@, kt, it)
            ==> match RelationType::from_name(lowercase(relation_type@)) {
                None => r matches Err(MedullaError::Storage(m)) && m@ == "Unknown relation type: "@ + relation_type@,
                Some(t) => {
                    let rel = final(cat).relations@.last();
                    &&& r is Ok && final(cat).relations@.len() > 0
                    &&& cli_relation(rel, &*old(cat), ks, is, kt, it, t, created_by, now)
                    &&& final(cat).relations@ == with_relation(old(cat).relations@, rel)
                    &&& same_entities(*final(cat), *old(cat))
                },
            },
{
    let (ks, is, kt, it) = match named_pair(cat, source, target) {
        Ok(p) => p,
        Err(e) => {
            return Err(e);
        },
    };
    let t = match RelationType::parse(relation_type) {
        Ok(t) => t,
        Err(m) => {
            return Err(MedullaError::Storage(m));
        },
    };
    let source_id = cat.base_at(ks, is).id;
    let target_id = cat.base_at(kt, it).id;
    let mut rel = Relation::with_time(
        source_id,
        String::from_str(ks.as_str()),
        target_id,
        String::from_str(kt.as_str()),
        t,
        now,
    );
    rel.created_by = created_by;
    add_relation(cat, rel);
    Ok(())
}

/// Removes the relation of a type between two entities named on the command
/// line: the source, then the target are looked up (`EntityNotFound` for the
/// first that names nothing), the type is read case-insensitively (a storage
/// error when it names none), and the relation with that source, type and
/// target is removed, if there is one. Gives the two UUIDs and the type.
/// Nothing changes on an error.
pub fn cli_delete_relation(
    cat: &mut Catalog,
    source: &str,
    target: &str,
    relation_type: &str,
) -> (r: Result<(u128, RelationType, u128), MedullaError>)
    ensures
        r is Err ==> *final(cat) == *old(cat),
        cli_unnamed(&*old(cat), source@) ==> (r matches Err(MedullaError::EntityNotFound(x)) && x@ == source@),
        forall|ks: EntityKind, is: int| #[trigger] cli_named(&*old(cat), source@, ks, is) && cli_unnamed(&*old(cat), target@)
            ==> (r matches Err(MedullaError::EntityNotFound(x)) && x@ == target@),
        forall|ks: EntityKind, is: int, kt: EntityKind, it: int|
            #[trigger] cli_named(&*old(cat), source@, ks, is) && #[trigger] cli_named(&*old(cat), target@, kt, it)
            ==> match RelationType::from_name(lowercase(relation_type@)) {
                None => r matches Err(MedullaError::Storage(m)) && m@ == "Unknown relation type: "@ + relation_type@,
                Some(t) => {
                    let key = (old(cat).bases(ks)[is].id, t, old(cat).bases(kt)[it].id);
                    &&& r == Ok::<(u128, RelationType, u128), MedullaError>(key)
                    &&& final(cat).relations@ == without_key(old(cat).relations@, key)
                    &&& same_entities(*final(cat), *old(cat))
                },
            },
{
    let (ks, is, kt, it) = match named_pair(cat, source, target) {
        Ok(p) => p,
        Err(e) => {
            return Err(e);
        },
    };
    let t = match RelationType::parse(relation_type) {
        Ok(t) => t,
        Err(m) => {
            return Err(MedullaError::Storage(m));
        },
    };
    let source_id = cat.base_at(ks, is).id;
    let target_id = cat.base_at(kt, it).id;
    delete_relation(cat, source_id, t, target_id);
    Ok((source_id, t, target_id))
}

// ---------------------------------------------------------------------------
// The kind a listing asks for
// ---------------------------------------------------------------------------

/// A listing names a kind by its type name or that name with an `s`.
pub open spec fn names_kind(n: Seq<char>, k: EntityKind) -> bool {
    n == k.name() || n == k.name() + "s"@
}

/// The kind `medulla list` shows: decisions when none is named; otherwise the
/// kind whose type name, singular or plural, is given; `None` for any other name.
pub fn list_kind(name: Option<&str>) -> (r: Option<EntityKind>)
    ensures
        name is None ==> r == Some(EntityKind::Decision),
        name matches Some(n) ==> match r {
            Some(k) => names_kind(n@, k),
            None => forall|k: EntityKind| !#[trigger] names_kind(n@, k),
        },
{
    let n = match name {
        None => {
            return Some(EntityKind::Decision);
        },
        Some(n) => n,
    };
    let mut q: usize = 0;
    while q < 6
        invariant
            name == Some(n),
            q <= 6,
            forall|x: int| 0 <= x < q ==> !#[trigger] names_kind(n@, EntityKind::at_rank(x)),
        decreases 6 - q,
    {
        let k = EntityKind::of_rank(q);
        let mut plural = String::from_str(k.as_str());
        crate::text::push_str(&mut plural, "s");
        proof {
            reveal_strlit("s");
        }
        if crate::text::str_eq(n, k.as_str()) || crate::text::str_eq(n, plural.as_str()) {
            return Some(k);
        }
        q = q + 1;
    }
    proof {
        assert forall|k: EntityKind| !#[trigger] names_kind(n@, k) by {
            assert(EntityKind::at_rank(k.rank()) == k);
        }
    }
    None
}

// ---------------------------------------------------------------------------
// Searching from the command line
// ---------------------------------------------------------------------------

/// The full-text query the command line runs for the text left after the
/// filters: `*` (everything) when none is left.
pub open spec fn cli_query(text: Seq<char>) -> Seq<char> {
    if text.len() == 0 {
        "*"@
    } else {
        text
    }
}

/// The kinds the command line searches, in order: the one a `type:` filter
/// names (none when it names no kind), else all six.
pub open spec fn cli_kinds(t: Option<Seq<char>>) -> Seq<EntityKind> {
    match t {
        None => all_kinds(),
        Some(n) => match EntityKind::from_name(n) {
            Some(k) => seq![k],
            None => Seq::empty(),
        },
    }
}

/// What the command line asks the full-text index: the query text, and the
/// kinds to search, in order (see `cli_query` and `cli_kinds`).
pub fn cli_search_plan(text: &str, filter: &SearchFilter) -> (r: (String, Vec<EntityKind>))
    ensures
        r.0@ == cli_query(text@),
        r.1@ == cli_kinds(filter.model().entity_type),
{
    proof {
        reveal_strlit("*");
    }
    let query = if text.unicode_len() == 0 {
        String::from_str("*")
    } else {
        crate::text::to_owned_string(text)
    };
    let mut kinds: Vec<EntityKind> = Vec::new();
    match &filter.entity_type {
        Some(t) => {
            if let Some(k) = EntityKind::from_str_name(t.as_str()) {
                kinds.push(k);
            }
            assert(kinds@ =~= cli_kinds(filter.model().entity_type));
        },
        None => {
            let mut q: usize = 0;
            while q < 6
                invariant
                    q <= 6,
                    kinds@ == all_kinds().take(q as int),
                decreases 6 - q,
            {
                kinds.push(EntityKind::of_rank(q));
                assert(kinds@ =~= all_kinds().take(q + 1));
                q = q + 1;
            }
            assert(all_kinds().take(6) =~= all_kinds());
        },
    }
    (query, kinds)
}

/// `i` is the first entity of kind `k` whose UUID text is `id`.
pub open spec fn first_with_id(cat: &Catalog, k: EntityKind, id: Seq<char>, i: int) -> bool {
    &&& 0 <= i < cat.bases(k).len()
    &&& uuid_text(cat.bases(k)[i].id) == id
    &&& forall|j: int| 0 <= j < i ==> uuid_text((#[trigger] cat.bases(k)[j]).id) != id
}

/// Whether a hit passes the command line's status, tag and date filters: its
/// own status must be the one asked for; where tags or dates are asked for, the
/// entity it names must be found among those of its kind, and its tags (as the
/// search cache files them) and creation instant must pass them.
pub open spec fn cli_hit_ok(cat: &Catalog, hit: SearchResult, f: FilterModel) -> bool {
    let (id, kind_name, status) = hit.parts();
    &&& (f.status matches Some(s) ==> status == Some(s))
    &&& (f.tags.len() > 0 || f.created_after is Some || f.created_before is Some) ==> match EntityKind::from_name(kind_name) {
        None => false,
        Some(k) => exists|i: int| #[trigger] first_with_id(cat, k, id, i)
            && passes(f, status, filed_tag_list(views(cat.bases(k)[i].tags@)), Some(cat.bases(k)[i].created_at)),
    }
}

fn find_by_id(cat: &Catalog, k: EntityKind, id: &str) -> (r: Option<usize>)
    ensures
        match r {
            Some(i) => first_with_id(cat, k, id@, i as int),
            None => forall|i: int| 0 <= i < cat.bases(k).len() ==> uuid_text((#[trigger] cat.bases(k)[i]).id) != id@,
        },
{
    let n = cat.count(k);
    let mut i: usize = 0;
    while i < n
        invariant
            n == cat.bases(k).len(),
            i <= n,
            forall|j: int| 0 <= j < i ==> uuid_text((#[trigger] cat.bases(k)[j]).id) != id@,
        decreases n - i,
    {
        let t = uuid_string(cat.base_at(k, i).id);
        if crate::text::str_eq(t.as_str(), id) {
            return Some(i);
        }
        i = i + 1;
    }
    None
}

/// Whether a hit passes the command line's filters (see `cli_hit_ok`).
pub fn cli_hit_passes(cat: &Catalog, hit: &SearchResult, filter: &SearchFilter) -> (r: bool)
    ensures
        r == cli_hit_ok(cat, *hit, filter.model()),
{
    let ghost f = filter.model();
    if let Some(required) = &filter.status {
        match hit.status() {
            Some(actual) => {
                if !crate::text::str_eq(actual.as_str(), required.as_str()) {
                    return false;
                }
            },
            None => {
                return false;
            },
        }
    }
    if filter.tags.len() == 0 && filter.created_after.is_none() && filter.created_before.is_none() {
        return true;
    }
    let k = match EntityKind::from_str_name(hit.entity_type()) {
        Some(k) => k,
        None => {
            return false;
        },
    };
    match find_by_id(cat, k, hit.entity_id().as_str()) {
        None => {
            proof {
                assert forall|i: int| !#[trigger] first_with_id(cat, k, hit.parts().0, i) by {
                    if 0 <= i < cat.bases(k).len() {
                        assert(uuid_text(cat.bases(k)[i].id) != hit.parts().0);
                    }
                }
            }
            false
        },
        Some(i) => {
            let b = cat.base_at(k, i);
            let status = match hit.status() {
                Some(s) => Some(s.clone()),
                None => None,
            };
            let meta = FilterMetadata {
                status,
                tags: filed_tags(&b.tags),
                created_at: Some(b.created_at),
            };
            let ok = matches_metadata(filter, &meta);
            proof {
                assert forall|j: int| #[trigger] first_with_id(cat, k, hit.parts().0, j) implies j == i by {
                    if j < i {
                        assert(uuid_text(cat.bases(k)[j].id) != hit.parts().0);
                    }
                    if i < j {
                        assert(uuid_text(cat.bases(k)[i as int].id) != hit.parts().0);
                    }
                }
                assert(views(meta.tags@) == filed_tag_list(views(cat.bases(k)[i as int].tags@)));
            }
            ok
        },
    }
}

/// The hits that pass the command line's filters, in order.
pub open spec fn passing_hits(cat: &Catalog, hits: Seq<SearchResult>, f: FilterModel) -> Seq<SearchResult>
    decreases hits.len(),
{
    if hits.len() == 0 {
        hits
    } else {
        let before = passing_hits(cat, hits.drop_last(), f);
        if cli_hit_ok(cat, hits.last(), f) {
            before.push(hits.last())
        } else {
            before
        }
    }
}

/// The command line's search results: the hits that pass its filters, in
/// order, the first 50.
pub fn cli_search_results(cat: &Catalog, hits: Vec<SearchResult>, filter: &SearchFilter) -> (r: Vec<SearchResult>)
    ensures
        r@ == first_n(passing_hits(cat, hits@, filter.model()), 50),
{
    let ghost start = hits@;
    let ghost f = filter.model();
    let mut rest = hits;
    let mut kept: Vec<SearchResult> = Vec::new();
    let n = rest.len();
    let mut j: usize = 0;
    while j < n
        invariant
            n == start.len(),
            f == filter.model(),
            rest@ == start.skip(j as int),
            j <= n,
            kept@ == passing_hits(cat, start.take(j as int), f),
        decreases n - j,
    {
        let h = rest.remove(0);
        assert(start.take(j + 1).drop_last() =~= start.take(j as int));
        assert(start.take(j + 1).last() == h);
        assert(rest@ =~= start.skip(j + 1));
        if cli_hit_passes(cat, &h, filter) {
            kept.push(h);
        }
        j = j + 1;
    }
    assert(start.take(n as int) =~= start);
    first_items(kept, 50)
}

// ---------------------------------------------------------------------------
// Listing lines
// ---------------------------------------------------------------------------

/// The text of an optional field, or `dflt` where it is absent.
pub open spec fn text_or(v: Option<String>, dflt: Seq<char>) -> Seq<char> {
    match v {
        Some(s) => s@,
        None => dflt,
    }
}

/// What `medulla list` prints for the `i`-th entity of a kind: its number (at
/// least three digits), the first seven digits of its UUID, what its kind
/// shows, and its title; a decision with tags adds a line of them.
pub open spec fn list_entry_text(cat: &Catalog, k: EntityKind, i: int) -> Seq<char> {
    let b = cat.bases(k)[i];
    let head = "  "@ + crate::text::zero_padded(b.sequence_number as nat, 3) + " ("@ + uuid_text(b.id).subrange(0, 7) + ") "@;
    match k {
        EntityKind::Decision => head + "["@ + cat.decisions@[i].status.name() + "] "@ + b.title@
            + (if b.tags@.len() > 0 {
                "\n      tags: "@ + crate::text::join_seq(views(b.tags@), ", "@)
            } else {
                Seq::empty()
            }),
        EntityKind::Task => head + "["@ + cat.tasks@[i].status.name() + "|"@ + cat.tasks@[i].priority.name() + "]"@
            + (match cat.tasks@[i].due_date {
                Some(d) => " due:"@ + crate::clock::date_text(d),
                None => Seq::empty(),
            }) + " "@ + b.title@,
        EntityKind::Note => head + "["@ + text_or(cat.notes@[i].note_type, "note"@) + "] "@ + b.title@,
        EntityKind::Prompt => head + b.title@ + (if cat.prompts@[i].variables@.len() > 0 {
            " vars: "@ + crate::text::join_seq(views(cat.prompts@[i].variables@), ", "@)
        } else {
            Seq::empty()
        }),
        EntityKind::Component => head + "["@ + text_or(cat.components@[i].component_type, "component"@) + "|"@
            + cat.components@[i].status.name() + "] "@ + b.title@,
        EntityKind::Link => head + b.title@ + " -> "@ + cat.links@[i].url@,
    }
}

fn push_opt_or(s: &mut String, v: &Option<String>, dflt: &str)
    ensures
        final(s)@ == old(s)@ + text_or(*v, dflt@),
{
    match v {
        Some(t) => crate::text::push_str(s, t.as_str()),
        None => crate::text::push_str(s, dflt),
    }
}

/// The lines `medulla list` prints for the `i`-th entity of a kind.
pub fn list_entry(cat: &Catalog, k: EntityKind, i: usize) -> (r: String)
    requires
        i < cat.bases(k).len(),
    ensures
        r@ == list_entry_text(cat, k, i as int),
{
    let b = cat.base_at(k, i);
    let mut r = String::from_str("  ");
    crate::text::push_padded3(&mut r, b.sequence_number as u64);
    crate::text::push_str(&mut r, " (");
    let short = crate::clock::short_uuid(b.id);
    crate::text::push_str(&mut r, short.as_str());
    crate::text::push_str(&mut r, ") ");
    let ghost head = r@;
    match k {
        EntityKind::Decision => {
            crate::text::push_str(&mut r, "[");
            crate::text::push_str(&mut r, cat.decisions[i].status.as_str());
            crate::text::push_str(&mut r, "] ");
            crate::text::push_str(&mut r, b.title.as_str());
            if b.tags.len() > 0 {
                crate::text::push_str(&mut r, "\n      tags: ");
                let t = crate::text::join(&b.tags, ", ");
                crate::text::push_str(&mut r, t.as_str());
            }
        },
        EntityKind::Task => {
            let t = &cat.tasks[i];
            crate::text::push_str(&mut r, "[");
            crate::text::push_str(&mut r, t.status.as_str());
            crate::text::push_str(&mut r, "|");
            crate::text::push_str(&mut r, t.priority.as_str());
            crate::text::push_str(&mut r, "]");
            if let Some(d) = &t.due_date {
                crate::text::push_str(&mut r, " due:");
                let dt = d.to_text();
                crate::text::push_str(&mut r, dt.as_str());
            }
            crate::text::push_str(&mut r, " ");
            crate::text::push_str(&mut r, b.title.as_str());
        },
        EntityKind::Note => {
            crate::text::push_str(&mut r, "[");
            push_opt_or(&mut r, &cat.notes[i].note_type, "note");
            crate::text::push_str(&mut r, "] ");
            crate::text::push_str(&mut r, b.title.as_str());
        },
        EntityKind::Prompt => {
            crate::text::push_str(&mut r, b.title.as_str());
            if cat.prompts[i].variables.len() > 0 {
                crate::text::push_str(&mut r, " vars: ");
                let t = crate::text::join(&cat.prompts[i].variables, ", ");
                crate::text::push_str(&mut r, t.as_str());
            }
        },
        EntityKind::Component => {
            crate::text::push_str(&mut r, "[");
            push_opt_or(&mut r, &cat.components[i].component_type, "component");
            crate::text::push_str(&mut r, "|");
            crate::text::push_str(&mut r, cat.components[i].status.as_str());
            crate::text::push_str(&mut r, "] ");
            crate::text::push_str(&mut r, b.title.as_str());
        },
        EntityKind::Link => {
            crate::text::push_str(&mut r, b.title.as_str());
            crate::text::push_str(&mut r, " -> ");
            crate::text::push_str(&mut r, cat.links[i].url.as_str());
        },
    }
    proof {
        assert(r@ =~= list_entry_text(cat, k, i as int));
    }
    r
}

/// A command-line identifier of digits names an entity by its sequence number,
/// exactly: the entity found for it has the number the digits denote.
pub proof fn lemma_cli_number_id_exact(cat: &Catalog, k: EntityKind, id: Seq<char>, i: int)
    requires
        id.len() > 0,
        all_ascii_digits(id),
        digits_value(id) <= u32::MAX,
        cli_first(cat, k, id, i),
    ensures
        cat.bases(k)[i].sequence_number == digits_value(id),
{
    assert(!(id[0] == '+'));
}

} // verus!
