//! The search cache's values: search hits, cached relations, statistics and the
//! warnings they raise, and the text an entity is embedded from.
use vstd::prelude::*;
use vstd::string::StringExecFns;
use crate::text::{hex16, hex_fixed, join, join_seq, push_str, str_eq, views};

verus! {

// ---------------------------------------------------------------------------
// Search hits
// ---------------------------------------------------------------------------

/// A full-text hit on a decision.
#[derive(Debug)]
pub struct DecisionSearchResult {
    pub id: String,
    pub sequence_number: u32,
    pub title: String,
    pub status: String,
    pub title_highlight: Option<String>,
    pub content_snippet: Option<String>,
}

/// A full-text hit on a task.
#[derive(Debug)]
pub struct TaskSearchResult {
    pub id: String,
    pub sequence_number: u32,
    pub title: String,
    pub status: String,
    pub priority: String,
    pub assignee: Option<String>,
    pub title_highlight: Option<String>,
    pub content_snippet: Option<String>,
}

/// A full-text hit on a note.
#[derive(Debug)]
pub struct NoteSearchResult {
    pub id: String,
    pub sequence_number: u32,
    pub title: String,
    pub note_type: Option<String>,
    pub title_highlight: Option<String>,
    pub content_snippet: Option<String>,
}

/// A full-text hit on a prompt.
#[derive(Debug)]
pub struct PromptSearchResult {
    pub id: String,
    pub sequence_number: u32,
    pub title: String,
    pub variables: Vec<String>,
    pub title_highlight: Option<String>,
    pub content_snippet: Option<String>,
}

/// A full-text hit on a component.
#[derive(Debug)]
pub struct ComponentSearchResult {
    pub id: String,
    pub sequence_number: u32,
    pub title: String,
    pub status: String,
    pub component_type: Option<String>,
    pub owner: Option<String>,
    pub title_highlight: Option<String>,
    pub content_snippet: Option<String>,
}

/// A full-text hit on a link.
#[derive(Debug)]
pub struct LinkSearchResult {
    pub id: String,
    pub sequence_number: u32,
    pub title: String,
    pub url: String,
    pub link_type: Option<String>,
    pub title_highlight: Option<String>,
    pub content_snippet: Option<String>,
}

/// A full-text hit on an entity of any kind.
#[derive(Debug)]
pub enum SearchResult {
    Decision(DecisionSearchResult),
    Task(TaskSearchResult),
    Note(NoteSearchResult),
    Prompt(PromptSearchResult),
    Component(ComponentSearchResult),
    Link(LinkSearchResult),
}

impl SearchResult {
    /// The hit's entity UUID text, kind name and status, for the kinds that have one.
    pub open spec fn parts(&self) -> (Seq<char>, Seq<char>, Option<Seq<char>>) {
        match self {
            SearchResult::Decision(d) => (d.id@, "decision"@, Some(d.status@)),
            SearchResult::Task(t) => (t.id@, "task"@, Some(t.status@)),
            SearchResult::Component(c) => (c.id@, "component"@, Some(c.status@)),
            SearchResult::Note(n) => (n.id@, "note"@, None),
            SearchResult::Prompt(p) => (p.id@, "prompt"@, None),
            SearchResult::Link(l) => (l.id@, "link"@, None),
        }
    }

    /// The hit's entity UUID text.
    pub fn entity_id(&self) -> (r: &String)
        ensures
            r@ == self.parts().0,
    {
        match self {
            SearchResult::Decision(d) => &d.id,
            SearchResult::Task(t) => &t.id,
            SearchResult::Component(c) => &c.id,
            SearchResult::Note(n) => &n.id,
            SearchResult::Prompt(p) => &p.id,
            SearchResult::Link(l) => &l.id,
        }
    }

    /// The hit's kind name.
    pub fn entity_type(&self) -> (r: &'static str)
        ensures
            r@ == self.parts().1,
    {
        match self {
            SearchResult::Decision(_) => "decision",
            SearchResult::Task(_) => "task",
            SearchResult::Component(_) => "component",
            SearchResult::Note(_) => "note",
            SearchResult::Prompt(_) => "prompt",
            SearchResult::Link(_) => "link",
        }
    }

    /// The hit's status, for the kinds that have one.
    pub fn status(&self) -> (r: Option<&String>)
        ensures
            match r {
                Some(s) => self.parts().2 == Some(s@),
                None => self.parts().2 is None,
            },
    {
        match self {
            SearchResult::Decision(d) => Some(&d.status),
            SearchResult::Task(t) => Some(&t.status),
            SearchResult::Component(c) => Some(&c.status),
            _ => None,
        }
    }
}

/// A relation as the cache holds it.
#[derive(Debug)]
pub struct CachedRelation {
    pub composite_key: String,
    pub source_id: String,
    pub source_type: String,
    pub target_id: String,
    pub target_type: String,
    pub relation_type: String,
    pub created_at: String,
    pub created_by: Option<String>,
}

// ---------------------------------------------------------------------------
// Statistics and warnings
// ---------------------------------------------------------------------------

/// Above this many entities, search may slow down.
pub const ENTITY_WARNING_THRESHOLD: usize = 1000;

/// Above this many bytes (10 MiB), the document store is large.
pub const LORO_SIZE_WARNING_THRESHOLD: u64 = 10485760;

/// Counts the cache keeps for monitoring.
#[derive(Debug)]
pub struct CacheStats {
    /// All entities.
    pub entity_count: usize,
    pub embedding_count: usize,
    pub decisions: usize,
    pub tasks: usize,
    pub notes: usize,
    pub prompts: usize,
    pub components: usize,
    pub links: usize,
    pub relations: usize,
}

/// A threshold that the stored data passes. Sizes are in bytes; they are shown
/// in MiB when the warning is printed.
#[derive(Debug, Clone, Copy, PartialEq, Eq, Structural)]
pub enum ThresholdWarning {
    /// More entities than recommended.
    HighEntityCount { count: usize, threshold: usize },
    /// A larger document store than recommended.
    LargeLoroDb { size_bytes: u64, threshold_bytes: u64 },
}

/// Checks the entity count and the store size against their thresholds: a
/// warning for each one passed, the entity count's first.
pub fn check_thresholds(stats: &CacheStats, loro_size: u64) -> (r: Vec<ThresholdWarning>)
    ensures
        r@ == (if stats.entity_count > ENTITY_WARNING_THRESHOLD {
            seq![ThresholdWarning::HighEntityCount { count: stats.entity_count, threshold: ENTITY_WARNING_THRESHOLD }]
        } else {
            Seq::empty()
        }) + (if loro_size > LORO_SIZE_WARNING_THRESHOLD {
            seq![ThresholdWarning::LargeLoroDb { size_bytes: loro_size, threshold_bytes: LORO_SIZE_WARNING_THRESHOLD }]
        } else {
            Seq::empty()
        }),
{
    let mut warnings: Vec<ThresholdWarning> = Vec::new();
    if stats.entity_count > ENTITY_WARNING_THRESHOLD {
        warnings.push(ThresholdWarning::HighEntityCount { count: stats.entity_count, threshold: ENTITY_WARNING_THRESHOLD });
    }
    if loro_size > LORO_SIZE_WARNING_THRESHOLD {
        warnings.push(ThresholdWarning::LargeLoroDb { size_bytes: loro_size, threshold_bytes: LORO_SIZE_WARNING_THRESHOLD });
    }
    assert(warnings@ =~= (if stats.entity_count > ENTITY_WARNING_THRESHOLD {
        seq![ThresholdWarning::HighEntityCount { count: stats.entity_count, threshold: ENTITY_WARNING_THRESHOLD }]
    } else {
        Seq::empty()
    }) + (if loro_size > LORO_SIZE_WARNING_THRESHOLD {
        seq![ThresholdWarning::LargeLoroDb { size_bytes: loro_size, threshold_bytes: LORO_SIZE_WARNING_THRESHOLD }]
    } else {
        Seq::empty()
    }));
    warnings
}

// ---------------------------------------------------------------------------
// Embeddings
// ---------------------------------------------------------------------------

/// The text an entity is embedded from: its title, then its content, then its
/// tags joined by spaces, the parts separated by blank lines.
pub open spec fn embeddable(title: Seq<char>, content: Option<Seq<char>>, tags: Seq<Seq<char>>) -> Seq<char> {
    title + (match content {
        Some(c) => "\n\n"@ + c,
        None => Seq::empty(),
    }) + (if tags.len() > 0 {
        "\n\n"@ + join_seq(tags, " "@)
    } else {
        Seq::empty()
    })
}

/// The text an entity is embedded from (see `embeddable`).
pub fn embeddable_text(title: &str, content: Option<&str>, tags: &Vec<String>) -> (r: String)
    ensures
        r@ == embeddable(title@, match content {
            Some(c) => Some(c@),
            None => None,
        }, views(tags@)),
{
    let mut text = String::from_str(title);
    if let Some(c) = content {
        push_str(&mut text, "\n\n");
        push_str(&mut text, c);
    }
    if tags.len() > 0 {
        push_str(&mut text, "\n\n");
        let j = join(tags, " ");
        push_str(&mut text, j.as_str());
    }
    assert(text@ =~= embeddable(title@, match content {
        Some(c) => Some(c@),
        None => None,
    }, views(tags@)));
    text
}

/// What `std::collections::hash_map::DefaultHasher::new()` yields after hashing a text.
pub uninterp spec fn text_hash(s: Seq<char>) -> u64;

/// `BuildHasher::hash_one` on the (stateless) builder of `DefaultHasher`: it
/// hashes the text with a fresh `DefaultHasher::new()` and finishes, and its
/// result is named `text_hash` of the text. That hasher is not randomly seeded,
/// so the same text hashes alike within a build; the algorithm is not stated.
#[verifier::external_body]
fn hash_text(s: &str) -> (r: u64)
    ensures
        r == text_hash(s@),
{
    std::hash::BuildHasher::hash_one(
        &std::hash::BuildHasherDefault::<std::collections::hash_map::DefaultHasher>::default(),
        s,
    )
}

/// The hash of a text, as 16 lowercase hexadecimal digits: used to tell whether an
/// embedding is stale.
pub fn compute_text_hash(text: &str) -> (r: String)
    ensures
        r@ == hex_fixed(text_hash(text@) as nat, 16),
{
    hex16(hash_text(text))
}

/// The embedding provider and model.
#[derive(Debug)]
pub struct EmbeddingConfig {
    /// `local` for the embedded model.
    pub provider: String,
    pub model: String,
}

impl EmbeddingConfig {
    /// The local provider with the `all-MiniLM-L6-v2` model.
    pub fn local() -> (r: Self)
        ensures
            r.provider@ == "local"@,
            r.model@ == "all-MiniLM-L6-v2"@,
    {
        EmbeddingConfig { provider: String::from_str("local"), model: String::from_str("all-MiniLM-L6-v2") }
    }

    /// Whether the provider is the local one.
    pub fn is_local(&self) -> (r: bool)
        ensures
            r == (self.provider@ == "local"@),
    {
        str_eq(self.provider.as_str(), "local")
    }
}

impl Default for EmbeddingConfig {
    /// The local provider with the `all-MiniLM-L6-v2` model.
    fn default() -> (r: Self)
        ensures
            r.provider@ == "local"@,
            r.model@ == "all-MiniLM-L6-v2"@,
    {
        Self::local()
    }
}

// ---------------------------------------------------------------------------
// What the full-text index holds besides title, content and tags
// ---------------------------------------------------------------------------

/// The text of an optional field, as a list of none or one text.
pub open spec fn opt_texts_of(v: Option<String>) -> Seq<Seq<char>> {
    match v {
        Some(s) => seq![s@],
        None => Seq::empty(),
    }
}

/// The texts the full-text index holds for an entity besides its title, content
/// and tags: a decision's context; a task's status, priority and assignee; a
/// note's type; a prompt's template; a component's status, type and owner; a
/// link's URL and type.
pub open spec fn index_extras(cat: &crate::lookup::Catalog, k: crate::lookup::EntityKind, i: int) -> Seq<Seq<char>> {
    match k {
        crate::lookup::EntityKind::Decision => opt_texts_of(cat.decisions@[i].context),
        crate::lookup::EntityKind::Task => seq![cat.tasks@[i].status.name(), cat.tasks@[i].priority.name()]
            + opt_texts_of(cat.tasks@[i].assignee),
        crate::lookup::EntityKind::Note => opt_texts_of(cat.notes@[i].note_type),
        crate::lookup::EntityKind::Prompt => opt_texts_of(cat.prompts@[i].template),
        crate::lookup::EntityKind::Component => seq![cat.components@[i].status.name()]
            + opt_texts_of(cat.components@[i].component_type) + opt_texts_of(cat.components@[i].owner),
        crate::lookup::EntityKind::Link => seq![cat.links@[i].url@] + opt_texts_of(cat.links@[i].link_type),
    }
}

fn push_opt(v: &mut Vec<String>, s: &Option<String>)
    ensures
        final(v)@.len() == old(v)@.len() + opt_texts_of(*s).len(),
        views(final(v)@) == views(old(v)@) + opt_texts_of(*s),
{
    let ghost before = v@;
    if let Some(t) = s {
        v.push(t.clone());
        proof {
            assert(views(v@) =~= views(before) + opt_texts_of(*s));
        }
    } else {
        proof {
            assert(views(v@) =~= views(before) + opt_texts_of(*s));
        }
    }
}

/// The kind-specific texts of an entity, separated by spaces, as the full-text
/// index holds them beside its title, content and tags.
pub fn index_extra_text(cat: &crate::lookup::Catalog, k: crate::lookup::EntityKind, i: usize) -> (r: String)
    requires
        i < cat.bases(k).len(),
    ensures
        r@ == join_seq(index_extras(cat, k, i as int), " "@),
{
    let mut v: Vec<String> = Vec::new();
    match k {
        crate::lookup::EntityKind::Decision => {
            push_opt(&mut v, &cat.decisions[i].context);
        },
        crate::lookup::EntityKind::Task => {
            v.push(String::from_str(cat.tasks[i].status.as_str()));
            v.push(String::from_str(cat.tasks[i].priority.as_str()));
            push_opt(&mut v, &cat.tasks[i].assignee);
        },
        crate::lookup::EntityKind::Note => {
            push_opt(&mut v, &cat.notes[i].note_type);
        },
        crate::lookup::EntityKind::Prompt => {
            push_opt(&mut v, &cat.prompts[i].template);
        },
        crate::lookup::EntityKind::Component => {
            v.push(String::from_str(cat.components[i].status.as_str()));
            push_opt(&mut v, &cat.components[i].component_type);
            push_opt(&mut v, &cat.components[i].owner);
        },
        crate::lookup::EntityKind::Link => {
            v.push(cat.links[i].url.clone());
            push_opt(&mut v, &cat.links[i].link_type);
        },
    }
    proof {
        assert(views(v@) =~= index_extras(cat, k, i as int));
    }
    join(&v, " ")
}

} // verus!
