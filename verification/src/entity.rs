//! The entities of the knowledge base: decisions, tasks, notes, prompts,
//! components, links, and the relations between them.
use vstd::prelude::*;
use crate::text::{chars_of, lemma_lowercase_word, lowercase, lowercase_word, push_char, push_str, str_eq, to_lowercase};
use crate::clock::{CalendarDate, Timestamp, is_v4, new_random_uuid, now_utc, uuid_string, uuid_text};

verus! {

// ---------------------------------------------------------------------------
// Decision status
// ---------------------------------------------------------------------------

/// Lifecycle of a decision.
#[derive(Debug, Clone, Copy, PartialEq, Eq, Structural)]
pub enum DecisionStatus {
    Proposed,
    Accepted,
    Deprecated,
    Superseded,
}

impl DecisionStatus {
    /// The lowercase name of the status.
    pub open spec fn name(self) -> Seq<char> {
        match self {
            DecisionStatus::Proposed => "proposed"@,
            DecisionStatus::Accepted => "accepted"@,
            DecisionStatus::Deprecated => "deprecated"@,
            DecisionStatus::Superseded => "superseded"@,
        }
    }

    /// The status whose name is exactly `s`.
    pub open spec fn from_name(s: Seq<char>) -> Option<DecisionStatus> {
        if s == "proposed"@ {
            Some(DecisionStatus::Proposed)
        } else if s == "accepted"@ {
            Some(DecisionStatus::Accepted)
        } else if s == "deprecated"@ {
            Some(DecisionStatus::Deprecated)
        } else if s == "superseded"@ {
            Some(DecisionStatus::Superseded)
        } else {
            None
        }
    }

    /// The default status, `Proposed`.
    pub fn default_status() -> (r: Self)
        ensures
            r == DecisionStatus::Proposed,
    {
        DecisionStatus::Proposed
    }

    /// The lowercase name of the status.
    pub fn as_str(&self) -> (r: &'static str)
        ensures
            r@ == self.name(),
    {
        match self {
            DecisionStatus::Proposed => "proposed",
            DecisionStatus::Accepted => "accepted",
            DecisionStatus::Deprecated => "deprecated",
            DecisionStatus::Superseded => "superseded",
        }
    }

    /// The status named exactly by `s` (already lowercase).
    pub fn from_lowercase(s: &str) -> (r: Option<Self>)
        ensures
            r == Self::from_name(s@),
    {
        if str_eq(s, "proposed") {
            Some(DecisionStatus::Proposed)
        } else if str_eq(s, "accepted") {
            Some(DecisionStatus::Accepted)
        } else if str_eq(s, "deprecated") {
            Some(DecisionStatus::Deprecated)
        } else if str_eq(s, "superseded") {
            Some(DecisionStatus::Superseded)
        } else {
            None
        }
    }

    /// Parses a status, ignoring case.
    pub fn parse(s: &str) -> (r: Result<Self, String>)
        ensures
            r is Ok <==> Self::from_name(lowercase(s@)) is Some,
            r matches Ok(v) ==> Some(v) == Self::from_name(lowercase(s@)),
            r matches Err(e) ==> e@ == "Invalid status: "@ + s@,
            forall|v: Self| s@ == v.name() ==> r == Ok::<Self, String>(v),
    {
        let lower = to_lowercase(s);
        proof {
            reveal_strlit("proposed");
            reveal_strlit("accepted");
            reveal_strlit("deprecated");
            reveal_strlit("superseded");
            assert forall|v: Self| s@ == v.name() implies lower@ == s@ by {
                assert(lowercase_word(v.name()));
                lemma_lowercase_word(s@);
            }
            lemma_names_round_trip();
        }
        match Self::from_lowercase(lower.as_str()) {
            Some(v) => Ok(v),
            None => Err(message_with("Invalid status: ", s)),
        }
    }
}

// ---------------------------------------------------------------------------
// Task status
// ---------------------------------------------------------------------------

/// Progress of a task.
#[derive(Debug, Clone, Copy, PartialEq, Eq, Structural)]
pub enum TaskStatus {
    Todo,
    InProgress,
    Done,
    Blocked,
}

impl TaskStatus {
    /// The name of the status.
    pub open spec fn name(self) -> Seq<char> {
        match self {
            TaskStatus::Todo => "todo"@,
            TaskStatus::InProgress => "in_progress"@,
            TaskStatus::Done => "done"@,
            TaskStatus::Blocked => "blocked"@,
        }
    }

    /// The status spelled by `s` (lowercase, with `_` for `-`).
    pub open spec fn from_name(s: Seq<char>) -> Option<TaskStatus> {
        if s == "todo"@ {
            Some(TaskStatus::Todo)
        } else if s == "in_progress"@ || s == "inprogress"@ {
            Some(TaskStatus::InProgress)
        } else if s == "done"@ {
            Some(TaskStatus::Done)
        } else if s == "blocked"@ {
            Some(TaskStatus::Blocked)
        } else {
            None
        }
    }

    /// The default status, `Todo`.
    pub fn default_status() -> (r: Self)
        ensures
            r == TaskStatus::Todo,
    {
        TaskStatus::Todo
    }

    /// The name of the status.
    pub fn as_str(&self) -> (r: &'static str)
        ensures
            r@ == self.name(),
    {
        match self {
            TaskStatus::Todo => "todo",
            TaskStatus::InProgress => "in_progress",
            TaskStatus::Done => "done",
            TaskStatus::Blocked => "blocked",
        }
    }

    /// The status spelled exactly by `s`.
    pub fn from_lowercase(s: &str) -> (r: Option<Self>)
        ensures
            r == Self::from_name(s@),
    {
        if str_eq(s, "todo") {
            Some(TaskStatus::Todo)
        } else if str_eq(s, "in_progress") || str_eq(s, "inprogress") {
            Some(TaskStatus::InProgress)
        } else if str_eq(s, "done") {
            Some(TaskStatus::Done)
        } else if str_eq(s, "blocked") {
            Some(TaskStatus::Blocked)
        } else {
            None
        }
    }

    /// Parses a status, ignoring case and accepting `-` for `_`.
    pub fn parse(s: &str) -> (r: Result<Self, String>)
        ensures
            r is Ok <==> Self::from_name(replace_char_seq(lowercase(s@), '-', '_')) is Some,
            r matches Ok(v) ==> Some(v) == Self::from_name(
                replace_char_seq(lowercase(s@), '-', '_'),
            ),
            r matches Err(e) ==> e@ == "Invalid task status: "@ + s@,
            forall|v: Self| s@ == v.name() ==> r == Ok::<Self, String>(v),
    {
        let lower = to_lowercase(s);
        let norm = replace_char(lower.as_str(), '-', '_');
        proof {
            reveal_strlit("todo");
            reveal_strlit("in_progress");
            reveal_strlit("done");
            reveal_strlit("blocked");
            assert forall|v: Self| s@ == v.name() implies norm@ == s@ by {
                assert(lowercase_word(v.name()));
                lemma_lowercase_word(s@);
                assert(replace_char_seq(s@, '-', '_') =~= s@);
            }
            lemma_names_round_trip();
        }
        match Self::from_lowercase(norm.as_str()) {
            Some(v) => Ok(v),
            None => Err(message_with("Invalid task status: ", s)),
        }
    }
}

// ---------------------------------------------------------------------------
// Task priority
// ---------------------------------------------------------------------------

/// Urgency of a task.
#[derive(Debug, Clone, Copy, PartialEq, Eq, Structural)]
pub enum TaskPriority {
    Low,
    Normal,
    High,
    Urgent,
}

impl TaskPriority {
    /// The lowercase name of the priority.
    pub open spec fn name(self) -> Seq<char> {
        match self {
            TaskPriority::Low => "low"@,
            TaskPriority::Normal => "normal"@,
            TaskPriority::High => "high"@,
            TaskPriority::Urgent => "urgent"@,
        }
    }

    /// The position of the priority in a task queue: urgent first, low last.
    pub open spec fn rank(self) -> int {
        match self {
            TaskPriority::Urgent => 1,
            TaskPriority::High => 2,
            TaskPriority::Normal => 3,
            TaskPriority::Low => 4,
        }
    }

    /// The priority whose name is exactly `s`.
    pub open spec fn from_name(s: Seq<char>) -> Option<TaskPriority> {
        if s == "low"@ {
            Some(TaskPriority::Low)
        } else if s == "normal"@ {
            Some(TaskPriority::Normal)
        } else if s == "high"@ {
            Some(TaskPriority::High)
        } else if s == "urgent"@ {
            Some(TaskPriority::Urgent)
        } else {
            None
        }
    }

    /// The default priority, `Normal`.
    pub fn default_priority() -> (r: Self)
        ensures
            r == TaskPriority::Normal,
    {
        TaskPriority::Normal
    }

    /// The position of the priority in a task queue: urgent first, low last.
    pub fn queue_rank(&self) -> (r: u8)
        ensures
            r == self.rank(),
    {
        match self {
            TaskPriority::Urgent => 1,
            TaskPriority::High => 2,
            TaskPriority::Normal => 3,
            TaskPriority::Low => 4,
        }
    }

    /// The lowercase name of the priority.
    pub fn as_str(&self) -> (r: &'static str)
        ensures
            r@ == self.name(),
    {
        match self {
            TaskPriority::Low => "low",
            TaskPriority::Normal => "normal",
            TaskPriority::High => "high",
            TaskPriority::Urgent => "urgent",
        }
    }

    /// The priority named exactly by `s`.
    pub fn from_lowercase(s: &str) -> (r: Option<Self>)
        ensures
            r == Self::from_name(s@),
    {
        if str_eq(s, "low") {
            Some(TaskPriority::Low)
        } else if str_eq(s, "normal") {
            Some(TaskPriority::Normal)
        } else if str_eq(s, "high") {
            Some(TaskPriority::High)
        } else if str_eq(s, "urgent") {
            Some(TaskPriority::Urgent)
        } else {
            None
        }
    }

    /// Parses a priority, ignoring case.
    pub fn parse(s: &str) -> (r: Result<Self, String>)
        ensures
            r is Ok <==> Self::from_name(lowercase(s@)) is Some,
            r matches Ok(v) ==> Some(v) == Self::from_name(lowercase(s@)),
            r matches Err(e) ==> e@ == "Invalid task priority: "@ + s@,
            forall|v: Self| s@ == v.name() ==> r == Ok::<Self, String>(v),
    {
        let lower = to_lowercase(s);
        proof {
            reveal_strlit("low");
            reveal_strlit("normal");
            reveal_strlit("high");
            reveal_strlit("urgent");
            assert forall|v: Self| s@ == v.name() implies lower@ == s@ by {
                assert(lowercase_word(v.name()));
                lemma_lowercase_word(s@);
            }
            lemma_names_round_trip();
        }
        match Self::from_lowercase(lower.as_str()) {
            Some(v) => Ok(v),
            None => Err(message_with("Invalid task priority: ", s)),
        }
    }
}

// ---------------------------------------------------------------------------
// Component status
// ---------------------------------------------------------------------------

/// Lifecycle of a component.
#[derive(Debug, Clone, Copy, PartialEq, Eq, Structural)]
pub enum ComponentStatus {
    Active,
    Deprecated,
    Planned,
}

impl ComponentStatus {
    /// The lowercase name of the status.
    pub open spec fn name(self) -> Seq<char> {
        match self {
            ComponentStatus::Active => "active"@,
            ComponentStatus::Deprecated => "deprecated"@,
            ComponentStatus::Planned => "planned"@,
        }
    }

    /// The status whose name is exactly `s`.
    pub open spec fn from_name(s: Seq<char>) -> Option<ComponentStatus> {
        if s == "active"@ {
            Some(ComponentStatus::Active)
        } else if s == "deprecated"@ {
            Some(ComponentStatus::Deprecated)
        } else if s == "planned"@ {
            Some(ComponentStatus::Planned)
        } else {
            None
        }
    }

    /// The default status, `Active`.
    pub fn default_status() -> (r: Self)
        ensures
            r == ComponentStatus::Active,
    {
        ComponentStatus::Active
    }

    /// The lowercase name of the status.
    pub fn as_str(&self) -> (r: &'static str)
        ensures
            r@ == self.name(),
    {
        match self {
            ComponentStatus::Active => "active",
            ComponentStatus::Deprecated => "deprecated",
            ComponentStatus::Planned => "planned",
        }
    }

    /// The status named exactly by `s`.
    pub fn from_lowercase(s: &str) -> (r: Option<Self>)
        ensures
            r == Self::from_name(s@),
    {
        if str_eq(s, "active") {
            Some(ComponentStatus::Active)
        } else if str_eq(s, "deprecated") {
            Some(ComponentStatus::Deprecated)
        } else if str_eq(s, "planned") {
            Some(ComponentStatus::Planned)
        } else {
            None
        }
    }

    /// Parses a status, ignoring case.
    pub fn parse(s: &str) -> (r: Result<Self, String>)
        ensures
            r is Ok <==> Self::from_name(lowercase(s@)) is Some,
            r matches Ok(v) ==> Some(v) == Self::from_name(lowercase(s@)),
            r matches Err(e) ==> e@ == "Invalid component status: "@ + s@,
            forall|v: Self| s@ == v.name() ==> r == Ok::<Self, String>(v),
    {
        let lower = to_lowercase(s);
        proof {
            reveal_strlit("active");
            reveal_strlit("deprecated");
            reveal_strlit("planned");
            assert forall|v: Self| s@ == v.name() implies lower@ == s@ by {
                assert(lowercase_word(v.name()));
                lemma_lowercase_word(s@);
            }
            lemma_names_round_trip();
        }
        match Self::from_lowercase(lower.as_str()) {
            Some(v) => Ok(v),
            None => Err(message_with("Invalid component status: ", s)),
        }
    }
}

// ---------------------------------------------------------------------------
// Relation type
// ---------------------------------------------------------------------------

/// Kinds of relation between two entities.
#[derive(Debug, Clone, Copy, PartialEq, Eq, Structural)]
pub enum RelationType {
    /// Task implements this decision
    Implements,
    /// Blocking dependency between tasks
    Blocks,
    /// New decision replaces old one
    Supersedes,
    /// General reference
    References,
    /// Task belongs to a component
    BelongsTo,
    /// Note documents a component
    Documents,
}

impl RelationType {
    /// The snake_case name of the relation type.
    pub open spec fn name(self) -> Seq<char> {
        match self {
            RelationType::Implements => "implements"@,
            RelationType::Blocks => "blocks"@,
            RelationType::Supersedes => "supersedes"@,
            RelationType::References => "references"@,
            RelationType::BelongsTo => "belongs_to"@,
            RelationType::Documents => "documents"@,
        }
    }

    /// The relation type spelled exactly by `s`.
    pub open spec fn from_name(s: Seq<char>) -> Option<RelationType> {
        if s == "implements"@ {
            Some(RelationType::Implements)
        } else if s == "blocks"@ {
            Some(RelationType::Blocks)
        } else if s == "supersedes"@ {
            Some(RelationType::Supersedes)
        } else if s == "references"@ {
            Some(RelationType::References)
        } else if s == "belongs_to"@ || s == "belongsto"@ {
            Some(RelationType::BelongsTo)
        } else if s == "documents"@ {
            Some(RelationType::Documents)
        } else {
            None
        }
    }

    /// The snake_case name of the relation type.
    pub fn as_str(&self) -> (r: &'static str)
        ensures
            r@ == self.name(),
    {
        match self {
            RelationType::Implements => "implements",
            RelationType::Blocks => "blocks",
            RelationType::Supersedes => "supersedes",
            RelationType::References => "references",
            RelationType::BelongsTo => "belongs_to",
            RelationType::Documents => "documents",
        }
    }

    /// The relation type spelled exactly by `s`.
    pub fn from_lowercase(s: &str) -> (r: Option<Self>)
        ensures
            r == Self::from_name(s@),
    {
        if str_eq(s, "implements") {
            Some(RelationType::Implements)
        } else if str_eq(s, "blocks") {
            Some(RelationType::Blocks)
        } else if str_eq(s, "supersedes") {
            Some(RelationType::Supersedes)
        } else if str_eq(s, "references") {
            Some(RelationType::References)
        } else if str_eq(s, "belongs_to") || str_eq(s, "belongsto") {
            Some(RelationType::BelongsTo)
        } else if str_eq(s, "documents") {
            Some(RelationType::Documents)
        } else {
            None
        }
    }

    /// Parses a relation type, ignoring case.
    pub fn parse(s: &str) -> (r: Result<Self, String>)
        ensures
            r is Ok <==> Self::from_name(lowercase(s@)) is Some,
            r matches Ok(v) ==> Some(v) == Self::from_name(lowercase(s@)),
            r matches Err(e) ==> e@ == "Unknown relation type: "@ + s@,
            forall|v: Self| s@ == v.name() ==> r == Ok::<Self, String>(v),
    {
        let lower = to_lowercase(s);
        proof {
            reveal_strlit("implements");
            reveal_strlit("blocks");
            reveal_strlit("supersedes");
            reveal_strlit("references");
            reveal_strlit("belongs_to");
            reveal_strlit("documents");
            assert forall|v: Self| s@ == v.name() implies lower@ == s@ by {
                assert(lowercase_word(v.name()));
                lemma_lowercase_word(s@);
            }
            lemma_names_round_trip();
        }
        match Self::from_lowercase(lower.as_str()) {
            Some(v) => Ok(v),
            None => Err(message_with("Unknown relation type: ", s)),
        }
    }
}

/// Every status, priority and relation type is recognized again from its own name.
pub proof fn lemma_names_round_trip()
    ensures
        forall|x: DecisionStatus| #[trigger] DecisionStatus::from_name(x.name()) == Some(x),
        forall|x: TaskStatus| #[trigger] TaskStatus::from_name(x.name()) == Some(x),
        forall|x: TaskPriority| #[trigger] TaskPriority::from_name(x.name()) == Some(x),
        forall|x: ComponentStatus| #[trigger] ComponentStatus::from_name(x.name()) == Some(x),
        forall|x: RelationType| #[trigger] RelationType::from_name(x.name()) == Some(x),
{
    reveal_strlit("proposed");
    reveal_strlit("accepted");
    reveal_strlit("deprecated");
    reveal_strlit("superseded");
    reveal_strlit("todo");
    reveal_strlit("in_progress");
    reveal_strlit("inprogress");
    reveal_strlit("done");
    reveal_strlit("blocked");
    reveal_strlit("low");
    reveal_strlit("normal");
    reveal_strlit("high");
    reveal_strlit("urgent");
    reveal_strlit("active");
    reveal_strlit("planned");
    reveal_strlit("implements");
    reveal_strlit("blocks");
    reveal_strlit("supersedes");
    reveal_strlit("references");
    reveal_strlit("belongs_to");
    reveal_strlit("belongsto");
    reveal_strlit("documents");
    assert("proposed"@[0] == 'p' && "proposed"@.len() == 8);
    assert("accepted"@[0] == 'a' && "accepted"@.len() == 8);
    assert("deprecated"@[0] == 'd' && "deprecated"@.len() == 10);
    assert("superseded"@[0] == 's' && "superseded"@.len() == 10);
    assert("todo"@[0] == 't' && "todo"@.len() == 4);
    assert("in_progress"@[0] == 'i' && "in_progress"@.len() == 11);
    assert("inprogress"@[0] == 'i' && "inprogress"@.len() == 10);
    assert("done"@[0] == 'd' && "done"@.len() == 4);
    assert("blocked"@[0] == 'b' && "blocked"@.len() == 7);
    assert("low"@[0] == 'l' && "low"@.len() == 3);
    assert("normal"@[0] == 'n' && "normal"@.len() == 6);
    assert("high"@[0] == 'h' && "high"@.len() == 4);
    assert("urgent"@[0] == 'u' && "urgent"@.len() == 6);
    assert("active"@[0] == 'a' && "active"@.len() == 6);
    assert("planned"@[0] == 'p' && "planned"@.len() == 7);
    assert("implements"@[0] == 'i' && "implements"@.len() == 10);
    assert("blocks"@[0] == 'b' && "blocks"@.len() == 6);
    assert("supersedes"@[0] == 's' && "supersedes"@.len() == 10);
    assert("references"@[0] == 'r' && "references"@.len() == 10);
    assert("belongs_to"@[0] == 'b' && "belongs_to"@.len() == 10);
    assert("belongsto"@[0] == 'b' && "belongsto"@.len() == 9);
    assert("documents"@[0] == 'd' && "documents"@.len() == 9);
    assert("in_progress"@[2] == '_' && "inprogress"@[2] == 'p');
    assert("belongs_to"@[7] == '_' && "belongsto"@[7] == 't');
    assert("blocks"@[5] == 's' && "blocked"@[5] == 'e');
    assert forall|x: DecisionStatus| #[trigger] DecisionStatus::from_name(x.name()) == Some(x) by {
        match x {
            DecisionStatus::Proposed => {},
            DecisionStatus::Accepted => {},
            DecisionStatus::Deprecated => {},
            DecisionStatus::Superseded => {},
        }
    }
    assert forall|x: TaskStatus| #[trigger] TaskStatus::from_name(x.name()) == Some(x) by {
        match x {
            TaskStatus::Todo => {},
            TaskStatus::InProgress => {},
            TaskStatus::Done => {},
            TaskStatus::Blocked => {},
        }
    }
    assert forall|x: RelationType| #[trigger] RelationType::from_name(x.name()) == Some(x) by {
        match x {
            RelationType::Implements => {},
            RelationType::Blocks => {},
            RelationType::Supersedes => {},
            RelationType::References => {},
            RelationType::BelongsTo => {},
            RelationType::Documents => {},
        }
    }
}

// ---------------------------------------------------------------------------
// Small string helpers used by the parsers
// ---------------------------------------------------------------------------

/// `s` with every `from` replaced by `to`.
pub open spec fn replace_char_seq(s: Seq<char>, from: char, to: char) -> Seq<char> {
    s.map_values(|c: char| if c == from { to } else { c })
}

/// Replaces every occurrence of one character by another.
pub fn replace_char(s: &str, from: char, to: char) -> (r: String)
    ensures
        r@ == replace_char_seq(s@, from, to),
{
    let v = chars_of(s);
    let mut r = String::new();
    let mut i: usize = 0;
    while i < v.len()
        invariant
            v@ == s@,
            i <= v.len(),
            r@ == replace_char_seq(s@.take(i as int), from, to),
        decreases v.len() - i,
    {
        let c = v[i];
        if c == from {
            push_char(&mut r, to);
        } else {
            push_char(&mut r, c);
        }
        assert(replace_char_seq(s@.take(i + 1), from, to) =~= replace_char_seq(
            s@.take(i as int),
            from,
            to,
        ).push(if c == from { to } else { c }));
        i = i + 1;
    }
    assert(s@.take(v.len() as int) =~= s@);
    r
}

/// `prefix` followed by `s`.
pub fn message_with(prefix: &str, s: &str) -> (r: String)
    ensures
        r@ == prefix@ + s@,
{
    let mut r = String::new();
    push_str(&mut r, prefix);
    push_str(&mut r, s);
    assert(r@ =~= prefix@ + s@);
    r
}

// ---------------------------------------------------------------------------
// Entities
// ---------------------------------------------------------------------------

/// Copies a vector of strings.
pub fn copy_strings(v: &Vec<String>) -> (r: Vec<String>)
    ensures
        r@ == v@,
{
    let mut r: Vec<String> = Vec::new();
    let mut i: usize = 0;
    while i < v.len()
        invariant
            i <= v.len(),
            r@ == v@.take(i as int),
        decreases v.len() - i,
    {
        r.push(v[i].clone());
        assert(r@ =~= v@.take(i + 1));
        i = i + 1;
    }
    assert(v@.take(v.len() as int) =~= v@);
    r
}

/// Copies an optional string.
pub fn copy_opt(v: &Option<String>) -> (r: Option<String>)
    ensures
        r == *v,
{
    match v {
        Some(s) => Some(s.clone()),
        None => None,
    }
}

/// Base fields shared by all entities.
#[derive(Debug, Clone)]
pub struct EntityBase {
    /// The entity's UUID, as a 128-bit number.
    pub id: u128,
    pub title: String,
    pub content: Option<String>,
    pub tags: Vec<String>,
    pub created_at: Timestamp,
    pub updated_at: Timestamp,
    pub created_by: Option<String>,
    pub sequence_number: u32,
}

impl EntityBase {
    /// A fresh base with the given identity and creation time.
    pub fn with_identity(title: String, sequence_number: u32, id: u128, now: Timestamp) -> (r: Self)
        ensures
            r.id == id,
            r.title == title,
            r.content is None,
            r.tags@.len() == 0,
            r.created_at == now,
            r.updated_at == now,
            r.created_by is None,
            r.sequence_number == sequence_number,
    {
        EntityBase {
            id,
            title,
            content: None,
            tags: Vec::new(),
            created_at: now,
            updated_at: now,
            created_by: None,
            sequence_number,
        }
    }

    /// A fresh base with a random version-4 UUID, stamped with the current time.
    pub fn new(title: String, sequence_number: u32) -> (r: Self)
        ensures
            is_v4(r.id),
            r.title == title,
            r.content is None,
            r.tags@.len() == 0,
            r.created_at == r.updated_at,
            r.created_by is None,
            r.sequence_number == sequence_number,
    {
        let id = new_random_uuid();
        let now = now_utc();
        Self::with_identity(title, sequence_number, id, now)
    }

    /// Equal fields, with tags compared by their contents.
    pub open spec fn same_as(self, other: Self) -> bool {
        &&& self.id == other.id
        &&& self.title@ == other.title@
        &&& self.content == other.content
        &&& self.tags@ == other.tags@
        &&& self.created_at == other.created_at
        &&& self.updated_at == other.updated_at
        &&& self.created_by == other.created_by
        &&& self.sequence_number == other.sequence_number
    }

    /// A field-by-field copy.
    pub fn duplicate(&self) -> (r: Self)
        ensures
            r.same_as(*self),
    {
        EntityBase {
            id: self.id,
            title: self.title.clone(),
            content: copy_opt(&self.content),
            tags: copy_strings(&self.tags),
            created_at: self.created_at,
            updated_at: self.updated_at,
            created_by: copy_opt(&self.created_by),
            sequence_number: self.sequence_number,
        }
    }
}

/// An architecture decision record.
#[derive(Debug, Clone)]
pub struct Decision {
    pub base: EntityBase,
    pub status: DecisionStatus,
    pub context: Option<String>,
    pub consequences: Vec<String>,
    pub superseded_by: Option<String>,
}

impl Decision {
    /// A proposed decision with no context, consequences or successor.
    pub fn from_base(base: EntityBase) -> (r: Self)
        ensures
            r.base == base,
            r.status == DecisionStatus::Proposed,
            r.context is None,
            r.consequences@.len() == 0,
            r.superseded_by is None,
    {
        Decision {
            base,
            status: DecisionStatus::default_status(),
            context: None,
            consequences: Vec::new(),
            superseded_by: None,
        }
    }

    /// A new proposed decision with a fresh identity.
    pub fn new(title: String, sequence_number: u32) -> (r: Self)
        ensures
            r.base.title == title,
            is_v4(r.base.id),
            r.base.sequence_number == sequence_number,
            r.base.content is None,
            r.base.tags@.len() == 0,
            r.base.created_at == r.base.updated_at,
            r.status == DecisionStatus::Proposed,
            r.context is None,
            r.consequences@.len() == 0,
            r.superseded_by is None,
    {
        Self::from_base(EntityBase::new(title, sequence_number))
    }
}

/// A unit of work.
#[derive(Debug, Clone)]
pub struct Task {
    pub base: EntityBase,
    pub status: TaskStatus,
    pub priority: TaskPriority,
    pub due_date: Option<CalendarDate>,
    pub assignee: Option<String>,
}

impl Task {
    /// A todo task of normal priority with no due date or assignee.
    pub fn from_base(base: EntityBase) -> (r: Self)
        ensures
            r.base == base,
            r.status == TaskStatus::Todo,
            r.priority == TaskPriority::Normal,
            r.due_date is None,
            r.assignee is None,
    {
        Task {
            base,
            status: TaskStatus::default_status(),
            priority: TaskPriority::default_priority(),
            due_date: None,
            assignee: None,
        }
    }

    /// A new todo task with a fresh identity.
    pub fn new(title: String, sequence_number: u32) -> (r: Self)
        ensures
            r.base.title == title,
            is_v4(r.base.id),
            r.base.sequence_number == sequence_number,
            r.base.content is None,
            r.base.tags@.len() == 0,
            r.base.created_at == r.base.updated_at,
            r.status == TaskStatus::Todo,
            r.priority == TaskPriority::Normal,
            r.due_date is None,
            r.assignee is None,
    {
        Self::from_base(EntityBase::new(title, sequence_number))
    }

    /// Equal fields, with tags compared by their contents.
    pub open spec fn same_as(self, other: Self) -> bool {
        &&& self.base.same_as(other.base)
        &&& self.status == other.status
        &&& self.priority == other.priority
        &&& self.due_date == other.due_date
        &&& self.assignee == other.assignee
    }

    /// A field-by-field copy.
    pub fn duplicate(&self) -> (r: Self)
        ensures
            r.same_as(*self),
    {
        Task {
            base: self.base.duplicate(),
            status: self.status,
            priority: self.priority,
            due_date: self.due_date,
            assignee: copy_opt(&self.assignee),
        }
    }
}

/// A free-form note.
#[derive(Debug, Clone)]
pub struct Note {
    pub base: EntityBase,
    pub note_type: Option<String>,
}

impl Note {
    /// A note with no type.
    pub fn from_base(base: EntityBase) -> (r: Self)
        ensures
            r.base == base,
            r.note_type is None,
    {
        Note { base, note_type: None }
    }

    /// A new note with a fresh identity.
    pub fn new(title: String, sequence_number: u32) -> (r: Self)
        ensures
            r.base.title == title,
            is_v4(r.base.id),
            r.base.sequence_number == sequence_number,
            r.base.content is None,
            r.base.tags@.len() == 0,
            r.base.created_at == r.base.updated_at,
            r.note_type is None,
    {
        Self::from_base(EntityBase::new(title, sequence_number))
    }
}

/// A reusable prompt template.
#[derive(Debug, Clone)]
pub struct Prompt {
    pub base: EntityBase,
    /// The prompt template text (may include {{variable}} placeholders)
    pub template: Option<String>,
    /// Variable names expected by this prompt
    pub variables: Vec<String>,
    /// Optional JSON schema for expected output
    pub output_schema: Option<String>,
}

impl Prompt {
    /// A prompt with no template, variables or schema.
    pub fn from_base(base: EntityBase) -> (r: Self)
        ensures
            r.base == base,
            r.template is None,
            r.variables@.len() == 0,
            r.output_schema is None,
    {
        Prompt { base, template: None, variables: Vec::new(), output_schema: None }
    }

    /// A new prompt with a fresh identity.
    pub fn new(title: String, sequence_number: u32) -> (r: Self)
        ensures
            r.base.title == title,
            is_v4(r.base.id),
            r.base.sequence_number == sequence_number,
            r.base.content is None,
            r.base.tags@.len() == 0,
            r.base.created_at == r.base.updated_at,
            r.template is None,
            r.variables@.len() == 0,
            r.output_schema is None,
    {
        Self::from_base(EntityBase::new(title, sequence_number))
    }
}

/// A part of the system.
#[derive(Debug, Clone)]
pub struct Component {
    pub base: EntityBase,
    pub component_type: Option<String>,
    pub status: ComponentStatus,
    pub owner: Option<String>,
}

impl Component {
    /// An active component with no type or owner.
    pub fn from_base(base: EntityBase) -> (r: Self)
        ensures
            r.base == base,
            r.component_type is None,
            r.status == ComponentStatus::Active,
            r.owner is None,
    {
        Component {
            base,
            component_type: None,
            status: ComponentStatus::default_status(),
            owner: None,
        }
    }

    /// A new component with a fresh identity.
    pub fn new(title: String, sequence_number: u32) -> (r: Self)
        ensures
            r.base.title == title,
            is_v4(r.base.id),
            r.base.sequence_number == sequence_number,
            r.base.content is None,
            r.base.tags@.len() == 0,
            r.base.created_at == r.base.updated_at,
            r.component_type is None,
            r.status == ComponentStatus::Active,
            r.owner is None,
    {
        Self::from_base(EntityBase::new(title, sequence_number))
    }
}

/// An external link.
#[derive(Debug, Clone)]
pub struct Link {
    pub base: EntityBase,
    /// The URL this link points to
    pub url: String,
    /// Type of link (e.g., "documentation", "issue", "pr", "reference")
    pub link_type: Option<String>,
}

impl Link {
    /// A link with no type.
    pub fn from_base(base: EntityBase, url: String) -> (r: Self)
        ensures
            r.base == base,
            r.url == url,
            r.link_type is None,
    {
        Link { base, url, link_type: None }
    }

    /// A new link with a fresh identity.
    pub fn new(title: String, url: String, sequence_number: u32) -> (r: Self)
        ensures
            r.base.title == title,
            is_v4(r.base.id),
            r.base.sequence_number == sequence_number,
            r.base.content is None,
            r.base.tags@.len() == 0,
            r.base.created_at == r.base.updated_at,
            r.url == url,
            r.link_type is None,
    {
        Self::from_base(EntityBase::new(title, sequence_number), url)
    }
}

/// A relation between two entities.
#[derive(Debug, Clone)]
pub struct Relation {
    /// Source entity UUID
    pub source_id: u128,
    /// Source entity type (denormalized for query filtering)
    pub source_type: String,
    /// Target entity UUID
    pub target_id: u128,
    /// Target entity type (denormalized for query filtering)
    pub target_type: String,
    /// Type of relation
    pub relation_type: RelationType,
    /// When the relation was created
    pub created_at: Timestamp,
    /// Who created the relation
    pub created_by: Option<String>,
    /// Additional properties (optional metadata), as key/value pairs
    pub properties: Vec<(String, String)>,
}

/// The text `"{source}:{type}:{target}"` that identifies a relation.
pub open spec fn composite_key_text(source: u128, rt: RelationType, target: u128) -> Seq<char> {
    uuid_text(source) + ":"@ + rt.name() + ":"@ + uuid_text(target)
}

impl Relation {
    /// A relation with the given creation time and no creator or properties.
    pub fn with_time(
        source_id: u128,
        source_type: String,
        target_id: u128,
        target_type: String,
        relation_type: RelationType,
        now: Timestamp,
    ) -> (r: Self)
        ensures
            r.source_id == source_id,
            r.source_type == source_type,
            r.target_id == target_id,
            r.target_type == target_type,
            r.relation_type == relation_type,
            r.created_at == now,
            r.created_by is None,
            r.properties@.len() == 0,
    {
        Relation {
            source_id,
            source_type,
            target_id,
            target_type,
            relation_type,
            created_at: now,
            created_by: None,
            properties: Vec::new(),
        }
    }

    /// A new relation stamped with the current time.
    pub fn new(
        source_id: u128,
        source_type: String,
        target_id: u128,
        target_type: String,
        relation_type: RelationType,
    ) -> (r: Self)
        ensures
            r.source_id == source_id,
            r.source_type == source_type,
            r.target_id == target_id,
            r.target_type == target_type,
            r.relation_type == relation_type,
            r.created_by is None,
            r.properties@.len() == 0,
    {
        let now = now_utc();
        Self::with_time(source_id, source_type, target_id, target_type, relation_type, now)
    }

    /// The composite key `"{source}:{type}:{target}"` of this relation.
    pub fn composite_key(&self) -> (r: String)
        ensures
            r@ == composite_key_text(self.source_id, self.relation_type, self.target_id),
    {
        composite_key_of(self.source_id, self.relation_type, self.target_id)
    }
}

/// The composite key `"{source}:{type}:{target}"` of a relation.
pub fn composite_key_of(source: u128, rt: RelationType, target: u128) -> (r: String)
    ensures
        r@ == composite_key_text(source, rt, target),
{
    let mut r = uuid_string(source);
    push_str(&mut r, ":");
    push_str(&mut r, rt.as_str());
    push_str(&mut r, ":");
    let t = uuid_string(target);
    push_str(&mut r, t.as_str());
    assert(r@ =~= composite_key_text(source, rt, target));
    r
}

} // verus!
