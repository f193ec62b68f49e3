//! The task queue: which tasks are ready to work on, which are blocked and by
//! whom, and in what order they are offered.
use vstd::prelude::*;
use vstd::string::StringExecFns;
use crate::clock::{date_text, lemma_uuid_text_injective, uuid_text, uuid_string, CalendarDate};
use crate::entity::{copy_opt, RelationType, Relation, Task, TaskPriority, TaskStatus};
use crate::text::str_eq;

verus! {

// ---------------------------------------------------------------------------
// Selecting the smallest keys
// ---------------------------------------------------------------------------

/// A position in the queue; keys are compared field by field, in order.
#[derive(Debug, Clone, Copy, PartialEq, Eq, Structural)]
pub struct QueueKey {
    pub rank: u8,
    pub undated: u8,
    pub year: i32,
    pub month: u32,
    pub day: u32,
    pub seq: u32,
}

/// Lexicographic order on queue keys.
pub open spec fn key_le(a: QueueKey, b: QueueKey) -> bool {
    if a.rank != b.rank {
        a.rank < b.rank
    } else if a.undated != b.undated {
        a.undated < b.undated
    } else if a.year != b.year {
        a.year < b.year
    } else if a.month != b.month {
        a.month < b.month
    } else if a.day != b.day {
        a.day < b.day
    } else {
        a.seq <= b.seq
    }
}

/// The order on keys is total and transitive.
pub proof fn lemma_key_order(a: QueueKey, b: QueueKey, c: QueueKey)
    ensures
        key_le(a, b) || key_le(b, a),
        key_le(a, b) && key_le(b, c) ==> key_le(a, c),
        key_le(a, a),
{
}

fn key_leq(a: &QueueKey, b: &QueueKey) -> (r: bool)
    ensures
        r == key_le(*a, *b),
{
    if a.rank != b.rank {
        a.rank < b.rank
    } else if a.undated != b.undated {
        a.undated < b.undated
    } else if a.year != b.year {
        a.year < b.year
    } else if a.month != b.month {
        a.month < b.month
    } else if a.day != b.day {
        a.day < b.day
    } else {
        a.seq <= b.seq
    }
}

/// Position `a` comes before position `b` in the queue: its key is smaller, or the
/// keys are equal and `a` comes first.
pub open spec fn ranks_before(keys: Seq<QueueKey>, a: int, b: int) -> bool {
    key_le(keys[a], keys[b]) && (key_le(keys[b], keys[a]) ==> a < b)
}

/// `r` lists, without repetition and in queue order (see `ranks_before`), the
/// `limit` first eligible positions of `keys` (all of them when there are fewer).
pub open spec fn is_top(keys: Seq<QueueKey>, eligible: Seq<bool>, limit: nat, r: Seq<usize>) -> bool {
    &&& r.len() <= limit
    &&& forall|i: int| 0 <= i < r.len() ==> #[trigger] r[i] < keys.len() && eligible[r[i] as int]
    &&& forall|i: int, j: int| 0 <= i < j < r.len() ==> r[i] != r[j]
    &&& forall|i: int, j: int| 0 <= i < j < r.len() ==> ranks_before(keys, r[i] as int, r[j] as int)
    &&& forall|i: int, k: int|
        0 <= i < r.len() && 0 <= k < keys.len() && eligible[k] && !r.contains(k as usize)
            ==> ranks_before(keys, r[i] as int, k)
    &&& r.len() < limit ==> forall|k: int|
        0 <= k < keys.len() && #[trigger] eligible[k] ==> r.contains(k as usize)
}

/// The positions of the `limit` smallest eligible keys, in key order.
pub fn select_smallest(keys: &Vec<QueueKey>, eligible: &Vec<bool>, limit: usize) -> (r: Vec<usize>)
    requires
        eligible.len() == keys.len(),
    ensures
        is_top(keys@, eligible@, limit as nat, r@),
{
    let n = keys.len();
    let mut taken: Vec<bool> = Vec::new();
    let mut t: usize = 0;
    while t < n
        invariant
            t <= n,
            taken@.len() == t,
            forall|k: int| 0 <= k < t ==> !taken@[k],
        decreases n - t,
    {
        taken.push(false);
        t = t + 1;
    }
    let mut r: Vec<usize> = Vec::new();
    while r.len() < limit
        invariant
            n == keys.len(),
            eligible.len() == n,
            taken@.len() == n,
            r.len() <= limit,
            forall|k: int| 0 <= k < n ==> (#[trigger] taken@[k] <==> r@.contains(k as usize)),
            forall|i: int| 0 <= i < r.len() ==> #[trigger] r@[i] < n && eligible@[r@[i] as int],
            forall|i: int, j: int| 0 <= i < j < r.len() ==> r@[i] != r@[j],
            forall|i: int, j: int|
                0 <= i < j < r.len() ==> ranks_before(keys@, r@[i] as int, r@[j] as int),
            forall|i: int, k: int|
                0 <= i < r.len() && 0 <= k < n && eligible@[k] && !r@.contains(k as usize)
                    ==> ranks_before(keys@, r@[i] as int, k),
        decreases limit - r.len(),
    {
        let mut best: Option<usize> = None;
        let mut k: usize = 0;
        while k < n
            invariant
                n == keys.len(),
                eligible.len() == n,
                taken@.len() == n,
                k <= n,
                best matches Some(b) ==> b < k && eligible@[b as int] && !taken@[b as int],
                best matches Some(b) ==> forall|x: int|
                    0 <= x < k && eligible@[x] && !taken@[x] && x != b ==> ranks_before(keys@, b as int, x),
                best is None ==> forall|x: int| 0 <= x < k ==> !(eligible@[x] && !taken@[x]),
            decreases n - k,
        {
            if eligible[k] && !taken[k] {
                match best {
                    None => {
                        best = Some(k);
                    },
                    Some(b) => {
                        if !key_leq(&keys[b], &keys[k]) {
                            proof {
                                lemma_key_order(keys@[k as int], keys@[b as int], keys@[k as int]);
                                assert forall|x: int|
                                    0 <= x < k + 1 && eligible@[x] && !taken@[x] && x != k implies ranks_before(
                                    keys@,
                                    k as int,
                                    x,
                                ) by {
                                    lemma_key_order(keys@[k as int], keys@[b as int], keys@[x]);
                                    lemma_key_order(keys@[b as int], keys@[x], keys@[k as int]);
                                }
                            }
                            best = Some(k);
                        } else {
                            proof {
                                assert(ranks_before(keys@, b as int, k as int));
                            }
                        }
                    },
                }
            }
            k = k + 1;
        }
        match best {
            None => {
                assert forall|x: int| 0 <= x < n && #[trigger] eligible@[x] implies r@.contains(
                    x as usize,
                ) by {
                    assert(taken@[x]);
                }
                return r;
            },
            Some(b) => {
                let ghost old_r = r@;
                let ghost old_taken = taken@;
                r.push(b);
                taken.set(b, true);
                proof {
                    assert(eligible@[b as int]);
                    assert forall|i: int| 0 <= i < r.len() implies #[trigger] r@[i] < n && eligible@[
                        r@[i] as int] by {
                        if i < r.len() - 1 {
                            assert(r@[i] == old_r[i]);
                        }
                    }
                    assert forall|x: int| 0 <= x < n implies (#[trigger] taken@[x] <==> r@.contains(
                        x as usize,
                    )) by {
                        if x == b {
                            assert(r@[r@.len() - 1] == b);
                        } else {
                            if r@.contains(x as usize) {
                                let w = choose|w: int| 0 <= w < r@.len() && r@[w] == x as usize;
                                assert(w < old_r.len());
                                assert(old_r.contains(x as usize));
                            }
                            if old_r.contains(x as usize) {
                                let w = choose|w: int| 0 <= w < old_r.len() && old_r[w] == x as usize;
                                assert(r@[w] == x as usize);
                            }
                        }
                    }
                    assert forall|i: int, j: int| 0 <= i < j < r.len() implies r@[i] != r@[j] by {
                        if j == r.len() - 1 {
                            assert(old_r.contains(r@[i]));
                        }
                    }
                    assert forall|i: int, j: int|
                        0 <= i < j < r.len() implies ranks_before(keys@, r@[i] as int, r@[j] as int) by {
                        if j == r.len() - 1 {
                            assert(!old_taken[b as int]);
                            assert(!old_r.contains(b));
                        } else {
                            assert(r@[i] == old_r[i] && r@[j] == old_r[j]);
                        }
                    }
                    assert forall|i: int, k: int|
                        0 <= i < r.len() && 0 <= k < n && eligible@[k] && !r@.contains(k as usize)
                            implies ranks_before(keys@, r@[i] as int, k) by {
                        assert(!old_r.contains(k as usize)) by {
                            if old_r.contains(k as usize) {
                                let w = choose|w: int| 0 <= w < old_r.len() && old_r[w] == k as usize;
                                assert(r@[w] == k as usize);
                            }
                        }
                        if i == r.len() - 1 {
                            assert(!taken@[k]);
                            assert(k != b);
                            assert(!old_taken[k]);
                        } else {
                            assert(r@[i] == old_r[i]);
                        }
                    }
                }
            },
        }
    }
    r
}

// ---------------------------------------------------------------------------
// Readiness
// ---------------------------------------------------------------------------

/// Relation `rel` says that a task of `tasks` which is not done blocks the entity `target`.
pub open spec fn open_block(tasks: Seq<Task>, rel: Relation, target: u128) -> bool {
    &&& rel.relation_type == RelationType::Blocks
    &&& rel.target_id == target
    &&& exists|k: int|
        0 <= k < tasks.len() && #[trigger] tasks[k].base.id == rel.source_id && tasks[k].status
            != TaskStatus::Done
}

/// Some task that is not done blocks the entity `target`.
pub open spec fn is_blocked(tasks: Seq<Task>, rels: Seq<Relation>, target: u128) -> bool {
    exists|j: int| 0 <= j < rels.len() && open_block(tasks, #[trigger] rels[j], target)
}

/// A task is ready when it is not done and no task that is not done blocks it.
pub open spec fn is_ready(tasks: Seq<Task>, rels: Seq<Relation>, t: Task) -> bool {
    t.status != TaskStatus::Done && !is_blocked(tasks, rels, t.base.id)
}

/// A task is waiting when it is not done and some task that is not done blocks it.
pub open spec fn is_waiting(tasks: Seq<Task>, rels: Seq<Relation>, t: Task) -> bool {
    t.status != TaskStatus::Done && is_blocked(tasks, rels, t.base.id)
}

/// Every task that is not done is either ready or waiting, never both.
pub proof fn lemma_ready_waiting_partition(tasks: Seq<Task>, rels: Seq<Relation>, t: Task)
    ensures
        t.status != TaskStatus::Done ==> (is_ready(tasks, rels, t) <==> !is_waiting(tasks, rels, t)),
        t.status == TaskStatus::Done ==> !is_ready(tasks, rels, t) && !is_waiting(tasks, rels, t),
{
}

/// No two tasks share a UUID.
pub open spec fn task_ids_unique(tasks: Seq<Task>) -> bool {
    forall|a: int, b: int| 0 <= a < b < tasks.len() ==> (#[trigger] tasks[a]).base.id != (#[trigger] tasks[b]).base.id
}

/// Completing the last open blocker of an entity unblocks it: when every open
/// `blocks` relation on `target` comes from the task at `i`, then once that task
/// is done (the same task, with status done) nothing blocks `target` any more,
/// and a task at another position that is not done is ready.
pub proof fn lemma_completing_last_blocker(
    tasks: Seq<Task>,
    rels: Seq<Relation>,
    i: int,
    done: Task,
    target: u128,
    m: int,
)
    requires
        0 <= i < tasks.len(),
        task_ids_unique(tasks),
        done.base.id == tasks[i].base.id,
        done.status == TaskStatus::Done,
        forall|j: int| 0 <= j < rels.len() && open_block(tasks, #[trigger] rels[j], target)
            ==> rels[j].source_id == tasks[i].base.id,
    ensures
        !is_blocked(tasks.update(i, done), rels, target),
        0 <= m < tasks.len() && m != i && tasks[m].base.id == target && tasks[m].status != TaskStatus::Done
            ==> is_ready(tasks.update(i, done), rels, tasks.update(i, done)[m]),
{
    let after = tasks.update(i, done);
    assert forall|j: int| 0 <= j < rels.len() implies !open_block(after, #[trigger] rels[j], target) by {
        if open_block(after, rels[j], target) {
            let k = choose|k: int| 0 <= k < after.len() && #[trigger] after[k].base.id == rels[j].source_id
                && after[k].status != TaskStatus::Done;
            assert(k != i);
            assert(after[k] == tasks[k]);
            assert(open_block(tasks, rels[j], target));
            assert(tasks[k].base.id == tasks[i].base.id);
            if k < i {
                assert(tasks[k].base.id != tasks[i].base.id);
            } else {
                assert(tasks[i].base.id != tasks[k].base.id);
            }
        }
    }
}

/// How many positions below `n` satisfy `p`.
pub open spec fn count_below(p: spec_fn(int) -> bool, n: int) -> nat
    decreases n,
{
    if n <= 0 {
        0
    } else {
        count_below(p, n - 1) + if p(n - 1) { 1nat } else { 0nat }
    }
}

/// How many tasks are not done.
pub open spec fn open_count(tasks: Seq<Task>) -> nat {
    count_below(|x: int| tasks[x].status != TaskStatus::Done, tasks.len() as int)
}

proof fn lemma_count_mono(p: spec_fn(int) -> bool, q: spec_fn(int) -> bool, n: int)
    requires
        forall|x: int| 0 <= x < n && #[trigger] p(x) ==> q(x),
    ensures
        count_below(p, n) <= count_below(q, n),
    decreases n,
{
    if n > 0 {
        lemma_count_mono(p, q, n - 1);
    }
}

/// `r` lists distinct positions below `n`, each satisfying `p`.
spec fn distinct_within(r: Seq<usize>, p: spec_fn(int) -> bool, n: int) -> bool {
    &&& forall|i: int, j: int| 0 <= i < j < r.len() ==> r[i] != r[j]
    &&& forall|j: int| 0 <= j < r.len() ==> (#[trigger] r[j] as int) < n && p(r[j] as int)
}

proof fn lemma_remove_within(r: Seq<usize>, p: spec_fn(int) -> bool, n: int, i: int)
    requires
        distinct_within(r, p, n),
        0 <= i < r.len(),
        r[i] as int == n - 1,
    ensures
        distinct_within(r.remove(i), p, n - 1),
        r.remove(i).len() == r.len() - 1,
        forall|j: int| 0 <= j < r.len() - 1 ==> #[trigger] r.remove(i)[j] == r[if j < i { j } else { j + 1 }],
{
    let r2 = r.remove(i);
    assert forall|j: int| 0 <= j < r2.len() implies (#[trigger] r2[j] as int) < n - 1 && p(r2[j] as int) by {
        if j < i {
            assert(r2[j] == r[j]);
            assert(r[j] != r[i]);
        } else {
            assert(r2[j] == r[j + 1]);
            assert(r[i] != r[j + 1]);
        }
    }
    assert forall|a: int, b: int| 0 <= a < b < r2.len() implies r2[a] != r2[b] by {
        let a2 = if a < i { a } else { a + 1 };
        let b2 = if b < i { b } else { b + 1 };
        assert(r2[a] == r[a2] && r2[b] == r[b2]);
    }
}

proof fn lemma_distinct_count(r: Seq<usize>, p: spec_fn(int) -> bool, n: int)
    requires
        distinct_within(r, p, n),
    ensures
        r.len() <= count_below(p, n),
    decreases n,
{
    if n <= 0 {
        if r.len() > 0 {
            assert((r[0] as int) < n);
        }
    } else if exists|i: int| 0 <= i < r.len() && r[i] as int == n - 1 {
        let i = choose|i: int| 0 <= i < r.len() && r[i] as int == n - 1;
        lemma_remove_within(r, p, n, i);
        lemma_distinct_count(r.remove(i), p, n - 1);
        assert(p(r[i] as int));
    } else {
        assert forall|j: int| 0 <= j < r.len() implies (#[trigger] r[j] as int) < n - 1 && p(r[j] as int) by {
            assert(r[j] as int != n - 1);
        }
        lemma_distinct_count(r, p, n - 1);
    }
}

proof fn lemma_distinct_count_missing(r: Seq<usize>, p: spec_fn(int) -> bool, n: int, k: int)
    requires
        distinct_within(r, p, n),
        0 <= k < n,
        p(k),
        forall|j: int| 0 <= j < r.len() ==> r[j] as int != k,
    ensures
        r.len() < count_below(p, n),
    decreases n,
{
    if k == n - 1 {
        assert forall|j: int| 0 <= j < r.len() implies (#[trigger] r[j] as int) < n - 1 && p(r[j] as int) by {
            assert(r[j] as int != k);
        }
        lemma_distinct_count(r, p, n - 1);
    } else if exists|i: int| 0 <= i < r.len() && r[i] as int == n - 1 {
        let i = choose|i: int| 0 <= i < r.len() && r[i] as int == n - 1;
        lemma_remove_within(r, p, n, i);
        let r2 = r.remove(i);
        assert forall|j: int| 0 <= j < r2.len() implies r2[j] as int != k by {
            assert(r2[j] == r[if j < i { j } else { j + 1 }]);
        }
        lemma_distinct_count_missing(r2, p, n - 1, k);
        assert(p(r[i] as int));
    } else {
        assert forall|j: int| 0 <= j < r.len() implies (#[trigger] r[j] as int) < n - 1 && p(r[j] as int) by {
            assert(r[j] as int != n - 1);
        }
        lemma_distinct_count_missing(r, p, n - 1, k);
    }
}

/// The ready list and the blocked list together: no task is on both, and when
/// neither limit is below the number of tasks that are not done, every task that
/// is not done is on one of them.
pub proof fn lemma_ready_and_blocked_lists(
    tasks: Seq<Task>,
    rels: Seq<Relation>,
    ready_limit: nat,
    ready: Seq<usize>,
    blocked_limit: nat,
    blocked: Seq<usize>,
)
    requires
        tasks.len() <= usize::MAX,
        is_top(
            tasks.map_values(|t: Task| ready_key(t)),
            tasks.map_values(|t: Task| is_ready(tasks, rels, t)),
            ready_limit,
            ready,
        ),
        is_top(
            tasks.map_values(|t: Task| waiting_key(t)),
            tasks.map_values(|t: Task| is_waiting(tasks, rels, t)),
            blocked_limit,
            blocked,
        ),
    ensures
        forall|i: int, j: int| 0 <= i < ready.len() && 0 <= j < blocked.len() ==> ready[i] != blocked[j],
        open_count(tasks) <= ready_limit && open_count(tasks) <= blocked_limit ==> forall|k: int|
            0 <= k < tasks.len() && tasks[k].status != TaskStatus::Done
                ==> ready.contains(k as usize) || blocked.contains(k as usize),
{
    let n = tasks.len() as int;
    let er = tasks.map_values(|t: Task| is_ready(tasks, rels, t));
    let ew = tasks.map_values(|t: Task| is_waiting(tasks, rels, t));
    let open = |x: int| tasks[x].status != TaskStatus::Done;
    let pr = |x: int| er[x];
    let pw = |x: int| ew[x];
    assert forall|i: int, j: int| 0 <= i < ready.len() && 0 <= j < blocked.len() implies ready[i] != blocked[j] by {
        let a = ready[i] as int;
        let b = blocked[j] as int;
        assert(er[a] && ew[b]);
        if a == b {
            lemma_ready_waiting_partition(tasks, rels, tasks[a]);
        }
    }
    if open_count(tasks) <= ready_limit && open_count(tasks) <= blocked_limit {
        assert(distinct_within(ready, pr, n));
        assert(distinct_within(blocked, pw, n));
        assert forall|x: int| 0 <= x < n && #[trigger] pr(x) implies open(x) by {}
        assert forall|x: int| 0 <= x < n && #[trigger] pw(x) implies open(x) by {}
        lemma_count_mono(pr, open, n);
        lemma_count_mono(pw, open, n);
        assert forall|k: int| 0 <= k < tasks.len() && tasks[k].status != TaskStatus::Done
            implies ready.contains(k as usize) || blocked.contains(k as usize) by {
            lemma_ready_waiting_partition(tasks, rels, tasks[k]);
            if er[k] && !ready.contains(k as usize) {
                assert forall|j: int| 0 <= j < ready.len() implies ready[j] as int != k by {
                    if ready[j] as int == k {
                        assert(ready[j] == k as usize);
                    }
                }
                lemma_distinct_count_missing(ready, pr, n, k);
            }
            if ew[k] && !blocked.contains(k as usize) {
                assert forall|j: int| 0 <= j < blocked.len() implies blocked[j] as int != k by {
                    if blocked[j] as int == k {
                        assert(blocked[j] == k as usize);
                    }
                }
                lemma_distinct_count_missing(blocked, pw, n, k);
            }
        }
    }
}

fn has_open_task(tasks: &Vec<Task>, id: u128) -> (r: bool)
    ensures
        r == exists|k: int|
            0 <= k < tasks@.len() && #[trigger] tasks@[k].base.id == id && tasks@[k].status
                != TaskStatus::Done,
{
    let mut k: usize = 0;
    while k < tasks.len()
        invariant
            k <= tasks.len(),
            forall|x: int|
                0 <= x < k ==> !(#[trigger] tasks@[x].base.id == id && tasks@[x].status
                    != TaskStatus::Done),
        decreases tasks.len() - k,
    {
        if tasks[k].base.id == id && tasks[k].status != TaskStatus::Done {
            return true;
        }
        k = k + 1;
    }
    false
}

fn blocks_open(tasks: &Vec<Task>, rel: &Relation, target: u128) -> (r: bool)
    ensures
        r == open_block(tasks@, *rel, target),
{
    rel.relation_type == RelationType::Blocks && rel.target_id == target && has_open_task(
        tasks,
        rel.source_id,
    )
}

/// Whether some task that is not done blocks the entity `target`.
pub fn blocked(tasks: &Vec<Task>, rels: &Vec<Relation>, target: u128) -> (r: bool)
    ensures
        r == is_blocked(tasks@, rels@, target),
{
    let mut j: usize = 0;
    while j < rels.len()
        invariant
            j <= rels.len(),
            forall|x: int| 0 <= x < j ==> !open_block(tasks@, #[trigger] rels@[x], target),
        decreases rels.len() - j,
    {
        if blocks_open(tasks, &rels[j], target) {
            return true;
        }
        j = j + 1;
    }
    false
}

/// The queue position of a ready task: priority, then due date (undated last),
/// then sequence number.
pub open spec fn ready_key(t: Task) -> QueueKey {
    match t.due_date {
        Some(d) => QueueKey {
            rank: t.priority.rank() as u8,
            undated: 0,
            year: d.year,
            month: d.month,
            day: d.day,
            seq: t.base.sequence_number,
        },
        None => QueueKey {
            rank: t.priority.rank() as u8,
            undated: 1,
            year: 0,
            month: 0,
            day: 0,
            seq: t.base.sequence_number,
        },
    }
}

/// The queue position of a blocked task: priority, then sequence number.
pub open spec fn waiting_key(t: Task) -> QueueKey {
    QueueKey {
        rank: t.priority.rank() as u8,
        undated: 0,
        year: 0,
        month: 0,
        day: 0,
        seq: t.base.sequence_number,
    }
}

fn ready_key_of(t: &Task) -> (r: QueueKey)
    ensures
        r == ready_key(*t),
{
    match t.due_date {
        Some(d) => QueueKey {
            rank: t.priority.queue_rank(),
            undated: 0,
            year: d.year,
            month: d.month,
            day: d.day,
            seq: t.base.sequence_number,
        },
        None => QueueKey {
            rank: t.priority.queue_rank(),
            undated: 1,
            year: 0,
            month: 0,
            day: 0,
            seq: t.base.sequence_number,
        },
    }
}

/// The effective number of results for a requested limit: 50 by default, at most 100.
pub open spec fn effective_limit(limit: Option<u32>) -> nat {
    let l: nat = match limit {
        Some(l) => l as nat,
        None => 50,
    };
    if l > 100 {
        100
    } else {
        l
    }
}

fn limit_of(limit: Option<u32>) -> (r: usize)
    ensures
        r == effective_limit(limit),
{
    let l: u32 = match limit {
        Some(l) => l,
        None => 50,
    };
    if l > 100 {
        100
    } else {
        l as usize
    }
}

/// The ready tasks, as positions in `tasks`, in queue order: the `limit` first
/// (50 by default, at most 100).
pub fn ready_task_order(tasks: &Vec<Task>, rels: &Vec<Relation>, limit: Option<u32>) -> (r: Vec<usize>)
    ensures
        is_top(
            tasks@.map_values(|t: Task| ready_key(t)),
            tasks@.map_values(|t: Task| is_ready(tasks@, rels@, t)),
            effective_limit(limit),
            r@,
        ),
{
    let mut keys: Vec<QueueKey> = Vec::new();
    let mut eligible: Vec<bool> = Vec::new();
    let mut i: usize = 0;
    while i < tasks.len()
        invariant
            i <= tasks.len(),
            keys@ == tasks@.take(i as int).map_values(|t: Task| ready_key(t)),
            eligible@ == tasks@.take(i as int).map_values(|t: Task| is_ready(tasks@, rels@, t)),
        decreases tasks.len() - i,
    {
        let t = &tasks[i];
        keys.push(ready_key_of(t));
        let ready = t.status != TaskStatus::Done && !blocked(tasks, rels, t.base.id);
        eligible.push(ready);
        assert(keys@ =~= tasks@.take(i + 1).map_values(|t: Task| ready_key(t)));
        assert(eligible@ =~= tasks@.take(i + 1).map_values(|t: Task| is_ready(tasks@, rels@, t)));
        i = i + 1;
    }
    assert(tasks@.take(tasks.len() as int) =~= tasks@);
    select_smallest(&keys, &eligible, limit_of(limit))
}

/// The blocked tasks, as positions in `tasks`, ordered by priority and sequence
/// number: the `limit` first (50 by default, at most 100).
pub fn blocked_task_order(tasks: &Vec<Task>, rels: &Vec<Relation>, limit: Option<u32>) -> (r: Vec<usize>)
    ensures
        is_top(
            tasks@.map_values(|t: Task| waiting_key(t)),
            tasks@.map_values(|t: Task| is_waiting(tasks@, rels@, t)),
            effective_limit(limit),
            r@,
        ),
{
    let mut keys: Vec<QueueKey> = Vec::new();
    let mut eligible: Vec<bool> = Vec::new();
    let mut i: usize = 0;
    while i < tasks.len()
        invariant
            i <= tasks.len(),
            keys@ == tasks@.take(i as int).map_values(|t: Task| waiting_key(t)),
            eligible@ == tasks@.take(i as int).map_values(|t: Task| is_waiting(tasks@, rels@, t)),
        decreases tasks.len() - i,
    {
        let t = &tasks[i];
        keys.push(
            QueueKey {
                rank: t.priority.queue_rank(),
                undated: 0,
                year: 0,
                month: 0,
                day: 0,
                seq: t.base.sequence_number,
            },
        );
        let waiting = t.status != TaskStatus::Done && blocked(tasks, rels, t.base.id);
        eligible.push(waiting);
        assert(keys@ =~= tasks@.take(i + 1).map_values(|t: Task| waiting_key(t)));
        assert(eligible@ =~= tasks@.take(i + 1).map_values(
            |t: Task| is_waiting(tasks@, rels@, t),
        ));
        i = i + 1;
    }
    assert(tasks@.take(tasks.len() as int) =~= tasks@);
    select_smallest(&keys, &eligible, limit_of(limit))
}


// ---------------------------------------------------------------------------
// Queue entries
// ---------------------------------------------------------------------------

/// A task that is ready to work on (no unresolved blockers).
#[derive(Debug, Clone)]
pub struct ReadyTask {
    pub id: String,
    pub sequence_number: u32,
    pub title: String,
    pub status: String,
    pub priority: String,
    pub due_date: Option<String>,
    pub assignee: Option<String>,
}

/// Information about a task that blocks another task.
#[derive(Debug, Clone)]
pub struct TaskBlocker {
    pub id: String,
    pub sequence_number: u32,
    pub title: String,
    pub status: String,
}

/// A blocked task with information about what blocks it.
#[derive(Debug, Clone)]
pub struct BlockedTask {
    pub id: String,
    pub sequence_number: u32,
    pub title: String,
    pub status: String,
    pub priority: String,
    pub due_date: Option<String>,
    pub assignee: Option<String>,
    pub blockers: Vec<TaskBlocker>,
}

/// The due date as text, when there is one.
pub open spec fn due_text_matches(r: Option<String>, d: Option<CalendarDate>) -> bool {
    match d {
        Some(d) => r is Some && r->0@ == date_text(d),
        None => r is None,
    }
}

/// `r` describes task `t`.
pub open spec fn describes_ready(r: ReadyTask, t: Task) -> bool {
    &&& r.id@ == uuid_text(t.base.id)
    &&& r.sequence_number == t.base.sequence_number
    &&& r.title@ == t.base.title@
    &&& r.status@ == t.status.name()
    &&& r.priority@ == t.priority.name()
    &&& due_text_matches(r.due_date, t.due_date)
    &&& r.assignee == t.assignee
}

/// `b` describes task `t` as a blocker.
pub open spec fn describes_blocker(b: TaskBlocker, t: Task) -> bool {
    &&& b.id@ == uuid_text(t.base.id)
    &&& b.sequence_number == t.base.sequence_number
    &&& b.title@ == t.base.title@
    &&& b.status@ == t.status.name()
}

/// Entry `i` of `r` describes the task at position `order[i]`.
pub open spec fn ready_entries_follow(r: Seq<ReadyTask>, order: Seq<usize>, tasks: Seq<Task>) -> bool {
    &&& order.len() == r.len()
    &&& forall|i: int| 0 <= i < r.len() ==> #[trigger] order[i] < tasks.len()
    &&& forall|i: int| 0 <= i < r.len() ==> describes_ready(#[trigger] r[i], tasks[order[i] as int])
}

fn due_text(d: &Option<CalendarDate>) -> (r: Option<String>)
    ensures
        due_text_matches(r, *d),
{
    match d {
        Some(d) => Some(d.to_text()),
        None => None,
    }
}

fn ready_entry(t: &Task) -> (r: ReadyTask)
    ensures
        describes_ready(r, *t),
{
    ReadyTask {
        id: uuid_string(t.base.id),
        sequence_number: t.base.sequence_number,
        title: t.base.title.clone(),
        status: String::from_str(t.status.as_str()),
        priority: String::from_str(t.priority.as_str()),
        due_date: due_text(&t.due_date),
        assignee: copy_opt(&t.assignee),
    }
}

fn blocker_entry(t: &Task) -> (r: TaskBlocker)
    ensures
        describes_blocker(r, *t),
{
    TaskBlocker {
        id: uuid_string(t.base.id),
        sequence_number: t.base.sequence_number,
        title: t.base.title.clone(),
        status: String::from_str(t.status.as_str()),
    }
}

/// Tasks that are ready to work on, in queue order: priority (urgent first), then
/// due date (earliest first, undated last), then sequence number. At most `limit`
/// (50 by default, at most 100).
pub fn get_ready_tasks(tasks: &Vec<Task>, rels: &Vec<Relation>, limit: Option<u32>) -> (r: Vec<
    ReadyTask,
>)
    ensures
        exists|order: Seq<usize>|
            #[trigger] ready_entries_follow(r@, order, tasks@) && is_top(
                tasks@.map_values(|t: Task| ready_key(t)),
                tasks@.map_values(|t: Task| is_ready(tasks@, rels@, t)),
                effective_limit(limit),
                order,
            ),
{
    let order = ready_task_order(tasks, rels, limit);
    let mut r: Vec<ReadyTask> = Vec::new();
    let mut i: usize = 0;
    while i < order.len()
        invariant
            i <= order.len(),
            r@.len() == i,
            forall|x: int| 0 <= x < order@.len() ==> #[trigger] order@[x] < tasks@.len(),
            forall|x: int| 0 <= x < i ==> describes_ready(#[trigger] r@[x], tasks@[order@[x] as int]),
        decreases order.len() - i,
    {
        r.push(ready_entry(&tasks[order[i]]));
        i = i + 1;
    }
    assert(ready_entries_follow(r@, order@, tasks@));
    r
}

/// Position `k` holds the first ready task of the queue: it is ready, and it
/// comes before every other ready task (see `ranks_before`).
pub open spec fn is_next_ready(tasks: Seq<Task>, rels: Seq<Relation>, k: int) -> bool {
    &&& 0 <= k < tasks.len()
    &&& is_ready(tasks, rels, tasks[k])
    &&& forall|x: int| 0 <= x < tasks.len() && is_ready(tasks, rels, #[trigger] tasks[x]) && x != k
        ==> ranks_before(tasks.map_values(|t: Task| ready_key(t)), k, x)
}

/// The first ready task of the queue is the first entry of the ready list: every
/// order the ready list may follow, with a limit of at least one, starts there.
/// So `get_next_task` describes the same task as the first entry of
/// `get_ready_tasks` with any limit, `Some(1)` included.
pub proof fn lemma_next_is_first_ready(tasks: Seq<Task>, rels: Seq<Relation>, k: int, limit: nat, order: Seq<usize>)
    requires
        tasks.len() <= usize::MAX,
        is_next_ready(tasks, rels, k),
        limit >= 1,
        is_top(
            tasks.map_values(|t: Task| ready_key(t)),
            tasks.map_values(|t: Task| is_ready(tasks, rels, t)),
            limit,
            order,
        ),
    ensures
        order.len() > 0,
        order[0] == k,
{
    let keys = tasks.map_values(|t: Task| ready_key(t));
    let el = tasks.map_values(|t: Task| is_ready(tasks, rels, t));
    assert(el[k]);
    if order.len() == 0 {
        assert(order.len() < limit);
        assert(order.contains(k as usize));
    }
    let a = order[0] as int;
    if a != k {
        assert(el[a]);
        assert(is_ready(tasks, rels, tasks[a]));
        assert(ranks_before(keys, k, a));
        if order.contains(k as usize) {
            let j = choose|j: int| 0 <= j < order.len() && order[j] == k as usize;
            assert(j != 0);
            assert(ranks_before(keys, order[0] as int, order[j] as int));
        } else {
            assert(ranks_before(keys, order[0] as int, k));
        }
        assert(false);
    }
}

/// The single highest-priority ready task, if any: the first task of the queue
/// (see `is_next_ready`, and `lemma_next_is_first_ready` for the ready list).
pub fn get_next_task(tasks: &Vec<Task>, rels: &Vec<Relation>) -> (r: Option<ReadyTask>)
    ensures
        r is None <==> forall|k: int| 0 <= k < tasks@.len() ==> !is_ready(tasks@, rels@, tasks@[k]),
        r matches Some(t) ==> exists|k: int| #[trigger] is_next_ready(tasks@, rels@, k) && describes_ready(t, tasks@[k]),
{
    let order = ready_task_order(tasks, rels, Some(1));
    let n = tasks.len();
    let ghost keys = tasks@.map_values(|t: Task| ready_key(t));
    let ghost el = tasks@.map_values(|t: Task| is_ready(tasks@, rels@, t));
    if order.len() == 0 {
        assert forall|k: int| 0 <= k < tasks@.len() implies !is_ready(tasks@, rels@, tasks@[k]) by {
            if is_ready(tasks@, rels@, tasks@[k]) {
                assert(el[k]);
            }
        }
        None
    } else {
        let k = order[0];
        assert forall|x: int| 0 <= x < tasks@.len() && is_ready(tasks@, rels@, #[trigger] tasks@[x]) && x != k
            implies ranks_before(keys, k as int, x) by {
            assert(el[x]);
            if order@.contains(x as usize) {
                let w = choose|w: int| 0 <= w < order@.len() && order@[w] == x as usize;
                assert(w == 0);
            } else {
                assert(order@[0] == k);
                assert(ranks_before(keys, order@[0] as int, x));
            }
        }
        assert(el[k as int]);
        assert(is_next_ready(tasks@, rels@, k as int));
        Some(ready_entry(&tasks[k]))
    }
}

/// The positions, among the first `n` tasks, of the tasks that are not done and
/// whose UUID is `source`.
pub open spec fn open_tasks_with_id(tasks: Seq<Task>, source: u128, n: int) -> Seq<usize>
    decreases n,
{
    if n <= 0 || n > tasks.len() {
        Seq::empty()
    } else {
        open_tasks_with_id(tasks, source, n - 1) + (if tasks[n - 1].base.id == source && tasks[n
            - 1].status != TaskStatus::Done {
            seq![(n - 1) as usize]
        } else {
            Seq::empty()
        })
    }
}

/// The rows of the blocker query over the first `m` relations: for each `blocks`
/// relation into the entity whose UUID text is `target`, in order, the tasks that
/// are not done it comes from.
pub open spec fn blocker_rows(tasks: Seq<Task>, rels: Seq<Relation>, target: Seq<char>, m: int) -> Seq<
    usize,
>
    decreases m,
{
    if m <= 0 || m > rels.len() {
        Seq::empty()
    } else {
        blocker_rows(tasks, rels, target, m - 1) + (if rels[m - 1].relation_type
            == RelationType::Blocks && uuid_text(rels[m - 1].target_id) == target {
            open_tasks_with_id(tasks, rels[m - 1].source_id, tasks.len() as int)
        } else {
            Seq::empty()
        })
    }
}

/// The order of blockers: by sequence number.
pub open spec fn blocker_key(t: Task) -> QueueKey {
    QueueKey { rank: 0, undated: 0, year: 0, month: 0, day: 0, seq: t.base.sequence_number }
}

/// Entry `i` of `b` describes the task of row `order[i]`.
pub open spec fn blockers_follow(b: Seq<TaskBlocker>, order: Seq<usize>, rows: Seq<usize>, tasks: Seq<Task>) -> bool {
    &&& order.len() == b.len()
    &&& forall|i: int| 0 <= i < b.len() ==> #[trigger] order[i] < rows.len()
    &&& forall|i: int| 0 <= i < b.len() ==> rows[order[i] as int] < tasks.len()
    &&& forall|i: int| 0 <= i < b.len() ==> describes_blocker(#[trigger] b[i], tasks[rows[order[i] as int] as int])
}

/// `b` lists every row of the blocker query for `target` once, by sequence number.
pub open spec fn lists_blockers(tasks: Seq<Task>, rels: Seq<Relation>, target: Seq<char>, b: Seq<TaskBlocker>) -> bool {
    let rows = blocker_rows(tasks, rels, target, rels.len() as int);
    exists|order: Seq<usize>|
        #[trigger] blockers_follow(b, order, rows, tasks) && is_top(
            rows.map_values(|k: usize| blocker_key(tasks[k as int])),
            rows.map_values(|k: usize| true),
            rows.len(),
            order,
        )
}

proof fn lemma_open_tasks_bound(tasks: Seq<Task>, source: u128, n: int)
    requires
        tasks.len() <= usize::MAX,
    ensures
        forall|i: int| 0 <= i < open_tasks_with_id(tasks, source, n).len() ==>
            #[trigger] open_tasks_with_id(tasks, source, n)[i] < tasks.len(),
    decreases n,
{
    if n > 0 && n <= tasks.len() {
        lemma_open_tasks_bound(tasks, source, n - 1);
        let prev = open_tasks_with_id(tasks, source, n - 1);
        let cur = open_tasks_with_id(tasks, source, n);
        assert forall|i: int| 0 <= i < cur.len() implies #[trigger] cur[i] < tasks.len() by {
            if i < prev.len() {
                assert(cur[i] == prev[i]);
            }
        }
    }
}

proof fn lemma_rows_bound(tasks: Seq<Task>, rels: Seq<Relation>, target: Seq<char>, m: int)
    requires
        tasks.len() <= usize::MAX,
    ensures
        forall|i: int| 0 <= i < blocker_rows(tasks, rels, target, m).len() ==>
            #[trigger] blocker_rows(tasks, rels, target, m)[i] < tasks.len(),
    decreases m,
{
    if m > 0 && m <= rels.len() {
        lemma_rows_bound(tasks, rels, target, m - 1);
        lemma_open_tasks_bound(tasks, rels[m - 1].source_id, tasks.len() as int);
        let prev = blocker_rows(tasks, rels, target, m - 1);
        let cur = blocker_rows(tasks, rels, target, m);
        let add = open_tasks_with_id(tasks, rels[m - 1].source_id, tasks.len() as int);
        assert forall|i: int| 0 <= i < cur.len() implies #[trigger] cur[i] < tasks.len() by {
            if i < prev.len() {
                assert(cur[i] == prev[i]);
            } else {
                assert(cur[i] == add[i - prev.len()]);
            }
        }
    }
}

/// A `blocks` relation from a task that is not done into the entity whose UUID
/// text is `target`.
pub open spec fn open_block_into(tasks: Seq<Task>, rel: Relation, target: Seq<char>) -> bool {
    &&& rel.relation_type == RelationType::Blocks
    &&& uuid_text(rel.target_id) == target
    &&& exists|k: int|
        0 <= k < tasks.len() && #[trigger] tasks[k].base.id == rel.source_id && tasks[k].status
            != TaskStatus::Done
}

/// Task `k` is not done and blocks, by some relation, the entity whose UUID text is `target`.
pub open spec fn open_blocker_at(tasks: Seq<Task>, rels: Seq<Relation>, target: Seq<char>, k: int) -> bool {
    &&& 0 <= k < tasks.len()
    &&& tasks[k].status != TaskStatus::Done
    &&& exists|j: int|
        0 <= j < rels.len() && (#[trigger] rels[j]).relation_type == RelationType::Blocks
            && rels[j].source_id == tasks[k].base.id && uuid_text(rels[j].target_id) == target
}

/// `b` describes a task that is not done and blocks the entity whose UUID text is `target`.
pub open spec fn open_blocker_of(tasks: Seq<Task>, rels: Seq<Relation>, target: Seq<char>, b: TaskBlocker) -> bool {
    exists|k: int| #[trigger] open_blocker_at(tasks, rels, target, k) && describes_blocker(b, tasks[k])
}

proof fn lemma_open_tasks_members(tasks: Seq<Task>, source: u128, n: int)
    requires
        tasks.len() <= usize::MAX,
    ensures
        forall|i: int| 0 <= i < open_tasks_with_id(tasks, source, n).len() ==> {
            let k = #[trigger] open_tasks_with_id(tasks, source, n)[i] as int;
            0 <= k < tasks.len() && tasks[k].base.id == source && tasks[k].status != TaskStatus::Done
        },
    decreases n,
{
    if n > 0 && n <= tasks.len() {
        lemma_open_tasks_members(tasks, source, n - 1);
        let prev = open_tasks_with_id(tasks, source, n - 1);
        let cur = open_tasks_with_id(tasks, source, n);
        assert forall|i: int| 0 <= i < cur.len() implies {
            let k = #[trigger] cur[i] as int;
            0 <= k < tasks.len() && tasks[k].base.id == source && tasks[k].status != TaskStatus::Done
        } by {
            if i < prev.len() {
                assert(cur[i] == prev[i]);
            } else {
                assert(tasks[n - 1].base.id == source && tasks[n - 1].status != TaskStatus::Done);
                assert(cur[i] == (n - 1) as usize);
            }
        }
    }
}

proof fn lemma_open_tasks_nonempty(tasks: Seq<Task>, source: u128, n: int, k: int)
    requires
        0 <= k < n <= tasks.len(),
        tasks[k].base.id == source,
        tasks[k].status != TaskStatus::Done,
    ensures
        open_tasks_with_id(tasks, source, n).len() > 0,
    decreases n,
{
    if k < n - 1 {
        lemma_open_tasks_nonempty(tasks, source, n - 1, k);
    }
}

proof fn lemma_rows_members(tasks: Seq<Task>, rels: Seq<Relation>, target: Seq<char>, m: int)
    requires
        m <= rels.len(),
        tasks.len() <= usize::MAX,
    ensures
        forall|i: int| 0 <= i < blocker_rows(tasks, rels, target, m).len() ==>
            open_blocker_at(tasks, rels, target, #[trigger] blocker_rows(tasks, rels, target, m)[i] as int),
    decreases m,
{
    if m > 0 {
        lemma_rows_members(tasks, rels, target, m - 1);
        let rel = rels[m - 1];
        lemma_open_tasks_members(tasks, rel.source_id, tasks.len() as int);
        let prev = blocker_rows(tasks, rels, target, m - 1);
        let cur = blocker_rows(tasks, rels, target, m);
        let add = open_tasks_with_id(tasks, rel.source_id, tasks.len() as int);
        assert forall|i: int| 0 <= i < cur.len() implies open_blocker_at(tasks, rels, target, #[trigger] cur[i] as int) by {
            if i < prev.len() {
                assert(cur[i] == prev[i]);
            } else {
                assert(cur[i] == add[i - prev.len()]);
                let k = cur[i] as int;
                assert(rels[m - 1].source_id == tasks[k].base.id);
            }
        }
    }
}

proof fn lemma_rows_nonempty(tasks: Seq<Task>, rels: Seq<Relation>, target: Seq<char>, m: int, j: int)
    requires
        0 <= j < m <= rels.len(),
        open_block_into(tasks, rels[j], target),
    ensures
        blocker_rows(tasks, rels, target, m).len() > 0,
    decreases m,
{
    if j < m - 1 {
        lemma_rows_nonempty(tasks, rels, target, m - 1, j);
    } else {
        let k = choose|k: int|
            0 <= k < tasks.len() && #[trigger] tasks[k].base.id == rels[j].source_id && tasks[k].status
                != TaskStatus::Done;
        lemma_open_tasks_nonempty(tasks, rels[j].source_id, tasks.len() as int, k);
    }
}

/// Every blocker listed for an entity is a task that is not done and that a
/// `blocks` relation links to it; and the list is not empty when such a
/// relation exists.
pub proof fn lemma_listed_blockers(tasks: Seq<Task>, rels: Seq<Relation>, target: Seq<char>, b: Seq<TaskBlocker>)
    requires
        tasks.len() <= usize::MAX,
        lists_blockers(tasks, rels, target, b),
    ensures
        forall|i: int| 0 <= i < b.len() ==> open_blocker_of(tasks, rels, target, #[trigger] b[i]),
        (exists|j: int| 0 <= j < rels.len() && open_block_into(tasks, #[trigger] rels[j], target)) ==> b.len() > 0,
{
    let rows = blocker_rows(tasks, rels, target, rels.len() as int);
    let order = choose|order: Seq<usize>|
        #[trigger] blockers_follow(b, order, rows, tasks) && is_top(
            rows.map_values(|k: usize| blocker_key(tasks[k as int])),
            rows.map_values(|k: usize| true),
            rows.len(),
            order,
        );
    lemma_rows_members(tasks, rels, target, rels.len() as int);
    assert forall|i: int| 0 <= i < b.len() implies open_blocker_of(tasks, rels, target, #[trigger] b[i]) by {
        let k = rows[order[i] as int] as int;
        assert(open_blocker_at(tasks, rels, target, k));
        assert(describes_blocker(b[i], tasks[k]));
    }
    if exists|j: int| 0 <= j < rels.len() && open_block_into(tasks, #[trigger] rels[j], target) {
        let j = choose|j: int| 0 <= j < rels.len() && open_block_into(tasks, #[trigger] rels[j], target);
        lemma_rows_nonempty(tasks, rels, target, rels.len() as int, j);
        let elig = rows.map_values(|k: usize| true);
        assert(elig[0]);
        if b.len() == 0 {
            assert(order.contains(0usize));
        }
    }
}

fn collect_rows(tasks: &Vec<Task>, rels: &Vec<Relation>, task_id: &str) -> (rows: Vec<usize>)
    ensures
        rows@ == blocker_rows(tasks@, rels@, task_id@, rels@.len() as int),
{
    let mut rows: Vec<usize> = Vec::new();
    let mut j: usize = 0;
    while j < rels.len()
        invariant
            j <= rels.len(),
            rows@ == blocker_rows(tasks@, rels@, task_id@, j as int),
        decreases rels.len() - j,
    {
        let rel = &rels[j];
        let t = uuid_string(rel.target_id);
        if rel.relation_type == RelationType::Blocks && str_eq(t.as_str(), task_id) {
            let ghost base = rows@;
            let mut k: usize = 0;
            while k < tasks.len()
                invariant
                    k <= tasks.len(),
                    rows@ == base + open_tasks_with_id(tasks@, rel.source_id, k as int),
                decreases tasks.len() - k,
            {
                if tasks[k].base.id == rel.source_id && tasks[k].status != TaskStatus::Done {
                    rows.push(k);
                }
                assert(rows@ =~= base + open_tasks_with_id(tasks@, rel.source_id, k + 1));
                k = k + 1;
            }
        }
        j = j + 1;
        assert(rows@ =~= blocker_rows(tasks@, rels@, task_id@, j as int));
    }
    rows
}

/// The tasks that block the task whose UUID text is `task_id` and are not done,
/// ordered by sequence number. Empty when there are none or the task does not exist.
pub fn get_task_blockers(tasks: &Vec<Task>, rels: &Vec<Relation>, task_id: &str) -> (r: Vec<TaskBlocker>)
    ensures
        lists_blockers(tasks@, rels@, task_id@, r@),
{
    let rows = collect_rows(tasks, rels, task_id);
    let n = tasks.len();
    proof {
        lemma_rows_bound(tasks@, rels@, task_id@, rels@.len() as int);
    }
    let mut keys: Vec<QueueKey> = Vec::new();
    let mut all: Vec<bool> = Vec::new();
    let mut i: usize = 0;
    while i < rows.len()
        invariant
            i <= rows.len(),
            forall|x: int| 0 <= x < rows@.len() ==> #[trigger] rows@[x] < tasks@.len(),
            keys@ == rows@.take(i as int).map_values(|k: usize| blocker_key(tasks@[k as int])),
            all@ == rows@.take(i as int).map_values(|k: usize| true),
        decreases rows.len() - i,
    {
        keys.push(
            QueueKey {
                rank: 0,
                undated: 0,
                year: 0,
                month: 0,
                day: 0,
                seq: tasks[rows[i]].base.sequence_number,
            },
        );
        all.push(true);
        assert(keys@ =~= rows@.take(i + 1).map_values(|k: usize| blocker_key(tasks@[k as int])));
        assert(all@ =~= rows@.take(i + 1).map_values(|k: usize| true));
        i = i + 1;
    }
    assert(rows@.take(rows.len() as int) =~= rows@);
    let order = select_smallest(&keys, &all, rows.len());
    let mut r: Vec<TaskBlocker> = Vec::new();
    let mut i: usize = 0;
    while i < order.len()
        invariant
            i <= order.len(),
            r@.len() == i,
            forall|x: int| 0 <= x < order@.len() ==> #[trigger] order@[x] < rows@.len(),
            forall|x: int| 0 <= x < rows@.len() ==> #[trigger] rows@[x] < tasks@.len(),
            forall|x: int|
                0 <= x < i ==> describes_blocker(#[trigger] r@[x], tasks@[rows@[order@[x] as int] as int]),
        decreases order.len() - i,
    {
        r.push(blocker_entry(&tasks[rows[order[i]]]));
        i = i + 1;
    }
    assert(blockers_follow(r@, order@, rows@, tasks@));
    r
}

/// `b` describes the blocked task `t` and lists its blockers.
pub open spec fn describes_blocked(tasks: Seq<Task>, rels: Seq<Relation>, b: BlockedTask, t: Task) -> bool {
    &&& b.id@ == uuid_text(t.base.id)
    &&& b.sequence_number == t.base.sequence_number
    &&& b.title@ == t.base.title@
    &&& b.status@ == t.status.name()
    &&& b.priority@ == t.priority.name()
    &&& due_text_matches(b.due_date, t.due_date)
    &&& b.assignee == t.assignee
    &&& lists_blockers(tasks, rels, uuid_text(t.base.id), b.blockers@)
}

/// Entry `i` of `r` describes the blocked task at position `order[i]`.
pub open spec fn blocked_entries_follow(tasks: Seq<Task>, rels: Seq<Relation>, r: Seq<BlockedTask>, order: Seq<usize>) -> bool {
    &&& order.len() == r.len()
    &&& forall|i: int| 0 <= i < r.len() ==> #[trigger] order[i] < tasks.len()
    &&& forall|i: int| 0 <= i < r.len() ==> describes_blocked(tasks, rels, #[trigger] r[i], tasks[order[i] as int])
}

/// `b` lists at least one blocker, and each is a task that is not done and
/// that a `blocks` relation links to the task `b` describes.
pub open spec fn has_open_blockers(tasks: Seq<Task>, rels: Seq<Relation>, b: BlockedTask) -> bool {
    &&& b.blockers@.len() > 0
    &&& forall|m: int| 0 <= m < b.blockers@.len() ==> open_blocker_of(tasks, rels, b.id@, #[trigger] b.blockers@[m])
}

/// Blocked tasks with their blockers, ordered by priority then sequence number.
/// At most `limit` (50 by default, at most 100). Each lists at least one
/// blocker, and every blocker is an open task that blocks it.
pub fn get_blocked_tasks(tasks: &Vec<Task>, rels: &Vec<Relation>, limit: Option<u32>) -> (r: Vec<BlockedTask>)
    ensures
        exists|order: Seq<usize>|
            #[trigger] blocked_entries_follow(tasks@, rels@, r@, order) && is_top(
                tasks@.map_values(|t: Task| waiting_key(t)),
                tasks@.map_values(|t: Task| is_waiting(tasks@, rels@, t)),
                effective_limit(limit),
                order,
            ),
        forall|i: int| 0 <= i < r@.len() ==> has_open_blockers(tasks@, rels@, #[trigger] r@[i]),
{
    let order = blocked_task_order(tasks, rels, limit);
    let mut r: Vec<BlockedTask> = Vec::new();
    let mut i: usize = 0;
    while i < order.len()
        invariant
            i <= order.len(),
            r@.len() == i,
            forall|x: int| 0 <= x < order@.len() ==> #[trigger] order@[x] < tasks@.len(),
            forall|x: int|
                0 <= x < i ==> describes_blocked(tasks@, rels@, #[trigger] r@[x], tasks@[order@[x] as int]),
        decreases order.len() - i,
    {
        let t = &tasks[order[i]];
        let id = uuid_string(t.base.id);
        let blockers = get_task_blockers(tasks, rels, id.as_str());
        r.push(
            BlockedTask {
                id,
                sequence_number: t.base.sequence_number,
                title: t.base.title.clone(),
                status: String::from_str(t.status.as_str()),
                priority: String::from_str(t.priority.as_str()),
                due_date: due_text(&t.due_date),
                assignee: copy_opt(&t.assignee),
                blockers,
            },
        );
        i = i + 1;
    }
    assert(blocked_entries_follow(tasks@, rels@, r@, order@));
    proof {
        assert(tasks@.len() == tasks.len());
        let elig = tasks@.map_values(|t: Task| is_waiting(tasks@, rels@, t));
        assert forall|i: int| 0 <= i < r@.len() implies has_open_blockers(tasks@, rels@, #[trigger] r@[i]) by {
            let t = tasks@[order@[i] as int];
            assert(elig[order@[i] as int]);
            assert(is_blocked(tasks@, rels@, t.base.id));
            let j = choose|j: int| 0 <= j < rels@.len() && open_block(tasks@, #[trigger] rels@[j], t.base.id);
            assert(open_block_into(tasks@, rels@[j], uuid_text(t.base.id)));
            lemma_listed_blockers(tasks@, rels@, uuid_text(t.base.id), r@[i].blockers@);
        }
    }
    r
}

/// The ready list and the blocked list by UUID. Where no two tasks share a
/// UUID: no UUID is on both lists; each entry of either is a task that is not
/// done; and when neither limit is below the number of tasks that are not done,
/// the UUID of every task that is not done is on one of them.
pub proof fn lemma_ready_and_blocked_ids(
    tasks: Seq<Task>,
    rels: Seq<Relation>,
    ready_limit: nat,
    ready: Seq<ReadyTask>,
    ready_order: Seq<usize>,
    blocked_limit: nat,
    blocked: Seq<BlockedTask>,
    blocked_order: Seq<usize>,
)
    requires
        tasks.len() <= usize::MAX,
        task_ids_unique(tasks),
        ready_entries_follow(ready, ready_order, tasks),
        is_top(
            tasks.map_values(|t: Task| ready_key(t)),
            tasks.map_values(|t: Task| is_ready(tasks, rels, t)),
            ready_limit,
            ready_order,
        ),
        blocked_entries_follow(tasks, rels, blocked, blocked_order),
        is_top(
            tasks.map_values(|t: Task| waiting_key(t)),
            tasks.map_values(|t: Task| is_waiting(tasks, rels, t)),
            blocked_limit,
            blocked_order,
        ),
    ensures
        forall|i: int, j: int| 0 <= i < ready.len() && 0 <= j < blocked.len() ==> (#[trigger] ready[i]).id@ != (#[trigger] blocked[j]).id@,
        forall|i: int| 0 <= i < ready.len() ==> exists|k: int| 0 <= k < tasks.len() && tasks[k].status != TaskStatus::Done
            && (#[trigger] ready[i]).id@ == uuid_text(#[trigger] tasks[k].base.id),
        forall|j: int| 0 <= j < blocked.len() ==> exists|k: int| 0 <= k < tasks.len() && tasks[k].status != TaskStatus::Done
            && (#[trigger] blocked[j]).id@ == uuid_text(#[trigger] tasks[k].base.id),
        open_count(tasks) <= ready_limit && open_count(tasks) <= blocked_limit ==> forall|k: int|
            0 <= k < tasks.len() && (#[trigger] tasks[k]).status != TaskStatus::Done ==>
                (exists|i: int| 0 <= i < ready.len() && (#[trigger] ready[i]).id@ == uuid_text(tasks[k].base.id))
                || (exists|j: int| 0 <= j < blocked.len() && (#[trigger] blocked[j]).id@ == uuid_text(tasks[k].base.id)),
{
    lemma_ready_and_blocked_lists(tasks, rels, ready_limit, ready_order, blocked_limit, blocked_order);
    let er = tasks.map_values(|t: Task| is_ready(tasks, rels, t));
    let ew = tasks.map_values(|t: Task| is_waiting(tasks, rels, t));
    assert forall|i: int, j: int| 0 <= i < ready.len() && 0 <= j < blocked.len() implies (#[trigger] ready[i]).id@ != (#[trigger] blocked[j]).id@ by {
        let a = ready_order[i] as int;
        let b = blocked_order[j] as int;
        assert(describes_ready(ready[i], tasks[a]));
        assert(describes_blocked(tasks, rels, blocked[j], tasks[b]));
        assert(a != b);
        if ready[i].id@ == blocked[j].id@ {
            lemma_uuid_text_injective(tasks[a].base.id, tasks[b].base.id);
            if a < b {
                assert(tasks[a].base.id != tasks[b].base.id);
            } else {
                assert(tasks[b].base.id != tasks[a].base.id);
            }
        }
    }
    assert forall|i: int| 0 <= i < ready.len() implies exists|k: int| 0 <= k < tasks.len() && tasks[k].status != TaskStatus::Done
        && (#[trigger] ready[i]).id@ == uuid_text(#[trigger] tasks[k].base.id) by {
        let a = ready_order[i] as int;
        assert(describes_ready(ready[i], tasks[a]));
        assert(er[a]);
    }
    assert forall|j: int| 0 <= j < blocked.len() implies exists|k: int| 0 <= k < tasks.len() && tasks[k].status != TaskStatus::Done
        && (#[trigger] blocked[j]).id@ == uuid_text(#[trigger] tasks[k].base.id) by {
        let b = blocked_order[j] as int;
        assert(describes_blocked(tasks, rels, blocked[j], tasks[b]));
        assert(ew[b]);
    }
    if open_count(tasks) <= ready_limit && open_count(tasks) <= blocked_limit {
        assert forall|k: int| 0 <= k < tasks.len() && (#[trigger] tasks[k]).status != TaskStatus::Done implies
            (exists|i: int| 0 <= i < ready.len() && (#[trigger] ready[i]).id@ == uuid_text(tasks[k].base.id))
            || (exists|j: int| 0 <= j < blocked.len() && (#[trigger] blocked[j]).id@ == uuid_text(tasks[k].base.id)) by {
            if ready_order.contains(k as usize) {
                let i = choose|i: int| 0 <= i < ready_order.len() && ready_order[i] == k as usize;
                assert(describes_ready(ready[i], tasks[k]));
            } else {
                assert(blocked_order.contains(k as usize));
                let j = choose|j: int| 0 <= j < blocked_order.len() && blocked_order[j] == k as usize;
                assert(describes_blocked(tasks, rels, blocked[j], tasks[k]));
            }
        }
    }
}

// ---------------------------------------------------------------------------
// The order the queue offers tasks in
// ---------------------------------------------------------------------------

/// `a` is strictly more urgent than `b`: urgent, then high, then normal, then low.
pub open spec fn more_urgent(a: TaskPriority, b: TaskPriority) -> bool {
    match (a, b) {
        (TaskPriority::Urgent, TaskPriority::High) => true,
        (TaskPriority::Urgent, TaskPriority::Normal) => true,
        (TaskPriority::Urgent, TaskPriority::Low) => true,
        (TaskPriority::High, TaskPriority::Normal) => true,
        (TaskPriority::High, TaskPriority::Low) => true,
        (TaskPriority::Normal, TaskPriority::Low) => true,
        _ => false,
    }
}

/// The calendar day `a` is strictly earlier than `b`.
pub open spec fn earlier_day(a: CalendarDate, b: CalendarDate) -> bool {
    a.year < b.year || (a.year == b.year && a.month < b.month) || (a.year == b.year && a.month == b.month && a.day < b.day)
}

/// The ready queue may offer `a` before `b`: `b` is not more urgent; at equal
/// priority a dated task comes before an undated one, an earlier due day first;
/// at equal priority and due day, the lower sequence number first.
pub open spec fn ready_may_precede(a: Task, b: Task) -> bool {
    &&& !more_urgent(b.priority, a.priority)
    &&& a.priority == b.priority ==> match (a.due_date, b.due_date) {
        (None, Some(_)) => false,
        (Some(x), Some(y)) => !earlier_day(y, x) && (x == y ==> a.base.sequence_number <= b.base.sequence_number),
        (None, None) => a.base.sequence_number <= b.base.sequence_number,
        (Some(_), None) => true,
    }
}

/// The blocked list may offer `a` before `b`: `b` is not more urgent, and at
/// equal priority the lower sequence number comes first.
pub open spec fn blocked_may_precede(a: Task, b: Task) -> bool {
    &&& !more_urgent(b.priority, a.priority)
    &&& a.priority == b.priority ==> a.base.sequence_number <= b.base.sequence_number
}

proof fn lemma_ready_key_order(a: Task, b: Task)
    requires
        key_le(ready_key(a), ready_key(b)),
    ensures
        ready_may_precede(a, b),
{
    if a.priority == b.priority {
        if a.due_date is Some && b.due_date is Some {
            let x = a.due_date->0;
            let y = b.due_date->0;
            if x.year == y.year && x.month == y.month && x.day == y.day {
                assert(x == y);
            }
        }
    }
}

proof fn lemma_waiting_key_order(a: Task, b: Task)
    requires
        key_le(waiting_key(a), waiting_key(b)),
    ensures
        blocked_may_precede(a, b),
{
}

/// The ready list is in queue order: of two listed tasks the earlier may be
/// offered before the later (never a less urgent one before a more urgent one),
/// and every listed task may be offered before every ready task left out.
pub proof fn lemma_ready_list_order(tasks: Seq<Task>, rels: Seq<Relation>, limit: nat, order: Seq<usize>)
    requires
        is_top(
            tasks.map_values(|t: Task| ready_key(t)),
            tasks.map_values(|t: Task| is_ready(tasks, rels, t)),
            limit,
            order,
        ),
    ensures
        forall|i: int, j: int| 0 <= i < j < order.len() ==> ready_may_precede(tasks[#[trigger] order[i] as int], tasks[#[trigger] order[j] as int]),
        forall|i: int, k: int| 0 <= i < order.len() && 0 <= k < tasks.len() && is_ready(tasks, rels, #[trigger] tasks[k])
            && !order.contains(k as usize) ==> ready_may_precede(tasks[#[trigger] order[i] as int], tasks[k]),
{
    let keys = tasks.map_values(|t: Task| ready_key(t));
    let el = tasks.map_values(|t: Task| is_ready(tasks, rels, t));
    assert forall|i: int, j: int| 0 <= i < j < order.len() implies ready_may_precede(tasks[#[trigger] order[i] as int], tasks[#[trigger] order[j] as int]) by {
        assert(ranks_before(keys, order[i] as int, order[j] as int));
        lemma_ready_key_order(tasks[order[i] as int], tasks[order[j] as int]);
    }
    assert forall|i: int, k: int| 0 <= i < order.len() && 0 <= k < tasks.len() && is_ready(tasks, rels, #[trigger] tasks[k])
        && !order.contains(k as usize) implies ready_may_precede(tasks[#[trigger] order[i] as int], tasks[k]) by {
        assert(el[k]);
        assert(ranks_before(keys, order[i] as int, k));
        lemma_ready_key_order(tasks[order[i] as int], tasks[k]);
    }
}

/// The next task may be offered before every other ready task: no ready task is
/// more urgent, and among the equally urgent it comes first.
pub proof fn lemma_next_task_order(tasks: Seq<Task>, rels: Seq<Relation>, k: int)
    requires
        is_next_ready(tasks, rels, k),
    ensures
        forall|x: int| 0 <= x < tasks.len() && x != k && is_ready(tasks, rels, #[trigger] tasks[x]) ==> ready_may_precede(tasks[k], tasks[x]),
        forall|x: int| 0 <= x < tasks.len() && is_ready(tasks, rels, #[trigger] tasks[x]) ==> !more_urgent(tasks[x].priority, tasks[k].priority),
{
    let keys = tasks.map_values(|t: Task| ready_key(t));
    assert forall|x: int| 0 <= x < tasks.len() && x != k && is_ready(tasks, rels, #[trigger] tasks[x]) implies ready_may_precede(tasks[k], tasks[x]) by {
        assert(ranks_before(keys, k, x));
        lemma_ready_key_order(tasks[k], tasks[x]);
    }
}

/// The blocked list is in queue order: of two listed tasks the later is never
/// more urgent, and equally urgent ones come by sequence number; every listed
/// task may be offered before every waiting task left out.
pub proof fn lemma_blocked_list_order(tasks: Seq<Task>, rels: Seq<Relation>, limit: nat, order: Seq<usize>)
    requires
        is_top(
            tasks.map_values(|t: Task| waiting_key(t)),
            tasks.map_values(|t: Task| is_waiting(tasks, rels, t)),
            limit,
            order,
        ),
    ensures
        forall|i: int, j: int| 0 <= i < j < order.len() ==> blocked_may_precede(tasks[#[trigger] order[i] as int], tasks[#[trigger] order[j] as int]),
        forall|i: int, k: int| 0 <= i < order.len() && 0 <= k < tasks.len() && is_waiting(tasks, rels, #[trigger] tasks[k])
            && !order.contains(k as usize) ==> blocked_may_precede(tasks[#[trigger] order[i] as int], tasks[k]),
{
    let keys = tasks.map_values(|t: Task| waiting_key(t));
    let el = tasks.map_values(|t: Task| is_waiting(tasks, rels, t));
    assert forall|i: int, j: int| 0 <= i < j < order.len() implies blocked_may_precede(tasks[#[trigger] order[i] as int], tasks[#[trigger] order[j] as int]) by {
        assert(ranks_before(keys, order[i] as int, order[j] as int));
        lemma_waiting_key_order(tasks[order[i] as int], tasks[order[j] as int]);
    }
    assert forall|i: int, k: int| 0 <= i < order.len() && 0 <= k < tasks.len() && is_waiting(tasks, rels, #[trigger] tasks[k])
        && !order.contains(k as usize) implies blocked_may_precede(tasks[#[trigger] order[i] as int], tasks[k]) by {
        assert(el[k]);
        assert(ranks_before(keys, order[i] as int, k));
        lemma_waiting_key_order(tasks[order[i] as int], tasks[k]);
    }
}

/// The task lists hold at most 50 tasks when no limit is given, and never more
/// than 100: a limit asked for counts up to 100.
pub proof fn lemma_queue_limit(l: u32)
    ensures
        effective_limit(None) == 50,
        l <= 100 ==> effective_limit(Some(l)) == l,
        l > 100 ==> effective_limit(Some(l)) == 100,
{
}

} // verus!
