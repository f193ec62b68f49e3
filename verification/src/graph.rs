//! The relation graph: relations of an entity, paths between entities, and
//! entities without relations.
use vstd::prelude::*;
use vstd::string::StringExecFns;
use crate::clock::{uuid_string, uuid_text};
use crate::entity::Relation;
use crate::error::McpError;
use crate::queue::effective_limit;
use crate::text::str_eq;

verus! {

// ---------------------------------------------------------------------------
// Relations of one entity
// ---------------------------------------------------------------------------

/// The positions, among the first `n` relations, of those whose source has the UUID text `id`.
pub open spec fn positions_from(rels: Seq<Relation>, id: Seq<char>, n: int) -> Seq<usize>
    decreases n,
{
    if n <= 0 || n > rels.len() {
        Seq::empty()
    } else {
        positions_from(rels, id, n - 1) + (if uuid_text(rels[n - 1].source_id) == id {
            seq![(n - 1) as usize]
        } else {
            Seq::empty()
        })
    }
}

/// The positions, among the first `n` relations, of those whose target has the UUID text `id`.
pub open spec fn positions_to(rels: Seq<Relation>, id: Seq<char>, n: int) -> Seq<usize>
    decreases n,
{
    if n <= 0 || n > rels.len() {
        Seq::empty()
    } else {
        positions_to(rels, id, n - 1) + (if uuid_text(rels[n - 1].target_id) == id {
            seq![(n - 1) as usize]
        } else {
            Seq::empty()
        })
    }
}

/// The relations whose source has the UUID text `id`, as positions, in order.
pub fn get_relations_from(rels: &Vec<Relation>, id: &str) -> (r: Vec<usize>)
    ensures
        r@ == positions_from(rels@, id@, rels@.len() as int),
{
    let mut r: Vec<usize> = Vec::new();
    let mut j: usize = 0;
    while j < rels.len()
        invariant
            j <= rels.len(),
            r@ == positions_from(rels@, id@, j as int),
        decreases rels.len() - j,
    {
        let s = uuid_string(rels[j].source_id);
        if str_eq(s.as_str(), id) {
            r.push(j);
        }
        j = j + 1;
        assert(r@ =~= positions_from(rels@, id@, j as int));
    }
    r
}

/// The relations whose target has the UUID text `id`, as positions, in order.
pub fn get_relations_to(rels: &Vec<Relation>, id: &str) -> (r: Vec<usize>)
    ensures
        r@ == positions_to(rels@, id@, rels@.len() as int),
{
    let mut r: Vec<usize> = Vec::new();
    let mut j: usize = 0;
    while j < rels.len()
        invariant
            j <= rels.len(),
            r@ == positions_to(rels@, id@, j as int),
        decreases rels.len() - j,
    {
        let s = uuid_string(rels[j].target_id);
        if str_eq(s.as_str(), id) {
            r.push(j);
        }
        j = j + 1;
        assert(r@ =~= positions_to(rels@, id@, j as int));
    }
    r
}

/// Which relations of an entity to list.
#[derive(Debug, Clone, Copy, PartialEq, Eq, Structural)]
pub enum Direction {
    From,
    To,
    Both,
}

/// The direction that a word names.
pub open spec fn direction_named(s: Seq<char>) -> Option<Direction> {
    if s == "from"@ {
        Some(Direction::From)
    } else if s == "to"@ {
        Some(Direction::To)
    } else if s == "both"@ {
        Some(Direction::Both)
    } else {
        None
    }
}

/// Reads a direction: `from`, `to` or `both`, and `both` when none is given.
pub fn parse_direction(d: Option<&str>) -> (r: Result<Direction, McpError>)
    ensures
        match d {
            None => r == Ok::<Direction, McpError>(Direction::Both),
            Some(s) => match direction_named(s@) {
                Some(x) => r == Ok::<Direction, McpError>(x),
                None => r matches Err(McpError::ValidationFailed { field, message })
                    && field@ == "direction"@
                    && message@ == "Direction must be 'from', 'to', or 'both'"@,
            },
        },
{
    match d {
        None => Ok(Direction::Both),
        Some(s) => {
            proof {
                reveal_strlit("from");
                reveal_strlit("to");
                reveal_strlit("both");
            }
            if str_eq(s, "from") {
                Ok(Direction::From)
            } else if str_eq(s, "to") {
                Ok(Direction::To)
            } else if str_eq(s, "both") {
                Ok(Direction::Both)
            } else {
                Err(
                    McpError::ValidationFailed {
                        field: String::from_str("direction"),
                        message: String::from_str("Direction must be 'from', 'to', or 'both'"),
                    },
                )
            }
        },
    }
}

// ---------------------------------------------------------------------------
// Paths
// ---------------------------------------------------------------------------

/// Some relation joins `a` and `b`, in either direction.
pub open spec fn adjacent(rels: Seq<Relation>, a: u128, b: u128) -> bool {
    exists|j: int|
        0 <= j < rels.len() && ((#[trigger] rels[j].source_id == a && rels[j].target_id == b) || (
        rels[j].target_id == a && rels[j].source_id == b))
}

/// `p` is a path of the relation graph, read without regard to direction.
pub open spec fn is_path(rels: Seq<Relation>, p: Seq<u128>) -> bool {
    &&& p.len() >= 1
    &&& forall|i: int| 0 <= i < p.len() - 1 ==> adjacent(rels, #[trigger] p[i], p[i + 1])
}

/// `p` leads from `from` to `to` over at most `max_depth` relations and visits no
/// entity twice.
pub open spec fn is_route(rels: Seq<Relation>, from: u128, to: u128, max_depth: nat, p: Seq<u128>) -> bool {
    &&& is_path(rels, p)
    &&& p[0] == from
    &&& p.last() == to
    &&& p.len() <= max_depth + 1
    &&& p.no_duplicates()
}

/// Every entity that a relation names, after `from`.
pub open spec fn graph_nodes(rels: Seq<Relation>, from: u128) -> Seq<u128> {
    seq![from] + Seq::new(2 * rels.len(), |i: int| if i % 2 == 0 {
        rels[i / 2].source_id
    } else {
        rels[i / 2].target_id
    })
}

proof fn lemma_distinct_within(v: Seq<u128>, nodes: Seq<u128>)
    requires
        v.no_duplicates(),
        forall|i: int| 0 <= i < v.len() ==> nodes.contains(#[trigger] v[i]),
    ensures
        v.len() <= nodes.len(),
{
    v.unique_seq_to_set();
    nodes.lemma_cardinality_of_set();
    vstd::seq_lib::seq_to_set_is_finite(nodes);
    assert(v.to_set().subset_of(nodes.to_set())) by {
        assert forall|x: u128| v.to_set().contains(x) implies nodes.to_set().contains(x) by {
            let i = choose|i: int| 0 <= i < v.len() && v[i] == x;
            assert(nodes.contains(v[i]));
        }
    }
    vstd::set_lib::lemma_len_subset(v.to_set(), nodes.to_set());
}

fn contains_id(v: &Vec<u128>, x: u128) -> (r: bool)
    ensures
        r == v@.contains(x),
{
    let mut i: usize = 0;
    while i < v.len()
        invariant
            i <= v.len(),
            forall|k: int| 0 <= k < i ==> v@[k] != x,
        decreases v.len() - i,
    {
        if v[i] == x {
            return true;
        }
        i = i + 1;
    }
    false
}

fn extend_path(p: &Vec<u128>, x: u128) -> (r: Vec<u128>)
    ensures
        r@ == p@.push(x),
{
    let mut r: Vec<u128> = Vec::new();
    let mut i: usize = 0;
    while i < p.len()
        invariant
            i <= p.len(),
            r@ == p@.take(i as int),
        decreases p.len() - i,
    {
        r.push(p[i]);
        assert(r@ =~= p@.take(i + 1));
        i = i + 1;
    }
    r.push(x);
    assert(r@ =~= p@.push(x));
    r
}

/// `x` can be reached from `from` over at most `d` relations, read without
/// regard to direction.
pub open spec fn within(rels: Seq<Relation>, from: u128, x: u128, d: nat) -> bool
    decreases d,
{
    if d == 0 {
        x == from
    } else {
        within(rels, from, x, (d - 1) as nat) || exists|y: u128|
            within(rels, from, y, (d - 1) as nat) && #[trigger] adjacent(rels, y, x)
    }
}

/// A path from `from` reaches its last entity within its number of relations.
pub proof fn lemma_path_within(rels: Seq<Relation>, from: u128, p: Seq<u128>)
    requires
        is_path(rels, p),
        p[0] == from,
    ensures
        within(rels, from, p.last(), (p.len() - 1) as nat),
    decreases p.len(),
{
    if p.len() > 1 {
        let q = p.drop_last();
        assert forall|i: int| 0 <= i < q.len() - 1 implies adjacent(rels, #[trigger] q[i], q[i + 1]) by {
            assert(q[i] == p[i] && q[i + 1] == p[i + 1]);
        }
        lemma_path_within(rels, from, q);
        assert(adjacent(rels, p[p.len() - 2], p[p.len() - 1]));
        assert(q.last() == p[p.len() - 2]);
    }
}

/// What holds of every entry of the search queue.
pub open spec fn queue_entry_ok(rels: Seq<Relation>, from: u128, visited: Seq<u128>, e: (u128, Vec<u128>)) -> bool {
    &&& is_path(rels, e.1@)
    &&& e.1@[0] == from
    &&& e.1@.last() == e.0
    &&& e.1@.no_duplicates()
    &&& forall|i: int| 0 <= i < e.1@.len() ==> visited.contains(#[trigger] e.1@[i])
}

/// The number of relations on the path of a queue entry.
pub open spec fn entry_len(e: (u128, Vec<u128>)) -> int {
    e.1@.len() - 1
}

/// The queue holds its paths in order of length.
pub open spec fn sorted_lens(q: Seq<(u128, Vec<u128>)>) -> bool {
    forall|i: int, j: int| 0 <= i <= j < q.len() ==> entry_len(#[trigger] q[i]) <= entry_len(#[trigger] q[j])
}

/// No path in the queue is longer than `top`.
pub open spec fn capped(q: Seq<(u128, Vec<u128>)>, top: int) -> bool {
    forall|j: int| 0 <= j < q.len() ==> entry_len(#[trigger] q[j]) <= top
}

/// Each queue entry's path is a shortest one to its entity.
pub open spec fn shortest_entries(rels: Seq<Relation>, from: u128, q: Seq<(u128, Vec<u128>)>) -> bool {
    forall|i: int, d: nat| 0 <= i < q.len() && #[trigger] within(rels, from, q[i].0, d) ==> entry_len(q[i]) <= d
}

/// Every neighbour of the first `h` queue entries has been seen.
pub open spec fn expanded(rels: Seq<Relation>, q: Seq<(u128, Vec<u128>)>, visited: Seq<u128>, h: int) -> bool {
    forall|i: int, y: u128| 0 <= i < h && #[trigger] adjacent(rels, q[i].0, y) ==> visited.contains(y)
}

/// The seen entities are those of the queue, in order.
pub open spec fn lines_up(q: Seq<(u128, Vec<u128>)>, visited: Seq<u128>) -> bool {
    &&& q.len() == visited.len()
    &&& forall|i: int| 0 <= i < q.len() ==> visited[i] == (#[trigger] q[i]).0
}

/// Both ends of a relation that touches `c` on one side have been seen.
pub open spec fn neighbors_seen(r: Relation, c: u128, visited: Seq<u128>) -> bool {
    &&& (r.source_id == c ==> visited.contains(r.target_id))
    &&& (r.target_id == c ==> visited.contains(r.source_id))
}

/// Every entity reachable within `d` relations has been seen, when `d` does not
/// pass `bound` and every queue entry shorter than `bound` has been expanded.
proof fn lemma_reached(
    rels: Seq<Relation>,
    from: u128,
    q: Seq<(u128, Vec<u128>)>,
    visited: Seq<u128>,
    h: int,
    bound: int,
    x: u128,
    d: nat,
)
    requires
        lines_up(q, visited),
        q.len() > 0,
        visited[0] == from,
        shortest_entries(rels, from, q),
        0 <= h <= q.len(),
        forall|i: int| 0 <= i < q.len() && entry_len(#[trigger] q[i]) < bound ==> i < h,
        expanded(rels, q, visited, h),
        within(rels, from, x, d),
        d <= bound,
    ensures
        visited.contains(x),
    decreases d,
{
    if d == 0 {
        assert(visited[0] == x);
    } else if within(rels, from, x, (d - 1) as nat) {
        lemma_reached(rels, from, q, visited, h, bound, x, (d - 1) as nat);
    } else {
        let y = choose|y: u128| within(rels, from, y, (d - 1) as nat) && #[trigger] adjacent(rels, y, x);
        lemma_reached(rels, from, q, visited, h, bound, y, (d - 1) as nat);
        let i = choose|i: int| 0 <= i < visited.len() && visited[i] == y;
        assert(q[i].0 == y);
        assert(within(rels, from, q[i].0, (d - 1) as nat));
        assert(entry_len(q[i]) <= d - 1);
        assert(adjacent(rels, q[i].0, x));
    }
}

/// A shortest path between two entities over the relation graph, read without
/// regard to direction, found breadth first: neighbours are taken in the order of
/// the relations. `None` exactly when no path of at most `max_depth` relations
/// joins them.
#[verifier::spinoff_prover]
#[verifier::rlimit(60)]
pub fn find_path(rels: &Vec<Relation>, from: u128, to: u128, max_depth: usize) -> (r: Option<Vec<u128>>)
    ensures
        r matches Some(p) ==> is_route(rels@, from, to, max_depth as nat, p@),
        r matches Some(p) ==> forall|q: Seq<u128>| #[trigger] is_route(rels@, from, to, max_depth as nat, q) ==> p@.len() <= q.len(),
        r is None ==> forall|q: Seq<u128>| !#[trigger] is_route(rels@, from, to, max_depth as nat, q),
        from == to ==> (r matches Some(p) && p@ == seq![from]),
{
    if from == to {
        let mut p: Vec<u128> = Vec::new();
        p.push(from);
        assert(p@ =~= seq![from]);
        return Some(p);
    }
    let ghost nodes = graph_nodes(rels@, from);
    let mut visited: Vec<u128> = Vec::new();
    visited.push(from);
    let mut start: Vec<u128> = Vec::new();
    start.push(from);
    let mut queue: Vec<(u128, Vec<u128>)> = Vec::new();
    queue.push((from, start));
    let mut head: usize = 0;
    proof {
        assert(nodes[0] == from);
        assert(visited@[0] == from);
        assert forall|i: int, d: nat| 0 <= i < queue@.len() && #[trigger] within(rels@, from, queue@[i].0, d)
            implies entry_len(queue@[i]) <= d by {
            assert(queue@[i].1@.len() == 1);
        }
    }
    while head < queue.len()
        invariant
            nodes == graph_nodes(rels@, from),
            from != to,
            head <= queue.len(),
            queue.len() >= 1,
            visited@[0] == from,
            lines_up(queue@, visited@),
            visited@.no_duplicates(),
            forall|i: int| 0 <= i < visited@.len() ==> nodes.contains(#[trigger] visited@[i]),
            visited@.len() <= nodes.len(),
            forall|i: int| 0 <= i < queue@.len() ==> queue_entry_ok(rels@, from, visited@, #[trigger] queue@[i]),
            sorted_lens(queue@),
            head < queue.len() ==> capped(queue@, entry_len(queue@[head as int]) + 1),
            shortest_entries(rels@, from, queue@),
            expanded(rels@, queue@, visited@, head as int),
            forall|i: int| 0 <= i < head ==> (#[trigger] queue@[i]).0 != to,
        decreases nodes.len() - head,
    {
        let current = queue[head].0;
        let path_len = queue[head].1.len();
        let ghost h0 = head as int;
        let ghost level = entry_len(queue@[h0]);
        proof {
            assert(queue_entry_ok(rels@, from, visited@, queue@[h0]));
            assert forall|i: int| 0 <= i < queue@.len() && entry_len(#[trigger] queue@[i]) < level implies i < h0 by {
                if i >= h0 {
                    assert(entry_len(queue@[h0]) <= entry_len(queue@[i]));
                }
            }
        }
        head = head + 1;
        if path_len - 1 > max_depth {
            proof {
                assert forall|q: Seq<u128>| !#[trigger] is_route(rels@, from, to, max_depth as nat, q) by {
                    if is_route(rels@, from, to, max_depth as nat, q) {
                        lemma_path_within(rels@, from, q);
                        lemma_reached(rels@, from, queue@, visited@, h0, level, to, (q.len() - 1) as nat);
                        let i = choose|i: int| 0 <= i < visited@.len() && visited@[i] == to;
                        assert(queue@[i].0 == to);
                        assert(within(rels@, from, queue@[i].0, (q.len() - 1) as nat));
                    }
                }
            }
            return None;
        }
        if current == to {
            let p = &queue[head - 1].1;
            let mut out: Vec<u128> = Vec::new();
            let mut i: usize = 0;
            while i < p.len()
                invariant
                    i <= p.len(),
                    out@ == p@.take(i as int),
                decreases p.len() - i,
            {
                out.push(p[i]);
                assert(out@ =~= p@.take(i + 1));
                i = i + 1;
            }
            assert(out@ =~= p@);
            proof {
                assert forall|q: Seq<u128>| #[trigger] is_route(rels@, from, to, max_depth as nat, q) implies out@.len() <= q.len() by {
                    lemma_path_within(rels@, from, q);
                    assert(within(rels@, from, queue@[h0].0, (q.len() - 1) as nat));
                }
            }
            return Some(out);
        }
        let ghost cur_path = queue@[head - 1].1@;
        let mut j: usize = 0;
        while j < rels.len()
            invariant
                nodes == graph_nodes(rels@, from),
                from != to,
                1 <= head <= queue.len(),
                h0 == head - 1,
                queue.len() >= 1,
                visited@[0] == from,
                lines_up(queue@, visited@),
                visited@.no_duplicates(),
                forall|i: int| 0 <= i < visited@.len() ==> nodes.contains(#[trigger] visited@[i]),
                visited@.len() <= nodes.len(),
                forall|i: int| 0 <= i < queue@.len() ==> queue_entry_ok(rels@, from, visited@, #[trigger] queue@[i]),
                sorted_lens(queue@),
                capped(queue@, level + 1),
                level == entry_len(queue@[h0]),
                forall|i: int| 0 <= i < queue@.len() && entry_len(#[trigger] queue@[i]) < level ==> i < h0,
                shortest_entries(rels@, from, queue@),
                expanded(rels@, queue@, visited@, h0),
                forall|i: int| 0 <= i < head ==> (#[trigger] queue@[i]).0 != to,
                forall|jj: int| 0 <= jj < j ==> #[trigger] neighbors_seen(rels@[jj], current, visited@),
                j <= rels.len(),
                is_path(rels@, cur_path),
                cur_path[0] == from,
                cur_path.last() == current,
                cur_path.no_duplicates(),
                forall|i: int| 0 <= i < cur_path.len() ==> visited@.contains(#[trigger] cur_path[i]),
                cur_path == queue@[head - 1].1@,
                current == queue@[h0].0,
            decreases rels.len() - j,
        {
            let rel = &rels[j];
            let mut k: usize = 0;
            while k < 2
                invariant
                    nodes == graph_nodes(rels@, from),
                    from != to,
                    1 <= head <= queue.len(),
                    h0 == head - 1,
                    queue.len() >= 1,
                    visited@[0] == from,
                    lines_up(queue@, visited@),
                    visited@.no_duplicates(),
                    forall|i: int| 0 <= i < visited@.len() ==> nodes.contains(#[trigger] visited@[i]),
                    visited@.len() <= nodes.len(),
                    forall|i: int| 0 <= i < queue@.len() ==> queue_entry_ok(rels@, from, visited@, #[trigger] queue@[i]),
                    sorted_lens(queue@),
                    capped(queue@, level + 1),
                    level == entry_len(queue@[h0]),
                    forall|i: int| 0 <= i < queue@.len() && entry_len(#[trigger] queue@[i]) < level ==> i < h0,
                    shortest_entries(rels@, from, queue@),
                    expanded(rels@, queue@, visited@, h0),
                    forall|i: int| 0 <= i < head ==> (#[trigger] queue@[i]).0 != to,
                    forall|jj: int| 0 <= jj < j ==> #[trigger] neighbors_seen(rels@[jj], current, visited@),
                    k >= 1 ==> (rel.source_id == current ==> visited@.contains(rel.target_id)),
                    k >= 2 ==> (rel.target_id == current ==> visited@.contains(rel.source_id)),
                    j < rels.len(),
                    *rel == rels@[j as int],
                    is_path(rels@, cur_path),
                    cur_path[0] == from,
                    cur_path.last() == current,
                    cur_path.no_duplicates(),
                    forall|i: int| 0 <= i < cur_path.len() ==> visited@.contains(#[trigger] cur_path[i]),
                    cur_path == queue@[head - 1].1@,
                    current == queue@[h0].0,
                    k <= 2,
                decreases 2 - k,
            {
                let ends = if k == 0 {
                    (rel.source_id, rel.target_id)
                } else {
                    (rel.target_id, rel.source_id)
                };
                let seen = contains_id(&visited, ends.1);
                if ends.0 == current && !seen {
                    let neighbor = ends.1;
                    let ghost old_visited = visited@;
                    let ghost old_queue = queue@;
                    proof {
                        assert(adjacent(rels@, current, neighbor));
                        if k == 0 {
                            assert(nodes[2 * j + 2] == neighbor);
                        } else {
                            assert(nodes[2 * j + 1] == neighbor);
                        }
                        assert(nodes.contains(neighbor));
                        let nv = visited@.push(neighbor);
                        assert forall|i: int| 0 <= i < nv.len() implies nodes.contains(#[trigger] nv[i]) by {
                            if i < visited@.len() {
                                assert(nv[i] == visited@[i]);
                            }
                        }
                        assert(nv.no_duplicates());
                        lemma_distinct_within(nv, nodes);
                        // The neighbour is not reachable in fewer relations than
                        // one more than the current entity.
                        assert forall|d: nat| #[trigger] within(rels@, from, neighbor, d) implies level + 1 <= d by {
                            if d <= level {
                                lemma_reached(rels@, from, old_queue, old_visited, h0, level, neighbor, d);
                            }
                        }
                    }
                    let new_path = extend_path(&queue[head - 1].1, neighbor);
                    visited.push(neighbor);
                    proof {
                        let np = new_path@;
                        assert(np.no_duplicates()) by {
                            assert forall|a: int, b: int| 0 <= a < b < np.len() implies np[a] != np[b] by {
                                if b == np.len() - 1 {
                                    assert(np[a] == cur_path[a]);
                                    assert(old_visited.contains(cur_path[a]));
                                }
                            }
                        }
                        assert forall|i: int| 0 <= i < np.len() - 1 implies adjacent(rels@, #[trigger] np[i], np[i + 1]) by {
                            if i < np.len() - 2 {
                                assert(np[i] == cur_path[i] && np[i + 1] == cur_path[i + 1]);
                            }
                        }
                        assert forall|i: int| 0 <= i < visited@.len() implies nodes.contains(#[trigger] visited@[i]) by {
                            if i < old_visited.len() {
                                assert(visited@[i] == old_visited[i]);
                            }
                        }
                        assert forall|i: int| 0 <= i < cur_path.len() implies visited@.contains(#[trigger] cur_path[i]) by {
                            assert(old_visited.contains(cur_path[i]));
                            let w = choose|w: int| 0 <= w < old_visited.len() && old_visited[w] == cur_path[i];
                            assert(visited@[w] == cur_path[i]);
                        }
                        assert forall|i: int| 0 <= i < np.len() implies visited@.contains(#[trigger] np[i]) by {
                            if i < np.len() - 1 {
                                assert(np[i] == cur_path[i]);
                            } else {
                                assert(visited@[visited@.len() - 1] == neighbor);
                            }
                        }
                    }
                    queue.push((neighbor, new_path));
                    proof {
                        let nq = queue@;
                        assert(entry_len(nq[nq.len() - 1]) == level + 1);
                        assert forall|y: u128| old_visited.contains(y) implies visited@.contains(y) by {
                            let w = choose|w: int| 0 <= w < old_visited.len() && old_visited[w] == y;
                            assert(visited@[w] == y);
                        }
                        assert forall|i: int| 0 <= i < queue@.len() implies queue_entry_ok(rels@, from, visited@, #[trigger] queue@[i]) by {
                            if i < old_queue.len() {
                                let e = old_queue[i];
                                assert(queue@[i] == e);
                                assert(queue_entry_ok(rels@, from, old_visited, e));
                                assert forall|x: int| 0 <= x < e.1@.len() implies visited@.contains(#[trigger] e.1@[x]) by {
                                    assert(old_visited.contains(e.1@[x]));
                                }
                            }
                        }
                        assert forall|i: int| 0 <= i < nq.len() implies visited@[i] == (#[trigger] nq[i]).0 by {
                            if i < old_queue.len() {
                                assert(nq[i] == old_queue[i]);
                            }
                        }
                        assert forall|a: int, b: int| 0 <= a <= b < nq.len() implies entry_len(#[trigger] nq[a]) <= entry_len(#[trigger] nq[b]) by {
                            if b < old_queue.len() {
                                assert(nq[a] == old_queue[a] && nq[b] == old_queue[b]);
                            } else if a < old_queue.len() {
                                assert(nq[a] == old_queue[a]);
                            }
                        }
                        assert forall|b: int| 0 <= b < nq.len() implies entry_len(#[trigger] nq[b]) <= level + 1 by {
                            if b < old_queue.len() {
                                assert(nq[b] == old_queue[b]);
                            }
                        }
                        assert forall|i: int| 0 <= i < nq.len() && entry_len(#[trigger] nq[i]) < level implies i < h0 by {
                            if i < old_queue.len() {
                                assert(nq[i] == old_queue[i]);
                            }
                        }
                        assert forall|i: int, d: nat| 0 <= i < nq.len() && #[trigger] within(rels@, from, nq[i].0, d)
                            implies entry_len(nq[i]) <= d by {
                            if i < old_queue.len() {
                                assert(nq[i] == old_queue[i]);
                            }
                        }
                        assert forall|i: int, y: u128| 0 <= i < h0 && #[trigger] adjacent(rels@, nq[i].0, y) implies visited@.contains(y) by {
                            assert(nq[i] == old_queue[i]);
                            assert(old_visited.contains(y));
                        }
                        assert forall|i: int| 0 <= i < head implies (#[trigger] nq[i]).0 != to by {
                            assert(nq[i] == old_queue[i]);
                        }
                        assert forall|jj: int| 0 <= jj < j implies #[trigger] neighbors_seen(rels@[jj], current, visited@) by {
                            assert(neighbors_seen(rels@[jj], current, old_visited));
                        }
                        assert(nq[h0] == old_queue[h0]);
                        assert(visited@[visited@.len() - 1] == neighbor);
                        assert(visited@.contains(neighbor));
                    }
                }
                k = k + 1;
            }
            proof {
                assert(neighbors_seen(rels@[j as int], current, visited@));
            }
            j = j + 1;
        }
        proof {
            assert forall|i: int, y: u128| 0 <= i < head && #[trigger] adjacent(rels@, queue@[i].0, y) implies visited@.contains(y) by {
                if i == h0 {
                    let jj = choose|jj: int| 0 <= jj < rels@.len() && ((#[trigger] rels@[jj].source_id == current && rels@[jj].target_id == y) || (
                        rels@[jj].target_id == current && rels@[jj].source_id == y));
                    assert(neighbors_seen(rels@[jj], current, visited@));
                }
            }
            if head < queue.len() {
                assert(entry_len(queue@[h0]) <= entry_len(queue@[head as int]));
            }
        }
    }
    proof {
        assert forall|q: Seq<u128>| !#[trigger] is_route(rels@, from, to, max_depth as nat, q) by {
            if is_route(rels@, from, to, max_depth as nat, q) {
                lemma_path_within(rels@, from, q);
                lemma_reached(rels@, from, queue@, visited@, head as int, q.len() as int, to, (q.len() - 1) as nat);
                let i = choose|i: int| 0 <= i < visited@.len() && visited@[i] == to;
                assert(queue@[i].0 == to);
            }
        }
    }
    None
}

// ---------------------------------------------------------------------------
// Orphans
// ---------------------------------------------------------------------------

/// No relation names the entity `id` as its source or target.
pub open spec fn is_orphan(rels: Seq<Relation>, id: u128) -> bool {
    forall|j: int| 0 <= j < rels.len() ==> !names(#[trigger] rels[j], id)
}

/// The relation has the entity `id` as its source or its target.
pub open spec fn names(rel: Relation, id: u128) -> bool {
    rel.source_id == id || rel.target_id == id
}

/// The positions, among the first `n` ids, of the entities no relation names.
pub open spec fn orphan_positions(ids: Seq<u128>, rels: Seq<Relation>, n: int) -> Seq<usize>
    decreases n,
{
    if n <= 0 || n > ids.len() {
        Seq::empty()
    } else {
        orphan_positions(ids, rels, n - 1) + (if is_orphan(rels, ids[n - 1]) {
            seq![(n - 1) as usize]
        } else {
            Seq::empty()
        })
    }
}

/// Whether some relation names the entity as its source or its target.
pub fn named_by_relation(rels: &Vec<Relation>, id: u128) -> (r: bool)
    ensures
        r == !is_orphan(rels@, id),
{
    let mut j: usize = 0;
    while j < rels.len()
        invariant
            j <= rels.len(),
            forall|x: int| 0 <= x < j ==> !names(#[trigger] rels@[x], id),
        decreases rels.len() - j,
    {
        if rels[j].source_id == id || rels[j].target_id == id {
            return true;
        }
        j = j + 1;
    }
    false
}

/// The entities that no relation names, as positions in `ids`, in order: the
/// `limit` first (50 by default, at most 100).
pub fn find_orphans(ids: &Vec<u128>, rels: &Vec<Relation>, limit: Option<u32>) -> (r: Vec<usize>)
    ensures
        r@ == orphan_positions(ids@, rels@, ids@.len() as int).take(
            if orphan_positions(ids@, rels@, ids@.len() as int).len() < effective_limit(limit) {
                orphan_positions(ids@, rels@, ids@.len() as int).len() as int
            } else {
                effective_limit(limit) as int
            },
        ),
{
    let lim: usize = match limit {
        Some(l) => if l > 100 {
            100
        } else {
            l as usize
        },
        None => 50,
    };
    let mut r: Vec<usize> = Vec::new();
    let mut i: usize = 0;
    while i < ids.len()
        invariant
            lim == effective_limit(limit),
            i <= ids.len(),
            r@.len() <= lim,
            r@ == orphan_positions(ids@, rels@, i as int),
        decreases ids.len() - i,
    {
        if r.len() >= lim {
            proof {
                lemma_orphans_prefix(ids@, rels@, i as int, ids@.len() as int);
            }
            return r;
        }
        if !named_by_relation(rels, ids[i]) {
            r.push(i);
        }
        assert(r@ =~= orphan_positions(ids@, rels@, i + 1));
        i = i + 1;
    }
    assert(r@ =~= r@.take(r@.len() as int));
    r
}

/// The orphans among fewer ids come first among those of more ids.
proof fn lemma_orphans_prefix(ids: Seq<u128>, rels: Seq<Relation>, m: int, n: int)
    requires
        0 <= m <= n <= ids.len(),
    ensures
        orphan_positions(ids, rels, m).len() <= orphan_positions(ids, rels, n).len(),
        orphan_positions(ids, rels, n).take(orphan_positions(ids, rels, m).len() as int)
            == orphan_positions(ids, rels, m),
    decreases n - m,
{
    if m < n {
        lemma_orphans_prefix(ids, rels, m, n - 1);
        let a = orphan_positions(ids, rels, m);
        let b = orphan_positions(ids, rels, n - 1);
        let c = orphan_positions(ids, rels, n);
        assert(c.take(a.len() as int) =~= b.take(a.len() as int));
    } else {
        assert(orphan_positions(ids, rels, n).take(orphan_positions(ids, rels, m).len() as int)
            =~= orphan_positions(ids, rels, m));
    }
}

} // verus!
