//! Listing what the store holds: the entities read from their records, in order
//! of sequence number, and the relations, in order of creation.
use vstd::prelude::*;
use crate::entity::{Component, Decision, Link, Note, Prompt, Relation, Task};
use crate::order::{instant_key, instant_sort_key, sort_by_key};
use crate::record::{
    base_readable, component_read, decision_read, link_read, note_read, prompt_read,
    read_component, read_decision, read_link, read_note, read_prompt, read_relation, read_task,
    relation_read, relation_readable, task_read, FieldValue, Record,
};

verus! {

/// How many of the first `n` records can be read.
pub open spec fn count_readable(recs: Seq<Record>, readable: spec_fn(Seq<(String, FieldValue)>) -> bool, n: int) -> nat
    decreases n,
{
    if n <= 0 || n > recs.len() {
        0
    } else {
        count_readable(recs, readable, n - 1) + if readable(recs[n - 1].fields@) { 1nat } else { 0nat }
    }
}

/// `item` was read from one of the first `n` records.
pub open spec fn read_from<T>(
    recs: Seq<Record>,
    n: int,
    readable: spec_fn(Seq<(String, FieldValue)>) -> bool,
    reads: spec_fn(Seq<(String, FieldValue)>, T) -> bool,
    item: T,
) -> bool {
    exists|j: int| 0 <= j < n && readable(recs[j].fields@) && #[trigger] reads(recs[j].fields@, item)
}

/// The `j`-th record was read into one of `items`.
pub open spec fn read_into<T>(
    recs: Seq<Record>,
    j: int,
    reads: spec_fn(Seq<(String, FieldValue)>, T) -> bool,
    items: Seq<T>,
) -> bool {
    exists|i: int| 0 <= i < items.len() && #[trigger] reads(recs[j].fields@, items[i])
}

/// `r` lists what the records read as: one item for each readable record, each
/// read from one of them, every readable record read into one, in
/// non-decreasing order of `key`.
pub open spec fn lists_records<T>(
    recs: Seq<Record>,
    r: Seq<T>,
    readable: spec_fn(Seq<(String, FieldValue)>) -> bool,
    reads: spec_fn(Seq<(String, FieldValue)>, T) -> bool,
    key: spec_fn(T) -> int,
) -> bool {
    &&& r.len() == count_readable(recs, readable, recs.len() as int)
    &&& forall|i: int, j: int| 0 <= i <= j < r.len() ==> key(#[trigger] r[i]) <= key(#[trigger] r[j])
    &&& forall|i: int| 0 <= i < r.len() ==> read_from(recs, recs.len() as int, readable, reads, #[trigger] r[i])
    &&& forall|j: int| 0 <= j < recs.len() && readable(recs[j].fields@) ==> #[trigger] read_into(recs, j, reads, r)
}

/// The second items of keyed pairs.
pub open spec fn seconds<T>(keyed: Seq<(i128, T)>) -> Seq<T> {
    keyed.map_values(|p: (i128, T)| p.1)
}

/// What the keyed items read so far satisfy: keys are `key` of the items, each
/// item was read from one of the first `n` records, and each readable one of
/// them was read into one.
pub open spec fn keyed_reads<T>(
    recs: Seq<Record>,
    keyed: Seq<(i128, T)>,
    readable: spec_fn(Seq<(String, FieldValue)>) -> bool,
    reads: spec_fn(Seq<(String, FieldValue)>, T) -> bool,
    key: spec_fn(T) -> int,
    n: int,
) -> bool {
    &&& keyed.len() == count_readable(recs, readable, n)
    &&& forall|m: int| 0 <= m < keyed.len() ==> (#[trigger] keyed[m]).0 == key(keyed[m].1)
    &&& forall|m: int| 0 <= m < keyed.len() ==> read_from(recs, n, readable, reads, (#[trigger] keyed[m]).1)
    &&& forall|j: int| 0 <= j < n && readable(recs[j].fields@) ==> #[trigger] read_into(recs, j, reads, seconds(keyed))
}

/// Two orderings of the same items have the same length, and each item of one
/// is an item of the other.
proof fn lemma_same_items<T>(a: Seq<T>, b: Seq<T>)
    requires
        a.to_multiset() == b.to_multiset(),
    ensures
        a.len() == b.len(),
        forall|i: int| 0 <= i < a.len() ==> b.contains(#[trigger] a[i]),
        forall|m: int| 0 <= m < b.len() ==> a.contains(#[trigger] b[m]),
{
    a.to_multiset_ensures();
    b.to_multiset_ensures();
    assert(a.to_multiset().len() == b.to_multiset().len());
    assert forall|i: int| 0 <= i < a.len() implies b.contains(#[trigger] a[i]) by {
        assert(a.contains(a[i]));
        assert(a.to_multiset().count(a[i]) > 0);
        assert(b.contains(a[i]));
    }
    assert forall|m: int| 0 <= m < b.len() implies a.contains(#[trigger] b[m]) by {
        assert(b.contains(b[m]));
        assert(b.to_multiset().count(b[m]) > 0);
        assert(a.contains(b[m]));
    }
}

/// Once the read items are put in key order and stripped of their keys, they
/// are in order of `key`.
#[verifier::spinoff_prover]
proof fn lemma_listing_sorted<T>(
    orig: Seq<(i128, T)>,
    srt: Seq<(i128, T)>,
    r: Seq<T>,
    key: spec_fn(T) -> int,
)
    requires
        forall|m: int| 0 <= m < orig.len() ==> (#[trigger] orig[m]).0 == key(orig[m].1),
        crate::order::keys_sorted(srt),
        forall|i: int| 0 <= i < srt.len() ==> orig.contains(#[trigger] srt[i]),
        r.len() == srt.len(),
        forall|x: int| 0 <= x < r.len() ==> r[x] == (#[trigger] srt[x]).1,
    ensures
        forall|a: int, b: int| 0 <= a <= b < r.len() ==> key(#[trigger] r[a]) <= key(#[trigger] r[b]),
{
    assert forall|x: int| 0 <= x < srt.len() implies (#[trigger] srt[x]).0 == key(srt[x].1) by {
        assert(orig.contains(srt[x]));
        let m = choose|m: int| 0 <= m < orig.len() && orig[m] == srt[x];
        assert(orig[m].0 == key(orig[m].1));
    }
    assert forall|a: int, b: int| 0 <= a <= b < r.len() implies key(#[trigger] r[a]) <= key(#[trigger] r[b]) by {
        assert(srt[a].0 == key(srt[a].1) && srt[b].0 == key(srt[b].1));
        assert(r[a] == srt[a].1 && r[b] == srt[b].1);
        if a < b {
            assert(srt[a].0 <= srt[b].0);
        }
    }
}

/// Once the read items are put in key order and stripped of their keys, each
/// was read from a record.
#[verifier::spinoff_prover]
proof fn lemma_listing_read<T>(
    recs: Seq<Record>,
    orig: Seq<(i128, T)>,
    srt: Seq<(i128, T)>,
    r: Seq<T>,
    readable: spec_fn(Seq<(String, FieldValue)>) -> bool,
    reads: spec_fn(Seq<(String, FieldValue)>, T) -> bool,
)
    requires
        forall|m: int| 0 <= m < orig.len() ==> read_from(recs, recs.len() as int, readable, reads, (#[trigger] orig[m]).1),
        forall|i: int| 0 <= i < srt.len() ==> orig.contains(#[trigger] srt[i]),
        r.len() == srt.len(),
        forall|x: int| 0 <= x < r.len() ==> r[x] == (#[trigger] srt[x]).1,
    ensures
        forall|x: int| 0 <= x < r.len() ==> read_from(recs, recs.len() as int, readable, reads, #[trigger] r[x]),
{
    assert forall|x: int| 0 <= x < r.len() implies read_from(recs, recs.len() as int, readable, reads, #[trigger] r[x]) by {
        assert(r[x] == srt[x].1);
        assert(orig.contains(srt[x]));
        let m = choose|m: int| 0 <= m < orig.len() && orig[m] == srt[x];
        assert(read_from(recs, recs.len() as int, readable, reads, orig[m].1));
    }
}

/// Once the read items are put in key order and stripped of their keys, every
/// readable record is read into one.
#[verifier::spinoff_prover]
proof fn lemma_listing_complete<T>(
    recs: Seq<Record>,
    orig: Seq<(i128, T)>,
    srt: Seq<(i128, T)>,
    r: Seq<T>,
    readable: spec_fn(Seq<(String, FieldValue)>) -> bool,
    reads: spec_fn(Seq<(String, FieldValue)>, T) -> bool,
)
    requires
        forall|j: int| 0 <= j < recs.len() && readable(recs[j].fields@) ==> #[trigger] read_into(recs, j, reads, seconds(orig)),
        forall|m: int| 0 <= m < orig.len() ==> srt.contains(#[trigger] orig[m]),
        r.len() == srt.len(),
        forall|x: int| 0 <= x < r.len() ==> r[x] == (#[trigger] srt[x]).1,
    ensures
        forall|j: int| 0 <= j < recs.len() && readable(recs[j].fields@) ==> #[trigger] read_into(recs, j, reads, r),
{
    assert forall|j: int| 0 <= j < recs.len() && readable(recs[j].fields@) implies #[trigger] read_into(recs, j, reads, r) by {
        assert(read_into(recs, j, reads, seconds(orig)));
        let m = choose|m: int| 0 <= m < seconds(orig).len() && #[trigger] reads(recs[j].fields@, seconds(orig)[m]);
        assert(seconds(orig)[m] == orig[m].1);
        assert(srt.contains(orig[m]));
        let x = choose|x: int| 0 <= x < srt.len() && srt[x] == orig[m];
        assert(r[x] == orig[m].1);
        assert(reads(recs[j].fields@, r[x]));
    }
}

/// Reading one more record keeps what the keyed items satisfy.
#[verifier::spinoff_prover]
proof fn lemma_keyed_step<T>(
    recs: Seq<Record>,
    before: Seq<(i128, T)>,
    after: Seq<(i128, T)>,
    readable: spec_fn(Seq<(String, FieldValue)>) -> bool,
    reads: spec_fn(Seq<(String, FieldValue)>, T) -> bool,
    key: spec_fn(T) -> int,
    j: int,
)
    requires
        keyed_reads(recs, before, readable, reads, key, j),
        0 <= j < recs.len(),
        readable(recs[j].fields@) ==> after.len() == before.len() + 1
            && after.drop_last() == before
            && reads(recs[j].fields@, after.last().1)
            && after.last().0 == key(after.last().1),
        !readable(recs[j].fields@) ==> after == before,
    ensures
        keyed_reads(recs, after, readable, reads, key, j + 1),
{
    assert(count_readable(recs, readable, j + 1) == count_readable(recs, readable, j)
        + if readable(recs[j].fields@) { 1nat } else { 0nat });
    assert forall|m: int| 0 <= m < before.len() implies after[m] == #[trigger] before[m] by {
        if readable(recs[j].fields@) {
            assert(after.drop_last()[m] == after[m]);
        }
    }
    assert forall|m: int| 0 <= m < after.len() implies (#[trigger] after[m]).0 == key(after[m].1) by {
        if m < before.len() {
            assert(after[m] == before[m]);
        }
    }
    assert forall|m: int| 0 <= m < after.len() implies read_from(recs, j + 1, readable, reads, (#[trigger] after[m]).1) by {
        if m < before.len() {
            assert(after[m] == before[m]);
            assert(read_from(recs, j, readable, reads, before[m].1));
            let j2 = choose|j2: int| 0 <= j2 < j && readable(recs[j2].fields@) && #[trigger] reads(recs[j2].fields@, before[m].1);
            assert(reads(recs[j2].fields@, after[m].1));
        } else {
            assert(after[m] == after.last());
            assert(reads(recs[j].fields@, after[m].1));
        }
    }
    assert forall|j2: int| 0 <= j2 < j + 1 && readable(recs[j2].fields@) implies #[trigger] read_into(recs, j2, reads, seconds(after)) by {
        if j2 < j {
            assert(read_into(recs, j2, reads, seconds(before)));
            let m = choose|m: int| 0 <= m < seconds(before).len() && #[trigger] reads(recs[j2].fields@, seconds(before)[m]);
            assert(after[m] == before[m]);
            assert(seconds(after)[m] == seconds(before)[m]);
        } else {
            let last = after.len() - 1;
            assert(seconds(after)[last] == after.last().1);
            assert(reads(recs[j2].fields@, seconds(after)[last]));
        }
    }
}

#[verifier::spinoff_prover]
fn in_key_order<T>(
    keyed: Vec<(i128, T)>,
    Ghost(recs): Ghost<Seq<Record>>,
    Ghost(readable): Ghost<spec_fn(Seq<(String, FieldValue)>) -> bool>,
    Ghost(reads): Ghost<spec_fn(Seq<(String, FieldValue)>, T) -> bool>,
    Ghost(key): Ghost<spec_fn(T) -> int>,
) -> (r: Vec<T>)
    requires
        keyed_reads(recs, keyed@, readable, reads, key, recs.len() as int),
    ensures
        lists_records(recs, r@, readable, reads, key),
{
    let ghost orig = keyed@;
    let sorted = sort_by_key(keyed);
    let ghost srt = sorted@;
    proof {
        lemma_same_items(srt, orig);
    }
    let mut rest = sorted;
    let mut out: Vec<T> = Vec::new();
    let n = rest.len();
    let mut i: usize = 0;
    while i < n
        invariant
            n == srt.len(),
            i <= n,
            rest@ == srt.skip(i as int),
            out@.len() == i,
            forall|x: int| 0 <= x < i ==> out@[x] == (#[trigger] srt[x]).1,
        decreases n - i,
    {
        let ghost before = rest@;
        let item = rest.remove(0);
        assert(rest@ =~= srt.skip(i + 1));
        assert(item == srt[i as int]);
        out.push(item.1);
        i = i + 1;
    }
    proof {
        lemma_listing_sorted(orig, srt, out@, key);
        lemma_listing_read(recs, orig, srt, out@, readable, reads);
        lemma_listing_complete(recs, orig, srt, out@, readable, reads);
    }
    out
}

/// A link's record can be read: the common fields read and there is a URL.
pub open spec fn link_readable(f: Seq<(String, FieldValue)>) -> bool {
    base_readable(f) && crate::record::text_of(f, "url"@) is Some
}

/// The decisions the records hold, in order of sequence number.
pub fn list_decisions(recs: &Vec<Record>) -> (r: Vec<Decision>)
    ensures
        lists_records(
            recs@,
            r@,
            |f: Seq<(String, FieldValue)>| base_readable(f),
            |f: Seq<(String, FieldValue)>, d: Decision| decision_read(f, d),
            |d: Decision| d.base.sequence_number as int,
        ),
{
    let ghost readable = |f: Seq<(String, FieldValue)>| base_readable(f);
    let ghost reads = |f: Seq<(String, FieldValue)>, d: Decision| decision_read(f, d);
    let ghost key = |d: Decision| d.base.sequence_number as int;
    let mut keyed: Vec<(i128, Decision)> = Vec::new();
    let mut j: usize = 0;
    while j < recs.len()
        invariant
            j <= recs@.len(),
            readable == (|f: Seq<(String, FieldValue)>| base_readable(f)),
            reads == (|f: Seq<(String, FieldValue)>, d: Decision| decision_read(f, d)),
            key == (|d: Decision| d.base.sequence_number as int),
            keyed_reads(recs@, keyed@, readable, reads, key, j as int),
        decreases recs.len() - j,
    {
        let ghost before = keyed@;
        if let Some(d) = read_decision(&recs[j]) {
            let k = d.base.sequence_number as i128;
            keyed.push((k, d));
            assert(keyed@.drop_last() =~= before);
        }
        proof {
            lemma_keyed_step(recs@, before, keyed@, readable, reads, key, j as int);
        }
        j = j + 1;
    }
    in_key_order(keyed, Ghost(recs@), Ghost(readable), Ghost(reads), Ghost(key))
}

/// The tasks the records hold, in order of sequence number.
pub fn list_tasks(recs: &Vec<Record>) -> (r: Vec<Task>)
    ensures
        lists_records(
            recs@,
            r@,
            |f: Seq<(String, FieldValue)>| base_readable(f),
            |f: Seq<(String, FieldValue)>, d: Task| task_read(f, d),
            |d: Task| d.base.sequence_number as int,
        ),
{
    let ghost readable = |f: Seq<(String, FieldValue)>| base_readable(f);
    let ghost reads = |f: Seq<(String, FieldValue)>, d: Task| task_read(f, d);
    let ghost key = |d: Task| d.base.sequence_number as int;
    let mut keyed: Vec<(i128, Task)> = Vec::new();
    let mut j: usize = 0;
    while j < recs.len()
        invariant
            j <= recs@.len(),
            readable == (|f: Seq<(String, FieldValue)>| base_readable(f)),
            reads == (|f: Seq<(String, FieldValue)>, d: Task| task_read(f, d)),
            key == (|d: Task| d.base.sequence_number as int),
            keyed_reads(recs@, keyed@, readable, reads, key, j as int),
        decreases recs.len() - j,
    {
        let ghost before = keyed@;
        if let Some(d) = read_task(&recs[j]) {
            let k = d.base.sequence_number as i128;
            keyed.push((k, d));
            assert(keyed@.drop_last() =~= before);
        }
        proof {
            lemma_keyed_step(recs@, before, keyed@, readable, reads, key, j as int);
        }
        j = j + 1;
    }
    in_key_order(keyed, Ghost(recs@), Ghost(readable), Ghost(reads), Ghost(key))
}

/// The notes the records hold, in order of sequence number.
pub fn list_notes(recs: &Vec<Record>) -> (r: Vec<Note>)
    ensures
        lists_records(
            recs@,
            r@,
            |f: Seq<(String, FieldValue)>| base_readable(f),
            |f: Seq<(String, FieldValue)>, d: Note| note_read(f, d),
            |d: Note| d.base.sequence_number as int,
        ),
{
    let ghost readable = |f: Seq<(String, FieldValue)>| base_readable(f);
    let ghost reads = |f: Seq<(String, FieldValue)>, d: Note| note_read(f, d);
    let ghost key = |d: Note| d.base.sequence_number as int;
    let mut keyed: Vec<(i128, Note)> = Vec::new();
    let mut j: usize = 0;
    while j < recs.len()
        invariant
            j <= recs@.len(),
            readable == (|f: Seq<(String, FieldValue)>| base_readable(f)),
            reads == (|f: Seq<(String, FieldValue)>, d: Note| note_read(f, d)),
            key == (|d: Note| d.base.sequence_number as int),
            keyed_reads(recs@, keyed@, readable, reads, key, j as int),
        decreases recs.len() - j,
    {
        let ghost before = keyed@;
        if let Some(d) = read_note(&recs[j]) {
            let k = d.base.sequence_number as i128;
            keyed.push((k, d));
            assert(keyed@.drop_last() =~= before);
        }
        proof {
            lemma_keyed_step(recs@, before, keyed@, readable, reads, key, j as int);
        }
        j = j + 1;
    }
    in_key_order(keyed, Ghost(recs@), Ghost(readable), Ghost(reads), Ghost(key))
}

/// The prompts the records hold, in order of sequence number.
pub fn list_prompts(recs: &Vec<Record>) -> (r: Vec<Prompt>)
    ensures
        lists_records(
            recs@,
            r@,
            |f: Seq<(String, FieldValue)>| base_readable(f),
            |f: Seq<(String, FieldValue)>, d: Prompt| prompt_read(f, d),
            |d: Prompt| d.base.sequence_number as int,
        ),
{
    let ghost readable = |f: Seq<(String, FieldValue)>| base_readable(f);
    let ghost reads = |f: Seq<(String, FieldValue)>, d: Prompt| prompt_read(f, d);
    let ghost key = |d: Prompt| d.base.sequence_number as int;
    let mut keyed: Vec<(i128, Prompt)> = Vec::new();
    let mut j: usize = 0;
    while j < recs.len()
        invariant
            j <= recs@.len(),
            readable == (|f: Seq<(String, FieldValue)>| base_readable(f)),
            reads == (|f: Seq<(String, FieldValue)>, d: Prompt| prompt_read(f, d)),
            key == (|d: Prompt| d.base.sequence_number as int),
            keyed_reads(recs@, keyed@, readable, reads, key, j as int),
        decreases recs.len() - j,
    {
        let ghost before = keyed@;
        if let Some(d) = read_prompt(&recs[j]) {
            let k = d.base.sequence_number as i128;
            keyed.push((k, d));
            assert(keyed@.drop_last() =~= before);
        }
        proof {
            lemma_keyed_step(recs@, before, keyed@, readable, reads, key, j as int);
        }
        j = j + 1;
    }
    in_key_order(keyed, Ghost(recs@), Ghost(readable), Ghost(reads), Ghost(key))
}

/// The components the records hold, in order of sequence number.
pub fn list_components(recs: &Vec<Record>) -> (r: Vec<Component>)
    ensures
        lists_records(
            recs@,
            r@,
            |f: Seq<(String, FieldValue)>| base_readable(f),
            |f: Seq<(String, FieldValue)>, d: Component| component_read(f, d),
            |d: Component| d.base.sequence_number as int,
        ),
{
    let ghost readable = |f: Seq<(String, FieldValue)>| base_readable(f);
    let ghost reads = |f: Seq<(String, FieldValue)>, d: Component| component_read(f, d);
    let ghost key = |d: Component| d.base.sequence_number as int;
    let mut keyed: Vec<(i128, Component)> = Vec::new();
    let mut j: usize = 0;
    while j < recs.len()
        invariant
            j <= recs@.len(),
            readable == (|f: Seq<(String, FieldValue)>| base_readable(f)),
            reads == (|f: Seq<(String, FieldValue)>, d: Component| component_read(f, d)),
            key == (|d: Component| d.base.sequence_number as int),
            keyed_reads(recs@, keyed@, readable, reads, key, j as int),
        decreases recs.len() - j,
    {
        let ghost before = keyed@;
        if let Some(d) = read_component(&recs[j]) {
            let k = d.base.sequence_number as i128;
            keyed.push((k, d));
            assert(keyed@.drop_last() =~= before);
        }
        proof {
            lemma_keyed_step(recs@, before, keyed@, readable, reads, key, j as int);
        }
        j = j + 1;
    }
    in_key_order(keyed, Ghost(recs@), Ghost(readable), Ghost(reads), Ghost(key))
}

/// The links the records hold, in order of sequence number.
pub fn list_links(recs: &Vec<Record>) -> (r: Vec<Link>)
    ensures
        lists_records(
            recs@,
            r@,
            |f: Seq<(String, FieldValue)>| link_readable(f),
            |f: Seq<(String, FieldValue)>, d: Link| link_read(f, d),
            |d: Link| d.base.sequence_number as int,
        ),
{
    let ghost readable = |f: Seq<(String, FieldValue)>| link_readable(f);
    let ghost reads = |f: Seq<(String, FieldValue)>, d: Link| link_read(f, d);
    let ghost key = |d: Link| d.base.sequence_number as int;
    let mut keyed: Vec<(i128, Link)> = Vec::new();
    let mut j: usize = 0;
    while j < recs.len()
        invariant
            j <= recs@.len(),
            readable == (|f: Seq<(String, FieldValue)>| link_readable(f)),
            reads == (|f: Seq<(String, FieldValue)>, d: Link| link_read(f, d)),
            key == (|d: Link| d.base.sequence_number as int),
            keyed_reads(recs@, keyed@, readable, reads, key, j as int),
        decreases recs.len() - j,
    {
        let ghost before = keyed@;
        if let Some(d) = read_link(&recs[j]) {
            let k = d.base.sequence_number as i128;
            keyed.push((k, d));
            assert(keyed@.drop_last() =~= before);
        }
        proof {
            lemma_keyed_step(recs@, before, keyed@, readable, reads, key, j as int);
        }
        j = j + 1;
    }
    in_key_order(keyed, Ghost(recs@), Ghost(readable), Ghost(reads), Ghost(key))
}

/// The relations the records hold, in order of creation.
pub fn list_relations(recs: &Vec<Record>) -> (r: Vec<Relation>)
    ensures
        lists_records(
            recs@,
            r@,
            |f: Seq<(String, FieldValue)>| relation_readable(f),
            |f: Seq<(String, FieldValue)>, d: Relation| relation_read(f, d),
            |d: Relation| instant_key(d.created_at),
        ),
{
    let ghost readable = |f: Seq<(String, FieldValue)>| relation_readable(f);
    let ghost reads = |f: Seq<(String, FieldValue)>, d: Relation| relation_read(f, d);
    let ghost key = |d: Relation| instant_key(d.created_at);
    let mut keyed: Vec<(i128, Relation)> = Vec::new();
    let mut j: usize = 0;
    while j < recs.len()
        invariant
            j <= recs@.len(),
            readable == (|f: Seq<(String, FieldValue)>| relation_readable(f)),
            reads == (|f: Seq<(String, FieldValue)>, d: Relation| relation_read(f, d)),
            key == (|d: Relation| instant_key(d.created_at)),
            keyed_reads(recs@, keyed@, readable, reads, key, j as int),
        decreases recs.len() - j,
    {
        let ghost before = keyed@;
        if let Some(d) = read_relation(&recs[j]) {
            let k = instant_sort_key(&d.created_at);
            keyed.push((k, d));
            assert(keyed@.drop_last() =~= before);
        }
        proof {
            lemma_keyed_step(recs@, before, keyed@, readable, reads, key, j as int);
        }
        j = j + 1;
    }
    in_key_order(keyed, Ghost(recs@), Ghost(readable), Ghost(reads), Ghost(key))
}

/// Relations are listed oldest first: of two listed relations, the later in the
/// list was created no earlier than the earlier (for instants whose nanoseconds
/// are below one second, as the clock gives them).
pub proof fn lemma_relations_oldest_first(recs: Seq<Record>, r: Seq<Relation>)
    requires
        lists_records(
            recs,
            r,
            |f: Seq<(String, FieldValue)>| relation_readable(f),
            |f: Seq<(String, FieldValue)>, d: Relation| relation_read(f, d),
            |d: Relation| instant_key(d.created_at),
        ),
        forall|k: int| 0 <= k < r.len() ==> 0 <= (#[trigger] r[k]).created_at.nanos < 1_000_000_000,
    ensures
        forall|i: int, j: int| 0 <= i < j < r.len() ==>
            crate::clock::not_earlier((#[trigger] r[j]).created_at, (#[trigger] r[i]).created_at),
{
    assert forall|i: int, j: int| 0 <= i < j < r.len() implies
        crate::clock::not_earlier((#[trigger] r[j]).created_at, (#[trigger] r[i]).created_at) by {
        let a = r[i].created_at;
        let b = r[j].created_at;
        assert(instant_key(a) <= instant_key(b));
        let x: int = a.secs as int;
        let y: int = b.secs as int;
        let n: int = a.nanos as int;
        let m: int = b.nanos as int;
        assert(instant_key(a) == x * 1_000_000_000 + n);
        assert(instant_key(b) == y * 1_000_000_000 + m);
        assert(y > x || (y == x && m >= n)) by (nonlinear_arith)
            requires
                x * 1_000_000_000 + n <= y * 1_000_000_000 + m,
                0 <= n < 1_000_000_000,
                0 <= m < 1_000_000_000,
        ;
    }
}

} // verus!
