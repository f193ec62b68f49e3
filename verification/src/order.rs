//! Ordering listed items by a numeric key (entities by sequence number,
//! relations by creation instant).
use vstd::prelude::*;
use vstd::multiset::Multiset;
use crate::clock::Timestamp;

verus! {

broadcast use vstd::seq_lib::group_to_multiset_ensures;

/// The items are in non-decreasing order of their keys.
pub open spec fn keys_sorted<T>(s: Seq<(i128, T)>) -> bool {
    forall|i: int, j: int| 0 <= i < j < s.len() ==> s[i].0 <= s[j].0
}

/// Sorts items by their keys (the order among items with equal keys is not
/// stated).
pub fn sort_by_key<T>(v: Vec<(i128, T)>) -> (r: Vec<(i128, T)>)
    ensures
        keys_sorted(r@),
        r@.to_multiset() == v@.to_multiset(),
{
    let mut src = v;
    let ghost orig = src@;
    let mut out: Vec<(i128, T)> = Vec::new();
    assert(out@.to_multiset() =~= Multiset::<(i128, T)>::empty());
    while src.len() > 0
        invariant
            keys_sorted(out@),
            orig.to_multiset() == src@.to_multiset().add(out@.to_multiset()),
        decreases src.len(),
    {
        let ghost before = src@;
        let x = src.pop().unwrap();
        assert(before =~= src@.push(x));
        let k = x.0;
        let mut pos: usize = 0;
        while pos < out.len() && out[pos].0 < k
            invariant
                pos <= out.len(),
                keys_sorted(out@),
                forall|i: int| 0 <= i < pos ==> out@[i].0 < k,
            decreases out.len() - pos,
        {
            pos = pos + 1;
        }
        let ghost prev = out@;
        out.insert(pos, x);
        assert(out@ == prev.insert(pos as int, x));
        assert forall|i: int, j: int| 0 <= i < j < out@.len() implies out@[i].0 <= out@[j].0 by {
            if j < pos {
                assert(out@[i] == prev[i] && out@[j] == prev[j]);
            } else if j == pos {
                assert(out@[i] == prev[i]);
            } else if i < pos {
                assert(out@[i] == prev[i] && out@[j] == prev[j - 1]);
                assert(prev[pos as int].0 >= k);
            } else if i == pos {
                assert(out@[j] == prev[j - 1]);
                assert(prev[pos as int].0 >= k);
            } else {
                assert(out@[i] == prev[i - 1] && out@[j] == prev[j - 1]);
            }
        }
    }
    assert(src@.to_multiset() =~= Multiset::<(i128, T)>::empty());
    assert(orig.to_multiset() =~= out@.to_multiset());
    out
}

/// The key an instant sorts by: nanoseconds since the Unix epoch.
pub open spec fn instant_key(t: Timestamp) -> int {
    t.secs * 1_000_000_000 + t.nanos
}

/// The key an instant sorts by: nanoseconds since the Unix epoch.
pub fn instant_sort_key(t: &Timestamp) -> (r: i128)
    ensures
        r == instant_key(*t),
{
    (t.secs as i128) * 1_000_000_000 + (t.nanos as i128)
}

} // verus!
