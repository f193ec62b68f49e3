//! Resource subscriptions: which subscription identifiers watch which resource.
use vstd::prelude::*;
use vstd::string::StringExecFns;
use crate::text::{decimal, digit_char, push_decimal, push_str, str_eq, views};

verus! {

/// The identifier of the `n`-th subscription: `sub_{n}`.
pub open spec fn sub_text(n: nat) -> Seq<char> {
    "sub_"@ + decimal(n)
}

/// The subscriptions as values: for each resource, the identifiers watching it.
pub open spec fn entries_view(v: Seq<(String, Vec<String>)>) -> Seq<(Seq<char>, Seq<Seq<char>>)> {
    v.map_values(|e: (String, Vec<String>)| (e.0@, views(e.1@)))
}

/// Some entry is for the resource `uri`.
pub open spec fn has_uri(es: Seq<(Seq<char>, Seq<Seq<char>>)>, uri: Seq<char>) -> bool {
    exists|i: int| 0 <= i < es.len() && (#[trigger] es[i]).0 == uri
}

/// The entry for the resource `uri`.
pub open spec fn uri_index(es: Seq<(Seq<char>, Seq<Seq<char>>)>, uri: Seq<char>) -> int {
    choose|i: int| 0 <= i < es.len() && (#[trigger] es[i]).0 == uri
}

/// The identifiers watching `uri`, none when it has no entry.
pub open spec fn subscribers(es: Seq<(Seq<char>, Seq<Seq<char>>)>, uri: Seq<char>) -> Seq<Seq<char>> {
    if has_uri(es, uri) {
        es[uri_index(es, uri)].1
    } else {
        Seq::empty()
    }
}

/// Some entry holds the identifier `id`.
pub open spec fn has_id(es: Seq<(Seq<char>, Seq<Seq<char>>)>, id: Seq<char>) -> bool {
    exists|i: int| 0 <= i < es.len() && (#[trigger] es[i]).1.contains(id)
}

/// The entries after `id` starts watching `uri`.
pub open spec fn subscribed(es: Seq<(Seq<char>, Seq<Seq<char>>)>, uri: Seq<char>, id: Seq<char>) -> Seq<(Seq<char>, Seq<Seq<char>>)> {
    if has_uri(es, uri) {
        es.update(uri_index(es, uri), (uri, es[uri_index(es, uri)].1.push(id)))
    } else {
        es.push((uri, seq![id]))
    }
}

/// The entries after the subscription `id` ends: its entry no longer lists it.
pub open spec fn unsubscribed(es: Seq<(Seq<char>, Seq<Seq<char>>)>, id: Seq<char>) -> Seq<(Seq<char>, Seq<Seq<char>>)> {
    if has_id(es, id) {
        let i = choose|i: int| 0 <= i < es.len() && (#[trigger] es[i]).1.contains(id);
        let j = choose|j: int| 0 <= j < es[i].1.len() && es[i].1[j] == id;
        es.update(i, (es[i].0, es[i].1.remove(j)))
    } else {
        es
    }
}

/// Each resource has one entry, and no identifier is listed twice.
pub open spec fn entries_ok(es: Seq<(Seq<char>, Seq<Seq<char>>)>) -> bool {
    &&& forall|i: int, j: int| 0 <= i < j < es.len() ==> (#[trigger] es[i]).0 != (#[trigger] es[j]).0
    &&& forall|i: int, k: int, j: int, l: int|
        0 <= i < es.len() && 0 <= k < es[i].1.len() && 0 <= j < es.len() && 0 <= l < es[j].1.len()
        && (i != j || k != l) ==> #[trigger] es[i].1[k] != #[trigger] es[j].1[l]
}

/// Active resource subscriptions.
#[derive(Debug)]
pub struct SubscriptionState {
    /// For each resource URI, the identifiers of its subscriptions.
    pub by_resource: Vec<(String, Vec<String>)>,
    /// The number the next subscription identifier takes.
    next_id: u64,
}

impl SubscriptionState {
    /// The subscriptions as values.
    pub closed spec fn entries(&self) -> Seq<(Seq<char>, Seq<Seq<char>>)> {
        entries_view(self.by_resource@)
    }

    /// The number the next subscription identifier takes.
    pub closed spec fn next(&self) -> nat {
        self.next_id as nat
    }

    /// Each resource has one entry, no identifier is listed twice, and every
    /// identifier is `sub_{n}` for a number below the next one.
    pub closed spec fn wf(&self) -> bool {
        let es = self.entries();
        &&& entries_ok(es)
        &&& forall|i: int, k: int| 0 <= i < es.len() && 0 <= k < es[i].1.len() ==>
            exists|n: nat| n < self.next_id && (#[trigger] es[i].1[k]) == sub_text(n)
    }

    /// Whether another identifier can still be handed out.
    pub fn can_subscribe(&self) -> (r: bool)
        ensures
            r == (self.next() < u64::MAX),
    {
        self.next_id < u64::MAX
    }

    /// No subscriptions.
    pub fn new() -> (r: Self)
        ensures
            r.wf(),
            r.entries().len() == 0,
            r.next() == 0,
    {
        let r = SubscriptionState { by_resource: Vec::new(), next_id: 0 };
        assert(r.entries() =~= Seq::<(Seq<char>, Seq<Seq<char>>)>::empty());
        r
    }
}

proof fn lemma_sub_text_injective(a: nat, b: nat)
    requires
        sub_text(a) == sub_text(b),
    ensures
        a == b,
{
    reveal_strlit("sub_");
    assert(sub_text(a).skip(4) =~= decimal(a));
    assert(sub_text(b).skip(4) =~= decimal(b));
    crate::text::lemma_decimal_injective(a, b);
}

fn sub_string(n: u64) -> (r: String)
    ensures
        r@ == sub_text(n as nat),
{
    let mut r = String::from_str("sub_");
    push_decimal(&mut r, n);
    assert(r@ =~= sub_text(n as nat));
    r
}

fn find_uri(v: &Vec<(String, Vec<String>)>, uri: &str) -> (r: Option<usize>)
    ensures
        match r {
            Some(i) => i < v@.len() && entries_view(v@)[i as int].0 == uri@,
            None => !has_uri(entries_view(v@), uri@),
        },
{
    let ghost es = entries_view(v@);
    let mut i: usize = 0;
    while i < v.len()
        invariant
            i <= v@.len(),
            es == entries_view(v@),
            forall|j: int| 0 <= j < i ==> (#[trigger] es[j]).0 != uri@,
        decreases v.len() - i,
    {
        if str_eq(v[i].0.as_str(), uri) {
            return Some(i);
        }
        i = i + 1;
    }
    None
}

impl SubscriptionState {
    /// Adds a subscription to a resource and gives its identifier, `sub_{n}` for
    /// the next number `n`; the identifier is new.
    pub fn subscribe(&mut self, uri: &str) -> (r: String)
        requires
            old(self).wf(),
            old(self).next() < u64::MAX,
        ensures
            final(self).wf(),
            r@ == sub_text(old(self).next()),
            !has_id(old(self).entries(), r@),
            final(self).next() == old(self).next() + 1,
            final(self).entries() == subscribed(old(self).entries(), uri@, r@),
    {
        let ghost es = self.entries();
        let id = sub_string(self.next_id);
        let ghost old_next = self.next_id;
        proof {
            assert forall|i: int| 0 <= i < es.len() implies !(#[trigger] es[i]).1.contains(id@) by {
                if es[i].1.contains(id@) {
                    let k = choose|k: int| 0 <= k < es[i].1.len() && es[i].1[k] == id@;
                    let n = choose|n: nat| n < old_next && (#[trigger] es[i].1[k]) == sub_text(n);
                    lemma_sub_text_injective(n, old_next as nat);
                }
            }
        }
        self.next_id = self.next_id + 1;
        match find_uri(&self.by_resource, uri) {
            Some(i) => {
                let ghost before = self.by_resource@;
                let (u, mut ids) = self.by_resource.remove(i);
                let ghost old_ids = views(ids@);
                ids.push(id.clone());
                assert(views(ids@) =~= old_ids.push(id@));
                self.by_resource.insert(i, (u, ids));
                proof {
                    let ne = self.entries();
                    assert(self.by_resource@ =~= before.update(i as int, self.by_resource@[i as int]));
                    assert(ne =~= es.update(i as int, (uri@, es[i as int].1.push(id@))));
                    assert(uri_index(es, uri@) == i) by {
                        let c = uri_index(es, uri@);
                        assert(es[c].0 == uri@);
                    }
                    assert(ne == subscribed(es, uri@, id@));
                    assert forall|a: int, b: int, c: int, d: int|
                        0 <= a < ne.len() && 0 <= b < ne[a].1.len() && 0 <= c < ne.len() && 0 <= d < ne[c].1.len()
                        && (a != c || b != d) implies #[trigger] ne[a].1[b] != #[trigger] ne[c].1[d] by {
                        if a != i && c != i {
                            assert(ne[a] == es[a] && ne[c] == es[c]);
                        } else if a == i && c != i {
                            assert(ne[c] == es[c]);
                            if b < es[a].1.len() {
                                assert(ne[a].1[b] == es[a].1[b]);
                            } else {
                                assert(!es[c].1.contains(id@));
                                assert(es[c].1[d] == ne[c].1[d]);
                            }
                        } else if a != i && c == i {
                            assert(ne[a] == es[a]);
                            if d < es[c].1.len() {
                                assert(ne[c].1[d] == es[c].1[d]);
                            } else {
                                assert(!es[a].1.contains(id@));
                            }
                        } else {
                            if b < es[a].1.len() && d < es[a].1.len() {
                                assert(ne[a].1[b] == es[a].1[b] && ne[a].1[d] == es[a].1[d]);
                            } else if b < es[a].1.len() {
                                assert(ne[a].1[b] == es[a].1[b]);
                                assert(!es[a].1.contains(id@));
                            } else if d < es[a].1.len() {
                                assert(ne[a].1[d] == es[a].1[d]);
                                assert(!es[a].1.contains(id@));
                            }
                        }
                    }
                    assert forall|a: int, b: int| 0 <= a < ne.len() && 0 <= b < ne[a].1.len() implies
                        exists|n: nat| n < self.next_id && (#[trigger] ne[a].1[b]) == sub_text(n) by {
                        if a == i && b == es[a].1.len() {
                            assert(ne[a].1[b] == sub_text(old_next as nat));
                        } else {
                            assert(ne[a].1[b] == es[a].1[b]);
                            let n = choose|n: nat| n < old_next && (#[trigger] es[a].1[b]) == sub_text(n);
                            assert(ne[a].1[b] == sub_text(n));
                        }
                    }
                    assert forall|a: int, b: int| 0 <= a < b < ne.len() implies (#[trigger] ne[a]).0 != (#[trigger] ne[b]).0 by {
                        assert(ne[a].0 == es[a].0 && ne[b].0 == es[b].0);
                    }
                }
            },
            None => {
                let ghost before = self.by_resource@;
                let mut ids: Vec<String> = Vec::new();
                ids.push(id.clone());
                self.by_resource.push((String::from_str(uri), ids));
                proof {
                    let ne = self.entries();
                    assert(views(ids@) =~= seq![id@]);
                    assert(ne =~= es.push((uri@, seq![id@])));
                    assert forall|a: int, b: int, c: int, d: int|
                        0 <= a < ne.len() && 0 <= b < ne[a].1.len() && 0 <= c < ne.len() && 0 <= d < ne[c].1.len()
                        && (a != c || b != d) implies #[trigger] ne[a].1[b] != #[trigger] ne[c].1[d] by {
                        if a < es.len() && c < es.len() {
                            assert(ne[a] == es[a] && ne[c] == es[c]);
                        } else if a < es.len() {
                            assert(ne[a] == es[a]);
                            assert(!es[a].1.contains(id@));
                        } else if c < es.len() {
                            assert(ne[c] == es[c]);
                            assert(!es[c].1.contains(id@));
                        }
                    }
                    assert forall|a: int, b: int| 0 <= a < ne.len() && 0 <= b < ne[a].1.len() implies
                        exists|n: nat| n < self.next_id && (#[trigger] ne[a].1[b]) == sub_text(n) by {
                        if a == es.len() {
                            assert(ne[a].1[b] == sub_text(old_next as nat));
                        } else {
                            assert(ne[a] == es[a]);
                            let n = choose|n: nat| n < old_next && (#[trigger] es[a].1[b]) == sub_text(n);
                            assert(ne[a].1[b] == sub_text(n));
                        }
                    }
                    assert forall|a: int, b: int| 0 <= a < b < ne.len() implies (#[trigger] ne[a]).0 != (#[trigger] ne[b]).0 by {
                        if b == es.len() {
                            assert(ne[a] == es[a]);
                        } else {
                            assert(ne[a] == es[a] && ne[b] == es[b]);
                        }
                    }
                }
            },
        }
        id
    }

    /// The identifiers watching a resource, in the order they subscribed; none
    /// when it has no subscription.
    pub fn get_subscribers(&self, uri: &str) -> (r: Vec<String>)
        requires
            self.wf(),
        ensures
            views(r@) == subscribers(self.entries(), uri@),
    {
        match find_uri(&self.by_resource, uri) {
            Some(i) => {
                proof {
                    let es = self.entries();
                    let c = uri_index(es, uri@);
                    assert(es[c].0 == uri@);
                    assert(c == i as int);
                }
                crate::entity::copy_strings(&self.by_resource[i].1)
            },
            None => {
                let r: Vec<String> = Vec::new();
                assert(views(r@) =~= Seq::<Seq<char>>::empty());
                r
            },
        }
    }

    /// Ends all subscriptions (on disconnect); identifiers keep counting up.
    pub fn clear(&mut self)
        requires
            old(self).wf(),
        ensures
            final(self).wf(),
            final(self).entries().len() == 0,
            final(self).next() == old(self).next(),
    {
        self.by_resource = Vec::new();
        assert(self.entries() =~= Seq::<(Seq<char>, Seq<Seq<char>>)>::empty());
    }
}

proof fn lemma_unique_position(es: Seq<(Seq<char>, Seq<Seq<char>>)>, id: Seq<char>, i: int, j: int)
    requires
        entries_ok(es),
        0 <= i < es.len(),
        0 <= j < es[i].1.len(),
        es[i].1[j] == id,
    ensures
        has_id(es, id),
        unsubscribed(es, id) == es.update(i, (es[i].0, es[i].1.remove(j))),
{
    assert(es[i].1.contains(id));
    let ci = choose|a: int| 0 <= a < es.len() && (#[trigger] es[a]).1.contains(id);
    let cj = choose|b: int| 0 <= b < es[ci].1.len() && es[ci].1[b] == id;
    assert(es[ci].1[cj] == es[i].1[j]);
}

impl SubscriptionState {
    /// Ends a subscription; whether it was active.
    pub fn unsubscribe(&mut self, id: &str) -> (r: bool)
        requires
            old(self).wf(),
        ensures
            final(self).wf(),
            r == has_id(old(self).entries(), id@),
            final(self).entries() == unsubscribed(old(self).entries(), id@),
            final(self).next() == old(self).next(),
    {
        let ghost es = self.entries();
        let mut i: usize = 0;
        while i < self.by_resource.len()
            invariant
                i <= self.by_resource@.len(),
                es == self.entries(),
                *self == *old(self),
                old(self).wf(),
                forall|a: int| 0 <= a < i ==> !(#[trigger] es[a]).1.contains(id@),
            decreases self.by_resource.len() - i,
        {
            let mut j: usize = 0;
            while j < self.by_resource[i].1.len()
                invariant
                    i < self.by_resource@.len(),
                    j <= self.by_resource@[i as int].1@.len(),
                    es == self.entries(),
                    *self == *old(self),
                    old(self).wf(),
                    forall|b: int| 0 <= b < j ==> es[i as int].1[b] != id@,
                decreases self.by_resource@[i as int].1@.len() - j,
            {
                if str_eq(self.by_resource[i].1[j].as_str(), id) {
                    proof {
                        assert(es[i as int].1[j as int] == id@);
                        lemma_unique_position(es, id@, i as int, j as int);
                    }
                    let ghost before = self.by_resource@;
                    let (u, mut ids) = self.by_resource.remove(i);
                    let ghost old_ids = views(ids@);
                    ids.remove(j);
                    assert(views(ids@) =~= old_ids.remove(j as int));
                    self.by_resource.insert(i, (u, ids));
                    proof {
                        let ne = self.entries();
                        assert(self.by_resource@ =~= before.update(i as int, self.by_resource@[i as int]));
                        assert(ne =~= es.update(i as int, (es[i as int].0, es[i as int].1.remove(j as int))));
                        assert forall|a: int, b: int, c: int, d: int|
                            0 <= a < ne.len() && 0 <= b < ne[a].1.len() && 0 <= c < ne.len() && 0 <= d < ne[c].1.len()
                            && (a != c || b != d) implies #[trigger] ne[a].1[b] != #[trigger] ne[c].1[d] by {
                            let b2 = if a == i && b >= j { b + 1 } else { b };
                            let d2 = if c == i && d >= j { d + 1 } else { d };
                            assert(ne[a].1[b] == es[a].1[b2]);
                            assert(ne[c].1[d] == es[c].1[d2]);
                        }
                        assert forall|a: int, b: int| 0 <= a < ne.len() && 0 <= b < ne[a].1.len() implies
                            exists|n: nat| n < self.next_id && (#[trigger] ne[a].1[b]) == sub_text(n) by {
                            let b2 = if a == i && b >= j { b + 1 } else { b };
                            assert(ne[a].1[b] == es[a].1[b2]);
                            let n = choose|n: nat| n < self.next_id && (#[trigger] es[a].1[b2]) == sub_text(n);
                            assert(ne[a].1[b] == sub_text(n));
                        }
                        assert forall|a: int, b: int| 0 <= a < b < ne.len() implies (#[trigger] ne[a]).0 != (#[trigger] ne[b]).0 by {
                            assert(ne[a].0 == es[a].0 && ne[b].0 == es[b].0);
                        }
                    }
                    return true;
                }
                j = j + 1;
            }
            assert(!es[i as int].1.contains(id@));
            i = i + 1;
        }
        proof {
            assert(!has_id(es, id@));
        }
        false
    }
}

/// A well-formed state has one entry per resource and lists no identifier twice.
pub proof fn lemma_wf_entries_ok(s: &SubscriptionState)
    requires
        s.wf(),
    ensures
        entries_ok(s.entries()),
{
}

/// A subscription that ends right after it began leaves every resource with the
/// subscribers it had before.
pub proof fn lemma_subscribe_then_unsubscribe(es: Seq<(Seq<char>, Seq<Seq<char>>)>, uri: Seq<char>, id: Seq<char>, u: Seq<char>)
    requires
        entries_ok(es),
        !has_id(es, id),
    ensures
        subscribers(unsubscribed(subscribed(es, uri, id), id), u) == subscribers(es, u),
{
    let ne = subscribed(es, uri, id);
    if has_uri(es, uri) {
        let k = uri_index(es, uri);
        assert(ne == es.update(k, (uri, es[k].1.push(id))));
        assert(entries_ok(ne)) by {
            assert forall|a: int, b: int, c: int, d: int|
                0 <= a < ne.len() && 0 <= b < ne[a].1.len() && 0 <= c < ne.len() && 0 <= d < ne[c].1.len()
                && (a != c || b != d) implies #[trigger] ne[a].1[b] != #[trigger] ne[c].1[d] by {
                if a == k && b == es[k].1.len() {
                    if c != k || d < es[k].1.len() {
                        assert(ne[c].1[d] == es[c].1[d]);
                        assert(!es[c].1.contains(id));
                    }
                } else if c == k && d == es[k].1.len() {
                    assert(ne[a].1[b] == es[a].1[b]);
                    assert(!es[a].1.contains(id));
                } else {
                    assert(ne[a].1[b] == es[a].1[b] && ne[c].1[d] == es[c].1[d]);
                }
            }
            assert forall|a: int, b: int| 0 <= a < b < ne.len() implies (#[trigger] ne[a]).0 != (#[trigger] ne[b]).0 by {
                assert(ne[a].0 == es[a].0 && ne[b].0 == es[b].0);
            }
        }
        assert(es[k].0 == uri);
        assert(ne[k].1[es[k].1.len() as int] == id);
        lemma_unique_position(ne, id, k, es[k].1.len() as int);
        assert(ne[k].1.remove(es[k].1.len() as int) =~= es[k].1);
        assert(unsubscribed(ne, id) =~= es);
    } else {
        assert(ne == es.push((uri, seq![id])));
        let n = es.len() as int;
        assert(entries_ok(ne)) by {
            assert forall|a: int, b: int, c: int, d: int|
                0 <= a < ne.len() && 0 <= b < ne[a].1.len() && 0 <= c < ne.len() && 0 <= d < ne[c].1.len()
                && (a != c || b != d) implies #[trigger] ne[a].1[b] != #[trigger] ne[c].1[d] by {
                if a < n && c < n {
                    assert(ne[a] == es[a] && ne[c] == es[c]);
                } else if a < n {
                    assert(ne[a] == es[a]);
                    assert(!es[a].1.contains(id));
                } else if c < n {
                    assert(ne[c] == es[c]);
                    assert(!es[c].1.contains(id));
                }
            }
            assert forall|a: int, b: int| 0 <= a < b < ne.len() implies (#[trigger] ne[a]).0 != (#[trigger] ne[b]).0 by {
                if b == n {
                    assert(ne[a] == es[a]);
                } else {
                    assert(ne[a] == es[a] && ne[b] == es[b]);
                }
            }
        }
        assert(ne[n].1[0] == id);
        lemma_unique_position(ne, id, n, 0);
        let fe = unsubscribed(ne, id);
        assert(seq![id].remove(0) =~= Seq::<Seq<char>>::empty());
        assert(fe =~= es.push((uri, Seq::<Seq<char>>::empty())));
        if has_uri(es, u) {
            let c = uri_index(es, u);
            assert(fe[c] == es[c]);
            let c2 = uri_index(fe, u);
            assert(fe[c2].0 == u);
            if c2 == n {
                assert(u == uri);
            } else {
                assert(fe[c2] == es[c2]);
            }
        } else {
            if has_uri(fe, u) {
                let c2 = uri_index(fe, u);
                if c2 < n {
                    assert(fe[c2] == es[c2]);
                }
            }
        }
    }
}

} // verus!
