//! URL-safe slugs for snapshot file names.
use vstd::prelude::*;
use crate::text::{chars_of, push_char, string_from_chars};
use vstd::string::StringExecFns;

verus! {

/// An ASCII letter or digit.
pub open spec fn is_ascii_alnum(c: char) -> bool {
    ('0' <= c && c <= '9') || ('a' <= c && c <= 'z') || ('A' <= c && c <= 'Z')
}

/// The ASCII lowercase of a character; other characters are unchanged.
pub open spec fn ascii_lower(c: char) -> char {
    if 'A' <= c && c <= 'Z' {
        ((c as int) + 32) as char
    } else {
        c
    }
}

/// The slug built so far from `s`, and whether its last character is a hyphen
/// (true at the start, so that leading separators are dropped).
pub open spec fn slug_scan(s: Seq<char>) -> (Seq<char>, bool)
    decreases s.len(),
{
    if s.len() == 0 {
        (Seq::empty(), true)
    } else {
        let prev = slug_scan(s.drop_last());
        let c = s.last();
        if is_ascii_alnum(c) {
            (prev.0.push(ascii_lower(c)), false)
        } else if !prev.1 {
            (prev.0.push('-'), true)
        } else {
            prev
        }
    }
}

/// The slug of a title: ASCII letters and digits lowercased, every run of other
/// characters turned into one hyphen, no hyphen at either end, and `untitled`
/// when nothing is left.
pub open spec fn slug_of(s: Seq<char>) -> Seq<char> {
    let raw = slug_scan(s).0;
    let trimmed = if raw.len() > 0 && raw.last() == '-' {
        raw.drop_last()
    } else {
        raw
    };
    if trimmed.len() == 0 {
        "untitled"@
    } else {
        trimmed
    }
}

/// A character that may stand in a slug.
pub open spec fn is_slug_char(c: char) -> bool {
    ('0' <= c && c <= '9') || ('a' <= c && c <= 'z') || c == '-'
}

/// A well-formed slug: non-empty, made of lowercase letters, digits and hyphens,
/// with no hyphen at either end and no two hyphens in a row.
pub open spec fn is_slug(t: Seq<char>) -> bool {
    &&& t.len() > 0
    &&& forall|i: int| 0 <= i < t.len() ==> is_slug_char(#[trigger] t[i])
    &&& t[0] != '-'
    &&& t.last() != '-'
    &&& forall|i: int| 0 <= i < t.len() - 1 ==> !(#[trigger] t[i] == '-' && t[i + 1] == '-')
}

/// The partial slug of any text is made of slug characters, does not start with a
/// hyphen, has no two hyphens in a row, and its flag says whether it ends in a hyphen.
proof fn lemma_scan_shape(s: Seq<char>)
    ensures
        forall|i: int| 0 <= i < slug_scan(s).0.len() ==> is_slug_char(#[trigger] slug_scan(s).0[i]),
        slug_scan(s).0.len() > 0 ==> slug_scan(s).0[0] != '-',
        forall|i: int|
            0 <= i < slug_scan(s).0.len() - 1 ==> !(#[trigger] slug_scan(s).0[i] == '-'
                && slug_scan(s).0[i + 1] == '-'),
        slug_scan(s).1 == (slug_scan(s).0.len() == 0 || slug_scan(s).0.last() == '-'),
    decreases s.len(),
{
    if s.len() > 0 {
        lemma_scan_shape(s.drop_last());
        let prev = slug_scan(s.drop_last());
        let r = slug_scan(s);
        assert forall|i: int| 0 <= i < r.0.len() implies is_slug_char(#[trigger] r.0[i]) by {
            if i < prev.0.len() {
                assert(r.0[i] == prev.0[i]);
            }
        }
        assert forall|i: int| 0 <= i < r.0.len() - 1 implies !(#[trigger] r.0[i] == '-' && r.0[i
            + 1] == '-') by {
            if i + 1 < prev.0.len() {
                assert(r.0[i] == prev.0[i]);
                assert(r.0[i + 1] == prev.0[i + 1]);
            }
        }
    }
}

/// Every slug is well formed.
pub proof fn lemma_slug_well_formed(s: Seq<char>)
    ensures
        is_slug(slug_of(s)),
{
    lemma_scan_shape(s);
    reveal_strlit("untitled");
    let raw = slug_scan(s).0;
    if raw.len() > 0 && raw.last() == '-' {
        let t = raw.drop_last();
        if t.len() > 0 {
            assert(t[0] == raw[0]);
            assert(t.last() == raw[t.len() - 1]);
            assert(raw[t.len() - 1] != '-') by {
                assert(!(raw[t.len() - 1] == '-' && raw[t.len() - 1 + 1] == '-'));
            }
            assert forall|i: int| 0 <= i < t.len() implies is_slug_char(#[trigger] t[i]) by {
                assert(t[i] == raw[i]);
            }
            assert forall|i: int| 0 <= i < t.len() - 1 implies !(#[trigger] t[i] == '-' && t[i
                + 1] == '-') by {
                assert(t[i] == raw[i]);
                assert(t[i + 1] == raw[i + 1]);
            }
        }
    }
    let u = "untitled"@;
    assert forall|i: int| 0 <= i < u.len() implies is_slug_char(#[trigger] u[i]) by {}
}

/// The partial slug of a well-formed slug is the slug itself.
proof fn lemma_scan_of_slug_prefix(t: Seq<char>, n: int)
    requires
        0 <= n <= t.len(),
        forall|i: int| 0 <= i < t.len() ==> is_slug_char(#[trigger] t[i]),
        t.len() > 0 ==> t[0] != '-',
        forall|i: int| 0 <= i < t.len() - 1 ==> !(#[trigger] t[i] == '-' && t[i + 1] == '-'),
    ensures
        slug_scan(t.take(n)).0 == t.take(n),
        slug_scan(t.take(n)).1 == (n == 0 || t[n - 1] == '-'),
    decreases n,
{
    if n > 0 {
        lemma_scan_of_slug_prefix(t, n - 1);
        assert(t.take(n).drop_last() =~= t.take(n - 1));
        let c = t[n - 1];
        assert(t.take(n).last() == c);
        if is_ascii_alnum(c) {
            assert(ascii_lower(c) == c);
            assert(t.take(n - 1).push(c) =~= t.take(n));
        } else {
            assert(c == '-');
            if n - 1 > 0 {
                assert(!(t[n - 2] == '-' && t[n - 2 + 1] == '-'));
            }
            assert(t.take(n - 1).push(c) =~= t.take(n));
        }
    }
}

/// Slugifying a slug changes nothing.
pub proof fn lemma_slug_idempotent(s: Seq<char>)
    ensures
        slug_of(slug_of(s)) == slug_of(s),
{
    let t = slug_of(s);
    lemma_slug_well_formed(s);
    lemma_scan_of_slug_prefix(t, t.len() as int);
    assert(t.take(t.len() as int) =~= t);
}

/// The ASCII letters and digits of a text, lowercased, in order.
pub open spec fn alnum_lower(s: Seq<char>) -> Seq<char>
    decreases s.len(),
{
    if s.len() == 0 {
        Seq::empty()
    } else if is_ascii_alnum(s.last()) {
        alnum_lower(s.drop_last()).push(ascii_lower(s.last()))
    } else {
        alnum_lower(s.drop_last())
    }
}

proof fn lemma_lower_alnum(c: char)
    requires
        is_ascii_alnum(c),
    ensures
        is_ascii_alnum(ascii_lower(c)),
        ascii_lower(ascii_lower(c)) == ascii_lower(c),
{
    if 'A' <= c && c <= 'Z' {
        assert(((c as int) + 32) as char == ascii_lower(c));
        assert('a' <= ascii_lower(c) && ascii_lower(c) <= 'z');
    }
}

proof fn lemma_scan_alnums(s: Seq<char>)
    ensures
        alnum_lower(slug_scan(s).0) == alnum_lower(s),
    decreases s.len(),
{
    if s.len() > 0 {
        lemma_scan_alnums(s.drop_last());
        let prev = slug_scan(s.drop_last());
        let c = s.last();
        if is_ascii_alnum(c) {
            lemma_lower_alnum(c);
            assert(prev.0.push(ascii_lower(c)).drop_last() =~= prev.0);
        } else if !prev.1 {
            assert(prev.0.push('-').drop_last() =~= prev.0);
        }
    }
}

proof fn lemma_alnum_present(t: Seq<char>, i: int)
    requires
        0 <= i < t.len(),
        is_ascii_alnum(t[i]),
    ensures
        alnum_lower(t).len() > 0,
    decreases t.len(),
{
    if i < t.len() - 1 {
        assert(t.drop_last()[i] == t[i]);
        lemma_alnum_present(t.drop_last(), i);
    }
}

/// What a slug keeps of its title: a title without ASCII letters or digits gives
/// `untitled`; otherwise the slug's letters and digits are the title's,
/// lowercased, in order.
pub proof fn lemma_slug_letters(s: Seq<char>)
    ensures
        alnum_lower(s).len() == 0 ==> slug_of(s) == "untitled"@,
        alnum_lower(s).len() > 0 ==> alnum_lower(slug_of(s)) == alnum_lower(s),
{
    lemma_scan_alnums(s);
    lemma_scan_shape(s);
    let raw = slug_scan(s).0;
    if raw.len() > 0 && raw[0] != '-' {
        assert(is_slug_char(raw[0]));
        lemma_alnum_present(raw, 0);
    }
    if raw.len() > 0 && raw.last() == '-' {
        assert(raw.drop_last().push('-') =~= raw);
        assert(alnum_lower(raw.drop_last()) == alnum_lower(raw));
    }
}

fn is_alnum(c: char) -> (r: bool)
    ensures
        r == is_ascii_alnum(c),
{
    ('0' <= c && c <= '9') || ('a' <= c && c <= 'z') || ('A' <= c && c <= 'Z')
}

pub fn to_lower(c: char) -> (r: char)
    ensures
        r == ascii_lower(c),
{
    if 'A' <= c && c <= 'Z' {
        let b = (c as u32) + 32;
        assert(b < 128);
        ((b as u8) as char)
    } else {
        c
    }
}

/// Converts a title to a URL-safe slug.
pub fn slugify(title: &str) -> (r: String)
    ensures
        r@ == slug_of(title@),
        is_slug(r@),
{
    let v = chars_of(title);
    let mut slug: Vec<char> = Vec::new();
    let mut last_was_hyphen = true;
    let mut i: usize = 0;
    while i < v.len()
        invariant
            v@ == title@,
            i <= v.len(),
            slug_scan(title@.take(i as int)) == (slug@, last_was_hyphen),
        decreases v.len() - i,
    {
        let c = v[i];
        assert(title@.take(i + 1).drop_last() =~= title@.take(i as int));
        if is_alnum(c) {
            slug.push(to_lower(c));
            last_was_hyphen = false;
        } else if !last_was_hyphen {
            slug.push('-');
            last_was_hyphen = true;
        }
        i = i + 1;
    }
    assert(title@.take(v.len() as int) =~= title@);
    let n = slug.len();
    if n > 0 && slug[n - 1] == '-' {
        slug.pop();
    }
    proof {
        lemma_slug_well_formed(title@);
    }
    if slug.len() == 0 {
        String::from_str("untitled")
    } else {
        string_from_chars(&slug)
    }
}

} // verus!
