//! Search queries: the filters written inside a query string, and the test that a
//! search hit passes them.
use vstd::prelude::*;
use crate::clock::{
    not_earlier, midnight_secs, midnight_utc_secs, parse_rfc3339, parse_ymd, rfc3339_parse, ts_before,
    ymd_parse, CalendarDate, Timestamp,
};
use crate::slug::{ascii_lower, to_lower};
use crate::text::{
    is_prefix, is_white_space, join, join_seq, split_whitespace, strip_prefix, tokens_from, views, words,
};

verus! {

/// The text of an optional string.
pub open spec fn opt_text(o: Option<String>) -> Option<Seq<char>> {
    match o {
        Some(s) => Some(s@),
        None => None,
    }
}

/// The filters of a search, as values.
pub struct FilterModel {
    pub entity_type: Option<Seq<char>>,
    pub status: Option<Seq<char>>,
    pub tags: Seq<Seq<char>>,
    pub created_after: Option<Timestamp>,
    pub created_before: Option<Timestamp>,
}

/// The filter with no constraint.
pub open spec fn empty_model() -> FilterModel {
    FilterModel {
        entity_type: None,
        status: None,
        tags: Seq::empty(),
        created_after: None,
        created_before: None,
    }
}

/// Filters written in a query string: `type:`, `status:`, `tag:` (any number of
/// them), `created:>` and `created:<`.
#[derive(Debug)]
pub struct SearchFilter {
    /// Entity type filter (decision, task, note, ...).
    pub entity_type: Option<String>,
    /// Status filter, for entities that have a status.
    pub status: Option<String>,
    /// Tags that a hit must all carry.
    pub tags: Vec<String>,
    /// Created at or after this instant.
    pub created_after: Option<Timestamp>,
    /// Created at or before this instant.
    pub created_before: Option<Timestamp>,
}

impl SearchFilter {
    /// The filter as values.
    pub open spec fn model(&self) -> FilterModel {
        FilterModel {
            entity_type: opt_text(self.entity_type),
            status: opt_text(self.status),
            tags: views(self.tags@),
            created_after: self.created_after,
            created_before: self.created_before,
        }
    }

    /// The filter with no constraint.
    pub fn new() -> (r: Self)
        ensures
            r.model() == empty_model(),
    {
        let r = SearchFilter {
            entity_type: None,
            status: None,
            tags: Vec::new(),
            created_after: None,
            created_before: None,
        };
        assert(r.model().tags =~= Seq::<Seq<char>>::empty());
        r
    }

    /// Whether the filter constrains nothing.
    pub fn is_empty(&self) -> (r: bool)
        ensures
            r == (self.model() == empty_model()),
    {
        let r = self.entity_type.is_none() && self.status.is_none() && self.tags.len() == 0
            && self.created_after.is_none() && self.created_before.is_none();
        proof {
            if r {
                assert(self.model().tags =~= Seq::<Seq<char>>::empty());
            }
            if self.model() == empty_model() {
                assert(self.model().tags.len() == 0);
            }
        }
        r
    }
}

// ---------------------------------------------------------------------------
// Dates
// ---------------------------------------------------------------------------

/// The instant a date filter names: an RFC 3339 date and time, else a
/// `YYYY-MM-DD` date taken at midnight UTC.
pub open spec fn date_value(s: Seq<char>) -> Option<Timestamp> {
    match rfc3339_parse(s) {
        Some(p) => Some(
            Timestamp {
                secs: p.0,
                nanos: p.1,
                date: CalendarDate { year: p.2, month: p.3, day: p.4 },
            },
        ),
        None => match ymd_parse(s) {
            Some(d) => match midnight_secs(d.0, d.1, d.2) {
                Some(secs) => Some(
                    Timestamp {
                        secs,
                        nanos: 0,
                        date: CalendarDate { year: d.0, month: d.1, day: d.2 },
                    },
                ),
                None => None,
            },
            None => None,
        },
    }
}

/// Reads the instant of a date filter: a full RFC 3339 date and time first, then a
/// `YYYY-MM-DD` date at midnight UTC; `None` when neither reads.
pub fn parse_date(s: &str) -> (r: Option<Timestamp>)
    ensures
        r == date_value(s@),
{
    match parse_rfc3339(s) {
        Some(t) => Some(t),
        None => match parse_ymd(s) {
            Some(d) => match midnight_utc_secs(&d) {
                Some(secs) => Some(Timestamp { secs, nanos: 0, date: d }),
                None => None,
            },
            None => None,
        },
    }
}

// ---------------------------------------------------------------------------
// Query strings
// ---------------------------------------------------------------------------

/// What one word of a query does to the filters and to the words kept as search text.
pub open spec fn after_word(st: (FilterModel, Seq<Seq<char>>), w: Seq<char>) -> (FilterModel, Seq<Seq<char>>) {
    let f = st.0;
    let rem = st.1;
    if is_prefix("type:"@, w) {
        (FilterModel { entity_type: Some(w.skip(5)), ..f }, rem)
    } else if is_prefix("status:"@, w) {
        (FilterModel { status: Some(w.skip(7)), ..f }, rem)
    } else if is_prefix("tag:"@, w) {
        (FilterModel { tags: f.tags.push(w.skip(4)), ..f }, rem)
    } else if is_prefix("created:>"@, w) {
        (FilterModel { created_after: date_value(w.skip(9)), ..f }, rem)
    } else if is_prefix("created:<"@, w) {
        (FilterModel { created_before: date_value(w.skip(9)), ..f }, rem)
    } else {
        (f, rem.push(w))
    }
}

/// The filters and remaining words that a sequence of query words gives, read in order.
pub open spec fn read_words(ws: Seq<Seq<char>>) -> (FilterModel, Seq<Seq<char>>)
    decreases ws.len(),
{
    if ws.len() == 0 {
        (empty_model(), Seq::empty())
    } else {
        after_word(read_words(ws.drop_last()), ws.last())
    }
}

/// Splits a raw query into its search text and its filters. The query is cut at
/// white space; each word that starts with `type:`, `status:`, `tag:`,
/// `created:>` or `created:<` sets that filter (a later word of the same kind wins,
/// tags add up), and the other words, joined by single spaces, are the search text.
pub fn parse_query(raw: &str) -> (r: (String, SearchFilter))
    ensures
        r.1.model() == read_words(words(raw@)).0,
        r.0@ == join_seq(read_words(words(raw@)).1, " "@),
{
    let toks = split_whitespace(raw);
    let ghost ws = words(raw@);
    let mut filter = SearchFilter::new();
    let mut remaining: Vec<String> = Vec::new();
    let mut i: usize = 0;
    assert(ws.take(0) =~= Seq::<Seq<char>>::empty());
    assert(views(remaining@) =~= Seq::<Seq<char>>::empty());
    while i < toks.len()
        invariant
            views(toks@) == ws,
            ws == words(raw@),
            i <= toks.len(),
            read_words(ws.take(i as int)) == (filter.model(), views(remaining@)),
        decreases toks.len() - i,
    {
        let tok = toks[i].as_str();
        let ghost w = tok@;
        let ghost before = (filter.model(), views(remaining@));
        proof {
            reveal_strlit("type:");
            reveal_strlit("status:");
            reveal_strlit("tag:");
            reveal_strlit("created:>");
            reveal_strlit("created:<");
        }

        assert(ws.take(i + 1).drop_last() =~= ws.take(i as int));
        assert(ws[i as int] == w);
        if let Some(value) = strip_prefix(tok, "type:") {
            filter.entity_type = Some(value);
        } else if let Some(value) = strip_prefix(tok, "status:") {
            filter.status = Some(value);
        } else if let Some(value) = strip_prefix(tok, "tag:") {
            let ghost old_tags = filter.tags@;
            filter.tags.push(value);
            assert(value@ == w.skip(4));
            assert(filter.tags@ == old_tags.push(value));
            assert(views(filter.tags@) =~= views(old_tags).push(w.skip(4)));
        } else if let Some(value) = strip_prefix(tok, "created:>") {
            filter.created_after = parse_date(value.as_str());
        } else if let Some(value) = strip_prefix(tok, "created:<") {
            filter.created_before = parse_date(value.as_str());
        } else {
            let ghost old_rem = remaining@;
            remaining.push(toks[i].clone());
            assert(views(remaining@) =~= views(old_rem).push(w));
        }
        assert(read_words(ws.take(i + 1)) == after_word(before, w));
        i = i + 1;
    }
    assert(ws.take(toks.len() as int) =~= ws);
    let text = join(&remaining, " ");
    (text, filter)
}

// ---------------------------------------------------------------------------
// Matching a hit
// ---------------------------------------------------------------------------

/// What a search hit shows of itself to the filters: its status, its tags and
/// when it was created.
#[derive(Debug)]
pub struct FilterMetadata {
    pub status: Option<String>,
    pub tags: Vec<String>,
    pub created_at: Option<Timestamp>,
}

/// Equal texts once ASCII letters are folded to lowercase.
pub open spec fn eq_ignore_ascii_case(a: Seq<char>, b: Seq<char>) -> bool {
    a.len() == b.len() && forall|i: int| 0 <= i < a.len() ==> ascii_lower(#[trigger] a[i]) == ascii_lower(b[i])
}

/// Whether two texts are equal once ASCII letters are folded to lowercase.
pub fn text_eq_ignore_ascii_case(a: &str, b: &str) -> (r: bool)
    ensures
        r == eq_ignore_ascii_case(a@, b@),
{
    let av = crate::text::chars_of(a);
    let bv = crate::text::chars_of(b);
    if av.len() != bv.len() {
        return false;
    }
    let mut i: usize = 0;
    while i < av.len()
        invariant
            av@ == a@,
            bv@ == b@,
            av.len() == bv.len(),
            i <= av.len(),
            forall|k: int| 0 <= k < i ==> ascii_lower(#[trigger] a@[k]) == ascii_lower(b@[k]),
        decreases av.len() - i,
    {
        if to_lower(av[i]) != to_lower(bv[i]) {
            return false;
        }
        i = i + 1;
    }
    true
}

/// The hit carries a tag equal to `tag` up to ASCII case.
pub open spec fn has_tag_folded(tags: Seq<Seq<char>>, tag: Seq<char>) -> bool {
    exists|i: int| 0 <= i < tags.len() && eq_ignore_ascii_case(#[trigger] tags[i], tag)
}

/// A hit passes the status, tag and date filters: its status equals the one
/// asked for, it carries every tag asked for (up to ASCII case), and it was
/// created within the asked bounds, both included. A filter asks nothing of a hit
/// where it is absent; a bound or a status asked of a hit without one fails.
pub open spec fn passes(f: FilterModel, status: Option<Seq<char>>, tags: Seq<Seq<char>>, created: Option<Timestamp>) -> bool {
    &&& (f.status matches Some(s) ==> status == Some(s))
    &&& forall|i: int| 0 <= i < f.tags.len() ==> has_tag_folded(tags, #[trigger] f.tags[i])
    &&& (f.created_after matches Some(a) ==> (created matches Some(c) && !ts_before(c, a)))
    &&& (f.created_before matches Some(b) ==> (created matches Some(c) && !ts_before(b, c)))
}

fn has_tag(tags: &Vec<String>, tag: &str) -> (r: bool)
    ensures
        r == has_tag_folded(views(tags@), tag@),
{
    let ghost vs = views(tags@);
    let mut i: usize = 0;
    while i < tags.len()
        invariant
            vs == views(tags@),
            i <= tags.len(),
            forall|k: int| 0 <= k < i ==> !eq_ignore_ascii_case(#[trigger] vs[k], tag@),
        decreases tags.len() - i,
    {
        if text_eq_ignore_ascii_case(tags[i].as_str(), tag) {
            assert(vs[i as int] == tags@[i as int]@);
            return true;
        }
        i = i + 1;
    }
    false
}

/// Whether a hit's status, tags and creation instant pass the filter's status,
/// tag and date constraints (the type constraint is the search's own concern).
pub fn matches_metadata(filter: &SearchFilter, meta: &FilterMetadata) -> (r: bool)
    ensures
        r == passes(filter.model(), opt_text(meta.status), views(meta.tags@), meta.created_at),
{
    let ghost f = filter.model();
    if let Some(required) = &filter.status {
        match &meta.status {
            Some(actual) => {
                if !crate::text::str_eq(actual.as_str(), required.as_str()) {
                    return false;
                }
            },
            None => {
                return false;
            },
        }
    }
    let mut i: usize = 0;
    while i < filter.tags.len()
        invariant
            f == filter.model(),
            i <= filter.tags.len(),
            forall|k: int| 0 <= k < i ==> has_tag_folded(views(meta.tags@), #[trigger] f.tags[k]),
        decreases filter.tags.len() - i,
    {
        if !has_tag(&meta.tags, filter.tags[i].as_str()) {
            assert(f.tags[i as int] == filter.tags@[i as int]@);
            return false;
        }
        i = i + 1;
    }
    if let Some(after) = &filter.created_after {
        match &meta.created_at {
            Some(c) => {
                if c.is_before(after) {
                    return false;
                }
            },
            None => {
                return false;
            },
        }
    }
    if let Some(before) = &filter.created_before {
        match &meta.created_at {
            Some(c) => {
                if before.is_before(c) {
                    return false;
                }
            },
            None => {
                return false;
            },
        }
    }
    true
}

// ---------------------------------------------------------------------------
// Tags as the search cache files them
// ---------------------------------------------------------------------------

/// The trimmed text of a piece, as a list of it where it is not empty.
pub open spec fn kept_piece(cur: Seq<char>) -> Seq<Seq<char>> {
    if crate::text::trim_seq(cur).len() > 0 {
        seq![crate::text::trim_seq(cur)]
    } else {
        Seq::empty()
    }
}

/// The comma-separated pieces of `s`, continuing a piece `cur`, each trimmed,
/// empty ones dropped.
pub open spec fn comma_pieces(s: Seq<char>, cur: Seq<char>) -> Seq<Seq<char>>
    decreases s.len(),
{
    if s.len() == 0 {
        kept_piece(cur)
    } else if s[0] == ',' {
        kept_piece(cur) + comma_pieces(s.drop_first(), Seq::empty())
    } else {
        comma_pieces(s.drop_first(), cur.push(s[0]))
    }
}

/// The tags as the search cache files them: stored joined by `", "` and read
/// back split at each comma, each piece trimmed, empty pieces dropped; that is,
/// each tag's comma-separated pieces, trimmed and non-empty, in order.
pub open spec fn filed_tag_list(tags: Seq<Seq<char>>) -> Seq<Seq<char>>
    decreases tags.len(),
{
    if tags.len() == 0 {
        Seq::empty()
    } else {
        filed_tag_list(tags.drop_last()) + comma_pieces(tags.last(), Seq::empty())
    }
}

fn push_piece(out: &mut Vec<String>, cur: &Vec<char>)
    ensures
        views(final(out)@) == views(old(out)@) + kept_piece(cur@),
{
    let w = crate::text::string_from_chars(cur);
    let t = crate::text::trim(w.as_str());
    let ghost before = out@;
    if t.as_str().unicode_len() > 0 {
        out.push(t);
        assert(views(out@) =~= views(before) + kept_piece(cur@));
    } else {
        assert(views(out@) =~= views(before) + kept_piece(cur@));
    }
}

/// The tags as the search cache files and reads them back.
pub fn filed_tags(tags: &Vec<String>) -> (r: Vec<String>)
    ensures
        views(r@) == filed_tag_list(views(tags@)),
{
    let mut out: Vec<String> = Vec::new();
    let mut j: usize = 0;
    assert(views(tags@).take(0) =~= Seq::<Seq<char>>::empty());
    assert(views(out@) =~= filed_tag_list(views(tags@).take(0)));
    while j < tags.len()
        invariant
            j <= tags@.len(),
            views(out@) == filed_tag_list(views(tags@).take(j as int)),
        decreases tags.len() - j,
    {
        let ghost base = views(out@);
        let v = crate::text::chars_of(tags[j].as_str());
        let mut cur: Vec<char> = Vec::new();
        let mut i: usize = 0;
        assert(v@.subrange(0, v@.len() as int) =~= v@);
        assert(cur@ =~= Seq::<char>::empty());
        while i < v.len()
            invariant
                v@ == tags@[j as int]@,
                i <= v.len(),
                base + comma_pieces(v@, Seq::empty()) == views(out@) + comma_pieces(v@.subrange(i as int, v@.len() as int), cur@),
            decreases v.len() - i,
        {
            let ghost rest = v@.subrange(i as int, v@.len() as int);
            assert(rest.drop_first() =~= v@.subrange(i + 1, v@.len() as int));
            if v[i] == ',' {
                push_piece(&mut out, &cur);
                cur = Vec::new();
                assert(cur@ =~= Seq::<char>::empty());
            } else {
                cur.push(v[i]);
            }
            i = i + 1;
        }
        assert(v@.subrange(i as int, v@.len() as int) =~= Seq::<char>::empty());
        push_piece(&mut out, &cur);
        proof {
            assert(views(tags@).take(j + 1).drop_last() =~= views(tags@).take(j as int));
            assert(views(tags@).take(j + 1).last() == tags@[j as int]@);
        }
        j = j + 1;
    }
    assert(views(tags@).take(tags@.len() as int) =~= views(tags@));
    out
}

// ---------------------------------------------------------------------------
// What one more query word does
// ---------------------------------------------------------------------------

/// No character of `w` is white space.
pub open spec fn no_white_space(w: Seq<char>) -> bool {
    forall|i: int| 0 <= i < w.len() ==> !is_white_space(#[trigger] w[i])
}

proof fn lemma_tokens_of_word(w: Seq<char>, cur: Seq<char>)
    requires
        no_white_space(w),
    ensures
        tokens_from(w, cur) == (if (cur + w).len() > 0 { seq![cur + w] } else { Seq::<Seq<char>>::empty() }),
    decreases w.len(),
{
    if w.len() == 0 {
        assert(cur + w =~= cur);
    } else {
        assert(!is_white_space(w[0]));
        assert(no_white_space(w.drop_first())) by {
            assert forall|i: int| 0 <= i < w.drop_first().len() implies !is_white_space(#[trigger] w.drop_first()[i]) by {
                assert(w.drop_first()[i] == w[i + 1]);
            }
        }
        lemma_tokens_of_word(w.drop_first(), cur.push(w[0]));
        assert(cur.push(w[0]) + w.drop_first() =~= cur + w);
    }
}

proof fn lemma_tokens_then_word(s: Seq<char>, w: Seq<char>, cur: Seq<char>)
    requires
        no_white_space(w),
        w.len() > 0,
    ensures
        tokens_from(s + seq![' '] + w, cur) == tokens_from(s, cur) + seq![w],
    decreases s.len(),
{
    let t = s + seq![' '] + w;
    if s.len() == 0 {
        assert(t.drop_first() =~= w);
        assert(is_white_space(t[0]));
        lemma_tokens_of_word(w, Seq::empty());
        assert(Seq::<char>::empty() + w =~= w);
    } else {
        assert(t.drop_first() =~= s.drop_first() + seq![' '] + w);
        assert(t[0] == s[0]);
        if is_white_space(s[0]) {
            lemma_tokens_then_word(s.drop_first(), w, Seq::empty());
        } else {
            lemma_tokens_then_word(s.drop_first(), w, cur.push(s[0]));
        }
    }
}

/// The words of a query with one more word after a space are its words and then
/// that word.
pub proof fn lemma_words_then_word(raw: Seq<char>, w: Seq<char>)
    requires
        no_white_space(w),
        w.len() > 0,
    ensures
        words(raw + " "@ + w) == words(raw).push(w),
{
    reveal_strlit(" ");
    assert(" "@ =~= seq![' ']);
    lemma_tokens_then_word(raw, w, Seq::empty());
    assert(tokens_from(raw, Seq::empty()) + seq![w] =~= words(raw).push(w));
}

proof fn lemma_prefix_word(p: Seq<char>, d: Seq<char>)
    ensures
        (p + d).skip(p.len() as int) == d,
        is_prefix(p, p + d),
{
    assert((p + d).skip(p.len() as int) =~= d);
    assert((p + d).subrange(0, p.len() as int) =~= p);
}

/// A query word `created:>D` after a query sets the lower creation bound to the
/// date `D` names and changes nothing else: `parse_query` of the longer query
/// reads the same filters and text as of the shorter one, but for `created_after`.
pub proof fn lemma_query_created_after(raw: Seq<char>, d: Seq<char>)
    requires
        no_white_space(d),
    ensures
        ({
            let a = read_words(words(raw));
            let b = read_words(words(raw + " "@ + ("created:>"@ + d)));
            &&& b.0.created_after == date_value(d)
            &&& b.0.created_before == a.0.created_before
            &&& b.0.entity_type == a.0.entity_type
            &&& b.0.status == a.0.status
            &&& b.0.tags == a.0.tags
            &&& b.1 == a.1
        }),
{
    let p = "created:>"@;
    reveal_strlit("created:>");
    reveal_strlit("created:<");
    reveal_strlit("type:");
    reveal_strlit("status:");
    reveal_strlit("tag:");
    let w = p + d;
    assert(no_white_space(w)) by {
        assert forall|i: int| 0 <= i < w.len() implies !is_white_space(#[trigger] w[i]) by {
            if i >= 9 {
                assert(w[i] == d[i - 9]);
            }
        }
    }
    lemma_words_then_word(raw, w);
    lemma_prefix_word(p, d);
    let ws = words(raw).push(w);
    assert(ws.drop_last() =~= words(raw));
    assert(w[0] == 'c');
    assert(!is_prefix("type:"@, w));
    assert(!is_prefix("status:"@, w));
    assert(!is_prefix("tag:"@, w));
}

/// A query word `created:<D` after a query sets the upper creation bound to the
/// date `D` names and changes nothing else.
pub proof fn lemma_query_created_before(raw: Seq<char>, d: Seq<char>)
    requires
        no_white_space(d),
    ensures
        ({
            let a = read_words(words(raw));
            let b = read_words(words(raw + " "@ + ("created:<"@ + d)));
            &&& b.0.created_before == date_value(d)
            &&& b.0.created_after == a.0.created_after
            &&& b.0.entity_type == a.0.entity_type
            &&& b.0.status == a.0.status
            &&& b.0.tags == a.0.tags
            &&& b.1 == a.1
        }),
{
    let p = "created:<"@;
    reveal_strlit("created:>");
    reveal_strlit("created:<");
    reveal_strlit("type:");
    reveal_strlit("status:");
    reveal_strlit("tag:");
    let w = p + d;
    assert(no_white_space(w)) by {
        assert forall|i: int| 0 <= i < w.len() implies !is_white_space(#[trigger] w[i]) by {
            if i >= 9 {
                assert(w[i] == d[i - 9]);
            }
        }
    }
    lemma_words_then_word(raw, w);
    lemma_prefix_word(p, d);
    let ws = words(raw).push(w);
    assert(ws.drop_last() =~= words(raw));
    assert(w[0] == 'c');
    assert(w[8] == '<');
    assert(!is_prefix("type:"@, w));
    assert(!is_prefix("status:"@, w));
    assert(!is_prefix("tag:"@, w));
    assert(!is_prefix("created:>"@, w)) by {
        assert(w.subrange(0, 9)[8] != "created:>"@[8]);
    }
}

/// A query word `type:T` after a query sets the entity type to `T` and changes
/// nothing else.
pub proof fn lemma_query_type(raw: Seq<char>, d: Seq<char>)
    requires
        no_white_space(d),
    ensures
        ({
            let a = read_words(words(raw));
            let b = read_words(words(raw + " "@ + ("type:"@ + d)));
            &&& b.0.entity_type == Some(d)
            &&& b.0.status == a.0.status
            &&& b.0.tags == a.0.tags
            &&& b.0.created_after == a.0.created_after
            &&& b.0.created_before == a.0.created_before
            &&& b.1 == a.1
        }),
{
    let p = "type:"@;
    reveal_strlit("type:");
    reveal_strlit("type:");
    reveal_strlit("status:");
    reveal_strlit("tag:");
    let w = p + d;
    assert(no_white_space(w)) by {
        assert forall|i: int| 0 <= i < w.len() implies !is_white_space(#[trigger] w[i]) by {
            if i >= p.len() {
                assert(w[i] == d[i - p.len()]);
            }
        }
    }
    lemma_words_then_word(raw, w);
    lemma_prefix_word(p, d);
    let ws = words(raw).push(w);
    assert(ws.drop_last() =~= words(raw));

}

/// A query word `status:S` after a query sets the status to `S` and changes
/// nothing else.
pub proof fn lemma_query_status(raw: Seq<char>, d: Seq<char>)
    requires
        no_white_space(d),
    ensures
        ({
            let a = read_words(words(raw));
            let b = read_words(words(raw + " "@ + ("status:"@ + d)));
            &&& b.0.status == Some(d)
            &&& b.0.entity_type == a.0.entity_type
            &&& b.0.tags == a.0.tags
            &&& b.0.created_after == a.0.created_after
            &&& b.0.created_before == a.0.created_before
            &&& b.1 == a.1
        }),
{
    let p = "status:"@;
    reveal_strlit("status:");
    reveal_strlit("type:");
    reveal_strlit("status:");
    reveal_strlit("tag:");
    let w = p + d;
    assert(no_white_space(w)) by {
        assert forall|i: int| 0 <= i < w.len() implies !is_white_space(#[trigger] w[i]) by {
            if i >= p.len() {
                assert(w[i] == d[i - p.len()]);
            }
        }
    }
    lemma_words_then_word(raw, w);
    lemma_prefix_word(p, d);
    let ws = words(raw).push(w);
    assert(ws.drop_last() =~= words(raw));
    assert(!is_prefix("type:"@, w)) by {
        assert(w.subrange(0, 5)[1] != "type:"@[1]);
    }
}

/// A query word `tag:T` after a query adds `T` to the tags asked for, after
/// those already asked for, and changes nothing else.
pub proof fn lemma_query_tag(raw: Seq<char>, d: Seq<char>)
    requires
        no_white_space(d),
    ensures
        ({
            let a = read_words(words(raw));
            let b = read_words(words(raw + " "@ + ("tag:"@ + d)));
            &&& b.0.tags == a.0.tags.push(d)
            &&& b.0.entity_type == a.0.entity_type
            &&& b.0.status == a.0.status
            &&& b.0.created_after == a.0.created_after
            &&& b.0.created_before == a.0.created_before
            &&& b.1 == a.1
        }),
{
    let p = "tag:"@;
    reveal_strlit("tag:");
    reveal_strlit("type:");
    reveal_strlit("status:");
    reveal_strlit("tag:");
    let w = p + d;
    assert(no_white_space(w)) by {
        assert forall|i: int| 0 <= i < w.len() implies !is_white_space(#[trigger] w[i]) by {
            if i >= p.len() {
                assert(w[i] == d[i - p.len()]);
            }
        }
    }
    lemma_words_then_word(raw, w);
    lemma_prefix_word(p, d);
    let ws = words(raw).push(w);
    assert(ws.drop_last() =~= words(raw));
    assert(!is_prefix("type:"@, w)) by {
        assert(w.subrange(0, 4)[1] != "type:"@[1]);
    }
    assert(!is_prefix("status:"@, w));
}

/// A query word that is none of the filters is kept, after the words already
/// kept, as search text, and the filters do not change.
pub proof fn lemma_query_plain_word(raw: Seq<char>, w: Seq<char>)
    requires
        no_white_space(w),
        w.len() > 0,
        !is_prefix("type:"@, w),
        !is_prefix("status:"@, w),
        !is_prefix("tag:"@, w),
        !is_prefix("created:>"@, w),
        !is_prefix("created:<"@, w),
    ensures
        read_words(words(raw + " "@ + w)).0 == read_words(words(raw)).0,
        read_words(words(raw + " "@ + w)).1 == read_words(words(raw)).1.push(w),
{
    lemma_words_then_word(raw, w);
    assert(words(raw).push(w).drop_last() =~= words(raw));
}

/// The creation bounds of a filter are inclusive: a hit that passes was created
/// no earlier than the lower bound and no later than the upper bound; a hit
/// without a creation instant passes no bound; a hit created within both
/// bounds, of the status and tags asked for, passes; and a hit that passes has
/// the status asked for.
pub proof fn lemma_created_bounds(f: FilterModel, status: Option<Seq<char>>, tags: Seq<Seq<char>>, c: Timestamp)
    ensures
        passes(f, status, tags, Some(c)) && f.created_after is Some ==> not_earlier(c, f.created_after->0),
        passes(f, status, tags, Some(c)) && f.created_before is Some ==> not_earlier(f.created_before->0, c),
        passes(f, status, tags, None) ==> f.created_after is None && f.created_before is None,
        passes(FilterModel { created_after: None, created_before: None, ..f }, status, tags, Some(c))
            && (f.created_after is Some ==> not_earlier(c, f.created_after->0))
            && (f.created_before is Some ==> not_earlier(f.created_before->0, c)) ==> passes(f, status, tags, Some(c)),
        passes(f, status, tags, Some(c)) && f.status is Some ==> status == f.status,
{
    let g = FilterModel { created_after: None, created_before: None, ..f };
    if passes(g, status, tags, Some(c)) {
        assert(g.tags == f.tags);
        assert forall|i: int| 0 <= i < f.tags.len() implies has_tag_folded(tags, #[trigger] f.tags[i]) by {
            assert(has_tag_folded(tags, g.tags[i]));
        }
    }
}

} // verus!
