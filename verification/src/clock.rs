//! Identifiers, instants and calendar dates, and their text forms.
use vstd::prelude::*;
use crate::text::{digit_char, 
    chars_of, decimal, decimal_string, hex_fixed, push_char, push_hex_fixed, push_str,
    string_from_range, zero_padded,
};

verus! {

// ---------------------------------------------------------------------------
// Calendar dates
// ---------------------------------------------------------------------------

/// A proleptic Gregorian calendar date.
#[derive(Debug, Clone, Copy, PartialEq, Eq, Structural)]
pub struct CalendarDate {
    pub year: i32,
    pub month: u32,
    pub day: u32,
}

/// Whether date `a` comes strictly before date `b`.
pub open spec fn date_before(a: CalendarDate, b: CalendarDate) -> bool {
    a.year < b.year || (a.year == b.year && (a.month < b.month || (a.month == b.month && a.day
        < b.day)))
}

/// Two digits of `n` (0..=99), as `%m` and `%d` print them.
pub open spec fn two_digits(n: nat) -> Seq<char> {
    zero_padded(n, 2)
}

/// The year as `%Y` prints it: four digits for 0..=9999, otherwise signed and padded to five.
pub open spec fn year_text(y: int) -> Seq<char> {
    if 0 <= y <= 9999 {
        zero_padded(y as nat, 4)
    } else if y < 0 {
        seq!['-'] + zero_padded((-y) as nat, 4)
    } else {
        seq!['+'] + zero_padded(y as nat, 4)
    }
}

/// The `YYYY-MM-DD` text of a date.
pub open spec fn date_text(d: CalendarDate) -> Seq<char> {
    year_text(d.year as int) + seq!['-'] + two_digits(d.month as nat) + seq!['-'] + two_digits(
        d.day as nat,
    )
}

impl CalendarDate {
    /// Whether this date comes strictly before `other`.
    pub fn is_before(&self, other: &CalendarDate) -> (r: bool)
        ensures
            r == date_before(*self, *other),
    {
        self.year < other.year || (self.year == other.year && (self.month < other.month || (
        self.month == other.month && self.day < other.day)))
    }

    /// The `YYYY-MM-DD` text of the date.
    pub fn to_text(&self) -> (r: String)
        ensures
            r@ == date_text(*self),
    {
        let mut r = String::new();
        push_date(&mut r, self);
        assert(r@ =~= date_text(*self));
        r
    }
}

/// Appends `n` in decimal, padded with zeros on the left to at least `width` characters.
pub fn push_zero_padded(s: &mut String, n: u64, width: usize)
    ensures
        final(s)@ == old(s)@ + zero_padded(n as nat, width as nat),
{
    let d = decimal_string(n);
    let k = d.as_str().unicode_len();
    let ghost start = s@;
    let mut i = k;
    while i < width
        invariant
            k <= i,
            k <= width ==> i <= width,
            k > width ==> i == k,
            k == decimal(n as nat).len(),
            s@ == start + Seq::new((i - k) as nat, |j: int| '0'),
        decreases width - i,
    {
        push_char(s, '0');
        assert(s@ =~= start + Seq::new((i + 1 - k) as nat, |j: int| '0'));
        i = i + 1;
    }
    push_str(s, d.as_str());
    proof {
        if k >= width {
            assert(s@ =~= start + decimal(n as nat));
        } else {
            assert(s@ =~= start + (Seq::new((width - k) as nat, |j: int| '0') + decimal(n as nat)));
        }
    }
}

/// Appends the `YYYY-MM-DD` text of a date.
pub fn push_date(s: &mut String, d: &CalendarDate)
    ensures
        final(s)@ == old(s)@ + date_text(*d),
{
    let ghost start = s@;
    if 0 <= d.year && d.year <= 9999 {
        push_zero_padded(s, d.year as u64, 4);
    } else if d.year < 0 {
        push_char(s, '-');
        let mag: u64 = (0i64 - (d.year as i64)) as u64;
        push_zero_padded(s, mag, 4);
    } else {
        push_char(s, '+');
        push_zero_padded(s, d.year as u64, 4);
    }
    push_char(s, '-');
    push_zero_padded(s, d.month as u64, 2);
    push_char(s, '-');
    push_zero_padded(s, d.day as u64, 2);
    assert(s@ =~= start + date_text(*d));
}

// ---------------------------------------------------------------------------
// Instants
// ---------------------------------------------------------------------------

/// An instant in UTC: seconds and nanoseconds since the Unix epoch, with the
/// calendar date it falls on.
#[derive(Debug, Clone, Copy, PartialEq, Eq, Structural)]
pub struct Timestamp {
    pub secs: i64,
    /// Nanoseconds within the second; 1_000_000_000 and above mark a leap second.
    pub nanos: u32,
    /// The UTC calendar date of the instant.
    pub date: CalendarDate,
}

/// The instant `a` is not earlier than `b`, to the nanosecond.
pub open spec fn not_earlier(a: Timestamp, b: Timestamp) -> bool {
    a.secs > b.secs || (a.secs == b.secs && a.nanos >= b.nanos)
}

/// Whether instant `a` comes strictly before instant `b`.
pub open spec fn ts_before(a: Timestamp, b: Timestamp) -> bool {
    a.secs < b.secs || (a.secs == b.secs && a.nanos < b.nanos)
}

/// The `YYYY-MM-DD HH:MM:SS UTC` text of an instant.
pub open spec fn timestamp_text(t: Timestamp) -> Seq<char> {
    let tod = (t.secs as int) % 86400;
    let leap: int = if t.nanos >= 1_000_000_000 {
        1
    } else {
        0
    };
    date_text(t.date) + seq![' '] + two_digits((tod / 3600) as nat) + seq![':'] + two_digits(
        ((tod % 3600) / 60) as nat,
    ) + seq![':'] + two_digits((tod % 60 + leap) as nat) + " UTC"@
}

impl Timestamp {
    /// Whether this instant comes strictly before `other`.
    pub fn is_before(&self, other: &Timestamp) -> (r: bool)
        ensures
            r == ts_before(*self, *other),
    {
        self.secs < other.secs || (self.secs == other.secs && self.nanos < other.nanos)
    }

    /// The `YYYY-MM-DD` text of the instant's date.
    pub fn date_string(&self) -> (r: String)
        ensures
            r@ == date_text(self.date),
    {
        self.date.to_text()
    }

    /// The `YYYY-MM-DD HH:MM:SS UTC` text of the instant.
    #[verifier::spinoff_prover]
    #[verifier::rlimit(40)]
    pub fn timestamp_string(&self) -> (r: String)
        ensures
            r@ == timestamp_text(*self),
    {
        let mut r = String::new();
        push_date(&mut r, &self.date);
        push_char(&mut r, ' ');
        let m = self.secs % 86400;
        let tod: i64 = if m < 0 {
            m + 86400
        } else {
            m
        };
        assert(tod == (self.secs as int) % 86400);
        let leap: i64 = if self.nanos >= 1_000_000_000 {
            1
        } else {
            0
        };
        push_zero_padded(&mut r, (tod / 3600) as u64, 2);
        push_char(&mut r, ':');
        push_zero_padded(&mut r, ((tod % 3600) / 60) as u64, 2);
        push_char(&mut r, ':');
        push_zero_padded(&mut r, (tod % 60 + leap) as u64, 2);
        push_str(&mut r, " UTC");
        assert(r@ =~= timestamp_text(*self));
        r
    }
}

/// `chrono::Utc::now`: the current instant, which depends on the clock. chrono
/// takes it as the time since the Unix epoch from `SystemTime`, so its seconds
/// are not negative and its nanoseconds are below one second; its date is the
/// UTC day that holds it.
#[verifier::external_body]
pub(crate) fn now_utc() -> (r: Timestamp)
    ensures
        r.secs >= 0,
        r.nanos < 1_000_000_000,
        midnight_secs(r.date.year, r.date.month, r.date.day) matches Some(m) && m <= r.secs < m + 86400,
{
    let now = chrono::Utc::now();
    let d = now.date_naive();
    Timestamp {
        secs: now.timestamp(),
        nanos: now.timestamp_subsec_nanos(),
        date: CalendarDate {
            year: chrono::Datelike::year(&d),
            month: chrono::Datelike::month(&d),
            day: chrono::Datelike::day(&d),
        },
    }
}

// ---------------------------------------------------------------------------
// UUIDs
// ---------------------------------------------------------------------------

/// The 32 lowercase hexadecimal digits of a UUID.
pub open spec fn uuid_hex(id: u128) -> Seq<char> {
    hex_fixed(id as nat, 32)
}

/// The hyphenated text of a UUID: 8-4-4-4-12 lowercase hexadecimal digits.
pub open spec fn uuid_text(id: u128) -> Seq<char> {
    let h = uuid_hex(id);
    h.subrange(0, 8) + seq!['-'] + h.subrange(8, 12) + seq!['-'] + h.subrange(12, 16) + seq!['-']
        + h.subrange(16, 20) + seq!['-'] + h.subrange(20, 32)
}

proof fn lemma_hex_fixed_len(v: nat, w: nat)
    ensures
        hex_fixed(v, w).len() == w,
    decreases w,
{
    if w > 0 {
        lemma_hex_fixed_len(v / 16, (w - 1) as nat);
    }
}

/// Facts about the text of a UUID: its length and where the hyphens stand.
pub proof fn lemma_uuid_text_shape(id: u128)
    ensures
        uuid_text(id).len() == 36,
        uuid_text(id)[8] == '-',
        uuid_text(id)[13] == '-',
        uuid_text(id)[18] == '-',
        uuid_text(id)[23] == '-',
        uuid_text(id).subrange(0, 7) == uuid_hex(id).subrange(0, 7),
{
    lemma_hex_fixed_len(id as nat, 32);
    assert(uuid_text(id).subrange(0, 7) =~= uuid_hex(id).subrange(0, 7));
}

/// 16 to the power `w`.
pub open spec fn pow16(w: nat) -> nat
    decreases w,
{
    if w == 0 {
        1
    } else {
        16 * pow16((w - 1) as nat)
    }
}

proof fn lemma_digit_char_injective(a: int, b: int)
    requires
        0 <= a < 16,
        0 <= b < 16,
        digit_char(a) == digit_char(b),
    ensures
        a == b,
{
    assert(digit_char(a) as int == if a < 10 { a + 48 } else { a + 87 });
    assert(digit_char(b) as int == if b < 10 { b + 48 } else { b + 87 });
}

proof fn lemma_hex_fixed_injective(a: nat, b: nat, w: nat)
    requires
        a < pow16(w),
        b < pow16(w),
        hex_fixed(a, w) == hex_fixed(b, w),
    ensures
        a == b,
    decreases w,
{
    if w > 0 {
        let p = pow16((w - 1) as nat);
        assert(hex_fixed(a, w).last() == digit_char((a % 16) as int));
        assert(hex_fixed(b, w).last() == digit_char((b % 16) as int));
        lemma_digit_char_injective((a % 16) as int, (b % 16) as int);
        assert(hex_fixed(a, w).drop_last() =~= hex_fixed(a / 16, (w - 1) as nat));
        assert(hex_fixed(b, w).drop_last() =~= hex_fixed(b / 16, (w - 1) as nat));
        assert(a / 16 < p) by (nonlinear_arith)
            requires
                a < 16 * p,
        ;
        assert(b / 16 < p) by (nonlinear_arith)
            requires
                b < 16 * p,
        ;
        lemma_hex_fixed_injective(a / 16, b / 16, (w - 1) as nat);
    }
}

/// Different UUIDs have different texts.
pub proof fn lemma_uuid_text_injective(a: u128, b: u128)
    requires
        uuid_text(a) == uuid_text(b),
    ensures
        a == b,
{
    lemma_hex_fixed_len(a as nat, 32);
    lemma_hex_fixed_len(b as nat, 32);
    let ha = uuid_hex(a);
    let hb = uuid_hex(b);
    let ta = uuid_text(a);
    assert forall|k: int| 0 <= k < 32 implies ha[k] == hb[k] by {
        if k < 8 {
            assert(ta[k] == ha[k] && uuid_text(b)[k] == hb[k]);
        } else if k < 12 {
            assert(ta[k + 1] == ha[k] && uuid_text(b)[k + 1] == hb[k]);
        } else if k < 16 {
            assert(ta[k + 2] == ha[k] && uuid_text(b)[k + 2] == hb[k]);
        } else if k < 20 {
            assert(ta[k + 3] == ha[k] && uuid_text(b)[k + 3] == hb[k]);
        } else {
            assert(ta[k + 4] == ha[k] && uuid_text(b)[k + 4] == hb[k]);
        }
    }
    assert(ha =~= hb);
    reveal_with_fuel(pow16, 33);
    assert(pow16(32) == 0x1_0000_0000_0000_0000_0000_0000_0000_0000);
    lemma_hex_fixed_injective(a as nat, b as nat, 32);
}

fn push_range(s: &mut String, v: &Vec<char>, from: usize, to: usize)
    requires
        from <= to <= v.len(),
    ensures
        final(s)@ == old(s)@ + v@.subrange(from as int, to as int),
{
    let part = string_from_range(v, from, to);
    push_str(s, part.as_str());
}

/// The 32 lowercase hexadecimal digits of a UUID.
pub fn uuid_hex_string(id: u128) -> (r: String)
    ensures
        r@ == uuid_hex(id),
{
    let mut r = String::new();
    push_hex_fixed(&mut r, id, 32);
    assert(r@ =~= uuid_hex(id));
    r
}

/// The hyphenated text of a UUID.
pub fn uuid_string(id: u128) -> (r: String)
    ensures
        r@ == uuid_text(id),
{
    let h = uuid_hex_string(id);
    let v = chars_of(h.as_str());
    proof {
        lemma_hex_fixed_len(id as nat, 32);
    }
    let mut r = String::new();
    push_range(&mut r, &v, 0, 8);
    push_char(&mut r, '-');
    push_range(&mut r, &v, 8, 12);
    push_char(&mut r, '-');
    push_range(&mut r, &v, 12, 16);
    push_char(&mut r, '-');
    push_range(&mut r, &v, 16, 20);
    push_char(&mut r, '-');
    push_range(&mut r, &v, 20, 32);
    assert(r@ =~= uuid_text(id));
    r
}

/// The first seven hexadecimal digits of a UUID, for display.
pub fn short_uuid(id: u128) -> (r: String)
    ensures
        r@ == uuid_text(id).subrange(0, 7),
{
    let t = uuid_string(id);
    let v = chars_of(t.as_str());
    proof {
        lemma_uuid_text_shape(id);
    }
    string_from_range(&v, 0, 7)
}

/// A version-4 UUID of the RFC 4122 variant, read as a 128-bit number (most
/// significant byte first): its version nibble is 4 and its variant bits are 10.
pub open spec fn is_v4(id: u128) -> bool {
    &&& (id >> 76u128) & 0xfu128 == 4u128
    &&& (id >> 62u128) & 0x3u128 == 2u128
}

/// `uuid::Uuid::new_v4` read with `as_u128`: a random version-4 UUID. Beyond its
/// version and variant bits nothing is stated of it: the rest is random.
#[verifier::external_body]
pub(crate) fn new_random_uuid() -> (r: u128)
    ensures
        is_v4(r),
{
    uuid::Uuid::new_v4().as_u128()
}

/// What `uuid::Uuid::parse_str` gives for a text, as a 128-bit number.
pub uninterp spec fn uuid_parse(s: Seq<char>) -> Option<u128>;

/// `uuid::Uuid::parse_str`: the result is named `uuid_parse` of the text, and the
/// hyphenated lowercase text of a UUID reads back as that UUID (the crate decodes
/// the 32 hexadecimal digits in order, most significant first). Which other
/// spellings the crate accepts is not stated here.
#[verifier::external_body]
pub(crate) fn parse_uuid(s: &str) -> (r: Option<u128>)
    ensures
        r == uuid_parse(s@),
        forall|x: u128| s@ == uuid_text(x) ==> r == Some(x),
{
    match uuid::Uuid::parse_str(s) {
        Ok(u) => Some(u.as_u128()),
        Err(_) => None,
    }
}

/// What `chrono::NaiveDate::parse_from_str(s, "%Y-%m-%d")` gives for a text, as
/// year, month and day.
pub uninterp spec fn ymd_parse(s: Seq<char>) -> Option<(i32, u32, u32)>;

/// `chrono::NaiveDate::parse_from_str` with the format `%Y-%m-%d`: the result is
/// named `ymd_parse` of the text, and a date it gives has a month in 1..=12 and a
/// day in 1..=31.
#[verifier::external_body]
pub(crate) fn parse_ymd(s: &str) -> (r: Option<CalendarDate>)
    ensures
        r matches Some(d) ==> ymd_parse(s@) == Some((d.year, d.month, d.day)),
        r is None ==> ymd_parse(s@) is None,
        r matches Some(d) ==> 1 <= d.month <= 12 && 1 <= d.day <= 31,
{
    match chrono::NaiveDate::parse_from_str(s, "%Y-%m-%d") {
        Ok(d) => Some(
            CalendarDate {
                year: chrono::Datelike::year(&d),
                month: chrono::Datelike::month(&d),
                day: chrono::Datelike::day(&d),
            },
        ),
        Err(_) => None,
    }
}

/// What `chrono::DateTime::parse_from_rfc3339` gives for a text, taken to UTC:
/// seconds, nanoseconds, and the year, month and day of the UTC date.
pub uninterp spec fn rfc3339_parse(s: Seq<char>) -> Option<(i64, u32, i32, u32, u32)>;

/// An instant chrono prints in RFC 3339 with a four-digit year (0000 to 9999) and
/// no leap second.
pub open spec fn rfc3339_printable(secs: i64, nanos: u32) -> bool {
    -62167219200 <= secs <= 253402300799 && nanos < 1_000_000_000
}

/// Where `s` is the text chrono prints for an instant of years 0000 to 9999
/// without a leap second, `r` is that instant.
pub open spec fn reads_printed_instant(s: Seq<char>, r: Option<Timestamp>) -> bool {
    forall|i: (i64, u32)| #![trigger crate::record::rfc3339_text(i.0, i.1)]
        rfc3339_printable(i.0, i.1) && crate::record::rfc3339_text(i.0, i.1) == Some(s)
        ==> (r matches Some(t) && t.secs == i.0 && t.nanos == i.1)
}

/// `chrono::DateTime::parse_from_rfc3339`, taken to UTC: the result is named
/// `rfc3339_parse` of the text; its date has a month in 1..=12 and a day in
/// 1..=31 and is the UTC day that holds the instant; and the text chrono prints
/// for an instant of years 0000 to 9999 (see `rfc3339_text`) reads back as that
/// instant.
#[verifier::external_body]
pub(crate) fn parse_rfc3339(s: &str) -> (r: Option<Timestamp>)
    ensures
        r matches Some(t) ==> (midnight_secs(t.date.year, t.date.month, t.date.day) matches Some(m)
            && m <= t.secs < m + 86400),
        reads_printed_instant(s@, r),
        r matches Some(t) ==> rfc3339_parse(s@) == Some(
            (t.secs, t.nanos, t.date.year, t.date.month, t.date.day),
        ),
        r is None ==> rfc3339_parse(s@) is None,
        r matches Some(t) ==> 1 <= t.date.month <= 12 && 1 <= t.date.day <= 31,
{
    match chrono::DateTime::parse_from_rfc3339(s) {
        Ok(dt) => {
            let u = dt.with_timezone(&chrono::Utc);
            let d = u.date_naive();
            let (year, month, day) = (chrono::Datelike::year(&d), chrono::Datelike::month(&d), chrono::Datelike::day(&d));
            Some(Timestamp { secs: u.timestamp(), nanos: u.timestamp_subsec_nanos(), date: CalendarDate { year, month, day } })
        },
        Err(_) => None,
    }
}

/// A leap year of the proleptic Gregorian calendar.
pub open spec fn is_leap_year(y: int) -> bool {
    y % 4 == 0 && (y % 100 != 0 || y % 400 == 0)
}

/// The number of days of a month.
pub open spec fn month_days(y: int, m: int) -> int {
    if m == 2 {
        if is_leap_year(y) { 29 } else { 28 }
    } else if m == 4 || m == 6 || m == 9 || m == 11 {
        30
    } else {
        31
    }
}

/// A date chrono's `NaiveDate` can hold: a real calendar day in a year from
/// -262143 to 262142.
pub open spec fn valid_date(y: int, m: int, d: int) -> bool {
    -262143 <= y <= 262142 && 1 <= m <= 12 && 1 <= d <= month_days(y, m)
}

/// Days from 1970-01-01 to a date of the proleptic Gregorian calendar.
pub open spec fn days_from_civil(y: int, m: int, d: int) -> int {
    let yy = if m <= 2 { y - 1 } else { y };
    let era = yy / 400;
    let yoe = yy - era * 400;
    let mp = if m > 2 { m - 3 } else { m + 9 };
    let doy = (153 * mp + 2) / 5 + d - 1;
    let doe = yoe * 365 + yoe / 4 - yoe / 100 + doy;
    era * 146097 + doe - 719468
}

/// The Unix time, in seconds, of midnight UTC at the start of a date; `None`
/// for a date chrono cannot hold.
pub open spec fn midnight_secs(year: i32, month: u32, day: u32) -> Option<i64> {
    if valid_date(year as int, month as int, day as int) {
        Some((days_from_civil(year as int, month as int, day as int) * 86400) as i64)
    } else {
        None
    }
}

/// `chrono::NaiveDate::from_ymd_opt(..).and_hms_opt(0, 0, 0).and_utc().timestamp()`:
/// `None` where `from_ymd_opt` rejects the date (a month or day that does not
/// exist, or a year outside chrono's range), else the seconds from the Unix epoch
/// to midnight UTC of that day (`midnight_secs`).
#[verifier::external_body]
pub(crate) fn midnight_utc_secs(d: &CalendarDate) -> (r: Option<i64>)
    ensures
        r == midnight_secs(d.year, d.month, d.day),
{
    match chrono::NaiveDate::from_ymd_opt(d.year, d.month, d.day) {
        Some(nd) => match nd.and_hms_opt(0, 0, 0) {
            Some(ndt) => Some(ndt.and_utc().timestamp()),
            None => None,
        },
        None => None,
    }
}

} // verus!
