//! Instants, the windows between them, and the names of windows.

use std::hash::Hash;
use vstd::prelude::*;
use vstd::std_specs::cmp::PartialEqSpec;
use crate::lists::reversed;
use crate::text;

verus! {

/// The least and the greatest second that a calendar date falls on.
pub const MIN_SECS: i64 = -8334601228800;

pub const MAX_SECS: i64 = 8210266876799;

/// The least and the greatest calendar day, counted from 1970-01-01.
pub const MIN_DAY: i64 = -96465292;

pub const MAX_DAY: i64 = 95026236;

/// An instant: seconds since the start of 1970 in UTC, and nanoseconds within
/// the second. A leap second has more than a whole second of nanoseconds.
#[verifier::ext_equal]
pub struct Instant {
    pub secs: int,
    pub nanos: int,
}

/// The instants that there are.
pub open spec fn valid_instant(secs: int, nanos: int) -> bool {
    &&& MIN_SECS <= secs <= MAX_SECS
    &&& 0 <= nanos < 2000000000
    &&& nanos >= 1000000000 ==> secs % 60 == 59
}

/// The instants of the years that have four digits, leap seconds aside.
pub open spec fn common_instant(secs: int, nanos: int) -> bool {
    -62167219200 <= secs <= 253402300799 && 0 <= nanos < 1000000000
}

/// Whether `a` comes before `b`.
pub open spec fn earlier(a: Instant, b: Instant) -> bool {
    a.secs < b.secs || (a.secs == b.secs && a.nanos < b.nanos)
}

/// An instant in UTC.
#[derive(Clone, Copy, Debug, PartialEq, Eq)]
pub struct UtcTime {
    secs: i64,
    nanos: u32,
}

impl View for UtcTime {
    type V = Instant;

    closed spec fn view(&self) -> Instant {
        Instant { secs: self.secs as int, nanos: self.nanos as int }
    }
}

impl DeepView for UtcTime {
    type V = Instant;

    open spec fn deep_view(&self) -> Instant {
        self@
    }
}

/// The instant that an RFC 3339 text names, in UTC, or the message of `chrono`
/// where it names none.
pub uninterp spec fn rfc3339_utc(text: Seq<char>) -> Result<(int, int), Seq<char>>;

/// `chrono::DateTime::parse_from_rfc3339`, converted to UTC. Claimed: the result
/// depends on the text alone, and lies in the years that the format can write,
/// give or take a day of offset.
#[verifier::external_body]
fn read_rfc3339(text: &str) -> (r: Result<(i64, u32), String>)
    ensures
        (match r {
            Ok((secs, nanos)) => Ok((secs as int, nanos as int)),
            Err(e) => Err(e@),
        }) == rfc3339_utc(text@),
        r matches Ok((secs, nanos)) ==> -62167305600 <= secs <= 253402387199 && valid_instant(
            secs as int,
            nanos as int,
        ),
{
    match chrono::DateTime::parse_from_rfc3339(text) {
        Ok(t) => Ok((t.timestamp(), t.timestamp_subsec_nanos())),
        Err(e) => Err(e.to_string()),
    }
}

/// An instant to the second, as Graph filters want it: `%Y-%m-%dT%H:%M:%SZ`.
pub uninterp spec fn iso_text(secs: int, nanos: int) -> Seq<char>;

/// Digits, the signs of a year, and the letters and marks between the numbers.
pub open spec fn time_char(c: char) -> bool {
    ('0' <= c && c <= '9') || c == '-' || c == '+' || c == ':' || c == 'T' || c == 'Z'
}

/// A text of such characters.
pub open spec fn time_text(s: Seq<char>) -> bool {
    forall|i: int| 0 <= i < s.len() ==> time_char(#[trigger] s[i])
}

/// `chrono::DateTime::format` with `%Y-%m-%dT%H:%M:%SZ`. Claimed: the text depends
/// on the instant alone, and is made of digits, signs, `:`, `T` and `Z`.
#[verifier::external_body]
fn format_iso(secs: i64, nanos: u32) -> (r: String)
    requires
        valid_instant(secs as int, nanos as int),
    ensures
        r@ == iso_text(secs as int, nanos as int),
        time_text(r@),
{
    match chrono::DateTime::from_timestamp(secs, nanos) {
        Some(t) => t.format("%Y-%m-%dT%H:%M:%SZ").to_string(),
        None => String::new(),
    }
}

/// An instant to the second, fit for a file name: `%Y%m%dT%H%M%SZ`.
pub uninterp spec fn compact_text(secs: int, nanos: int) -> Seq<char>;

/// The instant that a text of the form `%Y%m%dT%H%M%SZ` names.
pub uninterp spec fn compact_instant(text: Seq<char>) -> Option<(int, int)>;

/// The day, counted from 1970-01-01, that a text of the form `%Y-%m-%d` names.
pub uninterp spec fn date_day(text: Seq<char>) -> Option<int>;

/// `chrono::DateTime::format` with `%Y%m%dT%H%M%SZ`. Claimed: the text depends on
/// the instant alone and holds no `_`; and in the years of four digits, leap
/// seconds aside, it reads back as the same second and is no date of the form
/// `%Y-%m-%d`.
#[verifier::external_body]
fn format_compact(secs: i64, nanos: u32) -> (r: String)
    requires
        valid_instant(secs as int, nanos as int),
    ensures
        r@ == compact_text(secs as int, nanos as int),
        !r@.contains('_'),
        common_instant(secs as int, nanos as int) ==> compact_instant(r@) == Some(
            (secs as int, 0int),
        ) && date_day(r@) is None,
{
    match chrono::DateTime::from_timestamp(secs, nanos) {
        Some(t) => t.format("%Y%m%dT%H%M%SZ").to_string(),
        None => String::new(),
    }
}

/// `chrono::NaiveDateTime::parse_from_str` with `%Y%m%dT%H%M%SZ`, taken as UTC.
/// Claimed: the result depends on the text alone and is an instant that there is.
#[verifier::external_body]
fn read_compact(text: &str) -> (r: Option<(i64, u32)>)
    ensures
        (match r {
            Some((secs, nanos)) => Some((secs as int, nanos as int)),
            None => None,
        }) == compact_instant(text@),
        r matches Some((secs, nanos)) ==> valid_instant(secs as int, nanos as int),
{
    let t = chrono::NaiveDateTime::parse_from_str(text, "%Y%m%dT%H%M%SZ").ok()?.and_utc();
    Some((t.timestamp(), t.timestamp_subsec_nanos()))
}

/// `chrono::NaiveDate::parse_from_str` with `%Y-%m-%d`, by its days since
/// 1970-01-01. Claimed: the day depends on the text alone and is one that there
/// is.
#[verifier::external_body]
fn read_date(text: &str) -> (r: Option<i64>)
    ensures
        (match r {
            Some(day) => Some(day as int),
            None => None,
        }) == date_day(text@),
        r matches Some(day) ==> MIN_DAY <= day <= MAX_DAY,
{
    let d = chrono::NaiveDate::parse_from_str(text, "%Y-%m-%d").ok()?;
    Some(d.signed_duration_since(chrono::NaiveDate::default()).num_days())
}

/// The instant `n` whole seconds after `t`. A leap second is the sixty-first of
/// its minute: going on from it, the second behind it is already the next.
pub open spec fn shifted(t: Instant, n: int) -> Instant {
    if t.nanos < 1000000000 {
        Instant { secs: t.secs + n, nanos: t.nanos }
    } else if n > 0 {
        Instant { secs: t.secs + n, nanos: t.nanos - 1000000000 }
    } else if n < 0 {
        Instant { secs: t.secs + n + 1, nanos: t.nanos - 1000000000 }
    } else {
        t
    }
}

impl UtcTime {
    #[verifier::type_invariant]
    spec fn well_formed(self) -> bool {
        valid_instant(self.secs as int, self.nanos as int)
    }

    /// The instant of this second and nanosecond, where there is one.
    pub fn from_timestamp(secs: i64, nanos: u32) -> (r: Option<UtcTime>)
        ensures
            match r {
                Some(t) => valid_instant(secs as int, nanos as int) && t@ == (Instant {
                    secs: secs as int,
                    nanos: nanos as int,
                }),
                None => !valid_instant(secs as int, nanos as int),
            },
    {
        if secs < MIN_SECS || secs > MAX_SECS || nanos >= 2000000000 {
            return None;
        }
        if nanos >= 1000000000 {
            // The remainder of a negative second is taken from a multiple of sixty
            // below every second that there is.
            let offset: u64 = (secs + 8334601228800) as u64;
            assert((secs + 8334601228800) % 60 == secs as int % 60) by (nonlinear_arith)
                requires
                    8334601228800int == 60 * 138910020480,
            ;
            if offset % 60 != 59 {
                return None;
            }
        }
        Some(UtcTime { secs, nanos })
    }

    /// The seconds since the start of 1970.
    pub fn timestamp(&self) -> (r: i64)
        ensures
            r == self@.secs,
            MIN_SECS <= r <= MAX_SECS,
    {
        proof {
            use_type_invariant(self);
        }
        self.secs
    }

    /// The nanoseconds within the second.
    pub fn subsec_nanos(&self) -> (r: u32)
        ensures
            r == self@.nanos,
    {
        self.nanos
    }

    /// Whether this instant comes before `other`.
    pub fn is_earlier(&self, other: &UtcTime) -> (r: bool)
        ensures
            r == earlier(self@, other@),
    {
        self.secs < other.secs || (self.secs == other.secs && self.nanos < other.nanos)
    }

    /// The instant that an RFC 3339 text names.
    pub fn parse_rfc3339(text: &str) -> (r: Result<UtcTime, String>)
        ensures
            (match r {
                Ok(t) => Ok((t@.secs, t@.nanos)),
                Err(e) => Err(e@),
            }) == rfc3339_utc(text@),
            r matches Ok(t) ==> -62167305600 <= t@.secs <= 253402387199,
    {
        match read_rfc3339(text) {
            Ok((secs, nanos)) => Ok(UtcTime { secs, nanos }),
            Err(e) => Err(e),
        }
    }

    /// The instant `n` whole seconds later, or earlier where `n` is negative.
    pub fn shift(&self, n: i64) -> (r: UtcTime)
        requires
            n < 0 ==> MIN_SECS <= self@.secs + n,
            n > 0 ==> self@.secs + n <= MAX_SECS,
        ensures
            r@ == shifted(self@, n as int),
    {
        proof {
            use_type_invariant(self);
        }
        if self.nanos < 1000000000 {
            UtcTime { secs: self.secs + n, nanos: self.nanos }
        } else if n > 0 {
            UtcTime { secs: self.secs + n, nanos: self.nanos - 1000000000 }
        } else if n < 0 {
            UtcTime { secs: self.secs + n + 1, nanos: self.nanos - 1000000000 }
        } else {
            *self
        }
    }

    /// The day on which this instant falls.
    pub fn date_naive(&self) -> (d: CivilDate)
        ensures
            d@ == self@.secs / 86400,
    {
        proof {
            use_type_invariant(self);
        }
        // Counted from the first day that there is, so that no negative number is
        // divided.
        let offset: u64 = (self.secs + 8334601228800) as u64;
        assert((self.secs + 8334601228800) / 86400 == self.secs as int / 86400 + 96465292)
            by (nonlinear_arith)
            requires
                8334601228800int == 86400 * 96465292,
        ;
        CivilDate { day: (offset / 86400) as i64 - 96465292 }
    }
}

/// A calendar day, counted from 1970-01-01.
#[derive(Clone, Copy, Debug, PartialEq, Eq)]
pub struct CivilDate {
    day: i64,
}

impl View for CivilDate {
    type V = int;

    closed spec fn view(&self) -> int {
        self.day as int
    }
}

impl DeepView for CivilDate {
    type V = int;

    open spec fn deep_view(&self) -> int {
        self@
    }
}

impl CivilDate {
    #[verifier::type_invariant]
    spec fn well_formed(self) -> bool {
        MIN_DAY <= self.day <= MAX_DAY
    }

    /// This day counted from 1970-01-01, where there is such a day.
    pub fn from_day(day: i64) -> (r: Option<CivilDate>)
        ensures
            match r {
                Some(d) => MIN_DAY <= day <= MAX_DAY && d@ == day,
                None => !(MIN_DAY <= day <= MAX_DAY),
            },
    {
        if MIN_DAY <= day && day <= MAX_DAY {
            Some(CivilDate { day })
        } else {
            None
        }
    }

    /// The days since 1970-01-01.
    pub fn day(&self) -> (r: i64)
        ensures
            r == self@,
            MIN_DAY <= r <= MAX_DAY,
    {
        proof {
            use_type_invariant(self);
        }
        self.day
    }
}

/// The first instant of a day.
pub open spec fn midnight(day: int) -> Instant {
    Instant { secs: day * 86400, nanos: 0 }
}

/// The first instant of a day.
pub fn start_of_day(date: CivilDate) -> (t: UtcTime)
    ensures
        t@ == midnight(date@),
{
    proof {
        use_type_invariant(&date);
    }
    UtcTime { secs: date.day * 86400, nanos: 0 }
}

/// An instant as Graph filters want it, to the second.
pub fn iso_utc(t: UtcTime) -> (r: String)
    ensures
        r@ == iso_text(t@.secs, t@.nanos),
        time_text(r@),
{
    proof {
        use_type_invariant(&t);
    }
    format_iso(t.secs, t.nanos)
}

/// The window of a fetch.
pub open spec fn window_of(now: Instant, from: Instant, to: Option<Instant>) -> (Instant, Instant) {
    (
        from,
        match to {
            Some(t) => t,
            None => now,
        },
    )
}

/// The window of an agenda.
pub open spec fn agenda_of(now: Instant, from: Option<int>, to: Option<int>, days: int) -> (
    Instant,
    Instant,
) {
    (
        midnight(agenda_start(now, from)),
        midnight(
            match to {
                Some(d) => d + 1,
                None => agenda_start(now, from) + days,
            },
        ),
    )
}

/// A window begins where it is asked to and ends where it is asked to, at the moment where
/// it is not. An agenda holds whole days: from the midnight of its first day to the one
/// behind its last day, which counts whole, or behind as many days as asked for; where a
/// last day is given, the number of days does not matter.
pub proof fn law_windows_are_as_asked_for(
    now: Instant,
    from: Instant,
    to: Instant,
    first: int,
    last: int,
    days: int,
    more: int,
)
    ensures
        window_of(now, from, Some(to)) == (from, to),
        window_of(now, from, None) == (from, now),
        agenda_of(now, Some(first), Some(last), days).0 == (Instant { secs: first * 86400, nanos: 0 }),
        agenda_of(now, Some(first), Some(last), days).1.secs == last * 86400 + 86400,
        agenda_of(now, Some(first), Some(last), days) == agenda_of(
            now,
            Some(first),
            Some(last),
            more,
        ),
        agenda_of(now, Some(first), None, days).1.secs - agenda_of(
            now,
            Some(first),
            None,
            days,
        ).0.secs == days * 86400,
        agenda_of(now, None, None, days).0.secs <= now.secs < agenda_of(now, None, None, days).0.secs
            + 86400,
        agenda_of(now, None, Some(last), days).0 == agenda_of(now, None, None, days).0,
        agenda_of(now, None, Some(last), days).1.nanos == 0,
{
    assert((first + days) * 86400 == first * 86400 + days * 86400) by (nonlinear_arith);
}

/// The window of a fetch. It is half-open: its lower bound belongs to it, its
/// upper bound does not. Without an upper bound it runs to `now`.
pub fn resolve_window(now: UtcTime, from: UtcTime, to: Option<UtcTime>) -> (r: (UtcTime, UtcTime))
    ensures
        r.0@ == from@,
        r.1@ == (match to {
            Some(t) => t@,
            None => now@,
        }),
        (r.0@, r.1@) == window_of(now@, from@, to.deep_view()),
{
    (
        from,
        match to {
            Some(t) => t,
            None => now,
        },
    )
}

/// The instant that a bound of a block name stands for, by what it reads as: a date
/// is its midnight, a timestamp is itself.
pub open spec fn bound_from(day: Option<int>, stamp: Option<Instant>) -> Option<Instant> {
    match day {
        Some(day) => Some(midnight(day)),
        None => stamp,
    }
}

/// The instant that a bound of a block name stands for.
pub open spec fn bound_of(s: Seq<char>) -> Option<Instant> {
    bound_from(
        date_day(s),
        match compact_instant(s) {
            Some((secs, nanos)) => Some(Instant { secs, nanos }),
            None => None,
        },
    )
}

/// The instant that a bound of a block name stands for, by what it reads as.
pub fn read_bound(date: Option<CivilDate>, stamp: Option<UtcTime>) -> (r: Option<UtcTime>)
    ensures
        r.deep_view() == bound_from(date.deep_view(), stamp.deep_view()),
{
    match date {
        Some(d) => Some(start_of_day(d)),
        None => stamp,
    }
}

/// The instant that a bound of a block name stands for, in either form that such
/// a name can carry.
pub fn parse_bound(s: &str) -> (r: Option<UtcTime>)
    ensures
        r.deep_view() == bound_of(s@),
{
    let date = match read_date(s) {
        Some(day) => Some(CivilDate { day }),
        None => None,
    };
    let stamp = match read_compact(s) {
        Some((secs, nanos)) => Some(UtcTime { secs, nanos }),
        None => None,
    };
    read_bound(date, stamp)
}

/// The window of an agenda: from the start of the first day (today by default)
/// to the end of the last day where one is given, otherwise for so many days.
pub fn resolve_agenda_window(
    now: UtcTime,
    from: Option<CivilDate>,
    to: Option<CivilDate>,
    days: i64,
) -> (r: (UtcTime, UtcTime))
    requires
        to matches Some(d) ==> d@ < MAX_DAY,
        to is None ==> MIN_DAY <= agenda_start(now@, from.deep_view()) + days <= MAX_DAY,
    ensures
        r.0@ == midnight(agenda_start(now@, from.deep_view())),
        r.1@ == midnight(
            match to {
                Some(d) => d@ + 1,
                None => agenda_start(now@, from.deep_view()) + days,
            },
        ),
        (r.0@, r.1@) == agenda_of(now@, from.deep_view(), to.deep_view(), days as int),
{
    let start = match from {
        Some(d) => d,
        None => now.date_naive(),
    };
    let first = start.day();
    let last = match to {
        Some(d) => CivilDate { day: d.day() + 1 },
        None => CivilDate { day: first + days },
    };
    (start_of_day(start), start_of_day(last))
}

/// The first day of an agenda.
pub open spec fn agenda_start(now: Instant, from: Option<int>) -> int {
    match from {
        Some(d) => d,
        None => now.secs / 86400,
    }
}

/// The name of a block: its two bounds as timestamps, with a `_` between them.
pub open spec fn label_of(from: Instant, to: Instant) -> Seq<char> {
    compact_text(from.secs, from.nanos) + "_"@ + compact_text(to.secs, to.nanos)
}

/// The name of a block. The `_` between its bounds is the only one, and in the
/// years of four digits, leap seconds aside, each bound reads back as the second
/// that it was made from.
pub fn block_label(from: UtcTime, to: Option<UtcTime>, now: UtcTime) -> (r: String)
    ensures
        r@ == label_of(
            from@,
            match to {
                Some(t) => t@,
                None => now@,
            },
        ),
        ({
            let end = match to {
                Some(t) => t@,
                None => now@,
            };
            let cut = text::index_of(r@, '_', 0);
            &&& cut < r@.len()
            &&& text::index_of(r@, '_', cut + 1) == r@.len()
            &&& common_instant(from@.secs, from@.nanos) ==> bound_of(r@.take(cut)) == Some(
                Instant { secs: from@.secs, nanos: 0 },
            )
            &&& common_instant(end.secs, end.nanos) ==> bound_of(r@.skip(cut + 1)) == Some(
                Instant { secs: end.secs, nanos: 0 },
            )
        }),
{
    let end = match to {
        Some(t) => t,
        None => now,
    };
    proof {
        use_type_invariant(&from);
        use_type_invariant(&end);
    }
    let a = format_compact(from.secs, from.nanos);
    let b = format_compact(end.secs, end.nanos);
    let ghost x = a@;
    let ghost y = b@;
    let r = a.concat("_").concat(b.as_str());
    proof {
        reveal_strlit("_");
        let n = x.len() as int;
        assert(r@[n] == '_');
        text::lemma_index_of(r@, '_', 0);
        let cut = text::index_of(r@, '_', 0);
        assert(cut == n) by {
            if cut < n {
                assert(x[cut] == '_');
            }
        }
        text::lemma_index_of(r@, '_', cut + 1);
        let second = text::index_of(r@, '_', cut + 1);
        assert(second == r@.len()) by {
            if second < r@.len() {
                assert(y[second - n - 1] == '_');
            }
        }
        assert(r@.take(cut) =~= x);
        assert(r@.skip(cut + 1) =~= y);
    }
    r
}

// Deduplication.

/// Whether the key at `i` comes again behind it.
pub open spec fn comes_again<K: PartialEqSpec>(keys: Seq<K>, i: int) -> bool {
    exists|j: int| i < j < keys.len() && (#[trigger] keys[j]).eq_spec(&keys[i])
}

/// The items whose key does not come again behind them, in order, from `from` on.
pub open spec fn last_of_each<T, K: PartialEqSpec>(items: Seq<T>, keys: Seq<K>, from: int) -> Seq<T>
    decreases items.len() - from,
{
    if from < 0 || from >= items.len() {
        Seq::empty()
    } else if comes_again(keys, from) {
        last_of_each(items, keys, from + 1)
    } else {
        seq![items[from]] + last_of_each(items, keys, from + 1)
    }
}

/// Whether these are keys that `key` may give for the items.
pub open spec fn keys_of<T, K, F: Fn(&T) -> K>(key: F, items: Seq<T>, keys: Seq<K>) -> bool {
    keys.len() == items.len() && forall|i: int|
        0 <= i < items.len() ==> key.ensures((&#[trigger] items[i],), keys[i])
}

fn appears_again<K: Eq>(keys: &Vec<K>, i: usize) -> (r: bool)
    requires
        K::obeys_eq_spec(),
        i < keys.len(),
    ensures
        r == comes_again(keys@, i as int),
{
    let mut j: usize = i + 1;
    while j < keys.len()
        invariant
            i < j <= keys.len(),
            K::obeys_eq_spec(),
            forall|k: int| i < k < j ==> !(#[trigger] keys@[k]).eq_spec(&keys@[i as int]),
        decreases keys.len() - j,
    {
        if keys[j] == keys[i] {
            assert(keys@[j as int].eq_spec(&keys@[i as int]));
            return true;
        }
        j += 1;
    }
    false
}

/// One item per key: of those with the same key, the last.
pub fn dedupe_by<T, K, F>(items: Vec<T>, key: F) -> (r: Vec<T>) where K: Eq + Hash, F: Fn(&T) -> K
    requires
        K::obeys_eq_spec(),
        forall|i: int| 0 <= i < items.len() ==> key.requires((&#[trigger] items@[i],)),
    ensures
        exists|keys: Seq<K>| #[trigger]
            keys_of(key, items@, keys) && r@ == last_of_each(items@, keys, 0),
{
    let ghost all = items@;
    let mut keys: Vec<K> = Vec::new();
    let mut i: usize = 0;
    while i < items.len()
        invariant
            i <= items.len(),
            keys.len() == i,
            all == items@,
            forall|j: int| 0 <= j < items.len() ==> key.requires((&#[trigger] items@[j],)),
            forall|j: int| 0 <= j < i ==> key.ensures((&#[trigger] all[j],), keys@[j]),
        decreases items.len() - i,
    {
        keys.push(key(&items[i]));
        i += 1;
    }
    assert(keys_of(key, all, keys@));
    let mut rest = items;
    let mut kept: Vec<T> = Vec::new();
    assert(kept@.reverse() =~= last_of_each(all, keys@, all.len() as int));
    while rest.len() > 0
        invariant
            rest.len() <= all.len(),
            keys.len() == all.len(),
            rest@ == all.take(rest.len() as int),
            kept@.reverse() == last_of_each(all, keys@, rest.len() as int),
            K::obeys_eq_spec(),
        decreases rest.len(),
    {
        let n = rest.len() - 1;
        if let Some(item) = rest.pop() {
            assert(item == all[n as int]);
            let again = appears_again(&keys, n);
            let ghost before = kept@;
            if !again {
                kept.push(item);
                assert(kept@.reverse() =~= seq![item] + before.reverse());
            }
        }
    }
    reversed(kept)
}

/// What is kept of some items stands at these places, in their order: those whose key does
/// not come again behind them.
pub open spec fn kept_places<T, K: PartialEqSpec>(
    items: Seq<T>,
    keys: Seq<K>,
    kept: Seq<T>,
    places: Seq<int>,
) -> bool {
    &&& places.len() == kept.len()
    &&& forall|a: int, b: int| 0 <= a < b < places.len() ==> #[trigger] places[a] < #[trigger] places[b]
    &&& forall|k: int|
        0 <= k < places.len() ==> 0 <= #[trigger] places[k] < items.len() && kept[k]
            == items[places[k]]
    &&& forall|i: int|
        0 <= i < items.len() ==> (#[trigger] places.contains(i) <==> forall|j: int|
            i < j < keys.len() ==> !(#[trigger] keys[j]).eq_spec(&keys[i]))
}

proof fn lemma_kept_places<T, K: PartialEqSpec>(items: Seq<T>, keys: Seq<K>, from: int) -> (places:
    Seq<int>)
    requires
        0 <= from <= items.len(),
        keys.len() == items.len(),
    ensures
        places.len() == last_of_each(items, keys, from).len(),
        forall|a: int, b: int|
            0 <= a < b < places.len() ==> #[trigger] places[a] < #[trigger] places[b],
        forall|k: int|
            0 <= k < places.len() ==> from <= #[trigger] places[k] < items.len() && last_of_each(
                items,
                keys,
                from,
            )[k] == items[places[k]],
        forall|i: int|
            from <= i < items.len() ==> (#[trigger] places.contains(i) <==> forall|j: int|
                i < j < keys.len() ==> !(#[trigger] keys[j]).eq_spec(&keys[i])),
    decreases items.len() - from,
{
    if from == items.len() {
        Seq::empty()
    } else {
        let rest = lemma_kept_places(items, keys, from + 1);
        let kept = last_of_each(items, keys, from + 1);
        if comes_again(keys, from) {
            assert(!rest.contains(from));
            rest
        } else {
            let all = seq![from] + rest;
            assert(last_of_each(items, keys, from) == seq![items[from]] + kept);
            assert forall|a: int, b: int| 0 <= a < b < all.len() implies #[trigger] all[a]
                < #[trigger] all[b] by {
                assert(all[b] == rest[b - 1]);
                if a > 0 {
                    assert(all[a] == rest[a - 1]);
                }
            }
            assert forall|k: int| 0 <= k < all.len() implies from <= #[trigger] all[k] < items.len()
                && (seq![items[from]] + kept)[k] == items[all[k]] by {
                if k > 0 {
                    assert(all[k] == rest[k - 1]);
                }
            }
            assert forall|i: int| from <= i < items.len() implies (#[trigger] all.contains(i)
                <==> forall|j: int| i < j < keys.len() ==> !(#[trigger] keys[j]).eq_spec(&keys[i])) by {
                if i == from {
                    assert(all[0] == from);
                } else {
                    if all.contains(i) {
                        let k = choose|k: int| 0 <= k < all.len() && all[k] == i;
                        assert(rest[k - 1] == i);
                        assert(rest.contains(i));
                    }
                    if rest.contains(i) {
                        let k = choose|k: int| 0 <= k < rest.len() && rest[k] == i;
                        assert(all[k + 1] == i);
                    }
                }
            }
            all
        }
    }
}

/// Of the items with the same key the last is kept, and it alone; the items that are kept
/// stand in their order.
pub proof fn law_the_last_of_each_key_is_kept<T, K: PartialEqSpec>(items: Seq<T>, keys: Seq<K>)
    requires
        keys.len() == items.len(),
    ensures
        exists|places: Seq<int>| #[trigger]
            kept_places(items, keys, last_of_each(items, keys, 0), places),
{
    let places = lemma_kept_places(items, keys, 0);
    assert(kept_places(items, keys, last_of_each(items, keys, 0), places));
}

/// Instants are ordered by their seconds and then by their nanoseconds: of two different
/// ones exactly one is earlier, and what is earlier than an earlier one is earlier.
pub proof fn law_instants_are_ordered(a: Instant, b: Instant, c: Instant)
    ensures
        !earlier(a, a),
        earlier(a, b) || earlier(b, a) || a == b,
        !(earlier(a, b) && earlier(b, a)),
        earlier(a, b) && earlier(b, c) ==> earlier(a, c),
        a.secs < b.secs ==> earlier(a, b),
        a.secs == b.secs ==> (earlier(a, b) <==> a.nanos < b.nanos),
{
}

/// Going on by some seconds changes the seconds by as many and the nanoseconds not at
/// all, leap seconds aside, so that two steps are one and a step back undoes a step on.
pub proof fn law_seconds_add_up(t: Instant, n: int, m: int)
    requires
        0 <= t.nanos < 1000000000,
    ensures
        shifted(t, n).secs == t.secs + n,
        shifted(t, n).nanos == t.nanos,
        shifted(shifted(t, n), m) == shifted(t, n + m),
        shifted(shifted(t, n), -n) == t,
        n > 0 ==> earlier(t, shifted(t, n)),
{
}

/// A day is 86400 seconds long and begins at its midnight: the day of an instant is the
/// one whose midnight is not behind it and whose next midnight is. An agenda begins on the
/// given day, or else on the day of `now`.
pub proof fn law_a_day_begins_at_midnight(now: Instant, day: int)
    requires
        now.nanos >= 0,
    ensures
        midnight(day).nanos == 0,
        midnight(day + 1).secs - midnight(day).secs == 86400,
        midnight(0).secs == 0,
        !earlier(now, midnight(agenda_start(now, None))),
        earlier(now, midnight(agenda_start(now, None) + 1)),
        agenda_start(now, Some(day)) == day,
{
}

/// A bound of a block name that is a date is the midnight of that day, and otherwise it
/// is the instant that it names, if it names one.
pub proof fn law_a_date_is_its_midnight(day: int, stamp: Option<Instant>)
    ensures
        bound_from(Some(day), stamp) == Some(Instant { secs: 86400 * day, nanos: 0 }),
        bound_from(None, stamp) == stamp,
{
}

} // verus!
