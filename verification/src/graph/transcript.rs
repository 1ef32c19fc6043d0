//! Which transcript or report belongs to which occurrence of a meeting, and
//! what its file is called.
//!
//! A recurring meeting has one address for all its occurrences, so that its
//! lists span every past one. A transcript is attributed to an event only where
//! its time fits.

use vstd::prelude::*;
use crate::graph::records::{
    AttendanceReport, AttendanceReportView, DateTimeTimeZone, Transcript, TranscriptView,
};
use crate::graph::window;
use crate::graph::window::{Instant, UtcTime, MAX_SECS, MIN_SECS};
use crate::text;
use crate::text::{chars_of, has_suffix, skip_chars, take_chars, text_between};

verus! {

/// The text of a Graph time with its zone: one without a zone is in UTC.
pub open spec fn zoned(s: Seq<char>) -> Seq<char> {
    if text::ends_with(s, "Z"@) || text::ends_with(s, "z"@) {
        s
    } else {
        s + "Z"@
    }
}

/// The instant that a Graph time names.
pub open spec fn graph_time(s: Seq<char>) -> Option<Instant> {
    match window::rfc3339_utc(zoned(s)) {
        Ok((secs, nanos)) => Some(Instant { secs, nanos }),
        Err(_) => None,
    }
}

/// The instant that a Graph time names, with or without a zone.
pub fn parse_graph_time(s: &str) -> (r: Option<UtcTime>)
    ensures
        r.deep_view() == graph_time(s@),
        r matches Some(t) ==> -62167305600 <= t@.secs <= 253402387199,
{
    let zoned_text = if has_suffix(s, "Z") || has_suffix(s, "z") {
        s.to_string()
    } else {
        s.to_string().concat("Z")
    };
    match UtcTime::parse_rfc3339(zoned_text.as_str()) {
        Ok(t) => Some(t),
        Err(_) => None,
    }
}

/// The instant that an optional Graph time names.
pub open spec fn optional_time(s: Option<Seq<char>>) -> Option<Instant> {
    match s {
        Some(s) => graph_time(s),
        None => None,
    }
}

fn parse_optional(s: &Option<String>) -> (r: Option<UtcTime>)
    ensures
        r.deep_view() == optional_time(s.deep_view()),
{
    match s {
        Some(s) => parse_graph_time(s.as_str()),
        None => None,
    }
}

/// Whether an instant is between two others, both of which count.
pub open spec fn within(lo: Instant, hi: Instant, t: Instant) -> bool {
    !window::earlier(t, lo) && !window::earlier(hi, t)
}

/// The place of the latest of these instants that is within bounds, among the
/// first `n` of them; of several such, the last.
pub open spec fn latest_within(lo: Instant, hi: Instant, times: Seq<Option<Instant>>, n: int) -> Option<
    int,
>
    decreases n,
{
    if n <= 0 {
        None
    } else {
        let best = latest_within(lo, hi, times, n - 1);
        match times[n - 1] {
            Some(t) => if within(lo, hi, t) && (best is None || !window::earlier(
                t,
                times[best->Some_0]->Some_0,
            )) {
                Some(n - 1)
            } else {
                best
            },
            None => best,
        }
    }
}

/// What is picked is within bounds, nothing within bounds is later, and where
/// something is within bounds, something is picked.
pub proof fn law_the_latest_within_bounds_is_picked(
    lo: Instant,
    hi: Instant,
    times: Seq<Option<Instant>>,
    n: int,
)
    requires
        0 <= n <= times.len(),
    ensures
        match latest_within(lo, hi, times, n) {
            Some(i) => {
                &&& 0 <= i < n
                &&& times[i] matches Some(t) && within(lo, hi, t)
                &&& forall|j: int|
                    0 <= j < n && (#[trigger] times[j]) is Some && within(
                        lo,
                        hi,
                        times[j]->Some_0,
                    ) ==> !window::earlier(times[i]->Some_0, times[j]->Some_0) && (
                    window::earlier(times[j]->Some_0, times[i]->Some_0) || j <= i)
            },
            None => forall|j: int|
                0 <= j < n && (#[trigger] times[j]) is Some ==> !within(
                    lo,
                    hi,
                    times[j]->Some_0,
                ),
        },
    decreases n,
{
    if n > 0 {
        law_the_latest_within_bounds_is_picked(lo, hi, times, n - 1);
    }
}

/// The bounds within which a transcript belongs to an event: from its start to
/// six hours behind its end.
pub open spec fn transcript_bounds(start: Option<Instant>, end: Option<Instant>) -> Option<
    (Instant, Instant),
> {
    match (start, end) {
        (Some(s), Some(e)) => Some((s, window::shifted(e, 21600))),
        _ => None,
    }
}

/// The bounds within which an attendance report belongs to an event: from an
/// hour before its start, for some join early, to six hours behind its end.
pub open spec fn report_bounds(start: Option<Instant>, end: Option<Instant>) -> Option<
    (Instant, Instant),
> {
    match (start, end) {
        (Some(s), Some(e)) => Some((window::shifted(s, -3600), window::shifted(e, 21600))),
        _ => None,
    }
}

/// The times of some transcripts.
pub open spec fn transcript_times(transcripts: Seq<TranscriptView>) -> Seq<Option<Instant>> {
    transcripts.map_values(|t: TranscriptView| optional_time(t.created_date_time))
}

/// The times of some reports.
pub open spec fn report_times(reports: Seq<AttendanceReportView>) -> Seq<Option<Instant>> {
    reports.map_values(|r: AttendanceReportView| optional_time(r.meeting_start))
}

/// The place of the latest of these instants that is within bounds.
pub fn pick_latest(lo: UtcTime, hi: UtcTime, times: &Vec<Option<UtcTime>>) -> (r: Option<usize>)
    ensures
        match r {
            Some(i) => i < times.len() && latest_within(
                lo@,
                hi@,
                times.deep_view(),
                times.len() as int,
            ) == Some(i as int),
            None => latest_within(lo@, hi@, times.deep_view(), times.len() as int) is None,
        },
{
    let mut best: Option<usize> = None;
    let mut best_time = lo;
    let mut i: usize = 0;
    let ghost all = times.deep_view();
    while i < times.len()
        invariant
            i <= times.len(),
            all == times.deep_view(),
            match best {
                Some(b) => b < i && latest_within(lo@, hi@, all, i as int) == Some(b as int)
                    && all[b as int] == Some(best_time@),
                None => latest_within(lo@, hi@, all, i as int) is None,
            },
        decreases times.len() - i,
    {
        assert(all[i as int] == times@[i as int].deep_view());
        if let Some(t) = &times[i] {
            if !t.is_earlier(&lo) && !hi.is_earlier(t) && (best.is_none() || !t.is_earlier(
                &best_time,
            )) {
                best = Some(i);
                best_time = *t;
            }
        }
        i += 1;
    }
    best
}

/// The place among these times of the transcript of an occurrence.
pub fn transcript_index(start: Option<UtcTime>, end: Option<UtcTime>, times: &Vec<Option<UtcTime>>) -> (r:
    Option<usize>)
    requires
        end matches Some(t) ==> t@.secs + 21600 <= MAX_SECS,
    ensures
        match transcript_bounds(start.deep_view(), end.deep_view()) {
            None => r is None,
            Some((lo, hi)) => match r {
                Some(i) => i < times.len() && latest_within(
                    lo,
                    hi,
                    times.deep_view(),
                    times.len() as int,
                ) == Some(i as int),
                None => latest_within(lo, hi, times.deep_view(), times.len() as int) is None,
            },
        },
{
    let lo = match start {
        Some(t) => t,
        None => {
            return None;
        },
    };
    let hi = match end {
        Some(t) => t.shift(21600),
        None => {
            return None;
        },
    };
    pick_latest(lo, hi, times)
}

/// The place among these times of the attendance report of an occurrence.
pub fn report_index(start: Option<UtcTime>, end: Option<UtcTime>, times: &Vec<Option<UtcTime>>) -> (r:
    Option<usize>)
    requires
        start matches Some(t) ==> MIN_SECS <= t@.secs - 3600,
        end matches Some(t) ==> t@.secs + 21600 <= MAX_SECS,
    ensures
        match report_bounds(start.deep_view(), end.deep_view()) {
            None => r is None,
            Some((lo, hi)) => match r {
                Some(i) => i < times.len() && latest_within(
                    lo,
                    hi,
                    times.deep_view(),
                    times.len() as int,
                ) == Some(i as int),
                None => latest_within(lo, hi, times.deep_view(), times.len() as int) is None,
            },
        },
{
    let lo = match start {
        Some(t) => t.shift(-3600),
        None => {
            return None;
        },
    };
    let hi = match end {
        Some(t) => t.shift(21600),
        None => {
            return None;
        },
    };
    pick_latest(lo, hi, times)
}

/// The transcript of an occurrence, if there is one.
pub open spec fn chosen_transcript(
    start: Seq<char>,
    end: Seq<char>,
    transcripts: Seq<TranscriptView>,
) -> Option<TranscriptView> {
    match transcript_bounds(graph_time(start), graph_time(end)) {
        None => None,
        Some((lo, hi)) => match latest_within(
            lo,
            hi,
            transcript_times(transcripts),
            transcripts.len() as int,
        ) {
            None => None,
            Some(i) => Some(transcripts[i]),
        },
    }
}

/// The attendance report of an occurrence, if there is one.
pub open spec fn chosen_report(
    start: Seq<char>,
    end: Seq<char>,
    reports: Seq<AttendanceReportView>,
) -> Option<AttendanceReportView> {
    match report_bounds(graph_time(start), graph_time(end)) {
        None => None,
        Some((lo, hi)) => match latest_within(
            lo,
            hi,
            report_times(reports),
            reports.len() as int,
        ) {
            None => None,
            Some(i) => Some(reports[i]),
        },
    }
}

/// The transcript of an occurrence: the latest of those created within its
/// bounds.
pub fn pick_transcript_for<'a>(
    start: &DateTimeTimeZone,
    end: &DateTimeTimeZone,
    transcripts: &'a [Transcript],
) -> (r: Option<&'a Transcript>)
    ensures
        match transcript_bounds(graph_time(start.date_time@), graph_time(end.date_time@)) {
            None => r is None,
            Some((lo, hi)) => match latest_within(
                lo,
                hi,
                transcript_times(transcripts.deep_view()),
                transcripts@.len() as int,
            ) {
                None => r is None,
                Some(i) => r == Some(&transcripts@[i]),
            },
        },
        (match r {
            Some(x) => Some(x.deep_view()),
            None => None,
        }) == chosen_transcript(start.date_time@, end.date_time@, transcripts.deep_view()),
{
    let from = parse_graph_time(start.date_time.as_str());
    let to = parse_graph_time(end.date_time.as_str());
    let mut times: Vec<Option<UtcTime>> = Vec::new();
    let mut i: usize = 0;
    while i < transcripts.len()
        invariant
            i <= transcripts.len(),
            times.deep_view() == transcript_times(transcripts.deep_view()).take(i as int),
        decreases transcripts.len() - i,
    {
        let ghost before = times.deep_view();
        let t = parse_optional(&transcripts[i].created_date_time);
        times.push(t);
        assert(times.deep_view() =~= before.push(t.deep_view()));
        i += 1;
        assert(times.deep_view() =~= transcript_times(transcripts.deep_view()).take(i as int));
    }
    assert(times.deep_view() =~= transcript_times(transcripts.deep_view()));
    match transcript_index(from, to, &times) {
        Some(k) => Some(&transcripts[k]),
        None => None,
    }
}

/// The attendance report of an occurrence: the latest of those whose session
/// began within its bounds.
pub fn pick_report_for<'a>(
    start: &DateTimeTimeZone,
    end: &DateTimeTimeZone,
    reports: &'a [AttendanceReport],
) -> (r: Option<&'a AttendanceReport>)
    ensures
        match report_bounds(graph_time(start.date_time@), graph_time(end.date_time@)) {
            None => r is None,
            Some((lo, hi)) => match latest_within(
                lo,
                hi,
                report_times(reports.deep_view()),
                reports@.len() as int,
            ) {
                None => r is None,
                Some(i) => r == Some(&reports@[i]),
            },
        },
        (match r {
            Some(x) => Some(x.deep_view()),
            None => None,
        }) == chosen_report(start.date_time@, end.date_time@, reports.deep_view()),
{
    let from = parse_graph_time(start.date_time.as_str());
    let to = parse_graph_time(end.date_time.as_str());
    let mut times: Vec<Option<UtcTime>> = Vec::new();
    let mut i: usize = 0;
    while i < reports.len()
        invariant
            i <= reports.len(),
            times.deep_view() == report_times(reports.deep_view()).take(i as int),
        decreases reports.len() - i,
    {
        let ghost before = times.deep_view();
        let t = parse_optional(&reports[i].meeting_start);
        times.push(t);
        assert(times.deep_view() =~= before.push(t.deep_view()));
        i += 1;
        assert(times.deep_view() =~= report_times(reports.deep_view()).take(i as int));
    }
    assert(times.deep_view() =~= report_times(reports.deep_view()));
    match report_index(from, to, &times) {
        Some(k) => Some(&reports[k]),
        None => None,
    }
}

/// How far one instant is behind another, in nanoseconds, leap seconds aside.
pub open spec fn nanos_between(a: Instant, b: Instant) -> int {
    (b.secs - a.secs) * 1000000000 + (b.nanos - a.nanos)
}

/// An instant that is in no leap second.
pub open spec fn in_plain_second(t: Instant) -> bool {
    0 <= t.nanos < 1000000000
}

/// A transcript is attributed to an occurrence where both of its times can be read, and
/// then exactly the transcripts created from the start of the event to six hours behind
/// its end are eligible, both bounds counted: one is picked where there is one, what is
/// picked is eligible, and none that is eligible is later, nor as late and further behind.
/// Leap seconds aside.
pub proof fn law_a_transcript_from_the_start_to_six_hours_behind(
    start: Seq<char>,
    end: Seq<char>,
    transcripts: Seq<TranscriptView>,
)
    requires
        graph_time(start) matches Some(t) ==> in_plain_second(t),
        graph_time(end) matches Some(t) ==> in_plain_second(t),
        forall|i: int|
            0 <= i < transcripts.len() ==> (optional_time(
                (#[trigger] transcripts[i]).created_date_time,
            ) matches Some(t) ==> in_plain_second(t)),
    ensures
        ({
            let eligible = |i: int|
                0 <= i < transcripts.len() && transcripts[i].created_date_time is Some
                    && graph_time(start) is Some && graph_time(end) is Some && (graph_time(
                    transcripts[i].created_date_time->Some_0,
                ) matches Some(t) && nanos_between(graph_time(start)->Some_0, t) >= 0
                    && nanos_between(graph_time(end)->Some_0, t) <= 6 * 3600 * 1000000000);
            match chosen_transcript(start, end, transcripts) {
                None => forall|i: int| !#[trigger] eligible(i),
                Some(chosen) => exists|i: int| #[trigger]
                    eligible(i) && chosen == transcripts[i] && forall|j: int| #[trigger]
                        eligible(j) ==> {
                            let behind = nanos_between(
                                graph_time(transcripts[j].created_date_time->Some_0)->Some_0,
                                graph_time(transcripts[i].created_date_time->Some_0)->Some_0,
                            );
                            behind > 0 || (behind == 0 && j <= i)
                        },
            }
        }),
{
    let eligible = |i: int|
        0 <= i < transcripts.len() && transcripts[i].created_date_time is Some && graph_time(
            start,
        ) is Some && graph_time(end) is Some && (graph_time(
            transcripts[i].created_date_time->Some_0,
        ) matches Some(t) && nanos_between(graph_time(start)->Some_0, t) >= 0 && nanos_between(
            graph_time(end)->Some_0,
            t,
        ) <= 6 * 3600 * 1000000000);
    if graph_time(start) is Some && graph_time(end) is Some {
        let times = transcript_times(transcripts);
        let n = transcripts.len() as int;
        let (lo, hi) = transcript_bounds(graph_time(start), graph_time(end))->Some_0;
        law_the_latest_within_bounds_is_picked(lo, hi, times, n);
        assert forall|i: int| 0 <= i < n implies (#[trigger] eligible(i) <==> (times[i] is Some
            && within(lo, hi, times[i]->Some_0))) by {
            assert(times[i] == optional_time(transcripts[i].created_date_time));
        }
        if latest_within(lo, hi, times, n) is Some {
            let i = latest_within(lo, hi, times, n)->Some_0;
            assert(eligible(i));
            assert forall|j: int| #[trigger] eligible(j) implies {
                let behind = nanos_between(
                    graph_time(transcripts[j].created_date_time->Some_0)->Some_0,
                    graph_time(transcripts[i].created_date_time->Some_0)->Some_0,
                );
                behind > 0 || (behind == 0 && j <= i)
            } by {
                assert(times[j] == optional_time(transcripts[j].created_date_time));
                assert(times[i] == optional_time(transcripts[i].created_date_time));
            }
        }
    }
}

/// An attendance report is attributed to an occurrence where both of its times can be
/// read, and then exactly those whose session began from an hour before the start of the
/// event to six hours behind its end are eligible, both bounds counted: one is picked
/// where there is one, what is picked is eligible, and none that is eligible is later, nor
/// as late and further behind. Leap seconds aside.
pub proof fn law_a_report_from_an_hour_before_to_six_hours_behind(
    start: Seq<char>,
    end: Seq<char>,
    reports: Seq<AttendanceReportView>,
)
    requires
        graph_time(start) matches Some(t) ==> in_plain_second(t),
        graph_time(end) matches Some(t) ==> in_plain_second(t),
        forall|i: int|
            0 <= i < reports.len() ==> (optional_time(
                (#[trigger] reports[i]).meeting_start,
            ) matches Some(t) ==> in_plain_second(t)),
    ensures
        ({
            let eligible = |i: int|
                0 <= i < reports.len() && reports[i].meeting_start is Some && graph_time(
                    start,
                ) is Some && graph_time(end) is Some && (graph_time(
                    reports[i].meeting_start->Some_0,
                ) matches Some(t) && nanos_between(graph_time(start)->Some_0, t) >= -3600
                    * 1000000000 && nanos_between(graph_time(end)->Some_0, t) <= 6 * 3600
                    * 1000000000);
            match chosen_report(start, end, reports) {
                None => forall|i: int| !#[trigger] eligible(i),
                Some(chosen) => exists|i: int| #[trigger]
                    eligible(i) && chosen == reports[i] && forall|j: int| #[trigger]
                        eligible(j) ==> {
                            let behind = nanos_between(
                                graph_time(reports[j].meeting_start->Some_0)->Some_0,
                                graph_time(reports[i].meeting_start->Some_0)->Some_0,
                            );
                            behind > 0 || (behind == 0 && j <= i)
                        },
            }
        }),
{
    let eligible = |i: int|
        0 <= i < reports.len() && reports[i].meeting_start is Some && graph_time(start) is Some
            && graph_time(end) is Some && (graph_time(
            reports[i].meeting_start->Some_0,
        ) matches Some(t) && nanos_between(graph_time(start)->Some_0, t) >= -3600 * 1000000000
            && nanos_between(graph_time(end)->Some_0, t) <= 6 * 3600 * 1000000000);
    if graph_time(start) is Some && graph_time(end) is Some {
        let times = report_times(reports);
        let n = reports.len() as int;
        let (lo, hi) = report_bounds(graph_time(start), graph_time(end))->Some_0;
        law_the_latest_within_bounds_is_picked(lo, hi, times, n);
        assert forall|i: int| 0 <= i < n implies (#[trigger] eligible(i) <==> (times[i] is Some
            && within(lo, hi, times[i]->Some_0))) by {
            assert(times[i] == optional_time(reports[i].meeting_start));
        }
        if latest_within(lo, hi, times, n) is Some {
            let i = latest_within(lo, hi, times, n)->Some_0;
            assert(eligible(i));
            assert forall|j: int| #[trigger] eligible(j) implies {
                let behind = nanos_between(
                    graph_time(reports[j].meeting_start->Some_0)->Some_0,
                    graph_time(reports[i].meeting_start->Some_0)->Some_0,
                );
                behind > 0 || (behind == 0 && j <= i)
            } by {
                assert(times[j] == optional_time(reports[j].meeting_start));
                assert(times[i] == optional_time(reports[i].meeting_start));
            }
        }
    }
}

/// The bounds of the eligible times, for times given as such: a transcript counts from the
/// very start of the event, a report from 3600 seconds before it, and both to 21600
/// seconds behind the end; without both times there are no bounds.
pub proof fn law_bounds_are_counted_from_the_event(
    start: Option<Instant>,
    end: Option<Instant>,
    t: Instant,
)
    requires
        start matches Some(s) ==> in_plain_second(s),
        end matches Some(e) ==> in_plain_second(e),
    ensures
        transcript_bounds(start, end) is Some <==> start is Some && end is Some,
        report_bounds(start, end) is Some <==> start is Some && end is Some,
        transcript_bounds(start, end) matches Some((lo, hi)) ==> lo == start->Some_0 && hi.secs
            == end->Some_0.secs + 21600 && hi.nanos == end->Some_0.nanos,
        report_bounds(start, end) matches Some((lo, hi)) ==> lo.secs == start->Some_0.secs - 3600
            && lo.nanos == start->Some_0.nanos && hi.secs == end->Some_0.secs + 21600 && hi.nanos
            == end->Some_0.nanos,
{
}

/// A Graph time says the same with a zone and without one: without one it is in UTC.
pub proof fn law_times_without_a_zone_are_in_utc(s: Seq<char>)
    requires
        s.len() > 0 ==> s.last() != 'Z' && s.last() != 'z',
    ensures
        graph_time(s) == graph_time(s + "Z"@),
        graph_time(s) == match window::rfc3339_utc(s + "Z"@) {
            Ok((secs, nanos)) => Some(Instant { secs, nanos }),
            Err(_) => None,
        },
        graph_time(s + "z"@) == match window::rfc3339_utc(s + "z"@) {
            Ok((secs, nanos)) => Some(Instant { secs, nanos }),
            Err(_) => None,
        },
{
    reveal_strlit("Z");
    reveal_strlit("z");
    assert((s + "Z"@).skip(s.len() as int) =~= "Z"@);
    assert((s + "z"@).skip(s.len() as int) =~= "z"@);
    if s.len() > 0 {
        assert(s.skip(s.len() - 1)[0] == s.last());
    }
}

// Names.

/// Whether std counts a character beyond ASCII as a letter or a number.
pub uninterp spec fn unicode_alphanumeric(c: char) -> bool;

/// Letters and numbers: in ASCII the letters and the digits, beyond it what std
/// counts so.
pub open spec fn alphanumeric(c: char) -> bool {
    if (c as u32) < 128 {
        text::ascii_alphanumeric(c)
    } else {
        unicode_alphanumeric(c)
    }
}

/// `char::is_alphanumeric` of std. Among the ASCII characters these are the
/// letters and the digits; beyond them the answer depends on the character alone.
pub assume_specification[ char::is_alphanumeric ](c: char) -> (r: bool)
    ensures
        r == if (c as u32) < 128 {
            text::ascii_alphanumeric(c)
        } else {
            unicode_alphanumeric(c)
        },
;

/// A character beyond ASCII in lower case, which may be more than one character.
pub uninterp spec fn lower_case(c: char) -> Seq<char>;

/// A character in lower case: in ASCII a letter becomes its lower-case letter and
/// every other character stays as it is, beyond it what std makes of it.
pub open spec fn lowered_text(c: char) -> Seq<char> {
    if (c as u32) < 128 {
        seq![text::ascii_lower(c)]
    } else {
        lower_case(c)
    }
}

/// Lower-case ASCII letters and digits.
pub open spec fn plain(c: char) -> bool {
    ('a' <= c && c <= 'z') || ('0' <= c && c <= '9')
}

/// Lower-case ASCII letters, digits, and characters beyond ASCII.
pub open spec fn slug_letter(c: char) -> bool {
    plain(c) || (c as u32) >= 128
}

/// `char::to_lowercase` of std, its characters as a text. An ASCII letter becomes
/// its lower-case letter, every other ASCII character stays as it is, beyond them
/// the text depends on the character alone, and there is always at least one
/// character. An ASCII character in the lower case of one beyond ASCII is a lower-case
/// letter or a digit, as the `i` of U+0130 and the `k` of U+212A are.
#[verifier::external_body]
fn lowered(c: char) -> (r: String)
    ensures
        r@ == if (c as u32) < 128 {
            seq![text::ascii_lower(c)]
        } else {
            lower_case(c)
        },
        r@.len() >= 1,
        (c as u32) >= 128 ==> forall|i: int| 0 <= i < r@.len() ==> slug_letter(#[trigger] r@[i]),
{
    c.to_lowercase().collect()
}

/// What a character is in a slug: itself in lower case where it is a letter or a
/// number, and otherwise nothing.
pub open spec fn slug_parts(s: Seq<char>) -> Seq<Option<Seq<char>>> {
    s.map_values(
        |c: char|
            if alphanumeric(c) {
                Some(lowered_text(c))
            } else {
                None
            },
    )
}

/// The parts of a slug, with one `-` for each run of nothing.
pub open spec fn dashed(parts: Seq<Option<Seq<char>>>) -> Seq<char>
    decreases parts.len(),
{
    if parts.len() == 0 {
        Seq::empty()
    } else {
        let before = parts.drop_last();
        match parts.last() {
            Some(p) => dashed(before) + p,
            None => if before.len() > 0 && before.last() is None {
                dashed(before)
            } else {
                dashed(before).push('-')
            },
        }
    }
}

/// The place behind the `-` that a text begins with.
pub open spec fn dash_start(s: Seq<char>, i: int) -> int
    decreases s.len() - i,
{
    if 0 <= i < s.len() && s[i] == '-' {
        dash_start(s, i + 1)
    } else {
        i
    }
}

/// The place before the `-` that a text ends with.
pub open spec fn dash_end(s: Seq<char>, end: int) -> int
    decreases end,
{
    if 0 < end <= s.len() && s[end - 1] == '-' {
        dash_end(s, end - 1)
    } else {
        end
    }
}

/// A text without the `-` at its ends.
pub open spec fn undashed(s: Seq<char>) -> Seq<char> {
    let from = dash_start(s, 0);
    let to = dash_end(s, s.len() as int);
    if from <= to {
        s.subrange(from, to)
    } else {
        Seq::empty()
    }
}

/// The parts of a slug with one `-` for each run of nothing and none at its ends.
pub open spec fn whole_from(parts: Seq<Option<Seq<char>>>) -> Seq<char> {
    undashed(dashed(parts))
}

/// A text in lower case, with one `-` for each run of characters that are neither
/// letters nor numbers, and none at its ends.
pub open spec fn whole_slug(s: Seq<char>) -> Seq<char> {
    whole_from(slug_parts(s))
}

/// A text as part of a file name: its whole slug, cut off at sixty characters.
pub open spec fn slug_of(s: Seq<char>) -> Seq<char> {
    text::first_chars(whole_slug(s), 60)
}

/// The parts of a slug, put together.
pub fn join_slug(parts: &Vec<Option<String>>) -> (r: String)
    ensures
        r@ == whole_from(parts.deep_view()),
{
    let mut out = String::new();
    let mut previous_dash = false;
    let mut i: usize = 0;
    let ghost all = parts.deep_view();
    assert(out@ =~= dashed(all.take(0)));
    while i < parts.len()
        invariant
            i <= parts.len(),
            all == parts.deep_view(),
            out@ == dashed(all.take(i as int)),
            previous_dash == (i > 0 && all[i - 1] is None),
        decreases parts.len() - i,
    {
        assert(all.take(i + 1).drop_last() =~= all.take(i as int));
        assert(all.take(i + 1).last() == parts@[i as int].deep_view());
        if i > 0 {
            assert(all.take(i as int).last() == all[i - 1]);
        }
        match &parts[i] {
            Some(p) => {
                out = out.concat(p.as_str());
                previous_dash = false;
            },
            None => {
                if !previous_dash {
                    out.push('-');
                    previous_dash = true;
                }
            },
        }
        i += 1;
    }
    assert(all.take(i as int) =~= all);
    let w = chars_of(out.as_str());
    let mut from: usize = 0;
    while from < w.len() && w[from] == '-'
        invariant
            from <= w.len(),
            dash_start(w@, 0) == dash_start(w@, from as int),
        decreases w.len() - from,
    {
        from += 1;
    }
    let mut to: usize = w.len();
    while to > 0 && w[to - 1] == '-'
        invariant
            to <= w.len(),
            dash_end(w@, w.len() as int) == dash_end(w@, to as int),
        decreases to,
    {
        to -= 1;
    }
    if from <= to {
        text_between(&w, from, to)
    } else {
        let empty = String::new();
        assert(empty@ =~= Seq::<char>::empty());
        empty
    }
}

/// A text in lower case, with one `-` for each run of characters that are neither
/// letters nor numbers, and none at its ends.
pub fn slugify_whole(s: &str) -> (r: String)
    ensures
        r@ == whole_slug(s@),
        lettered_parts(slug_parts(s@)),
        slug_text(r@),
        r@.len() > 0 <==> exists|i: int| 0 <= i < s@.len() && alphanumeric(#[trigger] s@[i]),
{
    let v = chars_of(s);
    let mut parts: Vec<Option<String>> = Vec::new();
    let mut i: usize = 0;
    let ghost all = slug_parts(s@);
    assert(parts.deep_view() =~= all.take(0));
    while i < v.len()
        invariant
            i <= v.len(),
            v@ == s@,
            all == slug_parts(s@),
            parts.deep_view() == all.take(i as int),
            lettered_parts(all.take(i as int)),
        decreases v.len() - i,
    {
        let ghost before = parts.deep_view();
        let part = if v[i].is_alphanumeric() {
            Some(lowered(v[i]))
        } else {
            None
        };
        assert(all[i as int] == part.deep_view());
        parts.push(part);
        assert(parts.deep_view() =~= before.push(part.deep_view()));
        i += 1;
        assert(parts.deep_view() =~= all.take(i as int));
        assert(lettered_parts(all.take(i as int))) by {
            let now = all.take(i as int);
            assert forall|k: int| 0 <= k < now.len() && (#[trigger] now[k]) is Some implies letters(
                now[k]->Some_0,
            ) by {
                if k < i - 1 {
                    assert(before[k] == now[k]);
                }
            }
        }
    }
    assert(all.take(i as int) =~= all);
    proof {
        law_a_slug_is_clean(all);
        lemma_slug_parts(s@);
    }
    join_slug(&parts)
}

/// A text as part of a file name: its whole slug, cut off at sixty characters.
pub fn slugify(s: &str) -> (r: String)
    ensures
        r@ == slug_of(s@),
        slug_text(r@),
        r@.len() > 0 <==> exists|i: int| 0 <= i < s@.len() && alphanumeric(#[trigger] s@[i]),
{
    let whole = slugify_whole(s);
    proof {
        law_a_slug_is_clean(slug_parts(s@));
    }
    take_chars(whole.as_str(), 60)
}

proof fn lemma_dash_start(s: Seq<char>, i: int)
    requires
        0 <= i <= s.len(),
    ensures
        i <= dash_start(s, i) <= s.len(),
        dash_start(s, i) < s.len() ==> s[dash_start(s, i)] != '-',
        forall|k: int| i <= k < dash_start(s, i) ==> #[trigger] s[k] == '-',
    decreases s.len() - i,
{
    if i < s.len() && s[i] == '-' {
        lemma_dash_start(s, i + 1);
    }
}

proof fn lemma_dash_end(s: Seq<char>, end: int)
    requires
        0 <= end <= s.len(),
    ensures
        0 <= dash_end(s, end) <= end,
        dash_end(s, end) > 0 ==> s[dash_end(s, end) - 1] != '-',
        forall|k: int| dash_end(s, end) <= k < end ==> #[trigger] s[k] == '-',
    decreases end,
{
    if end > 0 && s[end - 1] == '-' {
        lemma_dash_end(s, end - 1);
    }
}

/// A slug has sixty characters at most, begins with no `-`, and ends with none
/// unless it was cut off there.
pub proof fn law_slugs_are_short_and_trimmed(s: Seq<char>)
    ensures
        slug_of(s).len() <= 60,
        slug_of(s).len() > 0 ==> slug_of(s)[0] != '-',
        slug_of(s).len() > 0 && whole_slug(s).len() <= 60 ==> slug_of(s).last() != '-',
{
    let d = dashed(slug_parts(s));
    lemma_dash_start(d, 0);
    lemma_dash_end(d, d.len() as int);
}

/// ASCII text.
pub open spec fn ascii(s: Seq<char>) -> bool {
    forall|i: int| 0 <= i < s.len() ==> (#[trigger] s[i] as u32) < 128
}

/// A text in which no `-` follows another.
pub open spec fn single_dashes(s: Seq<char>) -> bool {
    forall|i: int, j: int|
        0 <= i && j == i + 1 && j < s.len() ==> !(#[trigger] s[i] == '-' && #[trigger] s[j] == '-')
}

/// A text of lower-case ASCII letters, digits, characters beyond ASCII and single `-`.
pub open spec fn slug_text(s: Seq<char>) -> bool {
    &&& forall|i: int| 0 <= i < s.len() ==> slug_letter(#[trigger] s[i]) || s[i] == '-'
    &&& single_dashes(s)
}

/// A text of lower-case ASCII letters, digits and single `-`.
pub open spec fn plain_text(s: Seq<char>) -> bool {
    &&& forall|i: int| 0 <= i < s.len() ==> plain(#[trigger] s[i]) || s[i] == '-'
    &&& single_dashes(s)
}

/// At least one character, and none but lower-case ASCII letters, digits and those
/// beyond ASCII.
pub open spec fn letters(p: Seq<char>) -> bool {
    p.len() > 0 && forall|i: int| 0 <= i < p.len() ==> slug_letter(#[trigger] p[i])
}

/// Parts that are made of such characters, as those of every text are.
pub open spec fn lettered_parts(parts: Seq<Option<Seq<char>>>) -> bool {
    forall|i: int|
        0 <= i < parts.len() && (#[trigger] parts[i]) is Some ==> letters(parts[i]->Some_0)
}

/// Parts of one ASCII character each.
spec fn ascii_parts(parts: Seq<Option<Seq<char>>>) -> bool {
    forall|i: int|
        0 <= i < parts.len() && (#[trigger] parts[i]) is Some ==> parts[i]->Some_0.len() == 1
            && (parts[i]->Some_0[0] as u32) < 128
}

proof fn lemma_slug_parts(s: Seq<char>)
    ensures
        (exists|i: int| 0 <= i < slug_parts(s).len() && (#[trigger] slug_parts(s)[i]) is Some) <==> (
        exists|i: int| 0 <= i < s.len() && alphanumeric(#[trigger] s[i])),
{
    let parts = slug_parts(s);
    if exists|i: int| 0 <= i < parts.len() && (#[trigger] parts[i]) is Some {
        let i = choose|i: int| 0 <= i < parts.len() && (#[trigger] parts[i]) is Some;
        assert(alphanumeric(s[i]));
    }
    if exists|i: int| 0 <= i < s.len() && alphanumeric(#[trigger] s[i]) {
        let i = choose|i: int| 0 <= i < s.len() && alphanumeric(#[trigger] s[i]);
        assert(parts[i] is Some);
    }
}

proof fn lemma_dashed(parts: Seq<Option<Seq<char>>>)
    requires
        lettered_parts(parts),
    ensures
        slug_text(dashed(parts)),
        parts.len() > 0 ==> dashed(parts).len() > 0 && (dashed(parts).last() == '-'
            <==> parts.last() is None),
        (exists|i: int| 0 <= i < dashed(parts).len() && #[trigger] dashed(parts)[i] != '-') <==> (
        exists|i: int| 0 <= i < parts.len() && (#[trigger] parts[i]) is Some),
    decreases parts.len(),
{
    let d = dashed(parts);
    if parts.len() > 0 {
        let before = parts.drop_last();
        let n = before.len() as int;
        assert forall|i: int| 0 <= i < before.len() && (#[trigger] before[i]) is Some implies letters(
            before[i]->Some_0,
        ) by {
            assert(parts[i] == before[i]);
        }
        lemma_dashed(before);
        let e = dashed(before);
        assert(parts[n] == parts.last());
        if parts.last() is Some {
            let p = parts.last()->Some_0;
            assert(letters(p));
            assert(slug_letter(p[0]) && slug_letter(p[p.len() - 1]));
            assert(d[d.len() - 1] == p[p.len() - 1]);
            assert forall|i: int| 0 <= i < d.len() implies slug_letter(#[trigger] d[i]) || d[i]
                == '-' by {
                if i < e.len() {
                    assert(d[i] == e[i]);
                } else {
                    assert(d[i] == p[i - e.len()]);
                }
            }
            assert forall|i: int, j: int| 0 <= i && j == i + 1 && j < d.len() implies !(
            #[trigger] d[i] == '-' && #[trigger] d[j] == '-') by {
                if j < e.len() {
                    assert(d[i] == e[i] && d[j] == e[j]);
                } else {
                    assert(d[j] == p[j - e.len()]);
                }
            }
        }
        if exists|i: int| 0 <= i < e.len() && #[trigger] e[i] != '-' {
            let i = choose|i: int| 0 <= i < e.len() && #[trigger] e[i] != '-';
            assert(d[i] == e[i]);
            let k = choose|k: int| 0 <= k < before.len() && (#[trigger] before[k]) is Some;
            assert(parts[k] is Some);
        } else if parts.last() is None {
            assert forall|i: int| 0 <= i < parts.len() implies !((#[trigger] parts[i]) is Some) by {
                if i < n {
                    assert(before[i] == parts[i]);
                }
            }
        }
        if n > 0 {
            assert(e.last() == e[e.len() - 1]);
        } else {
            assert(e.len() == 0);
        }
    }
}

proof fn lemma_dashed_ascii(parts: Seq<Option<Seq<char>>>)
    requires
        ascii_parts(parts),
    ensures
        ascii(dashed(parts)),
        dashed(parts).len() <= parts.len(),
    decreases parts.len(),
{
    if parts.len() > 0 {
        let before = parts.drop_last();
        assert(parts[before.len() as int] == parts.last());
        assert forall|i: int| 0 <= i < before.len() && (#[trigger] before[i]) is Some implies
            before[i]->Some_0.len() == 1 && (before[i]->Some_0[0] as u32) < 128 by {
            assert(parts[i] == before[i]);
        }
        lemma_dashed_ascii(before);
    }
}

proof fn lemma_undashed(d: Seq<char>)
    requires
        slug_text(d),
    ensures
        slug_text(undashed(d)),
        ascii(d) ==> ascii(undashed(d)),
        undashed(d).len() <= d.len(),
        undashed(d).len() > 0 <==> exists|i: int| 0 <= i < d.len() && #[trigger] d[i] != '-',
        undashed(d).len() > 0 ==> undashed(d)[0] != '-' && undashed(d).last() != '-',
{
    lemma_dash_start(d, 0);
    lemma_dash_end(d, d.len() as int);
    let from = dash_start(d, 0);
    let to = dash_end(d, d.len() as int);
    let u = undashed(d);
    assert forall|i: int| 0 <= i < u.len() implies #[trigger] u[i] == d[from + i] by {}
    if exists|i: int| 0 <= i < d.len() && #[trigger] d[i] != '-' {
        let i = choose|i: int| 0 <= i < d.len() && #[trigger] d[i] != '-';
        assert(from <= i < to);
    }
}

/// A slug holds lower-case ASCII letters, digits, characters beyond ASCII and single
/// `-` alone, cut off or not; the whole of it has no `-` at its ends, and it is empty
/// exactly where no part is anything.
pub proof fn law_a_slug_is_clean(parts: Seq<Option<Seq<char>>>)
    requires
        lettered_parts(parts),
    ensures
        slug_text(whole_from(parts)),
        slug_text(text::first_chars(whole_from(parts), 60)),
        whole_from(parts).len() > 0 ==> whole_from(parts)[0] != '-' && whole_from(parts).last()
            != '-',
        whole_from(parts).len() > 0 <==> exists|i: int|
            0 <= i < parts.len() && (#[trigger] parts[i]) is Some,
{
    lemma_dashed(parts);
    lemma_undashed(dashed(parts));
    let w = whole_from(parts);
    let t = text::first_chars(w, 60);
    assert forall|i: int| 0 <= i < t.len() implies #[trigger] t[i] == w[i] by {}
}

/// The slug of an ASCII text holds lower-case letters, digits and single `-` alone,
/// and is empty exactly where the text has no letter and no digit.
pub proof fn law_slugs_of_ascii_are_plain(s: Seq<char>)
    requires
        ascii(s),
    ensures
        plain_text(whole_slug(s)),
        plain_text(slug_of(s)),
        whole_slug(s).len() <= s.len(),
        slug_of(s).len() > 0 <==> exists|i: int|
            0 <= i < s.len() && text::ascii_alphanumeric(#[trigger] s[i]),
{
    let parts = slug_parts(s);
    assert forall|i: int| 0 <= i < parts.len() && (#[trigger] parts[i]) is Some implies letters(
        parts[i]->Some_0,
    ) && parts[i]->Some_0.len() == 1 && (parts[i]->Some_0[0] as u32) < 128 by {
        assert((s[i] as u32) < 128);
    }
    law_a_slug_is_clean(parts);
    lemma_dashed(parts);
    lemma_dashed_ascii(parts);
    lemma_undashed(dashed(parts));
    lemma_slug_parts(s);
    let w = whole_slug(s);
    let t = slug_of(s);
    assert forall|i: int| 0 <= i < t.len() implies #[trigger] t[i] == w[i] by {}
    assert forall|i: int| 0 <= i < s.len() implies alphanumeric(#[trigger] s[i])
        == text::ascii_alphanumeric(s[i]) by {
        assert((s[i] as u32) < 128);
    }
}

proof fn lemma_plain_text_is_dashed(t: Seq<char>)
    requires
        plain_text(t),
    ensures
        dashed(slug_parts(t)) == t,
    decreases t.len(),
{
    if t.len() > 0 {
        let before = t.drop_last();
        let n = before.len() as int;
        assert forall|i: int| 0 <= i < before.len() implies #[trigger] before[i] == t[i] by {}
        lemma_plain_text_is_dashed(before);
        let parts = slug_parts(t);
        assert(parts.drop_last() =~= slug_parts(before));
        assert(t =~= before.push(t[n]));
        assert(plain(t[n]) || t[n] == '-');
        if plain(t[n]) {
            assert(parts.last() == Some(seq![t[n]]));
            assert(before + seq![t[n]] =~= before.push(t[n]));
        } else {
            assert(parts.last() is None);
            if n > 0 {
                assert(!(t[n - 1] == '-' && t[n] == '-'));
                assert(plain(t[n - 1]));
                assert(slug_parts(before).last() is Some);
            }
        }
    } else {
        assert(dashed(slug_parts(t)) =~= t);
    }
}

/// A text of lower-case ASCII letters, digits and single `-`, with none at its ends,
/// is its own whole slug.
pub proof fn law_plain_texts_are_their_own_slugs(t: Seq<char>)
    requires
        plain_text(t),
        t.len() > 0 ==> t[0] != '-' && t.last() != '-',
    ensures
        whole_slug(t) == t,
{
    lemma_plain_text_is_dashed(t);
    lemma_dash_start(t, 0);
    lemma_dash_end(t, t.len() as int);
    assert(undashed(t) =~= t);
}

/// The slug of an ASCII text is its own slug, unless it was cut off at a `-`; a text
/// of sixty characters at most is not cut off.
pub proof fn law_a_slug_is_its_own_slug(s: Seq<char>)
    requires
        ascii(s),
        s.len() <= 60 || slug_of(s).len() == 0 || slug_of(s).last() != '-',
    ensures
        slug_of(slug_of(s)) == slug_of(s),
{
    law_slugs_of_ascii_are_plain(s);
    law_slugs_are_short_and_trimmed(s);
    let t = slug_of(s);
    law_plain_texts_are_their_own_slugs(t);
    assert(text::first_chars(t, 60) =~= t);
}

/// The case of ASCII letters does not matter to a slug.
pub proof fn law_slugs_ignore_ascii_case(s: Seq<char>, t: Seq<char>)
    requires
        text::same_ignoring_ascii_case(s, t),
    ensures
        whole_slug(s) == whole_slug(t),
        slug_of(s) == slug_of(t),
{
    assert forall|i: int| 0 <= i < s.len() implies #[trigger] slug_parts(s)[i] == slug_parts(
        t,
    )[i] by {
        assert(text::ascii_lower(s[i]) == text::ascii_lower(t[i]));
    }
    assert(slug_parts(s) =~= slug_parts(t));
}

/// The last eight characters of a text, all of it where it is shorter.
pub open spec fn last_eight(s: Seq<char>) -> Seq<char> {
    if s.len() <= 8 {
        s
    } else {
        s.skip(s.len() - 8)
    }
}

/// `<date>-<subject>-<event>`: the date of the start, the slug of the subject or
/// `untitled`, and the end of the whole slug of the event's identity, for there the
/// identities of one mailbox differ.
pub open spec fn stem_from(start: Seq<char>, slug: Seq<char>, id_slug: Seq<char>) -> Seq<char> {
    text::first_chars(start, 10) + "-"@ + if slug.len() > 0 {
        slug
    } else {
        "untitled"@
    } + "-"@ + last_eight(id_slug)
}

/// What the files of an event are called, but for their endings.
pub open spec fn file_stem(
    start: Seq<char>,
    subject: Option<Seq<char>>,
    event_id: Seq<char>,
) -> Seq<char> {
    stem_from(
        start,
        match subject {
            Some(s) => slug_of(s),
            None => Seq::empty(),
        },
        whole_slug(event_id),
    )
}

/// The name of the transcript of an event.
pub open spec fn transcript_name(
    start: Seq<char>,
    subject: Option<Seq<char>>,
    event_id: Seq<char>,
) -> Seq<char> {
    file_stem(start, subject, event_id) + ".vtt"@
}

/// Behind its first ten characters, a text of lower-case ASCII letters, digits,
/// characters beyond ASCII and `-` alone.
pub open spec fn clean_behind_date(start: Seq<char>, stem: Seq<char>) -> bool {
    forall|i: int|
        text::first_chars(start, 10).len() <= i < stem.len() ==> slug_letter(#[trigger] stem[i])
            || stem[i] == '-'
}

/// Behind its date, what the files of an event are called holds lower-case ASCII
/// letters, digits, characters beyond ASCII and `-` alone, and so no separator of paths.
pub proof fn law_event_files_are_clean_behind_the_date(
    start: Seq<char>,
    slug: Seq<char>,
    id_slug: Seq<char>,
)
    requires
        slug_text(slug),
        slug_text(id_slug),
    ensures
        clean_behind_date(start, stem_from(start, slug, id_slug)),
{
    reveal_strlit("-");
    reveal_strlit("untitled");
    let date = text::first_chars(start, 10);
    let shown = if slug.len() > 0 {
        slug
    } else {
        "untitled"@
    };
    let tail = last_eight(id_slug);
    let r = stem_from(start, slug, id_slug);
    assert(r =~= date + "-"@ + shown + "-"@ + tail);
    assert(forall|k: int|
        0 <= k < shown.len() ==> slug_letter(#[trigger] shown[k]) || shown[k] == '-');
    assert forall|i: int| date.len() <= i < r.len() implies slug_letter(#[trigger] r[i]) || r[i]
        == '-' by {
        let k = i - date.len() - 1;
        if 0 <= k < shown.len() {
            assert(r[i] == shown[k]);
        } else if k > shown.len() {
            let j = k - shown.len() - 1;
            assert(r[i] == tail[j]);
            assert(tail[j] == id_slug[j + id_slug.len() - tail.len()]);
        }
    }
}

/// What the files of an event are called, by the slug of its subject and the whole
/// slug of its identity.
pub fn join_stem(start_date_time: &str, slug: String, id_slug: String) -> (r: String)
    ensures
        r@ == stem_from(start_date_time@, slug@, id_slug@),
{
    let date = take_chars(start_date_time, 10);
    let shown = if slug.as_str().unicode_len() > 0 {
        slug
    } else {
        "untitled".to_string()
    };
    let n = id_slug.as_str().unicode_len();
    let suffix = if n <= 8 {
        id_slug
    } else {
        skip_chars(id_slug.as_str(), n - 8)
    };
    date.concat("-").concat(shown.as_str()).concat("-").concat(suffix.as_str())
}

/// What the files of an event are called, but for their endings.
pub fn event_file_stem(start_date_time: &str, subject: Option<&str>, event_id: &str) -> (r: String)
    ensures
        r@ == file_stem(start_date_time@, subject.deep_view(), event_id@),
        clean_behind_date(start_date_time@, r@),
{
    let slug = match subject {
        Some(s) => slugify(s),
        None => {
            let empty = String::new();
            assert(empty@ =~= Seq::<char>::empty());
            empty
        },
    };
    let id_slug = slugify_whole(event_id);
    proof {
        law_event_files_are_clean_behind_the_date(start_date_time@, slug@, id_slug@);
    }
    join_stem(start_date_time, slug, id_slug)
}

/// The name of the transcript of an event.
pub fn transcript_file_name(start_date_time: &str, subject: Option<&str>, event_id: &str) -> (r:
    String)
    ensures
        r@ == transcript_name(start_date_time@, subject.deep_view(), event_id@),
{
    event_file_stem(start_date_time, subject, event_id).concat(".vtt")
}

/// Files of the same day and the same subject are told apart by the ends of the
/// slugs of their events' identities, whatever ending they have.
pub proof fn law_the_identity_tells_files_apart(
    start: Seq<char>,
    subject: Option<Seq<char>>,
    a: Seq<char>,
    b: Seq<char>,
    ending: Seq<char>,
)
    requires
        last_eight(whole_slug(a)) != last_eight(whole_slug(b)),
    ensures
        file_stem(start, subject, a) + ending != file_stem(start, subject, b) + ending,
        transcript_name(start, subject, a) != transcript_name(start, subject, b),
{
    let slug = match subject {
        Some(s) => slug_of(s),
        None => Seq::empty(),
    };
    let front = text::first_chars(start, 10) + "-"@ + if slug.len() > 0 {
        slug
    } else {
        "untitled"@
    } + "-"@;
    lemma_told_apart(front, last_eight(whole_slug(a)), last_eight(whole_slug(b)), ending);
    lemma_told_apart(front, last_eight(whole_slug(a)), last_eight(whole_slug(b)), ".vtt"@);
}

/// Texts that differ, differ between the same front and the same ending.
proof fn lemma_told_apart(front: Seq<char>, a: Seq<char>, b: Seq<char>, ending: Seq<char>)
    requires
        a != b,
    ensures
        front + a + ending != front + b + ending,
{
    let x = front + a + ending;
    let y = front + b + ending;
    if x == y {
        assert(x.len() == y.len());
        assert(a.len() == b.len());
        let n = front.len() as int;
        assert(x.subrange(n, n + a.len()) =~= a);
        assert(y.subrange(n, n + b.len()) =~= b);
    }
}

proof fn lemma_dashed_append(a: Seq<Option<Seq<char>>>, b: Seq<Option<Seq<char>>>)
    requires
        b.len() > 0 ==> b[0] is Some,
    ensures
        dashed(a + b) == dashed(a) + dashed(b),
    decreases b.len(),
{
    if b.len() == 0 {
        assert(a + b =~= a);
        assert(dashed(a) + dashed(b) =~= dashed(a));
    } else {
        let c = b.drop_last();
        assert((a + b).drop_last() =~= a + c);
        assert((a + b).last() == b.last());
        if c.len() > 0 {
            assert((a + c).last() == c.last());
        }
        lemma_dashed_append(a, c);
        assert(dashed(a + b) =~= dashed(a) + dashed(b));
    }
}

proof fn lemma_dashed_run(a: Seq<Option<Seq<char>>>, gap: Seq<Option<Seq<char>>>)
    requires
        a.len() > 0,
        a.last() is Some,
        gap.len() > 0,
        forall|i: int| 0 <= i < gap.len() ==> (#[trigger] gap[i]) is None,
    ensures
        dashed(a + gap) == dashed(a).push('-'),
    decreases gap.len(),
{
    let g = gap.drop_last();
    assert((a + gap).drop_last() =~= a + g);
    assert((a + gap).last() == gap.last());
    assert(gap[gap.len() - 1] is None);
    if g.len() == 0 {
        assert(a + g =~= a);
    } else {
        assert forall|i: int| 0 <= i < g.len() implies (#[trigger] g[i]) is None by {
            assert(g[i] == gap[i]);
        }
        lemma_dashed_run(a, g);
        assert((a + g).last() == g.last());
        assert(g[g.len() - 1] is None);
    }
}

/// A run of characters that are neither letters nor numbers becomes one `-`, however long
/// it is, and what stands on its two sides stays as it is, in its order: of the parts of a
/// slug none is lost.
pub proof fn law_a_slug_keeps_its_words(
    a: Seq<Option<Seq<char>>>,
    gap: Seq<Option<Seq<char>>>,
    b: Seq<Option<Seq<char>>>,
)
    requires
        a.len() > 0 && a[0] is Some && a.last() is Some,
        b.len() > 0 && b[0] is Some && b.last() is Some,
        forall|i: int| 0 <= i < gap.len() ==> (#[trigger] gap[i]) is None,
        lettered_parts(a),
        lettered_parts(b),
    ensures
        whole_from(a + gap + b) == whole_from(a) + (if gap.len() > 0 {
            seq!['-']
        } else {
            Seq::empty()
        }) + whole_from(b),
        whole_from(gap + a + gap) == whole_from(a),
        dashed(a) == whole_from(a),
{
    lemma_no_outer_dash(a);
    lemma_no_outer_dash(b);
    lemma_inner_gap(a, gap, b);
    lemma_outer_gaps(a, gap);
}

proof fn lemma_inner_gap(
    a: Seq<Option<Seq<char>>>,
    gap: Seq<Option<Seq<char>>>,
    b: Seq<Option<Seq<char>>>,
)
    requires
        a.len() > 0 && a[0] is Some && a.last() is Some,
        b.len() > 0 && b[0] is Some && b.last() is Some,
        forall|i: int| 0 <= i < gap.len() ==> (#[trigger] gap[i]) is None,
        lettered_parts(a),
        lettered_parts(b),
    ensures
        whole_from(a + gap + b) == dashed(a) + (if gap.len() > 0 {
            seq!['-']
        } else {
            Seq::empty()
        }) + dashed(b),
{
    lemma_dashed_append(a + gap, b);
    if gap.len() > 0 {
        lemma_dashed_run(a, gap);
        assert(dashed(a).push('-') =~= dashed(a) + seq!['-']);
    } else {
        assert(a + gap =~= a);
        assert(dashed(a) + Seq::<char>::empty() =~= dashed(a));
    }
    let all = a + gap + b;
    assert(all[0] == a[0] && all.last() == b.last());
    assert forall|i: int| 0 <= i < all.len() && (#[trigger] all[i]) is Some implies letters(
        all[i]->Some_0,
    ) by {
        if i < a.len() {
            assert(all[i] == a[i]);
        } else if i < a.len() + gap.len() {
            assert(all[i] == gap[i - a.len()]);
        } else {
            assert(all[i] == b[i - a.len() - gap.len()]);
        }
    }
    lemma_no_outer_dash(all);
}

proof fn lemma_outer_gaps(a: Seq<Option<Seq<char>>>, gap: Seq<Option<Seq<char>>>)
    requires
        a.len() > 0 && a[0] is Some && a.last() is Some,
        forall|i: int| 0 <= i < gap.len() ==> (#[trigger] gap[i]) is None,
        lettered_parts(a),
    ensures
        whole_from(gap + a + gap) == whole_from(a),
{
    lemma_no_outer_dash(a);
    lemma_dashed_append(gap, a);
    lemma_gap_dashed(gap);
    let d = dashed(gap + a + gap);
    if gap.len() > 0 {
        assert(gap + a + gap =~= (gap + a) + gap);
        assert((gap + a).last() == a.last());
        lemma_dashed_run(gap + a, gap);
        assert(d =~= seq!['-'] + dashed(a) + seq!['-']);
        lemma_dash_start(d, 0);
        lemma_dash_end(d, d.len() as int);
        let x = dashed(a);
        lemma_dashed(a);
        lemma_first_letter(a);
        assert(d[1] == x[0] && x[0] != '-');
        assert(d[x.len() as int] == x.last() && x.last() != '-');
        let from = dash_start(d, 0);
        let to = dash_end(d, d.len() as int);
        assert(from == 1) by {
            if from == 0 {
                assert(d[0] == '-');
            } else if from > 1 {
                assert(d[1] == '-');
            }
        }
        assert(to == x.len() + 1) by {
            if to == d.len() {
                assert(d[d.len() - 1] == '-');
            } else if to < x.len() + 1 {
                assert(d[x.len() as int] == '-');
            }
        }
        assert(undashed(d) =~= x);
    } else {
        assert(gap + a + gap =~= a);
    }
}

proof fn lemma_gap_dashed(gap: Seq<Option<Seq<char>>>)
    requires
        forall|i: int| 0 <= i < gap.len() ==> (#[trigger] gap[i]) is None,
    ensures
        dashed(gap) == if gap.len() > 0 {
            seq!['-']
        } else {
            Seq::empty()
        },
    decreases gap.len(),
{
    if gap.len() > 0 {
        let g = gap.drop_last();
        assert forall|i: int| 0 <= i < g.len() implies (#[trigger] g[i]) is None by {
            assert(g[i] == gap[i]);
        }
        lemma_gap_dashed(g);
        assert(gap[gap.len() - 1] is None);
        if g.len() > 0 {
            assert(g[g.len() - 1] is None);
        }
        assert(dashed(gap) =~= seq!['-']);
    }
}

proof fn lemma_first_letter(a: Seq<Option<Seq<char>>>)
    requires
        a.len() > 0,
        a[0] is Some,
        lettered_parts(a),
    ensures
        dashed(a).len() > 0,
        dashed(a)[0] != '-',
    decreases a.len(),
{
    let p = a[0]->Some_0;
    assert(letters(p));
    assert(slug_letter(p[0]));
    if a.len() == 1 {
        assert(a.drop_last() =~= Seq::empty());
        assert(a.last() == a[0]);
        assert(dashed(a.drop_last()) =~= Seq::empty());
        assert(dashed(a) == dashed(a.drop_last()) + p);
    } else {
        let b = a.drop_last();
        assert forall|i: int| 0 <= i < b.len() && (#[trigger] b[i]) is Some implies letters(
            b[i]->Some_0,
        ) by {
            assert(b[i] == a[i]);
        }
        lemma_first_letter(b);
        assert(dashed(a)[0] == dashed(b)[0]);
    }
}

proof fn lemma_no_outer_dash(a: Seq<Option<Seq<char>>>)
    requires
        a.len() > 0,
        a[0] is Some,
        a.last() is Some,
        lettered_parts(a),
    ensures
        whole_from(a) == dashed(a),
{
    let d = dashed(a);
    lemma_first_letter(a);
    lemma_dashed(a);
    lemma_dash_start(d, 0);
    lemma_dash_end(d, d.len() as int);
    let from = dash_start(d, 0);
    let to = dash_end(d, d.len() as int);
    assert(from == 0) by {
        if from > 0 {
            assert(d[0] == '-');
        }
    }
    assert(to == d.len()) by {
        if to < d.len() {
            assert(d[d.len() - 1] == '-');
        }
    }
    assert(undashed(d) =~= d);
}

/// What a character is in a slug: an ASCII letter or digit itself, in lower case, and
/// nothing where it is neither a letter nor a number, as no other ASCII character is; the
/// parts of a text are those of its characters in their order.
pub proof fn law_what_a_character_is_in_a_slug(s: Seq<char>, i: int)
    requires
        0 <= i < s.len(),
    ensures
        slug_parts(s).len() == s.len(),
        'a' <= s[i] && s[i] <= 'z' || '0' <= s[i] && s[i] <= '9' ==> slug_parts(s)[i] == Some(
            seq![s[i]],
        ),
        'A' <= s[i] && s[i] <= 'Z' ==> slug_parts(s)[i] == Some(
            seq![(s[i] as u32 + 32) as char],
        ),
        (s[i] as u32) < 128 && !text::ascii_alphanumeric(s[i]) ==> slug_parts(s)[i] is None,
        (s[i] as u32) >= 128 ==> slug_parts(s)[i] == if unicode_alphanumeric(s[i]) {
            Some(lower_case(s[i]))
        } else {
            None
        },
{
}

/// A slug is cut off at sixty characters and nowhere else.
pub proof fn law_a_slug_is_cut_at_sixty(s: Seq<char>)
    ensures
        whole_slug(s).len() <= 60 ==> slug_of(s) == whole_slug(s),
        whole_slug(s).len() > 60 ==> slug_of(s).len() == 60 && forall|i: int|
            0 <= i < 60 ==> #[trigger] slug_of(s)[i] == whole_slug(s)[i],
{
}

/// What the files of an event are called: the date of its start, the slug of its subject,
/// or `untitled` where that is empty or there is none, and the last eight characters of
/// the slug of its identity, with a `-` between them; the transcript ends with `.vtt`.
pub proof fn law_what_the_files_of_an_event_are_called(
    start: Seq<char>,
    subject: Seq<char>,
    id: Seq<char>,
)
    requires
        start.len() >= 10,
    ensures
        ({
            let slug = slug_of(subject);
            let whole = whole_slug(id);
            let tail = if whole.len() <= 8 {
                whole
            } else {
                whole.skip(whole.len() - 8)
            };
            let named = file_stem(start, Some(subject), id);
            let unnamed = file_stem(start, None, id);
            &&& named.take(10) == start.take(10)
            &&& named[10] == '-'
            &&& text::ends_with(named, seq!['-'] + tail)
            &&& slug.len() > 0 ==> named == start.take(10) + seq!['-'] + slug + seq!['-'] + tail
            &&& slug.len() == 0 ==> named == unnamed
            &&& unnamed == start.take(10) + seq!['-'] + "untitled"@ + seq!['-'] + tail
            &&& transcript_name(start, Some(subject), id) == named + ".vtt"@
            &&& transcript_name(start, None, id) == unnamed + ".vtt"@
        }),
{
    reveal_strlit("-");
    let dash = seq!['-'];
    assert("-"@ =~= dash);
    let date = text::first_chars(start, 10);
    assert(date =~= start.take(10));
    let whole = whole_slug(id);
    let tail = last_eight(whole);
    let slug = slug_of(subject);
    let shown = if slug.len() > 0 {
        slug
    } else {
        "untitled"@
    };
    let named = file_stem(start, Some(subject), id);
    assert(named =~= start.take(10) + dash + shown + dash + tail);
    assert(named.take(10) =~= start.take(10));
    let end = dash + tail;
    assert(named.skip(named.len() - end.len()) =~= end);
    assert(file_stem(start, None, id) =~= start.take(10) + dash + "untitled"@ + dash + tail);
}

} // verus!
