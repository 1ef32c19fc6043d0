//! Chats, transcripts, windows and addresses of the Graph family.

use kyyn_plugins::graph::chat::{chat_messages_in_window, is_real_message, page_reached_window_start};
use kyyn_plugins::graph::records::{AttendanceReport, DateTimeTimeZone, GraphChatMessage, Transcript};
use kyyn_plugins::graph::transcript::{
    parse_graph_time, pick_report_for, pick_transcript_for, slugify, slugify_whole, transcript_file_name,
};
use kyyn_plugins::graph::urls;
use kyyn_plugins::graph::window::{
    block_label, dedupe_by, iso_utc, parse_bound, resolve_agenda_window, resolve_window, start_of_day,
    CivilDate, UtcTime,
};

fn msg(created: &str, mtype: Option<&str>) -> GraphChatMessage {
    GraphChatMessage {
        id: created.to_string(),
        message_type: mtype.map(String::from),
        created_date_time: created.to_string(),
        from: None,
        body: None,
    }
}

const FROM: &str = "2026-07-01T00:00:00Z";
const TO: &str = "2026-07-08T00:00:00Z";

fn page() -> Vec<GraphChatMessage> {
    vec![
        msg("2026-07-05T13:59:00Z", Some("message")),
        msg("2026-07-04T10:00:00Z", Some("systemEventMessage")),
        msg("2026-06-01T08:00:00Z", Some("message")),
    ]
}

#[test]
fn keeps_only_real_messages_in_window() {
    let kept = chat_messages_in_window(FROM, TO, page());
    assert_eq!(
        kept.iter().map(|m| m.created_date_time.as_str()).collect::<Vec<_>>(),
        vec!["2026-07-05T13:59:00Z"]
    );
}

#[test]
fn drops_message_on_or_after_to_bound() {
    let kept = chat_messages_in_window(FROM, TO, vec![msg("2026-07-08T00:00:00Z", Some("message"))]);
    assert!(kept.is_empty());
}

#[test]
fn absent_message_type_is_real() {
    let kept = chat_messages_in_window(FROM, TO, vec![msg("2026-07-03T09:00:00Z", None)]);
    assert_eq!(kept.len(), 1);
}

#[test]
fn stops_paging_once_page_reaches_before_window() {
    assert!(page_reached_window_start(FROM, &page()));
}

#[test]
fn keeps_paging_while_all_at_or_after_window_start() {
    assert!(!page_reached_window_start(
        FROM,
        &[msg("2026-07-05T13:59:00Z", Some("message"))]
    ));
}

#[test]
fn adjacent_windows_split_the_messages() {
    let times = ["2026-07-01T00:00:00Z", "2026-07-04T11:59:59Z", "2026-07-04T12:00:00Z", "2026-07-07T23:59:59Z", TO];
    let all = || times.iter().map(|t| msg(t, None)).chain(page()).collect::<Vec<_>>();
    let taken = |from: &str, to: &str| {
        let kept = chat_messages_in_window(from, to, all());
        kept.iter().map(|m| m.id.clone()).collect::<Vec<_>>()
    };
    let mid = "2026-07-04T12:00:00Z";
    let (mut whole, first, second) = (taken(FROM, TO), taken(FROM, mid), taken(mid, TO));
    assert_eq!(whole.len(), 5);
    assert_eq!(first.len(), 2);
    assert!(second.contains(&mid.to_string()));
    assert!(first.iter().all(|m| !second.contains(m)));
    let mut halves: Vec<String> = first.into_iter().chain(second).collect();
    whole.sort();
    halves.sort();
    assert_eq!(whole, halves);
}

#[test]
fn the_lower_bound_belongs_to_the_window() {
    assert_eq!(chat_messages_in_window(FROM, TO, vec![msg(FROM, None)]).len(), 1);
    assert!(!page_reached_window_start(FROM, &[msg(FROM, None)]));
    assert!(!page_reached_window_start(FROM, &[]));
    assert!(!is_real_message(&msg(FROM, Some("systemEventMessage"))));
}

fn dtz(s: &str) -> DateTimeTimeZone {
    DateTimeTimeZone { date_time: s.to_string(), time_zone: "UTC".to_string() }
}

fn tr(id: &str, created: Option<&str>) -> Transcript {
    Transcript { id: id.to_string(), created_date_time: created.map(String::from) }
}

#[test]
fn report_picker_matches_occurrences_with_early_join_grace() {
    let report = |id: &str, start: &str| AttendanceReport {
        id: id.into(),
        meeting_start: Some(start.into()),
        meeting_end: None,
        total_participant_count: None,
    };
    let reports = vec![
        report("last-week", "2026-07-06T10:02:00Z"),
        report("early-join", "2026-07-13T09:45:00Z"),
        report("in-window", "2026-07-13T10:01:00Z"),
    ];
    // Latest in [start − 1h, end + 6h] wins; early joiners still match.
    let picked =
        pick_report_for(&dtz("2026-07-13T10:00:00"), &dtz("2026-07-13T11:00:00"), &reports).unwrap();
    assert_eq!(picked.id, "in-window");
    // A different week's occurrence never leaks across.
    assert!(pick_report_for(&dtz("2026-07-20T10:00:00"), &dtz("2026-07-20T11:00:00"), &reports).is_none());
    // The grace is an hour, no more.
    let early = vec![report("an-hour", "2026-07-13T09:00:00Z")];
    assert!(pick_report_for(&dtz("2026-07-13T10:00:00"), &dtz("2026-07-13T11:00:00"), &early).is_some());
    let earlier = vec![report("more", "2026-07-13T08:59:59Z")];
    assert!(pick_report_for(&dtz("2026-07-13T10:00:00"), &dtz("2026-07-13T11:00:00"), &earlier).is_none());
}

#[test]
fn parses_the_graph_timestamp_shapes() {
    assert!(parse_graph_time("2026-06-02T09:00:00.0000000").is_some()); // calendarView, no Z
    assert!(parse_graph_time("2026-06-02T10:01:00Z").is_some()); // transcript
    assert!(parse_graph_time("2026-06-05T09:45:30.123456Z").is_some()); // fractional + Z
    assert!(parse_graph_time("not a time").is_none());
    let t = parse_graph_time("1970-01-01T00:01:00.5").unwrap();
    assert_eq!((t.timestamp(), t.subsec_nanos()), (60, 500_000_000));
}

#[test]
fn picks_latest_transcript_in_window() {
    let start = dtz("2026-06-02T09:00:00.0000000");
    let end = dtz("2026-06-02T10:00:00.0000000");
    let ts = vec![
        tr("old", Some("2026-05-26T09:30:00Z")),  // previous occurrence — out
        tr("a", Some("2026-06-02T10:05:00Z")),    // in window (within +6h)
        tr("b", Some("2026-06-02T11:30:00Z")),    // in window, later
        tr("late", Some("2026-06-02T17:00:00Z")), // > end+6h — out
    ];
    assert_eq!(pick_transcript_for(&start, &end, &ts).map(|t| t.id.as_str()), Some("b"));
}

#[test]
fn no_match_returns_none() {
    let start = dtz("2026-06-02T09:00:00Z");
    let end = dtz("2026-06-02T10:00:00Z");
    assert!(pick_transcript_for(&start, &end, &[]).is_none());
    assert!(pick_transcript_for(&start, &end, &[tr("x", Some("2026-06-01T09:00:00Z"))]).is_none());
    // Unparseable event boundary → None.
    assert!(
        pick_transcript_for(&dtz("nope"), &end, &[tr("x", Some("2026-06-02T09:30:00Z"))]).is_none()
    );
}

#[test]
fn of_equally_late_transcripts_the_last_is_picked() {
    let start = dtz("2026-06-02T09:00:00Z");
    let end = dtz("2026-06-02T10:00:00Z");
    let ts = vec![
        tr("first", Some("2026-06-02T16:00:00Z")),
        tr("second", Some("2026-06-02T16:00:00Z")),
        tr("timeless", None),
    ];
    assert_eq!(pick_transcript_for(&start, &end, &ts).map(|t| t.id.as_str()), Some("second"));
}

#[test]
fn slugify_and_filename() {
    assert_eq!(slugify("UK & NL: Sales!!"), "uk-nl-sales");
    assert_eq!(slugify("  ---weird--- "), "weird");
    let name = transcript_file_name(
        "2026-07-06T09:00:00.0000000",
        Some("Exco Weekly Check-in"),
        "AAkALgAAABCDEFGH",
    );
    assert!(name.starts_with("2026-07-06-exco-weekly-check-in-"));
    assert!(name.ends_with(".vtt"));
    // untitled fallback
    assert!(
        transcript_file_name("2026-07-06T09:00:00Z", None, "id123").starts_with("2026-07-06-untitled-")
    );
}

#[test]
fn slugs_are_cut_and_lowered() {
    assert_eq!(slugify("ÀÉ x"), "àé-x");
    assert_eq!(slugify(&"a".repeat(80)).len(), 60);
    assert_eq!(slugify("!!!"), "");
    // Cut off inside, a slug may end with a dash.
    let long = format!("{} tail", "a".repeat(59));
    assert_eq!(slugify(&long), format!("{}-", "a".repeat(59)));
    assert_eq!(
        transcript_file_name("2026-07-06T09:00:00Z", Some("?"), "AB=12345678"),
        "2026-07-06-untitled-12345678.vtt"
    );
}

#[test]
fn the_identity_tells_meetings_of_a_day_apart() {
    let id = |tail: &str| format!("{}bcdefgh{tail}", "a".repeat(60));
    let name = |tail: &str| transcript_file_name("2026-07-06T09:00:00Z", Some("S"), &id(tail));
    assert_eq!(name("1"), "2026-07-06-s-bcdefgh1.vtt");
    assert_eq!(name("2"), "2026-07-06-s-bcdefgh2.vtt");
    assert_eq!(slugify_whole(&id("1")), id("1"));
    assert_eq!(slugify(&id("1")), "a".repeat(60));
}

#[test]
fn slugs_of_ascii_are_plain() {
    let texts = ["UK & NL: Sales!!", "  ---weird--- ", "a_b.c/d", "!!!", "", "A1-b2", "x  y", "\u{0}Z\u{7f}"];
    for s in texts {
        let slug = slugify(s);
        assert!(slug.chars().all(|c| c.is_ascii_lowercase() || c.is_ascii_digit() || c == '-'), "{s}");
        assert!(!slug.contains("--"), "{s}");
        assert_eq!(slug.is_empty(), !s.chars().any(|c| c.is_ascii_alphanumeric()), "{s}");
        assert_eq!(slugify(&slug), slug, "{s}");
        assert_eq!(slugify(&s.to_ascii_uppercase()), slug, "{s}");
    }
    // A slug that was cut off at a dash is not its own slug.
    let cut = slugify(&format!("{} tail", "a".repeat(59)));
    assert_ne!(slugify(&cut), cut);
}

#[test]
fn event_files_are_clean_behind_the_date() {
    let name = transcript_file_name("2026-07-06T09:00:00Z", Some("../UK/NL: \u{212a}\\x"), "A/B\u{0}c");
    assert_eq!(name, "2026-07-06-uk-nl-k-x-a-b-c.vtt");
}

#[test]
fn slugs_beyond_ascii_are_clean() {
    assert_eq!(slugify("\u{130}x \u{212a}!"), "i\u{307}x-k");
    for c in (0..=0x10ffffu32).filter_map(char::from_u32) {
        let slug = slugify_whole(&c.to_string());
        assert_eq!(slug.is_empty(), !c.is_alphanumeric(), "{c:?}");
        assert!(
            slug.chars().all(|d| !d.is_ascii() || d.is_ascii_lowercase() || d.is_ascii_digit()),
            "{c:?}"
        );
        assert!(c.is_ascii() || c.to_lowercase().all(|d| !d.is_ascii() || d.is_ascii_lowercase()), "{c:?}");
    }
}

fn dt(s: &str) -> UtcTime {
    UtcTime::parse_rfc3339(s).unwrap()
}

fn day(y: i32, m: u32, d: u32) -> CivilDate {
    let date = chrono::NaiveDate::from_ymd_opt(y, m, d).unwrap();
    let epoch = chrono::NaiveDate::from_ymd_opt(1970, 1, 1).unwrap();
    CivilDate::from_day(date.signed_duration_since(epoch).num_days()).unwrap()
}

#[test]
fn window_is_half_open_upper_bound_exclusive() {
    let now = dt("2026-07-06T13:30:00Z");
    // bounded: [from, to) — both bounds pass through verbatim, upper is EXCLUSIVE.
    assert_eq!(
        resolve_window(now, dt("2026-07-01T09:15:00Z"), Some(dt("2026-07-06T11:00:00Z"))),
        (dt("2026-07-01T09:15:00Z"), dt("2026-07-06T11:00:00Z"))
    );
    // open-ended: runs to now
    assert_eq!(
        resolve_window(now, dt("2026-07-01T00:00:00Z"), None),
        (dt("2026-07-01T00:00:00Z"), now)
    );
}

#[test]
fn parse_bound_accepts_legacy_date_and_timestamp() {
    // legacy date bound → midnight UTC
    assert_eq!(parse_bound("2026-06-29"), Some(dt("2026-06-29T00:00:00Z")));
    // new timestamp bound → that instant
    assert_eq!(parse_bound("20260708T193000Z"), Some(dt("2026-07-08T19:30:00Z")));
    // round-trips block_label's own format
    let ts = dt("2026-07-08T21:05:09Z");
    let label = block_label(ts, Some(ts), ts);
    let (from, to) = label.split_once('_').unwrap();
    assert_eq!(parse_bound(from), Some(ts));
    assert_eq!(parse_bound(to), Some(ts));
    // garbage → None
    assert_eq!(parse_bound("not-a-bound"), None);
}

#[test]
fn agenda_window_defaults_and_overrides() {
    let now = dt("2026-06-26T13:30:00Z");
    assert_eq!(
        resolve_agenda_window(now, None, None, 14),
        (dt("2026-06-26T00:00:00Z"), dt("2026-07-10T00:00:00Z"))
    );
    assert_eq!(
        resolve_agenda_window(now, Some(day(2026, 7, 1)), None, 30),
        (dt("2026-07-01T00:00:00Z"), dt("2026-07-31T00:00:00Z"))
    );
    // explicit to is inclusive and ignores days
    assert_eq!(
        resolve_agenda_window(now, None, Some(day(2026, 7, 3)), 14),
        (dt("2026-06-26T00:00:00Z"), dt("2026-07-04T00:00:00Z"))
    );
}

#[test]
fn block_label_bounded_and_open() {
    let now = dt("2026-06-26T14:05:00Z");
    assert_eq!(
        block_label(dt("2026-06-01T08:30:00Z"), Some(dt("2026-06-21T17:00:00Z")), now),
        "20260601T083000Z_20260621T170000Z"
    );
    // omitted to resolves to now
    assert_eq!(
        block_label(dt("2026-06-01T00:00:00Z"), None, now),
        "20260601T000000Z_20260626T140500Z"
    );
}

#[test]
fn dedupe_keeps_last_occurrence() {
    let items = vec![(1, "a"), (2, "b"), (1, "c")];
    let mut out = dedupe_by(items, |(k, _)| *k);
    out.sort();
    assert_eq!(out, vec![(1, "c"), (2, "b")]);
}

#[test]
fn block_bounds_read_back_to_the_second() {
    for s in ["0000-01-01T00:00:00Z", "1969-12-31T23:59:59.75Z", "9999-12-31T23:59:59Z"] {
        let t = dt(s);
        let label = block_label(t, None, t);
        let (from, to) = label.split_once('_').unwrap();
        assert_eq!(from, to);
        let back = parse_bound(from).unwrap();
        assert_eq!((back.timestamp(), back.subsec_nanos()), (t.timestamp(), 0));
    }
}

#[test]
fn instants_agree_with_the_calendar() {
    assert_eq!(iso_utc(dt("2026-07-08T19:30:00.5+02:00")), "2026-07-08T17:30:00Z");
    assert_eq!(dt("1969-12-31T23:00:00Z").date_naive().day(), -1);
    assert_eq!(start_of_day(day(1969, 12, 31)).timestamp(), -86400);
    // The bounds of the calendar.
    let least = chrono::DateTime::<chrono::Utc>::MIN_UTC;
    let greatest = chrono::DateTime::<chrono::Utc>::MAX_UTC;
    assert!(UtcTime::from_timestamp(least.timestamp(), 0).is_some());
    assert!(UtcTime::from_timestamp(least.timestamp() - 1, 0).is_none());
    assert!(UtcTime::from_timestamp(greatest.timestamp(), 0).is_some());
    assert!(UtcTime::from_timestamp(greatest.timestamp() + 1, 0).is_none());
    assert_eq!(
        iso_utc(UtcTime::from_timestamp(least.timestamp(), 0).unwrap()),
        least.format("%Y-%m-%dT%H:%M:%SZ").to_string()
    );
    assert!(CivilDate::from_day(-96465293).is_none());
    assert!(CivilDate::from_day(95026237).is_none());
    // A leap second is the sixty-first of its minute.
    assert!(UtcTime::from_timestamp(59, 1_500_000_000).is_some());
    assert!(UtcTime::from_timestamp(58, 1_500_000_000).is_none());
    assert!(UtcTime::from_timestamp(-1, 1_500_000_000).is_some());
}

#[test]
fn shifting_agrees_with_the_calendar_over_leap_seconds() {
    for (secs, nanos) in [(0i64, 5u32), (59, 1_250_000_000), (-1, 1_000_000_000)] {
        for n in [-7200i64, -1, 0, 1, 21600] {
            let theirs = chrono::DateTime::from_timestamp(secs, nanos).unwrap() + chrono::Duration::seconds(n);
            let ours = UtcTime::from_timestamp(secs, nanos).unwrap().shift(n);
            assert_eq!(
                (ours.timestamp(), ours.subsec_nanos()),
                (theirs.timestamp(), theirs.timestamp_subsec_nanos()),
                "{secs} {nanos} {n}"
            );
        }
    }
}

#[test]
fn one_record_per_key_and_none_lost() {
    let out = dedupe_by(vec![3, 1, 3, 2, 1], |n| *n);
    assert_eq!(out, vec![3, 2, 1]);
    assert!(dedupe_by(Vec::<u8>::new(), |n| *n).is_empty());
}

#[test]
fn messages_url_narrows_by_mail_filter() {
    let f = dt("2026-05-01T00:00:00Z");
    let t = dt("2026-05-02T00:00:00Z");
    let plain = urls::messages_url(f, t, None);
    assert!(!plain.contains("%28"), "no stray parens: {plain}");
    let narrowed = urls::messages_url(f, t, Some("from/emailAddress/address eq 'tom@x.za'"));
    assert!(narrowed.starts_with(&plain), "appended, not restructured");
    assert!(narrowed.contains("%20and%20("), "{narrowed}");
    assert!(narrowed.contains("tom%40x.za"), "{narrowed}");
    assert_eq!(
        plain,
        "https://graph.microsoft.com/v1.0/me/messages?$select=id,conversationId,receivedDateTime,subject,bodyPreview,body,from,toRecipients,ccRecipients,hasAttachments&$orderby=receivedDateTime%20desc&$top=50&$filter=receivedDateTime%20ge%202026-05-01T00:00:00Z%20and%20receivedDateTime%20lt%202026-05-02T00:00:00Z"
    );
}

#[test]
fn plain_listings_encode_spaces_alone() {
    for t in ["0000-01-01T00:00:00Z", "2026-05-01T23:59:60Z", "9999-12-31T23:59:59.5Z"] {
        let plain = urls::messages_url(dt(t), dt(t), None);
        assert_eq!(plain.matches('%').count(), plain.matches("%20").count());
        assert!(urls::messages_url(dt(t), dt(t), Some("(x)")).contains("%28x%29"));
    }
    let far = UtcTime::from_timestamp(8210266876799, 0).unwrap();
    assert_eq!(iso_utc(far), "+262142-12-31T23:59:59Z");
}

#[test]
fn addresses() {
    let f = dt("2026-05-01T00:00:00Z");
    let t = dt("2026-05-02T00:00:00Z");
    let base = "https://graph.microsoft.com/v1.0";
    assert_eq!(
        urls::message_attachments_url("m"),
        format!("{base}/me/messages/m/attachments?$select=id,name,contentType,size,isInline")
    );
    assert_eq!(
        urls::attachment_value_url("m", "a"),
        format!("{base}/me/messages/m/attachments/a/$value")
    );
    assert_eq!(
        urls::calendar_view_url(f, t),
        format!("{base}/me/calendarView?startDateTime=2026-05-01T00:00:00Z&endDateTime=2026-05-02T00:00:00Z&$select=id,subject,start,end,organizer,attendees,isOnlineMeeting,location,onlineMeeting&$top=50")
    );
    assert_eq!(
        urls::chats_url(f),
        format!("{base}/me/chats?$filter=lastUpdatedDateTime%20ge%202026-05-01T00:00:00Z&$expand=members&$top=50")
    );
    assert_eq!(
        urls::chat_messages_url("c"),
        format!("{base}/chats/c/messages?$top=50&$orderby=createdDateTime%20desc")
    );
    assert_eq!(
        urls::online_meeting_lookup_url("https://t/l?x='y'"),
        format!("{base}/me/onlineMeetings?$filter=JoinWebUrl%20eq%20'https%3A%2F%2Ft%2Fl%3Fx%3D%27y%27'")
    );
    assert_eq!(
        urls::attendance_reports_url("m"),
        format!("{base}/me/onlineMeetings/m/attendanceReports")
    );
    assert_eq!(
        urls::attendance_records_url("m", "r"),
        format!("{base}/me/onlineMeetings/m/attendanceReports/r/attendanceRecords")
    );
    assert_eq!(urls::transcripts_url("m"), format!("{base}/me/onlineMeetings/m/transcripts"));
    assert_eq!(
        urls::transcript_content_url("m", "t"),
        format!("{base}/me/onlineMeetings/m/transcripts/t/content?$format=text/vtt")
    );
    assert_eq!(urls::share_drive_item_url("u!x"), format!("{base}/shares/u!x/driveItem"));
    assert_eq!(
        urls::drive_item_children_url("d", "i"),
        format!("{base}/drives/d/items/i/children")
    );
    assert_eq!(urls::percent_encode("é~%"), "%C3%A9~%25");
    for (a, b) in [("a b", "c/d"), ("", "€"), ("é", ""), ("%", "25")] {
        assert_eq!(
            urls::percent_encode(&format!("{a}{b}")),
            urls::percent_encode(a) + &urls::percent_encode(b)
        );
    }
}
