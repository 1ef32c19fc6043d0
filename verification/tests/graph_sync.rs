//! What becomes of mail, events and chats.

use kyyn_plugins::graph::artifacts::{Ask, Search};
use kyyn_plugins::graph::client::{Fetched, PageOutcome};
use kyyn_plugins::graph::config::Config;
use kyyn_plugins::graph::inbox::{to_inbox_chat, to_inbox_event, Direction, InboxChatMessage};
use kyyn_plugins::graph::records::{
    AttendanceReport, Attendee, ChatMember, ChatMessageFrom, ChatUser, DateTimeTimeZone, EmailAddress,
    GraphAttachment, GraphChat, GraphChatMessage, GraphEvent, GraphLocation, GraphMessage, MessageBody,
    OnlineMeeting, OnlineMeetingInfo, Recipient, Transcript,
};
use kyyn_plugins::graph::sync::{
    align_artifacts, attachment_file_name, attendance_file_name, calendar_for, chat_message_item, chats_for,
    email_files, email_item, emails_for, event_item, event_transcript_name, events_for, is_meeting, join_url_of,
    make_safe, meeting_files, meeting_item, meetings_for, push_secondary, AttachmentSweep, ChatCrawl,
};

fn text(s: &str) -> String {
    s.to_string()
}

fn when(s: &str) -> DateTimeTimeZone {
    DateTimeTimeZone { date_time: text(s), time_zone: text("UTC") }
}

fn person(name: &str, address: &str) -> EmailAddress {
    EmailAddress { name: Some(text(name)), address: Some(text(address)) }
}

fn event(attendees: Vec<Attendee>, is_online_meeting: Option<bool>) -> GraphEvent {
    GraphEvent {
        id: text("e1"),
        subject: Some(text("S")),
        start: when("2026-07-17T10:00:00"),
        end: when("2026-07-17T10:30:00"),
        organizer: None,
        attendees,
        is_online_meeting,
        location: None,
        online_meeting: None,
    }
}

/// Someone else's invite, with no artifacts to be had, is still a meeting.
#[test]
fn an_invited_event_with_attendees_is_a_meeting() {
    let e = event(vec![Attendee { email_address: person("T", "t@x") }], None);
    assert!(is_meeting(&e));
}

#[test]
fn an_online_meeting_without_listed_attendees_is_a_meeting() {
    assert!(is_meeting(&event(Vec::new(), Some(true))));
}

/// Solo appointments and reminders stay calendar-source material.
#[test]
fn a_solo_appointment_is_not_a_meeting() {
    assert!(!is_meeting(&event(Vec::new(), None)));
    assert!(!is_meeting(&event(Vec::new(), Some(false))));
}

fn mail(id: &str, received: &str, from: Option<&str>) -> GraphMessage {
    GraphMessage {
        id: text(id),
        conversation_id: Some(text("thread")),
        received_date_time: text(received),
        subject: Some(text("Subject")),
        body_preview: Some(text("pre")),
        body: Some(MessageBody { content_type: text("text"), content: text("body") }),
        from: from.map(|a| Recipient { email_address: person("F", a) }),
        to_recipients: vec![Recipient { email_address: person("T", "t@x") }],
        cc_recipients: Vec::new(),
        has_attachments: Some(id == "b"),
    }
}

fn owner() -> Config {
    Config::from_ron(r#"(owner_addresses: ["Me@x"])"#).ok().unwrap()
}

#[test]
fn mail_is_deduplicated_and_newest_first() {
    let msgs = vec![
        mail("a", "2026-01-01T00:00:00Z", Some("me@X")),
        mail("b", "2026-01-03T00:00:00Z", Some("you@x")),
        mail("a", "2026-01-02T00:00:00Z", None),
    ];
    let flagged = emails_for(&owner(), msgs);
    let shown: Vec<(&str, &str, bool)> = flagged
        .iter()
        .map(|f| (f.email.id.as_str(), f.email.received_date_time.as_str(), f.has_attachments))
        .collect();
    assert_eq!(shown, vec![("b", "2026-01-03T00:00:00Z", true), ("a", "2026-01-02T00:00:00Z", false)]);
    assert_eq!(flagged[0].email.direction, Direction::Received);
    assert_eq!(flagged[0].email.from.address.as_deref(), Some("you@x"));
    assert_eq!(flagged[1].email.from.address, None);
    let sent = emails_for(&owner(), vec![mail("a", "t", Some("ME@X"))]);
    assert_eq!(sent[0].email.direction, Direction::Sent);
    assert_eq!(sent[0].email.thread_id.as_deref(), Some("thread"));
    assert_eq!(sent[0].email.body.as_deref(), Some("body"));
    assert_eq!(sent[0].email.to[0].name.as_deref(), Some("T"));
    assert!(sent[0].email.attachments.is_empty());
}

fn attachment(id: &str, name: Option<&str>) -> GraphAttachment {
    GraphAttachment {
        id: text(id),
        odata_type: Some(text("#microsoft.graph.fileAttachment")),
        name: name.map(String::from),
        content_type: Some(text("text/plain")),
        size: Some(5),
        is_inline: None,
    }
}

#[test]
fn every_attachment_is_a_fact() {
    let mut inline = attachment("i", Some("logo.png"));
    inline.is_inline = Some(true);
    let mut item = attachment("o", Some("item"));
    item.odata_type = Some(text("#microsoft.graph.itemAttachment"));
    let mut unknown = attachment("u", Some("unknown"));
    unknown.odata_type = None;
    let mut big = attachment("big", Some("big"));
    big.size = Some(32 * 1024 * 1024 + 1);
    let metas = vec![
        inline,
        item,
        unknown,
        big,
        attachment("a", Some("../x/evil\\na\u{7}me.txt")),
        attachment("gone", None),
        attachment("denied", Some("d")),
    ];
    let mut sweep = AttachmentSweep::begin("m", metas);
    let mut files = Vec::new();
    while let Some(url) = sweep.advance() {
        let fetched = match url.as_str() {
            "https://graph.microsoft.com/v1.0/me/messages/m/attachments/a/$value" => {
                Fetched::Body(b"abc".to_vec())
            }
            "https://graph.microsoft.com/v1.0/me/messages/m/attachments/gone/$value" => Fetched::Absent,
            "https://graph.microsoft.com/v1.0/me/messages/m/attachments/denied/$value" => Fetched::Denied,
            other => panic!("{other}"),
        };
        files.push(sweep.received(&fetched));
    }
    // The digest of "a" begins with ca978112.
    assert_eq!(files, vec![Some(text("ca978112-na_me.txt")), None, None]);
    let records = sweep.finish();
    let shown: Vec<(&str, Option<&str>)> =
        records.iter().map(|r| (r.name.as_str(), r.skipped.as_deref())).collect();
    assert_eq!(
        shown,
        vec![
            ("item", Some("not a file attachment (#microsoft.graph.itemAttachment)")),
            ("unknown", Some("not a file attachment (unknown type)")),
            ("big", Some("over the 32MB cap")),
            ("../x/evil\\na\u{7}me.txt", None),
            ("gone", Some("gone at fetch time")),
            ("d", Some("access denied")),
        ]
    );
    assert_eq!(records[3].size, Some(3));
    assert_eq!(
        records[3].sha256.as_deref(),
        Some("ba7816bf8f01cfea414140de5dae2223b00361a396177a9cb410ff61f20015ad")
    );
}

#[test]
fn attachment_names_hold_no_separator() {
    assert_eq!(make_safe("/etc/passwd"), "passwd");
    assert_eq!(make_safe("..\\..\\x"), "x");
    assert_eq!(make_safe("dir/"), "");
    assert_eq!(make_safe("a\u{0}b\u{9f}c\u{a0}"), "a_b_c\u{a0}");
    assert_eq!(attachment_file_name("0123456789", "d/n"), "01234567-n");
}

fn at(id: &str, start: &str) -> GraphEvent {
    let mut e = event(Vec::new(), Some(id != "solo"));
    e.id = text(id);
    e.start = when(start);
    e
}

#[test]
fn events_are_deduplicated_and_sorted_by_start() {
    let events = events_for(vec![at("a", "3"), at("b", "1"), at("a", "2"), at("c", "1")]);
    let shown: Vec<(&str, &str)> =
        events.iter().map(|e| (e.id.as_str(), e.start.date_time.as_str())).collect();
    assert_eq!(shown, vec![("b", "1"), ("c", "1"), ("a", "2")]);
}

#[test]
fn meetings_carry_their_own_files() {
    let events = vec![at("a", "1"), at("solo", "2"), at("b", "3")];
    let files = align_artifacts(3, vec![(2, (Some(text("t.vtt")), None)), (0, (None, Some(text("r.json"))))]);
    let meetings = meetings_for(events, &files);
    assert_eq!(meetings.len(), 2);
    assert_eq!(meetings[0].attendance_file.as_deref(), Some("attendance/r.json"));
    assert_eq!(meetings[0].transcript_file, None);
    assert_eq!(meetings[1].transcript_file.as_deref(), Some("transcripts/t.vtt"));
    assert_eq!(meeting_files(&meetings[1]), vec![text("transcripts/t.vtt")]);
    let item = meeting_item(&meetings[1], "{}");
    assert_eq!((item.kind.as_str(), item.id.as_str()), ("meeting", "b"));
    assert_eq!(item.files, vec![text("meetings.json")]);
    assert_eq!(calendar_for(vec![at("solo", "1"), at("a", "2")]).len(), 2);
}

#[test]
fn events_become_records() {
    let mut e = event(vec![Attendee { email_address: person("T", "t@x") }], Some(true));
    e.organizer = Some(Recipient { email_address: person("O", "o@x") });
    e.location = Some(GraphLocation { display_name: Some(text("Room")) });
    e.online_meeting = Some(OnlineMeetingInfo { join_url: Some(text("https://j")) });
    assert_eq!(join_url_of(&e).as_deref(), Some("https://j"));
    assert_eq!(event_transcript_name(&e), "2026-07-17-s-e1.vtt");
    assert_eq!(attendance_file_name(&e), "2026-07-17-s-e1.json");
    let long = |tail: &str| {
        let mut e = event(Vec::new(), None);
        e.id = format!("{}-{tail}", "a".repeat(70));
        e
    };
    assert_eq!(attendance_file_name(&long("1")), "2026-07-17-s-aaaaaa-1.json");
    assert_ne!(attendance_file_name(&long("1")), attendance_file_name(&long("2")));
    let r = to_inbox_event(Some(text("f")), e);
    assert_eq!((r.start.as_str(), r.end.as_str(), r.teams), ("2026-07-17T10:00:00", "2026-07-17T10:30:00", true));
    assert_eq!(r.location.as_deref(), Some("Room"));
    assert_eq!(r.organizer.as_ref().unwrap().address.as_deref(), Some("o@x"));
    assert_eq!(r.attendees[0].name.as_deref(), Some("T"));
    assert_eq!(r.transcript_file.as_deref(), Some("f"));
    let item = event_item(&r, "{}");
    assert_eq!((item.kind.as_str(), item.meta.as_str()), ("event", "S"));
    assert_eq!(join_url_of(&event(Vec::new(), None)), None);
}

fn joined() -> GraphEvent {
    let mut e = event(Vec::new(), Some(true));
    e.online_meeting = Some(OnlineMeetingInfo { join_url: Some(text("j")) });
    e
}

fn transcript(created: &str) -> PageOutcome<Transcript> {
    PageOutcome::Page(vec![Transcript { id: text("t"), created_date_time: Some(text(created)) }], None)
}

fn report(start: &str) -> PageOutcome<AttendanceReport> {
    let r = AttendanceReport {
        id: text("r"),
        meeting_start: Some(text(start)),
        meeting_end: None,
        total_participant_count: Some(3),
    };
    PageOutcome::Page(vec![r], None)
}

const DURING: &str = "2026-07-17T10:10:00Z";
const LONG_BEFORE: &str = "2026-07-10T10:10:00Z";

/// Runs a search with these answers, and counts the questions.
fn search(
    transcripts: PageOutcome<Transcript>,
    content: Fetched,
    reports: PageOutcome<AttendanceReport>,
    rows: PageOutcome<u8>,
) -> ((Option<String>, Option<String>), usize) {
    let meetings = vec![OnlineMeeting { id: text("m") }, OnlineMeeting { id: text("other") }];
    let base = "https://graph.microsoft.com/v1.0/me/onlineMeetings";
    let mut s = Search::begin(&joined()).meetings(PageOutcome::Page(meetings, None));
    let mut asked = 1;
    assert!(matches!(s.ask(), Ask::Transcripts(u) if u == format!("{base}/m/transcripts")));
    s = s.transcripts(transcripts);
    asked += 1;
    if let Ask::Content(u) = s.ask() {
        assert_eq!(u, format!("{base}/m/transcripts/t/content?$format=text/vtt"));
        let (next, file) = s.content(&content);
        assert_eq!(file.is_some(), matches!(content, Fetched::Body(_)));
        s = next;
        asked += 1;
    }
    assert!(matches!(s.ask(), Ask::Reports(u) if u == format!("{base}/m/attendanceReports")));
    s = s.reports(reports);
    asked += 1;
    if let Ask::Records(u) = s.ask() {
        assert_eq!(u, format!("{base}/m/attendanceReports/r/attendanceRecords"));
        assert_eq!(s.report().map(|r| r.total_participant_count), Some(Some(3)));
        s = s.records(&rows).0;
        asked += 1;
    }
    assert!(matches!(s.ask(), Ask::Nothing));
    (s.finish(), asked)
}

#[test]
fn either_file_is_found_without_the_other() {
    let vtt = || Some(text("2026-07-17-s-e1.vtt"));
    let json = || Some(text("2026-07-17-s-e1.json"));
    let body = || Fetched::Body(b"WEBVTT".to_vec());
    let rows = || PageOutcome::Page(vec![1u8], None);
    assert_eq!(search(transcript(DURING), body(), report(DURING), rows()), ((vtt(), json()), 5));
    assert_eq!(search(transcript(LONG_BEFORE), body(), report(DURING), rows()), ((None, json()), 4));
    assert_eq!(search(PageOutcome::Denied, body(), report(DURING), rows()), ((None, json()), 4));
    assert_eq!(search(transcript(DURING), Fetched::Denied, report(DURING), rows()), ((None, json()), 5));
    assert_eq!(search(transcript(DURING), body(), report(LONG_BEFORE), rows()), ((vtt(), None), 4));
    assert_eq!(search(transcript(DURING), body(), PageOutcome::Absent, rows()), ((vtt(), None), 4));
    assert_eq!(search(transcript(DURING), body(), report(DURING), PageOutcome::Denied), ((vtt(), None), 5));
}

#[test]
fn an_event_without_a_meeting_has_no_files() {
    let s = Search::begin(&event(Vec::new(), Some(true)));
    assert!(matches!(s.ask(), Ask::Nothing));
    assert_eq!(s.finish(), (None, None));
    let first = "https://graph.microsoft.com/v1.0/me/onlineMeetings?$filter=JoinWebUrl%20eq%20'j'";
    for outcome in [PageOutcome::Absent, PageOutcome::Denied, PageOutcome::Page(Vec::new(), None)] {
        let s = Search::begin(&joined());
        assert!(matches!(s.ask(), Ask::Meetings(u) if u == first));
        let s = s.meetings(outcome);
        assert!(matches!(s.ask(), Ask::Nothing));
        assert_eq!(s.finish(), (None, None));
    }
}

fn message(id: &str, created: &str) -> GraphChatMessage {
    GraphChatMessage {
        id: text(id),
        message_type: Some(text("message")),
        created_date_time: text(created),
        from: Some(ChatMessageFrom {
            user: Some(ChatUser { id: None, display_name: Some(text("Ann")) }),
        }),
        body: Some(MessageBody { content_type: text("html"), content: text("hi") }),
    }
}

#[test]
fn a_chat_is_read_back_to_the_start_of_the_window() {
    let mut crawl = ChatCrawl::begin("c", "2026-01-02", "2026-01-09");
    assert_eq!(
        crawl.next_url().unwrap(),
        "https://graph.microsoft.com/v1.0/chats/c/messages?$top=50&$orderby=createdDateTime%20desc"
    );
    crawl = crawl.page(vec![message("3", "2026-01-08"), message("2", "2026-01-05")], Some(text("n"))).ok().unwrap();
    assert_eq!(crawl.next_url().unwrap(), "n");
    crawl = crawl.page(vec![message("1", "2026-01-03"), message("0", "2026-01-01")], Some(text("m"))).ok().unwrap();
    assert!(crawl.next_url().is_none());
    let messages = crawl.finish();
    let ids: Vec<&str> = messages.iter().map(|m| m.id.as_str()).collect();
    assert_eq!(ids, vec!["1", "2", "3"]);
    assert_eq!(messages[0].from.as_deref(), Some("Ann"));
    assert_eq!(messages[0].body.as_deref(), Some("hi"));
}

#[test]
fn an_unreadable_chat_is_empty_and_a_vanishing_one_an_error() {
    let crawl = ChatCrawl::begin("c", "a", "b").missing().ok().unwrap();
    assert!(crawl.next_url().is_none());
    assert!(crawl.finish().is_empty());
    let crawl = ChatCrawl::begin("c", "a", "b").page(Vec::new(), Some(text("n"))).ok().unwrap();
    assert_eq!(
        crawl.missing().err().unwrap(),
        "chat c disappeared mid-pagination (page 2) — incomplete, refusing"
    );
    let mut crawl = ChatCrawl::begin("c", "a", "b");
    for _ in 0..499 {
        crawl = crawl.page(Vec::new(), Some(text("n"))).ok().unwrap();
    }
    assert_eq!(
        crawl.page(Vec::new(), None).err().unwrap(),
        "chat c paged past 500 pages — aborting (unbounded nextLink?)"
    );
}

fn chat(id: &str, topic: Option<&str>) -> GraphChat {
    GraphChat {
        id: text(id),
        topic: topic.map(String::from),
        chat_type: Some(text("group")),
        last_updated_date_time: None,
        members: vec![ChatMember { display_name: Some(text("Ann")), email: Some(text("a@x")) }],
    }
}

fn said(id: &str) -> InboxChatMessage {
    InboxChatMessage { id: text(id), created_date_time: text("t"), from: None, body: None }
}

#[test]
fn silent_chats_are_left_out_and_the_others_sorted() {
    let chats = chats_for(vec![
        (chat("b", None), vec![said("1")]),
        (chat("c", None), Vec::new()),
        (chat("a", Some("T")), vec![said("2")]),
    ]);
    let ids: Vec<&str> = chats.iter().map(|c| c.id.as_str()).collect();
    assert_eq!(ids, vec!["a", "b"]);
    let titled = chat_message_item(&chats[0], &chats[0].messages[0], "{}");
    assert_eq!(
        (titled.kind.as_str(), titled.id.as_str(), titled.meta.as_str()),
        ("chat-message", "2", "T")
    );
    assert_eq!(titled.files, vec![text("chats.json")]);
    assert_eq!(chat_message_item(&chats[1], &chats[1].messages[0], "{}").meta, "chat");
    let c = to_inbox_chat(chat("x", None), Vec::new());
    assert_eq!(c.members[0].address.as_deref(), Some("a@x"));
}

#[test]
fn secondary_files_are_digested() {
    let mut flagged = emails_for(&owner(), vec![mail("a", "t", None)]);
    let mut email = flagged.remove(0).email;
    let mut sweep = AttachmentSweep::begin("a", vec![attachment("a", Some("n"))]);
    sweep.advance();
    sweep.received(&Fetched::Body(b"abc".to_vec()));
    email.attachments = sweep.finish();
    assert_eq!(email_files(&email), vec![text("attachments/ca978112-n")]);
    let mut item = email_item(&email, "abc");
    assert_eq!(item.kind, "email");
    assert_eq!(item.locator.as_deref(), Some("a"));
    assert_eq!(item.meta, "Subject");
    let sha = "ba7816bf8f01cfea414140de5dae2223b00361a396177a9cb410ff61f20015ad";
    assert_eq!(item.content_hash, sha);
    push_secondary(&mut item, "attachments/ca978112-n", b"abc");
    assert_eq!(item.files, vec![text("emails.json"), text("attachments/ca978112-n")]);
    assert_eq!(item.file_hashes.get("attachments/ca978112-n").map(String::as_str), Some(sha));
}
