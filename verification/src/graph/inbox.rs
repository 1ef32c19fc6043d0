//! The records that a curator reads, made from the records of Graph.

use vstd::prelude::*;
use crate::graph::config;
use crate::graph::config::{Config, ConfigView};
use crate::graph::records::{
    Attendee, ChatMember, EmailAddress, GraphChat, GraphChatMessage, GraphChatMessageView,
    GraphEvent, GraphEventView, GraphMessage, GraphMessageView, PersonView, Recipient,
};
use crate::text;

verus! {

/// Whether the owner sent a message or received it.
#[derive(Clone, Copy, Debug, PartialEq, Eq, Structural)]
pub enum Direction {
    Sent,
    Received,
}

#[derive(Debug, PartialEq, Eq)]
pub struct InboxAttendee {
    pub name: Option<String>,
    pub address: Option<String>,
}

impl DeepView for InboxAttendee {
    type V = PersonView;

    open spec fn deep_view(&self) -> PersonView {
        PersonView { name: self.name.deep_view(), address: self.address.deep_view() }
    }
}

/// One attachment as evidence: saved to a file where it was read, or listed
/// with the reason why not.
#[derive(Debug, PartialEq, Eq)]
pub struct InboxAttachment {
    pub name: String,
    pub content_type: Option<String>,
    pub size: Option<u64>,
    pub file: Option<String>,
    pub sha256: Option<String>,
    pub skipped: Option<String>,
}

#[verifier::ext_equal]
pub struct InboxAttachmentView {
    pub name: Seq<char>,
    pub content_type: Option<Seq<char>>,
    pub size: Option<u64>,
    pub file: Option<Seq<char>>,
    pub sha256: Option<Seq<char>>,
    pub skipped: Option<Seq<char>>,
}

impl DeepView for InboxAttachment {
    type V = InboxAttachmentView;

    open spec fn deep_view(&self) -> InboxAttachmentView {
        InboxAttachmentView {
            name: self.name@,
            content_type: self.content_type.deep_view(),
            size: self.size,
            file: self.file.deep_view(),
            sha256: self.sha256.deep_view(),
            skipped: self.skipped.deep_view(),
        }
    }
}

#[derive(Debug, PartialEq, Eq)]
pub struct InboxEmail {
    pub id: String,
    pub thread_id: Option<String>,
    pub received_date_time: String,
    pub direction: Direction,
    pub from: InboxAttendee,
    pub to: Vec<InboxAttendee>,
    pub cc: Vec<InboxAttendee>,
    pub subject: Option<String>,
    pub body_preview: Option<String>,
    pub body: Option<String>,
    pub attachments: Vec<InboxAttachment>,
}

#[verifier::ext_equal]
pub struct InboxEmailView {
    pub id: Seq<char>,
    pub thread_id: Option<Seq<char>>,
    pub received_date_time: Seq<char>,
    pub direction: Direction,
    pub from: PersonView,
    pub to: Seq<PersonView>,
    pub cc: Seq<PersonView>,
    pub subject: Option<Seq<char>>,
    pub body_preview: Option<Seq<char>>,
    pub body: Option<Seq<char>>,
    pub attachments: Seq<InboxAttachmentView>,
}

impl DeepView for InboxEmail {
    type V = InboxEmailView;

    open spec fn deep_view(&self) -> InboxEmailView {
        InboxEmailView {
            id: self.id@,
            thread_id: self.thread_id.deep_view(),
            received_date_time: self.received_date_time@,
            direction: self.direction,
            from: self.from.deep_view(),
            to: self.to.deep_view(),
            cc: self.cc.deep_view(),
            subject: self.subject.deep_view(),
            body_preview: self.body_preview.deep_view(),
            body: self.body.deep_view(),
            attachments: self.attachments.deep_view(),
        }
    }
}

#[derive(Debug, PartialEq, Eq)]
pub struct InboxEvent {
    pub id: String,
    pub subject: Option<String>,
    pub start: String,
    pub end: String,
    pub organizer: Option<InboxAttendee>,
    pub attendees: Vec<InboxAttendee>,
    pub teams: bool,
    pub location: Option<String>,
    pub transcript_file: Option<String>,
    pub attendance_file: Option<String>,
}

#[verifier::ext_equal]
pub struct InboxEventView {
    pub id: Seq<char>,
    pub subject: Option<Seq<char>>,
    pub start: Seq<char>,
    pub end: Seq<char>,
    pub organizer: Option<PersonView>,
    pub attendees: Seq<PersonView>,
    pub teams: bool,
    pub location: Option<Seq<char>>,
    pub transcript_file: Option<Seq<char>>,
    pub attendance_file: Option<Seq<char>>,
}

impl DeepView for InboxEvent {
    type V = InboxEventView;

    open spec fn deep_view(&self) -> InboxEventView {
        InboxEventView {
            id: self.id@,
            subject: self.subject.deep_view(),
            start: self.start@,
            end: self.end@,
            organizer: self.organizer.deep_view(),
            attendees: self.attendees.deep_view(),
            teams: self.teams,
            location: self.location.deep_view(),
            transcript_file: self.transcript_file.deep_view(),
            attendance_file: self.attendance_file.deep_view(),
        }
    }
}

#[derive(Debug, PartialEq, Eq)]
pub struct InboxChatMessage {
    pub id: String,
    pub created_date_time: String,
    pub from: Option<String>,
    pub body: Option<String>,
}

#[verifier::ext_equal]
pub struct InboxChatMessageView {
    pub id: Seq<char>,
    pub created_date_time: Seq<char>,
    pub from: Option<Seq<char>>,
    pub body: Option<Seq<char>>,
}

impl DeepView for InboxChatMessage {
    type V = InboxChatMessageView;

    open spec fn deep_view(&self) -> InboxChatMessageView {
        InboxChatMessageView {
            id: self.id@,
            created_date_time: self.created_date_time@,
            from: self.from.deep_view(),
            body: self.body.deep_view(),
        }
    }
}

#[derive(Debug, PartialEq, Eq)]
pub struct InboxChat {
    pub id: String,
    pub topic: Option<String>,
    pub chat_type: Option<String>,
    pub members: Vec<InboxAttendee>,
    pub messages: Vec<InboxChatMessage>,
}

#[verifier::ext_equal]
pub struct InboxChatView {
    pub id: Seq<char>,
    pub topic: Option<Seq<char>>,
    pub chat_type: Option<Seq<char>>,
    pub members: Seq<PersonView>,
    pub messages: Seq<InboxChatMessageView>,
}

impl DeepView for InboxChat {
    type V = InboxChatView;

    open spec fn deep_view(&self) -> InboxChatView {
        InboxChatView {
            id: self.id@,
            topic: self.topic.deep_view(),
            chat_type: self.chat_type.deep_view(),
            members: self.members.deep_view(),
            messages: self.messages.deep_view(),
        }
    }
}

fn to_attendee(e: &EmailAddress) -> (r: InboxAttendee)
    ensures
        r.deep_view() == e.deep_view(),
{
    InboxAttendee { name: e.name.clone(), address: e.address.clone() }
}

fn from_recipients(v: &Vec<Recipient>) -> (r: Vec<InboxAttendee>)
    ensures
        r.deep_view() == v.deep_view(),
{
    let mut r: Vec<InboxAttendee> = Vec::new();
    let mut i: usize = 0;
    while i < v.len()
        invariant
            i <= v.len(),
            r.len() == i,
            forall|j: int| 0 <= j < i ==> (#[trigger] r@[j]).deep_view() == v@[j].deep_view(),
        decreases v.len() - i,
    {
        r.push(to_attendee(&v[i].email_address));
        i += 1;
    }
    assert(r.deep_view() =~= v.deep_view());
    r
}

fn from_attendees(v: &Vec<Attendee>) -> (r: Vec<InboxAttendee>)
    ensures
        r.deep_view() == v.deep_view(),
{
    let mut r: Vec<InboxAttendee> = Vec::new();
    let mut i: usize = 0;
    while i < v.len()
        invariant
            i <= v.len(),
            r.len() == i,
            forall|j: int| 0 <= j < i ==> (#[trigger] r@[j]).deep_view() == v@[j].deep_view(),
        decreases v.len() - i,
    {
        r.push(to_attendee(&v[i].email_address));
        i += 1;
    }
    assert(r.deep_view() =~= v.deep_view());
    r
}

fn from_members(v: &Vec<ChatMember>) -> (r: Vec<InboxAttendee>)
    ensures
        r.deep_view() == v.deep_view(),
{
    let mut r: Vec<InboxAttendee> = Vec::new();
    let mut i: usize = 0;
    while i < v.len()
        invariant
            i <= v.len(),
            r.len() == i,
            forall|j: int| 0 <= j < i ==> (#[trigger] r@[j]).deep_view() == v@[j].deep_view(),
        decreases v.len() - i,
    {
        r.push(InboxAttendee { name: v[i].display_name.clone(), address: v[i].email.clone() });
        i += 1;
    }
    assert(r.deep_view() =~= v.deep_view());
    r
}

/// Nobody in particular.
pub open spec fn nobody() -> PersonView {
    PersonView { name: None, address: None }
}

/// A message is sent where its sender is the owner, received otherwise.
pub open spec fn direction_of(cfg: ConfigView, from: Option<PersonView>) -> Direction {
    if config::own_address(
        cfg.owner_addresses,
        match from {
            Some(p) => p.address,
            None => None,
        },
    ) {
        Direction::Sent
    } else {
        Direction::Received
    }
}

/// A mail message as a curator reads it, before its attachments are added.
pub open spec fn email_of(cfg: ConfigView, m: GraphMessageView) -> InboxEmailView {
    InboxEmailView {
        id: m.id,
        thread_id: m.conversation_id,
        received_date_time: m.received_date_time,
        direction: direction_of(cfg, m.from),
        from: match m.from {
            Some(p) => p,
            None => nobody(),
        },
        to: m.to_recipients,
        cc: m.cc_recipients,
        subject: m.subject,
        body_preview: m.body_preview,
        body: m.body,
        attachments: Seq::empty(),
    }
}

/// A mail message as a curator reads it, before its attachments are added.
pub fn to_inbox_email(cfg: &Config, m: GraphMessage) -> (r: InboxEmail)
    ensures
        r.deep_view() == email_of(cfg.deep_view(), m.deep_view()),
        r.id@ == m.id@,
        r.received_date_time@ == m.received_date_time@,
        r.to@.len() == m.to_recipients@.len(),
        r.cc@.len() == m.cc_recipients@.len(),
        forall|i: int|
            0 <= i < r.to@.len() ==> (#[trigger] r.to@[i]).name.deep_view()
                == m.to_recipients@[i].email_address.name.deep_view()
                && r.to@[i].address.deep_view()
                == m.to_recipients@[i].email_address.address.deep_view(),
        forall|i: int|
            0 <= i < r.cc@.len() ==> (#[trigger] r.cc@[i]).name.deep_view()
                == m.cc_recipients@[i].email_address.name.deep_view()
                && r.cc@[i].address.deep_view()
                == m.cc_recipients@[i].email_address.address.deep_view(),
{
    let own = match &m.from {
        Some(p) => match &p.email_address.address {
            Some(a) => cfg.is_own_address(Some(a.as_str())),
            None => cfg.is_own_address(None),
        },
        None => cfg.is_own_address(None),
    };
    let direction = if own {
        Direction::Sent
    } else {
        Direction::Received
    };
    let from = match &m.from {
        Some(p) => to_attendee(&p.email_address),
        None => InboxAttendee { name: None, address: None },
    };
    let to = from_recipients(&m.to_recipients);
    let cc = from_recipients(&m.cc_recipients);
    let body = match m.body {
        Some(b) => Some(b.content),
        None => None,
    };
    let r = InboxEmail {
        id: m.id,
        thread_id: m.conversation_id,
        received_date_time: m.received_date_time,
        direction,
        from,
        to,
        cc,
        subject: m.subject,
        body_preview: m.body_preview,
        body,
        attachments: Vec::new(),
    };
    assert(r.attachments.deep_view() =~= Seq::<InboxAttachmentView>::empty());
    proof {
        let copied = m.cc_recipients.deep_view();
        let addressed = m.to_recipients.deep_view();
        assert(r.cc.deep_view() == copied && r.to.deep_view() == addressed);
        assert(r.cc@.len() == r.cc.deep_view().len() && copied.len() == m.cc_recipients@.len());
        assert(r.to@.len() == r.to.deep_view().len() && addressed.len() == m.to_recipients@.len());
        assert forall|i: int| 0 <= i < r.cc@.len() implies (
        #[trigger] r.cc@[i]).name.deep_view() == m.cc_recipients@[i].email_address.name.deep_view()
            && r.cc@[i].address.deep_view()
            == m.cc_recipients@[i].email_address.address.deep_view() by {
            assert(r.cc.deep_view()[i] == copied[i]);
        }
        assert forall|i: int| 0 <= i < r.to@.len() implies (
        #[trigger] r.to@[i]).name.deep_view() == m.to_recipients@[i].email_address.name.deep_view()
            && r.to@[i].address.deep_view()
            == m.to_recipients@[i].email_address.address.deep_view() by {
            assert(r.to.deep_view()[i] == addressed[i]);
        }
    }
    r
}

/// The record of a message says what the message says: who it is from, to whom it was
/// addressed and who was copied, each name by name and address by address in their order,
/// when it was received, what it is about and what it holds. Attachments come later.
pub proof fn law_an_email_says_what_its_message_says(cfg: ConfigView, m: GraphMessageView)
    ensures
        email_of(cfg, m).id == m.id,
        email_of(cfg, m).thread_id == m.conversation_id,
        email_of(cfg, m).received_date_time == m.received_date_time,
        email_of(cfg, m).subject == m.subject,
        email_of(cfg, m).body_preview == m.body_preview,
        email_of(cfg, m).body == m.body,
        email_of(cfg, m).to.len() == m.to_recipients.len(),
        forall|i: int|
            0 <= i < m.to_recipients.len() ==> #[trigger] email_of(cfg, m).to[i]
                == m.to_recipients[i],
        email_of(cfg, m).cc.len() == m.cc_recipients.len(),
        forall|i: int|
            0 <= i < m.cc_recipients.len() ==> #[trigger] email_of(cfg, m).cc[i]
                == m.cc_recipients[i],
        m.from matches Some(p) ==> email_of(cfg, m).from == p,
        m.from is None ==> email_of(cfg, m).from.name is None && email_of(
            cfg,
            m,
        ).from.address is None,
        email_of(cfg, m).attachments.len() == 0,
{
}

/// Who was copied does not depend on who was addressed, nor the other way round: two
/// messages with the same ccRecipients have records with the same cc, and two with the
/// same toRecipients records with the same to, whatever else they hold.
pub proof fn law_addressed_and_copied_are_told_apart(
    cfg: ConfigView,
    m: GraphMessageView,
    n: GraphMessageView,
)
    ensures
        m.cc_recipients == n.cc_recipients <==> email_of(cfg, m).cc == email_of(cfg, n).cc,
        m.to_recipients == n.to_recipients <==> email_of(cfg, m).to == email_of(cfg, n).to,
{
}

/// A message was sent exactly where its sender has an address that is one of the
/// owner's, the case of ASCII letters aside, and was received otherwise.
pub proof fn law_sent_is_from_the_owner(cfg: ConfigView, m: GraphMessageView)
    ensures
        email_of(cfg, m).direction == Direction::Sent || email_of(cfg, m).direction
            == Direction::Received,
        email_of(cfg, m).direction == Direction::Sent <==> (m.from matches Some(p)
            && p.address matches Some(a) && exists|i: int|
            0 <= i < cfg.owner_addresses.len() && text::same_ignoring_ascii_case(
                #[trigger] cfg.owner_addresses[i],
                a,
            )),
{
}

/// The record of an event says what the event says: its identity, what it is about, when
/// it starts and ends, who called it and who attends, name by name and address by address
/// in their order, whether and where it is held; the two files are those given, each in
/// its own place.
pub proof fn law_an_event_says_what_its_entry_says(
    transcript_file: Option<Seq<char>>,
    attendance_file: Option<Seq<char>>,
    e: GraphEventView,
)
    ensures
        ({
            let r = event_of(transcript_file, attendance_file, e);
            &&& r.id == e.id
            &&& r.subject == e.subject
            &&& r.start == e.start
            &&& r.end == e.end
            &&& r.organizer == e.organizer
            &&& r.attendees.len() == e.attendees.len()
            &&& forall|i: int|
                0 <= i < e.attendees.len() ==> #[trigger] r.attendees[i] == e.attendees[i]
            &&& r.teams <==> e.is_online_meeting == Some(true)
            &&& r.location is Some <==> e.location is Some && e.location->Some_0 is Some
            &&& r.location matches Some(l) ==> e.location == Some(Some(l))
            &&& r.transcript_file == transcript_file
            &&& r.attendance_file == attendance_file
        }),
{
}

/// The record of a chat message says who wrote it, where that is known, when, and what.
pub proof fn law_a_chat_message_says_what_was_written(m: GraphChatMessageView)
    ensures
        chat_message_of(m).id == m.id,
        chat_message_of(m).created_date_time == m.created_date_time,
        chat_message_of(m).body == m.body,
        chat_message_of(m).from is Some <==> m.from is Some && m.from->Some_0 is Some,
        chat_message_of(m).from matches Some(name) ==> m.from == Some(Some(name)),
{
}

/// A calendar event as a curator reads it, with the files of its meeting.
pub open spec fn event_of(
    transcript_file: Option<Seq<char>>,
    attendance_file: Option<Seq<char>>,
    e: GraphEventView,
) -> InboxEventView {
    InboxEventView {
        id: e.id,
        subject: e.subject,
        start: e.start,
        end: e.end,
        organizer: e.organizer,
        attendees: e.attendees,
        teams: e.is_online_meeting == Some(true),
        location: match e.location {
            Some(l) => l,
            None => None,
        },
        transcript_file,
        attendance_file,
    }
}

/// A calendar event as a curator reads it, with the files of its meeting.
pub fn to_inbox_meeting(
    transcript_file: Option<String>,
    attendance_file: Option<String>,
    e: GraphEvent,
) -> (r: InboxEvent)
    ensures
        r.deep_view() == event_of(
            transcript_file.deep_view(),
            attendance_file.deep_view(),
            e.deep_view(),
        ),
        r.id@ == e.id@,
        r.subject.deep_view() == e.subject.deep_view(),
        r.start@ == e.start.date_time@,
        r.end@ == e.end.date_time@,
        r.transcript_file.deep_view() == transcript_file.deep_view(),
        r.attendance_file.deep_view() == attendance_file.deep_view(),
        r.teams == (e.is_online_meeting == Some(true)),
        r.attendees@.len() == e.attendees@.len(),
{
    let organizer = match &e.organizer {
        Some(p) => Some(to_attendee(&p.email_address)),
        None => None,
    };
    let attendees = from_attendees(&e.attendees);
    assert(attendees.deep_view().len() == e.attendees.deep_view().len());
    assert(attendees.deep_view().len() == attendees@.len() && e.attendees.deep_view().len()
        == e.attendees@.len());
    let teams = match e.is_online_meeting {
        Some(b) => b,
        None => false,
    };
    let location = match e.location {
        Some(l) => l.display_name,
        None => None,
    };
    InboxEvent {
        id: e.id,
        subject: e.subject,
        start: e.start.date_time,
        end: e.end.date_time,
        organizer,
        attendees,
        teams,
        location,
        transcript_file,
        attendance_file,
    }
}

/// A calendar event as a curator reads it, without an attendance report.
pub fn to_inbox_event(transcript_file: Option<String>, e: GraphEvent) -> (r: InboxEvent)
    ensures
        r.deep_view() == event_of(transcript_file.deep_view(), None, e.deep_view()),
{
    to_inbox_meeting(transcript_file, None, e)
}

/// A chat message as a curator reads it.
pub open spec fn chat_message_of(m: GraphChatMessageView) -> InboxChatMessageView {
    InboxChatMessageView {
        id: m.id,
        created_date_time: m.created_date_time,
        from: match m.from {
            Some(f) => f,
            None => None,
        },
        body: m.body,
    }
}

/// A chat message as a curator reads it.
pub fn to_inbox_chat_message(m: GraphChatMessage) -> (r: InboxChatMessage)
    ensures
        r.deep_view() == chat_message_of(m.deep_view()),
        r.id@ == m.id@,
        r.created_date_time@ == m.created_date_time@,
        r.body.deep_view() == (match m.body {
            Some(b) => Some(b.content@),
            None => None,
        }),
        r.from.deep_view() == (match m.from {
            Some(f) => match f.user {
                Some(u) => u.display_name.deep_view(),
                None => None,
            },
            None => None,
        }),
{
    let from = match m.from {
        Some(f) => match f.user {
            Some(u) => u.display_name,
            None => None,
        },
        None => None,
    };
    let body = match m.body {
        Some(b) => Some(b.content),
        None => None,
    };
    InboxChatMessage { id: m.id, created_date_time: m.created_date_time, from, body }
}

/// A chat as a curator reads it, with these messages.
pub fn to_inbox_chat(c: GraphChat, messages: Vec<InboxChatMessage>) -> (r: InboxChat)
    ensures
        r.deep_view() == (InboxChatView {
            id: c.deep_view().id,
            topic: c.deep_view().topic,
            chat_type: c.deep_view().chat_type,
            members: c.deep_view().members,
            messages: messages.deep_view(),
        }),
        r.id@ == c.id@,
        r.topic.deep_view() == c.topic.deep_view(),
        r.chat_type.deep_view() == c.chat_type.deep_view(),
        r.messages == messages,
        r.members@.len() == c.members@.len(),
        forall|i: int|
            0 <= i < r.members@.len() ==> (#[trigger] r.members@[i]).name.deep_view()
                == c.members@[i].display_name.deep_view() && r.members@[i].address.deep_view()
                == c.members@[i].email.deep_view(),
{
    let members = from_members(&c.members);
    assert(members.deep_view().len() == members@.len() && c.members.deep_view().len()
        == c.members@.len());
    assert forall|i: int| 0 <= i < members@.len() implies (
    #[trigger] members@[i]).name.deep_view() == c.members@[i].display_name.deep_view()
        && members@[i].address.deep_view() == c.members@[i].email.deep_view() by {
        assert(members.deep_view()[i] == c.members.deep_view()[i]);
    }
    InboxChat { id: c.id, topic: c.topic, chat_type: c.chat_type, members, messages }
}

/// What is stated of the record of a message is stated of its own fields.
pub proof fn law_an_email_record_is_its_fields(r: InboxEmail, a: InboxAttachment)
    ensures
        r.deep_view().id == r.id@,
        r.deep_view().received_date_time == r.received_date_time@,
        r.deep_view().thread_id == r.thread_id.deep_view(),
        r.deep_view().subject == r.subject.deep_view(),
        r.deep_view().body_preview == r.body_preview.deep_view(),
        r.deep_view().body == r.body.deep_view(),
        r.deep_view().direction == r.direction,
        r.deep_view().from.name == r.from.name.deep_view(),
        r.deep_view().from.address == r.from.address.deep_view(),
        r.deep_view().to.len() == r.to@.len(),
        forall|i: int|
            0 <= i < r.to@.len() ==> (#[trigger] r.deep_view().to[i]).name
                == r.to@[i].name.deep_view() && r.deep_view().to[i].address
                == r.to@[i].address.deep_view(),
        r.deep_view().cc.len() == r.cc@.len(),
        forall|i: int|
            0 <= i < r.cc@.len() ==> (#[trigger] r.deep_view().cc[i]).name
                == r.cc@[i].name.deep_view() && r.deep_view().cc[i].address
                == r.cc@[i].address.deep_view(),
        r.deep_view().attachments == r.attachments.deep_view(),
        a.deep_view().name == a.name@,
        a.deep_view().content_type == a.content_type.deep_view(),
        a.deep_view().file == a.file.deep_view(),
        a.deep_view().sha256 == a.sha256.deep_view(),
        a.deep_view().skipped == a.skipped.deep_view(),
        a.deep_view().size == a.size,
{
}

/// What is stated of the record of an event is stated of its own fields.
pub proof fn law_an_event_record_is_its_fields(r: InboxEvent)
    ensures
        r.deep_view().id == r.id@,
        r.deep_view().start == r.start@,
        r.deep_view().end == r.end@,
        r.deep_view().subject == r.subject.deep_view(),
        r.deep_view().location == r.location.deep_view(),
        r.deep_view().transcript_file == r.transcript_file.deep_view(),
        r.deep_view().attendance_file == r.attendance_file.deep_view(),
        r.deep_view().teams == r.teams,
        r.deep_view().organizer == (match r.organizer {
            Some(p) => Some(
                PersonView { name: p.name.deep_view(), address: p.address.deep_view() },
            ),
            None => None,
        }),
        r.deep_view().attendees.len() == r.attendees@.len(),
        forall|i: int|
            0 <= i < r.attendees@.len() ==> (#[trigger] r.deep_view().attendees[i]).name
                == r.attendees@[i].name.deep_view() && r.deep_view().attendees[i].address
                == r.attendees@[i].address.deep_view(),
{
}

/// What is stated of the record of a chat is stated of its own fields.
pub proof fn law_a_chat_record_is_its_fields(c: InboxChat, m: InboxChatMessage)
    ensures
        c.deep_view().id == c.id@,
        c.deep_view().topic == c.topic.deep_view(),
        c.deep_view().chat_type == c.chat_type.deep_view(),
        c.deep_view().members.len() == c.members@.len(),
        forall|i: int|
            0 <= i < c.members@.len() ==> (#[trigger] c.deep_view().members[i]).name
                == c.members@[i].name.deep_view() && c.deep_view().members[i].address
                == c.members@[i].address.deep_view(),
        c.deep_view().messages == c.messages.deep_view(),
        m.deep_view().id == m.id@,
        m.deep_view().created_date_time == m.created_date_time@,
        m.deep_view().from == m.from.deep_view(),
        m.deep_view().body == m.body.deep_view(),
{
}

} // verus!
