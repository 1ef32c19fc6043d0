//! The records of the Microsoft Graph responses, as far as the sources read
//! them.

use vstd::prelude::*;

verus! {

#[derive(Debug, PartialEq, Eq)]
pub struct EmailAddress {
    pub name: Option<String>,
    pub address: Option<String>,
}

/// A person by name and address, as far as each is known.
#[verifier::ext_equal]
pub struct PersonView {
    pub name: Option<Seq<char>>,
    pub address: Option<Seq<char>>,
}

impl DeepView for EmailAddress {
    type V = PersonView;

    open spec fn deep_view(&self) -> PersonView {
        PersonView { name: self.name.deep_view(), address: self.address.deep_view() }
    }
}

#[derive(Debug, PartialEq, Eq)]
pub struct Recipient {
    pub email_address: EmailAddress,
}

impl DeepView for Recipient {
    type V = PersonView;

    open spec fn deep_view(&self) -> PersonView {
        self.email_address.deep_view()
    }
}

#[derive(Debug, PartialEq, Eq)]
pub struct MessageBody {
    pub content_type: String,
    pub content: String,
}

impl DeepView for MessageBody {
    type V = Seq<char>;

    /// The content alone.
    open spec fn deep_view(&self) -> Seq<char> {
        self.content@
    }
}

/// A mail message.
#[derive(Debug, PartialEq, Eq)]
pub struct GraphMessage {
    pub id: String,
    pub conversation_id: Option<String>,
    pub received_date_time: String,
    pub subject: Option<String>,
    pub body_preview: Option<String>,
    pub body: Option<MessageBody>,
    pub from: Option<Recipient>,
    pub to_recipients: Vec<Recipient>,
    pub cc_recipients: Vec<Recipient>,
    pub has_attachments: Option<bool>,
}

#[verifier::ext_equal]
pub struct GraphMessageView {
    pub id: Seq<char>,
    pub conversation_id: Option<Seq<char>>,
    pub received_date_time: Seq<char>,
    pub subject: Option<Seq<char>>,
    pub body_preview: Option<Seq<char>>,
    pub body: Option<Seq<char>>,
    pub from: Option<PersonView>,
    pub to_recipients: Seq<PersonView>,
    pub cc_recipients: Seq<PersonView>,
    pub has_attachments: Option<bool>,
}

impl DeepView for GraphMessage {
    type V = GraphMessageView;

    open spec fn deep_view(&self) -> GraphMessageView {
        GraphMessageView {
            id: self.id@,
            conversation_id: self.conversation_id.deep_view(),
            received_date_time: self.received_date_time@,
            subject: self.subject.deep_view(),
            body_preview: self.body_preview.deep_view(),
            body: self.body.deep_view(),
            from: self.from.deep_view(),
            to_recipients: self.to_recipients.deep_view(),
            cc_recipients: self.cc_recipients.deep_view(),
            has_attachments: self.has_attachments,
        }
    }
}

/// What is known of an attachment before its content is read.
#[derive(Debug, PartialEq, Eq)]
pub struct GraphAttachment {
    pub id: String,
    pub odata_type: Option<String>,
    pub name: Option<String>,
    pub content_type: Option<String>,
    pub size: Option<u64>,
    pub is_inline: Option<bool>,
}

#[verifier::ext_equal]
pub struct GraphAttachmentView {
    pub id: Seq<char>,
    pub odata_type: Option<Seq<char>>,
    pub name: Option<Seq<char>>,
    pub content_type: Option<Seq<char>>,
    pub size: Option<u64>,
    pub is_inline: Option<bool>,
}

impl DeepView for GraphAttachment {
    type V = GraphAttachmentView;

    open spec fn deep_view(&self) -> GraphAttachmentView {
        GraphAttachmentView {
            id: self.id@,
            odata_type: self.odata_type.deep_view(),
            name: self.name.deep_view(),
            content_type: self.content_type.deep_view(),
            size: self.size,
            is_inline: self.is_inline,
        }
    }
}

#[derive(Debug, PartialEq, Eq)]
pub struct DateTimeTimeZone {
    pub date_time: String,
    pub time_zone: String,
}

impl DeepView for DateTimeTimeZone {
    type V = Seq<char>;

    /// The time alone.
    open spec fn deep_view(&self) -> Seq<char> {
        self.date_time@
    }
}

#[derive(Debug, PartialEq, Eq)]
pub struct Attendee {
    pub email_address: EmailAddress,
}

impl DeepView for Attendee {
    type V = PersonView;

    open spec fn deep_view(&self) -> PersonView {
        self.email_address.deep_view()
    }
}

#[derive(Debug, PartialEq, Eq)]
pub struct GraphLocation {
    pub display_name: Option<String>,
}

impl DeepView for GraphLocation {
    type V = Option<Seq<char>>;

    open spec fn deep_view(&self) -> Option<Seq<char>> {
        self.display_name.deep_view()
    }
}

#[derive(Debug, PartialEq, Eq)]
pub struct OnlineMeetingInfo {
    pub join_url: Option<String>,
}

impl DeepView for OnlineMeetingInfo {
    type V = Option<Seq<char>>;

    open spec fn deep_view(&self) -> Option<Seq<char>> {
        self.join_url.deep_view()
    }
}

/// A calendar event.
#[derive(Debug, PartialEq, Eq)]
pub struct GraphEvent {
    pub id: String,
    pub subject: Option<String>,
    pub start: DateTimeTimeZone,
    pub end: DateTimeTimeZone,
    pub organizer: Option<Recipient>,
    pub attendees: Vec<Attendee>,
    pub is_online_meeting: Option<bool>,
    pub location: Option<GraphLocation>,
    pub online_meeting: Option<OnlineMeetingInfo>,
}

#[verifier::ext_equal]
pub struct GraphEventView {
    pub id: Seq<char>,
    pub subject: Option<Seq<char>>,
    pub start: Seq<char>,
    pub end: Seq<char>,
    pub organizer: Option<PersonView>,
    pub attendees: Seq<PersonView>,
    pub is_online_meeting: Option<bool>,
    pub location: Option<Option<Seq<char>>>,
    pub online_meeting: Option<Option<Seq<char>>>,
}

impl DeepView for GraphEvent {
    type V = GraphEventView;

    open spec fn deep_view(&self) -> GraphEventView {
        GraphEventView {
            id: self.id@,
            subject: self.subject.deep_view(),
            start: self.start.deep_view(),
            end: self.end.deep_view(),
            organizer: self.organizer.deep_view(),
            attendees: self.attendees.deep_view(),
            is_online_meeting: self.is_online_meeting,
            location: self.location.deep_view(),
            online_meeting: self.online_meeting.deep_view(),
        }
    }
}

impl GraphEventView {
    /// The address under which the meeting is joined.
    pub open spec fn join_url(self) -> Option<Seq<char>> {
        match self.online_meeting {
            Some(u) => u,
            None => None,
        }
    }
}

/// A resolved online meeting.
#[derive(Debug, PartialEq, Eq)]
pub struct OnlineMeeting {
    pub id: String,
}

impl DeepView for OnlineMeeting {
    type V = Seq<char>;

    open spec fn deep_view(&self) -> Seq<char> {
        self.id@
    }
}

/// One transcript of an online meeting.
#[derive(Debug, PartialEq, Eq)]
pub struct Transcript {
    pub id: String,
    pub created_date_time: Option<String>,
}

#[verifier::ext_equal]
pub struct TranscriptView {
    pub id: Seq<char>,
    pub created_date_time: Option<Seq<char>>,
}

impl DeepView for Transcript {
    type V = TranscriptView;

    open spec fn deep_view(&self) -> TranscriptView {
        TranscriptView {
            id: self.id@,
            created_date_time: self.created_date_time.deep_view(),
        }
    }
}

/// One attendance report of an online meeting: one per held session.
#[derive(Debug, PartialEq, Eq)]
pub struct AttendanceReport {
    pub id: String,
    pub meeting_start: Option<String>,
    pub meeting_end: Option<String>,
    pub total_participant_count: Option<u64>,
}

#[verifier::ext_equal]
pub struct AttendanceReportView {
    pub id: Seq<char>,
    pub meeting_start: Option<Seq<char>>,
    pub meeting_end: Option<Seq<char>>,
    pub total_participant_count: Option<u64>,
}

impl DeepView for AttendanceReport {
    type V = AttendanceReportView;

    open spec fn deep_view(&self) -> AttendanceReportView {
        AttendanceReportView {
            id: self.id@,
            meeting_start: self.meeting_start.deep_view(),
            meeting_end: self.meeting_end.deep_view(),
            total_participant_count: self.total_participant_count,
        }
    }
}

/// The user behind a chat message.
#[derive(Debug, PartialEq, Eq)]
pub struct ChatUser {
    pub id: Option<String>,
    pub display_name: Option<String>,
}

impl DeepView for ChatUser {
    type V = Option<Seq<char>>;

    /// The name alone.
    open spec fn deep_view(&self) -> Option<Seq<char>> {
        self.display_name.deep_view()
    }
}

#[derive(Debug, PartialEq, Eq)]
pub struct ChatMessageFrom {
    pub user: Option<ChatUser>,
}

impl DeepView for ChatMessageFrom {
    type V = Option<Seq<char>>;

    open spec fn deep_view(&self) -> Option<Seq<char>> {
        match self.user {
            Some(u) => u.deep_view(),
            None => None,
        }
    }
}

/// One message of a chat.
#[derive(Debug, PartialEq, Eq)]
pub struct GraphChatMessage {
    pub id: String,
    pub message_type: Option<String>,
    pub created_date_time: String,
    pub from: Option<ChatMessageFrom>,
    pub body: Option<MessageBody>,
}

#[verifier::ext_equal]
pub struct GraphChatMessageView {
    pub id: Seq<char>,
    pub message_type: Option<Seq<char>>,
    pub created_date_time: Seq<char>,
    pub from: Option<Option<Seq<char>>>,
    pub body: Option<Seq<char>>,
}

impl DeepView for GraphChatMessage {
    type V = GraphChatMessageView;

    open spec fn deep_view(&self) -> GraphChatMessageView {
        GraphChatMessageView {
            id: self.id@,
            message_type: self.message_type.deep_view(),
            created_date_time: self.created_date_time@,
            from: self.from.deep_view(),
            body: self.body.deep_view(),
        }
    }
}

/// A member of a chat.
#[derive(Debug, PartialEq, Eq)]
pub struct ChatMember {
    pub display_name: Option<String>,
    pub email: Option<String>,
}

impl DeepView for ChatMember {
    type V = PersonView;

    open spec fn deep_view(&self) -> PersonView {
        PersonView { name: self.display_name.deep_view(), address: self.email.deep_view() }
    }
}

/// A chat with its members.
#[derive(Debug, PartialEq, Eq)]
pub struct GraphChat {
    pub id: String,
    pub topic: Option<String>,
    pub chat_type: Option<String>,
    pub last_updated_date_time: Option<String>,
    pub members: Vec<ChatMember>,
}

#[verifier::ext_equal]
pub struct GraphChatView {
    pub id: Seq<char>,
    pub topic: Option<Seq<char>>,
    pub chat_type: Option<Seq<char>>,
    pub last_updated_date_time: Option<Seq<char>>,
    pub members: Seq<PersonView>,
}

impl DeepView for GraphChat {
    type V = GraphChatView;

    open spec fn deep_view(&self) -> GraphChatView {
        GraphChatView {
            id: self.id@,
            topic: self.topic.deep_view(),
            chat_type: self.chat_type.deep_view(),
            last_updated_date_time: self.last_updated_date_time.deep_view(),
            members: self.members.deep_view(),
        }
    }
}

/// A file or a folder of a drive.
#[derive(Debug, PartialEq, Eq)]
pub struct DriveItem {
    /// Stable identity: it survives renames and moves.
    pub id: Option<String>,
    pub name: String,
    pub download_url: Option<String>,
    /// The version.
    pub etag: Option<String>,
    pub last_modified: Option<String>,
    pub size: Option<u64>,
    /// Present if and only if the item is a folder.
    pub folder: Option<FolderFacet>,
    pub parent_reference: Option<ParentReference>,
}

/// What a folder says of itself.
#[derive(Debug, PartialEq, Eq)]
pub struct FolderFacet {
    pub child_count: Option<u64>,
}

/// Where a drive item belongs.
#[derive(Debug, PartialEq, Eq)]
pub struct ParentReference {
    pub drive_id: Option<String>,
}

#[verifier::ext_equal]
pub struct DriveItemView {
    pub id: Option<Seq<char>>,
    pub name: Seq<char>,
    pub download_url: Option<Seq<char>>,
    pub etag: Option<Seq<char>>,
    pub last_modified: Option<Seq<char>>,
    pub size: Option<u64>,
    pub folder: bool,
    pub drive_id: Option<Seq<char>>,
}

impl DeepView for DriveItem {
    type V = DriveItemView;

    open spec fn deep_view(&self) -> DriveItemView {
        DriveItemView {
            id: self.id.deep_view(),
            name: self.name@,
            download_url: self.download_url.deep_view(),
            etag: self.etag.deep_view(),
            last_modified: self.last_modified.deep_view(),
            size: self.size,
            folder: self.folder is Some,
            drive_id: match self.parent_reference {
                Some(p) => p.drive_id.deep_view(),
                None => None,
            },
        }
    }
}

/// What is stated of a message is stated of its own fields: each recipient by name and
/// address, in the list in which it stands, and the content of the body.
pub proof fn law_a_message_is_its_fields(m: GraphMessage)
    ensures
        m.deep_view().id == m.id@,
        m.deep_view().received_date_time == m.received_date_time@,
        m.deep_view().conversation_id == m.conversation_id.deep_view(),
        m.deep_view().subject == m.subject.deep_view(),
        m.deep_view().body_preview == m.body_preview.deep_view(),
        m.deep_view().body == (match m.body {
            Some(b) => Some(b.content@),
            None => None,
        }),
        m.deep_view().from == (match m.from {
            Some(r) => Some(
                PersonView {
                    name: r.email_address.name.deep_view(),
                    address: r.email_address.address.deep_view(),
                },
            ),
            None => None,
        }),
        m.deep_view().has_attachments == m.has_attachments,
        m.deep_view().to_recipients.len() == m.to_recipients@.len(),
        forall|i: int|
            0 <= i < m.to_recipients@.len() ==> #[trigger] m.deep_view().to_recipients[i] == (PersonView {
                name: m.to_recipients@[i].email_address.name.deep_view(),
                address: m.to_recipients@[i].email_address.address.deep_view(),
            }),
        m.deep_view().cc_recipients.len() == m.cc_recipients@.len(),
        forall|i: int|
            0 <= i < m.cc_recipients@.len() ==> #[trigger] m.deep_view().cc_recipients[i] == (PersonView {
                name: m.cc_recipients@[i].email_address.name.deep_view(),
                address: m.cc_recipients@[i].email_address.address.deep_view(),
            }),
{
}

/// What is stated of an event is stated of its own fields.
pub proof fn law_an_event_is_its_fields(e: GraphEvent)
    ensures
        e.deep_view().id == e.id@,
        e.deep_view().subject == e.subject.deep_view(),
        e.deep_view().start == e.start.date_time@,
        e.deep_view().end == e.end.date_time@,
        e.deep_view().organizer == (match e.organizer {
            Some(r) => Some(
                PersonView {
                    name: r.email_address.name.deep_view(),
                    address: r.email_address.address.deep_view(),
                },
            ),
            None => None,
        }),
        e.deep_view().attendees.len() == e.attendees@.len(),
        forall|i: int|
            0 <= i < e.attendees@.len() ==> (#[trigger] e.deep_view().attendees[i]).name
                == e.attendees@[i].email_address.name.deep_view() && e.deep_view().attendees[i].address
                == e.attendees@[i].email_address.address.deep_view(),
        e.deep_view().is_online_meeting == e.is_online_meeting,
        e.deep_view().location == (match e.location {
            Some(l) => Some(l.display_name.deep_view()),
            None => None,
        }),
        e.deep_view().join_url() == (match e.online_meeting {
            Some(m) => m.join_url.deep_view(),
            None => None,
        }),
{
}

/// What is stated of a chat and of its messages is stated of their own fields.
pub proof fn law_a_chat_is_its_fields(c: GraphChat, m: GraphChatMessage)
    ensures
        c.deep_view().id == c.id@,
        c.deep_view().topic == c.topic.deep_view(),
        c.deep_view().chat_type == c.chat_type.deep_view(),
        c.deep_view().last_updated_date_time == c.last_updated_date_time.deep_view(),
        c.deep_view().members.len() == c.members@.len(),
        forall|i: int|
            0 <= i < c.members@.len() ==> (#[trigger] c.deep_view().members[i]).name
                == c.members@[i].display_name.deep_view() && c.deep_view().members[i].address
                == c.members@[i].email.deep_view(),
        m.deep_view().id == m.id@,
        m.deep_view().created_date_time == m.created_date_time@,
        m.deep_view().message_type == m.message_type.deep_view(),
        m.deep_view().body == (match m.body {
            Some(b) => Some(b.content@),
            None => None,
        }),
        (match m.deep_view().from {
            Some(f) => f,
            None => None,
        }) == (match m.from {
            Some(f) => match f.user {
                Some(u) => u.display_name.deep_view(),
                None => None,
            },
            None => None,
        }),
{
}

/// What is stated of an attachment, a meeting, a transcript and a report is stated of
/// their own fields.
pub proof fn law_what_belongs_to_records_is_its_fields(
    a: GraphAttachment,
    o: OnlineMeeting,
    t: Transcript,
    r: AttendanceReport,
)
    ensures
        a.deep_view().id == a.id@,
        a.deep_view().odata_type == a.odata_type.deep_view(),
        a.deep_view().name == a.name.deep_view(),
        a.deep_view().content_type == a.content_type.deep_view(),
        a.deep_view().size == a.size,
        a.deep_view().is_inline == a.is_inline,
        o.deep_view() == o.id@,
        t.deep_view().id == t.id@,
        t.deep_view().created_date_time == t.created_date_time.deep_view(),
        r.deep_view().id == r.id@,
        r.deep_view().meeting_start == r.meeting_start.deep_view(),
        r.deep_view().meeting_end == r.meeting_end.deep_view(),
        r.deep_view().total_participant_count == r.total_participant_count,
{
}

/// What is stated of a file or a folder of a drive is stated of its own fields: it is a
/// folder exactly where it says what it holds as one.
pub proof fn law_a_drive_item_is_its_fields(d: DriveItem)
    ensures
        d.deep_view().id == d.id.deep_view(),
        d.deep_view().download_url == d.download_url.deep_view(),
        d.deep_view().etag == d.etag.deep_view(),
        d.deep_view().last_modified == d.last_modified.deep_view(),
        d.deep_view().name == d.name@,
        d.deep_view().size == d.size,
        d.deep_view().folder <==> d.folder is Some,
        d.deep_view().drive_id == (match d.parent_reference {
            Some(p) => p.drive_id.deep_view(),
            None => None,
        }),
{
}

} // verus!
