//! The addresses of the Graph resources that the sources read.

use vstd::prelude::*;
use vstd::utf8::*;
use crate::graph::client;
use crate::graph::client::GRAPH_BASE;
use crate::graph::window;
use crate::graph::window::{iso_utc, Instant, UtcTime};
use crate::text;
use crate::text::upper_hex_digit;

verus! {

// Percent encoding.

/// Characters that stand for themselves in an address.
pub open spec fn unreserved(b: u8) -> bool {
    (65 <= b <= 90) || (97 <= b <= 122) || (48 <= b <= 57) || b == 45 || b == 95 || b == 46 || b
        == 126
}

/// One byte in an address: itself where it may stand, otherwise `%` and two
/// hexadecimal digits.
pub open spec fn encoded_byte(b: u8) -> Seq<char> {
    if unreserved(b) {
        seq![b as char]
    } else {
        seq!['%', text::upper_hex(b as int / 16), text::upper_hex(b as int % 16)]
    }
}

/// Bytes in an address.
pub open spec fn encoded_bytes(bytes: Seq<u8>) -> Seq<char>
    decreases bytes.len(),
{
    if bytes.len() == 0 {
        Seq::empty()
    } else {
        encoded_byte(bytes[0]) + encoded_bytes(bytes.drop_first())
    }
}

/// A text in an address: its UTF-8 bytes, percent-encoded.
pub open spec fn percent_encoded(s: Seq<char>) -> Seq<char> {
    encoded_bytes(encode_utf8(s))
}

/// A text in an address: its UTF-8 bytes, percent-encoded.
pub fn percent_encode(s: &str) -> (r: String)
    ensures
        r@ == percent_encoded(s@),
{
    let bytes = s.as_bytes();
    let mut out = String::new();
    let mut i: usize = 0;
    assert(bytes@.skip(0) =~= bytes@);
    assert(out@ + encoded_bytes(bytes@) =~= encoded_bytes(bytes@));
    while i < bytes.len()
        invariant
            i <= bytes.len(),
            out@ + encoded_bytes(bytes@.skip(i as int)) == encoded_bytes(bytes@),
        decreases bytes.len() - i,
    {
        let b = bytes[i];
        let ghost before = out@;
        let ghost rest = bytes@.skip(i as int);
        assert(rest[0] == b);
        assert(rest.drop_first() =~= bytes@.skip(i + 1));
        if (b >= 65 && b <= 90) || (b >= 97 && b <= 122) || (b >= 48 && b <= 57) || b == 45 || b
            == 95 || b == 46 || b == 126 {
            out.push(b as char);
        } else {
            out.push('%');
            out.push(upper_hex_digit(b / 16));
            out.push(upper_hex_digit(b % 16));
        }
        assert(out@ =~= before + encoded_byte(b));
        assert(out@ + encoded_bytes(bytes@.skip(i + 1)) =~= before + encoded_bytes(rest));
        i += 1;
    }
    assert(bytes@.skip(i as int) =~= Seq::<u8>::empty());
    assert(out@ + encoded_bytes(bytes@.skip(i as int)) =~= out@);
    out
}

/// The value of a hexadecimal digit in upper case.
pub open spec fn hex_value(c: char) -> int {
    if c as u32 >= 65 {
        c as u32 - 55
    } else {
        c as u32 - 48
    }
}

/// The bytes that a percent-encoded text stands for.
pub open spec fn decoded_bytes(s: Seq<char>) -> Seq<u8>
    decreases s.len(),
{
    if s.len() == 0 {
        Seq::empty()
    } else if s[0] == '%' && s.len() >= 3 {
        seq![(hex_value(s[1]) * 16 + hex_value(s[2])) as u8] + decoded_bytes(s.skip(3))
    } else {
        seq![s[0] as u8] + decoded_bytes(s.skip(1))
    }
}

proof fn lemma_decode_bytes(bytes: Seq<u8>)
    ensures
        decoded_bytes(encoded_bytes(bytes)) == bytes,
    decreases bytes.len(),
{
    if bytes.len() == 0 {
        assert(decoded_bytes(encoded_bytes(bytes)) =~= bytes);
    } else {
        let b = bytes[0];
        let rest = bytes.drop_first();
        lemma_decode_bytes(rest);
        let s = encoded_bytes(bytes);
        if unreserved(b) {
            assert(s[0] == b as char);
            assert(s.skip(1) =~= encoded_bytes(rest));
            assert(decoded_bytes(s) =~= seq![b] + rest);
        } else {
            let hi = b as int / 16;
            let lo = b as int % 16;
            assert(s[0] == '%');
            assert(s[1] == text::upper_hex(hi));
            assert(s[2] == text::upper_hex(lo));
            assert(hex_value(text::upper_hex(hi)) == hi);
            assert(hex_value(text::upper_hex(lo)) == lo);
            assert(hi * 16 + lo == b);
            assert(s.skip(3) =~= encoded_bytes(rest));
            assert(decoded_bytes(s) =~= seq![b] + rest);
        }
        assert(seq![b] + rest =~= bytes);
    }
}

/// Percent encoding loses nothing: the text comes back out of it.
pub proof fn law_percent_encoding_is_lossless(s: Seq<char>)
    ensures
        decode_utf8(decoded_bytes(percent_encoded(s))) == s,
{
    lemma_decode_bytes(encode_utf8(s));
    encode_utf8_decode_utf8(s);
}

/// Characters that a percent-encoded text is made of.
pub open spec fn address_safe(c: char) -> bool {
    text::ascii_alphanumeric(c) || c == '-' || c == '_' || c == '.' || c == '~' || c == '%'
}

/// UTF-8 goes character by character.
pub proof fn lemma_encode_utf8_append(a: Seq<char>, b: Seq<char>)
    ensures
        encode_utf8(a + b) == encode_utf8(a) + encode_utf8(b),
    decreases a.len(),
{
    if a.len() == 0 {
        assert(a + b =~= b);
        assert(encode_utf8(a) + encode_utf8(b) =~= encode_utf8(b));
    } else {
        assert((a + b).drop_first() =~= a.drop_first() + b);
        lemma_encode_utf8_append(a.drop_first(), b);
        assert(encode_utf8(a + b) =~= encode_utf8(a) + encode_utf8(b));
    }
}

proof fn lemma_encoded_bytes_append(a: Seq<u8>, b: Seq<u8>)
    ensures
        encoded_bytes(a + b) == encoded_bytes(a) + encoded_bytes(b),
    decreases a.len(),
{
    if a.len() == 0 {
        assert(a + b =~= b);
        assert(encoded_bytes(a) + encoded_bytes(b) =~= encoded_bytes(b));
    } else {
        assert((a + b).drop_first() =~= a.drop_first() + b);
        lemma_encoded_bytes_append(a.drop_first(), b);
        assert(encoded_bytes(a + b) =~= encoded_bytes(a) + encoded_bytes(b));
    }
}

/// Percent-encoding goes piece by piece: two texts encoded one after the other are
/// the encoding of the two together.
pub proof fn law_percent_encoding_goes_piece_by_piece(a: Seq<char>, b: Seq<char>)
    ensures
        percent_encoded(a + b) == percent_encoded(a) + percent_encoded(b),
{
    lemma_encode_utf8_append(a, b);
    lemma_encoded_bytes_append(encode_utf8(a), encode_utf8(b));
}

proof fn lemma_encoded_bytes_safe(bytes: Seq<u8>, i: int)
    requires
        0 <= i < encoded_bytes(bytes).len(),
    ensures
        address_safe(encoded_bytes(bytes)[i]),
    decreases bytes.len(),
{
    if bytes.len() > 0 {
        let b = bytes[0];
        let n = encoded_byte(b).len() as int;
        if i >= n {
            lemma_encoded_bytes_safe(bytes.drop_first(), i - n);
        } else {
            assert(encoded_bytes(bytes)[i] == encoded_byte(b)[i]);
        }
    }
}

/// A percent-encoded text cannot end or restructure the part of the address
/// that it stands in: it holds no quote, bracket, space or separator.
pub proof fn law_percent_encoding_is_address_safe(s: Seq<char>, i: int)
    requires
        0 <= i < percent_encoded(s).len(),
    ensures
        address_safe(percent_encoded(s)[i]),
{
    lemma_encoded_bytes_safe(encode_utf8(s), i);
}

// Addresses.

/// Mail received between two times, newest first.
pub open spec fn messages_between(from: Seq<char>, to: Seq<char>) -> Seq<char> {
    GRAPH_BASE@
        + "/me/messages?$select=id,conversationId,receivedDateTime,subject,bodyPreview,body,from,toRecipients,ccRecipients,hasAttachments&$orderby=receivedDateTime%20desc&$top=50&$filter=receivedDateTime%20ge%20"@
        + from + "%20and%20receivedDateTime%20lt%20"@ + to
}

/// Mail received in the window, newest first.
pub open spec fn messages_address(from: Instant, to: Instant) -> Seq<char> {
    messages_between(
        window::iso_text(from.secs, from.nanos),
        window::iso_text(to.secs, to.nanos),
    )
}

/// The clause by which a filter narrows a mail listing.
pub open spec fn narrowing(mail_filter: Option<Seq<char>>) -> Seq<char> {
    match mail_filter {
        Some(f) => "%20and%20("@ + percent_encoded(f) + ")"@,
        None => Seq::empty(),
    }
}

/// Mail received between two times, narrowed by the filter where there is one: the
/// filter is appended whole, in brackets, percent-encoded.
pub fn messages_listing(from: &str, to: &str, mail_filter: Option<&str>) -> (r: String)
    ensures
        r@ == messages_between(from@, to@) + narrowing(mail_filter.deep_view()),
{
    let plain = GRAPH_BASE.to_string().concat(
        "/me/messages?$select=id,conversationId,receivedDateTime,subject,bodyPreview,body,from,toRecipients,ccRecipients,hasAttachments&$orderby=receivedDateTime%20desc&$top=50&$filter=receivedDateTime%20ge%20",
    ).concat(from).concat("%20and%20receivedDateTime%20lt%20").concat(to);
    match mail_filter {
        Some(f) => {
            let clause = "%20and%20(".to_string().concat(percent_encode(f).as_str()).concat(")");
            plain.concat(clause.as_str())
        },
        None => {
            assert(plain@ + narrowing(None) =~= plain@);
            plain
        },
    }
}

/// Whether a space is all that a text has percent-encoded: every `%` begins a `%20`.
pub open spec fn escapes_spaces_alone(s: Seq<char>) -> bool {
    forall|i: int|
        0 <= i < s.len() && #[trigger] s[i] == '%' ==> i + 2 < s.len() && s[i + 1] == '2' && s[i + 2]
            == '0'
}

proof fn lemma_escapes_join(a: Seq<char>, b: Seq<char>)
    requires
        escapes_spaces_alone(a),
        escapes_spaces_alone(b),
    ensures
        escapes_spaces_alone(a + b),
{
    let s = a + b;
    assert forall|i: int| 0 <= i < s.len() && #[trigger] s[i] == '%' implies i + 2 < s.len() && s[i
        + 1] == '2' && s[i + 2] == '0' by {
        if i < a.len() {
            assert(a[i] == '%');
            assert(s[i + 1] == a[i + 1] && s[i + 2] == a[i + 2]);
        } else {
            let k = i - a.len();
            assert(b[k] == '%');
            assert(s[i + 1] == b[k + 1] && s[i + 2] == b[k + 2]);
        }
    }
}

/// A mail listing without a filter has nothing percent-encoded but spaces, and so no
/// bracket: brackets come with a filter alone.
pub proof fn law_a_plain_listing_holds_no_bracket(from: Seq<char>, to: Seq<char>)
    requires
        window::time_text(from),
        window::time_text(to),
    ensures
        escapes_spaces_alone(messages_between(from, to)),
        !text::holds(messages_between(from, to), "%28"@),
{
    reveal_strlit("https://graph.microsoft.com/v1.0");
    reveal_strlit(
        "/me/messages?$select=id,conversationId,receivedDateTime,subject,bodyPreview,body,from,toRecipients,ccRecipients,hasAttachments&$orderby=receivedDateTime%20desc&$top=50&$filter=receivedDateTime%20ge%20",
    );
    reveal_strlit("%20and%20receivedDateTime%20lt%20");
    reveal_strlit("%28");
    let root = GRAPH_BASE@;
    let head =
        "/me/messages?$select=id,conversationId,receivedDateTime,subject,bodyPreview,body,from,toRecipients,ccRecipients,hasAttachments&$orderby=receivedDateTime%20desc&$top=50&$filter=receivedDateTime%20ge%20"@;
    let middle = "%20and%20receivedDateTime%20lt%20"@;
    assert(escapes_spaces_alone(root));
    assert(escapes_spaces_alone(head));
    assert(escapes_spaces_alone(middle));
    assert(escapes_spaces_alone(from));
    assert(escapes_spaces_alone(to));
    lemma_escapes_join(root, head);
    lemma_escapes_join(root + head, from);
    lemma_escapes_join(root + head + from, middle);
    lemma_escapes_join(root + head + from + middle, to);
    let s = messages_between(from, to);
    if text::holds(s, "%28"@) {
        let i = choose|i: int|
            0 <= i <= s.len() - "%28"@.len() && #[trigger] s.subrange(i, i + "%28"@.len()) == "%28"@;
        let part = s.subrange(i, i + 3);
        assert(part[0] == s[i] && part[2] == s[i + 2]);
        assert(part[0] == '%' && part[2] == '8');
    }
}

/// Mail received in the half-open window, narrowed by the filter where there is
/// one. Without a filter nothing but spaces is percent-encoded.
pub fn messages_url(from: UtcTime, to: UtcTime, mail_filter: Option<&str>) -> (r: String)
    ensures
        r@ == messages_address(from@, to@) + narrowing(mail_filter.deep_view()),
        escapes_spaces_alone(messages_address(from@, to@)),
        mail_filter is None ==> !text::holds(r@, "%28"@),
{
    let lower = iso_utc(from);
    let upper = iso_utc(to);
    let r = messages_listing(lower.as_str(), upper.as_str(), mail_filter);
    proof {
        law_a_plain_listing_holds_no_bracket(lower@, upper@);
        if mail_filter is None {
            assert(r@ =~= messages_between(lower@, upper@));
        }
    }
    r
}

/// A filter narrows a listing and does nothing else: the address with a filter
/// is the address without it, and one more clause.
pub proof fn law_a_filter_only_narrows(from: Instant, to: Instant, filter: Seq<char>)
    ensures
        text::starts_with(
            messages_address(from, to) + narrowing(Some(filter)),
            messages_address(from, to) + narrowing(None),
        ),
{
    let plain = messages_address(from, to);
    assert(plain + narrowing(None) =~= plain);
    assert((plain + narrowing(Some(filter))).take(plain.len() as int) =~= plain);
}

/// The attachments of a message, without their content.
pub fn message_attachments_url(message_id: &str) -> (r: String)
    ensures
        r@ == GRAPH_BASE@ + "/me/messages/"@ + message_id@
            + "/attachments?$select=id,name,contentType,size,isInline"@,
{
    GRAPH_BASE.to_string().concat("/me/messages/").concat(message_id).concat(
        "/attachments?$select=id,name,contentType,size,isInline",
    )
}

/// The address of the raw bytes of one attachment.
pub open spec fn attachment_address(message_id: Seq<char>, attachment_id: Seq<char>) -> Seq<char> {
    GRAPH_BASE@ + "/me/messages/"@ + message_id + "/attachments/"@ + attachment_id + "/$value"@
}

/// The raw bytes of one attachment.
pub fn attachment_value_url(message_id: &str, attachment_id: &str) -> (r: String)
    ensures
        r@ == attachment_address(message_id@, attachment_id@),
{
    GRAPH_BASE.to_string().concat("/me/messages/").concat(message_id).concat(
        "/attachments/",
    ).concat(attachment_id).concat("/$value")
}

/// Calendar events between two times.
pub fn calendar_listing(from: &str, to: &str) -> (r: String)
    ensures
        r@ == calendar_between(from@, to@),
{
    GRAPH_BASE.to_string().concat("/me/calendarView?startDateTime=").concat(from).concat(
        "&endDateTime=",
    ).concat(to).concat(
        "&$select=id,subject,start,end,organizer,attendees,isOnlineMeeting,location,onlineMeeting&$top=50",
    )
}

/// Calendar events between two times.
pub open spec fn calendar_between(from: Seq<char>, to: Seq<char>) -> Seq<char> {
    GRAPH_BASE@ + "/me/calendarView?startDateTime="@ + from + "&endDateTime="@ + to
        + "&$select=id,subject,start,end,organizer,attendees,isOnlineMeeting,location,onlineMeeting&$top=50"@
}

/// Calendar events that touch the window.
pub fn calendar_view_url(from: UtcTime, to: UtcTime) -> (r: String)
    ensures
        r@ == calendar_between(
            window::iso_text(from@.secs, from@.nanos),
            window::iso_text(to@.secs, to@.nanos),
        ),
{
    calendar_listing(iso_utc(from).as_str(), iso_utc(to).as_str())
}

/// Chats updated at or after a time, with their members.
pub open spec fn chats_since(from: Seq<char>) -> Seq<char> {
    GRAPH_BASE@ + "/me/chats?$filter=lastUpdatedDateTime%20ge%20"@ + from
        + "&$expand=members&$top=50"@
}

/// Chats updated at or after a time, with their members.
pub fn chats_listing(from: &str) -> (r: String)
    ensures
        r@ == chats_since(from@),
{
    GRAPH_BASE.to_string().concat("/me/chats?$filter=lastUpdatedDateTime%20ge%20").concat(
        from,
    ).concat("&$expand=members&$top=50")
}

/// Chats updated at or after `from`, with their members: an older chat cannot
/// hold a message of the window.
pub fn chats_url(from: UtcTime) -> (r: String)
    ensures
        r@ == chats_since(window::iso_text(from@.secs, from@.nanos)),
{
    chats_listing(iso_utc(from).as_str())
}

/// The address of the messages of a chat.
pub open spec fn chat_messages_address(chat_id: Seq<char>) -> Seq<char> {
    GRAPH_BASE@ + "/chats/"@ + chat_id + "/messages?$top=50&$orderby=createdDateTime%20desc"@
}

/// The messages of a chat, the newest first by the time of their creation. The
/// default order goes by the last change, under which an edited old message
/// would end a reading too early.
pub fn chat_messages_url(chat_id: &str) -> (r: String)
    ensures
        r@ == chat_messages_address(chat_id@),
{
    GRAPH_BASE.to_string().concat("/chats/").concat(chat_id).concat(
        "/messages?$top=50&$orderby=createdDateTime%20desc",
    )
}

/// The address of the online meeting that is joined under an address.
pub open spec fn lookup_address(join_url: Seq<char>) -> Seq<char> {
    GRAPH_BASE@ + "/me/onlineMeetings?$filter=JoinWebUrl%20eq%20'"@ + percent_encoded(join_url)
        + "'"@
}

/// The online meeting that is joined under this address.
pub fn online_meeting_lookup_url(join_url: &str) -> (r: String)
    ensures
        r@ == lookup_address(join_url@),
{
    GRAPH_BASE.to_string().concat("/me/onlineMeetings?$filter=JoinWebUrl%20eq%20'").concat(
        percent_encode(join_url).as_str(),
    ).concat("'")
}

/// The address of the attendance reports of a meeting.
pub open spec fn reports_address(meeting_id: Seq<char>) -> Seq<char> {
    GRAPH_BASE@ + "/me/onlineMeetings/"@ + meeting_id + "/attendanceReports"@
}

/// The attendance reports of a meeting, one per held session.
pub fn attendance_reports_url(meeting_id: &str) -> (r: String)
    ensures
        r@ == reports_address(meeting_id@),
{
    GRAPH_BASE.to_string().concat("/me/onlineMeetings/").concat(meeting_id).concat(
        "/attendanceReports",
    )
}

/// The address of the records of one attendance report.
pub open spec fn records_address(meeting_id: Seq<char>, report_id: Seq<char>) -> Seq<char> {
    GRAPH_BASE@ + "/me/onlineMeetings/"@ + meeting_id + "/attendanceReports/"@ + report_id
        + "/attendanceRecords"@
}

/// The records of one attendance report, one per participant.
pub fn attendance_records_url(meeting_id: &str, report_id: &str) -> (r: String)
    ensures
        r@ == records_address(meeting_id@, report_id@),
{
    GRAPH_BASE.to_string().concat("/me/onlineMeetings/").concat(meeting_id).concat(
        "/attendanceReports/",
    ).concat(report_id).concat("/attendanceRecords")
}

/// The address of the transcripts of a meeting.
pub open spec fn transcripts_address(meeting_id: Seq<char>) -> Seq<char> {
    GRAPH_BASE@ + "/me/onlineMeetings/"@ + meeting_id + "/transcripts"@
}

/// The transcripts of a meeting.
pub fn transcripts_url(meeting_id: &str) -> (r: String)
    ensures
        r@ == transcripts_address(meeting_id@),
{
    GRAPH_BASE.to_string().concat("/me/onlineMeetings/").concat(meeting_id).concat("/transcripts")
}

/// The address of the content of a transcript.
pub open spec fn content_address(meeting_id: Seq<char>, transcript_id: Seq<char>) -> Seq<char> {
    GRAPH_BASE@ + "/me/onlineMeetings/"@ + meeting_id + "/transcripts/"@ + transcript_id
        + "/content?$format=text/vtt"@
}

/// The content of a transcript.
pub fn transcript_content_url(meeting_id: &str, transcript_id: &str) -> (r: String)
    ensures
        r@ == content_address(meeting_id@, transcript_id@),
{
    GRAPH_BASE.to_string().concat("/me/onlineMeetings/").concat(meeting_id).concat(
        "/transcripts/",
    ).concat(transcript_id).concat("/content?$format=text/vtt")
}

/// The drive item behind a share token.
pub fn share_drive_item_url(token: &str) -> (r: String)
    ensures
        r@ == GRAPH_BASE@ + "/shares/"@ + token@ + "/driveItem"@,
{
    GRAPH_BASE.to_string().concat("/shares/").concat(token).concat("/driveItem")
}

/// The address of the children of a folder.
pub open spec fn children_address(drive_id: Seq<char>, item_id: Seq<char>) -> Seq<char> {
    GRAPH_BASE@ + "/drives/"@ + drive_id + "/items/"@ + item_id + "/children"@
}

/// The children of a folder, one level deep.
pub fn drive_item_children_url(drive_id: &str, item_id: &str) -> (r: String)
    ensures
        r@ == children_address(drive_id@, item_id@),
{
    GRAPH_BASE.to_string().concat("/drives/").concat(drive_id).concat("/items/").concat(
        item_id,
    ).concat("/children")
}

/// Whatever is appended to the root of Graph and a `/` stays within the Graph
/// origin, so that the bearer token travels with every address built here.
pub proof fn law_addresses_stay_in_the_graph_origin(rest: Seq<char>)
    ensures
        client::graph_origin(GRAPH_BASE@ + rest),
{
    reveal_strlit("https://graph.microsoft.com/v1.0");
    reveal_strlit("https://graph.microsoft.com/");
    let o = client::GRAPH_ORIGIN@;
    assert((GRAPH_BASE@ + rest).take(o.len() as int) =~= o);
}

/// A mail listing asks for what was received from the one time on and before the other,
/// the newest first, and a filter is one more condition on both.
pub proof fn law_mail_is_asked_for_its_window(
    from: Seq<char>,
    to: Seq<char>,
    filter: Seq<char>,
)
    ensures
        text::starts_with(
            messages_between(from, to),
            "https://graph.microsoft.com/v1.0/me/messages?"@,
        ),
        text::ends_with(
            messages_between(from, to),
            "&$orderby=receivedDateTime%20desc&$top=50&$filter=receivedDateTime%20ge%20"@ + from
                + "%20and%20receivedDateTime%20lt%20"@ + to,
        ),
        narrowing(Some(filter)) == "%20and%20("@ + percent_encoded(filter) + ")"@,
        narrowing(None) == Seq::<char>::empty(),
{
    reveal_strlit("https://graph.microsoft.com/v1.0");
    reveal_strlit("https://graph.microsoft.com/v1.0/me/messages?");
    reveal_strlit(
        "/me/messages?$select=id,conversationId,receivedDateTime,subject,bodyPreview,body,from,toRecipients,ccRecipients,hasAttachments&$orderby=receivedDateTime%20desc&$top=50&$filter=receivedDateTime%20ge%20",
    );
    reveal_strlit(
        "&$orderby=receivedDateTime%20desc&$top=50&$filter=receivedDateTime%20ge%20",
    );
    let s = messages_between(from, to);
    let head = "https://graph.microsoft.com/v1.0/me/messages?"@;
    assert(s.take(head.len() as int) =~= head);
    let whole =
        "/me/messages?$select=id,conversationId,receivedDateTime,subject,bodyPreview,body,from,toRecipients,ccRecipients,hasAttachments&$orderby=receivedDateTime%20desc&$top=50&$filter=receivedDateTime%20ge%20"@;
    let order = "&$orderby=receivedDateTime%20desc&$top=50&$filter=receivedDateTime%20ge%20"@;
    assert(whole.skip(whole.len() - order.len()) =~= order);
    let tail = order + from + "%20and%20receivedDateTime%20lt%20"@ + to;
    assert(s.skip(s.len() - tail.len()) =~= tail);
}

/// A calendar listing asks for the events from the one time to the other, and a listing
/// of chats for those changed since the time, with their members.
pub proof fn law_calendars_and_chats_are_asked_for_their_times(from: Seq<char>, to: Seq<char>)
    ensures
        text::starts_with(
            calendar_between(from, to),
            GRAPH_BASE@ + "/me/calendarView?startDateTime="@ + from + "&endDateTime="@ + to
                + "&"@,
        ),
        text::starts_with(
            chats_since(from),
            GRAPH_BASE@ + "/me/chats?$filter=lastUpdatedDateTime%20ge%20"@ + from + "&"@,
        ),
        text::ends_with(chats_since(from), "&$expand=members&$top=50"@),
{
    reveal_strlit("&");
    reveal_strlit("&$expand=members&$top=50");
    reveal_strlit(
        "&$select=id,subject,start,end,organizer,attendees,isOnlineMeeting,location,onlineMeeting&$top=50",
    );
    let a = calendar_between(from, to);
    let x = GRAPH_BASE@ + "/me/calendarView?startDateTime="@ + from + "&endDateTime="@ + to + "&"@;
    assert(a.take(x.len() as int) =~= x);
    let b = chats_since(from);
    let y = GRAPH_BASE@ + "/me/chats?$filter=lastUpdatedDateTime%20ge%20"@ + from + "&"@;
    assert(b.take(y.len() as int) =~= y);
    let z = "&$expand=members&$top=50"@;
    assert(b.skip(b.len() - z.len()) =~= z);
}

/// Every record is asked for under the identities of what it belongs to, each in its own
/// place.
pub proof fn law_records_are_asked_for_by_identity(a: Seq<char>, b: Seq<char>)
    ensures
        attachment_address(a, b) == GRAPH_BASE@ + "/me/messages/"@ + a + "/attachments/"@ + b
            + "/$value"@,
        chat_messages_address(a) == GRAPH_BASE@ + "/chats/"@ + a
            + "/messages?$top=50&$orderby=createdDateTime%20desc"@,
        lookup_address(a) == GRAPH_BASE@ + "/me/onlineMeetings?$filter=JoinWebUrl%20eq%20'"@
            + percent_encoded(a) + "'"@,
        transcripts_address(a) == GRAPH_BASE@ + "/me/onlineMeetings/"@ + a + "/transcripts"@,
        content_address(a, b) == transcripts_address(a) + "/"@ + b + "/content?$format=text/vtt"@,
        reports_address(a) == GRAPH_BASE@ + "/me/onlineMeetings/"@ + a + "/attendanceReports"@,
        records_address(a, b) == reports_address(a) + "/"@ + b + "/attendanceRecords"@,
        children_address(a, b) == GRAPH_BASE@ + "/drives/"@ + a + "/items/"@ + b + "/children"@,
{
    reveal_strlit("/transcripts/");
    reveal_strlit("/transcripts");
    reveal_strlit("/attendanceReports/");
    reveal_strlit("/attendanceReports");
    reveal_strlit("/");
    assert("/transcripts/"@ =~= "/transcripts"@ + "/"@);
    assert("/attendanceReports/"@ =~= "/attendanceReports"@ + "/"@);
    assert(content_address(a, b) =~= transcripts_address(a) + "/"@ + b
        + "/content?$format=text/vtt"@);
    assert(records_address(a, b) =~= reports_address(a) + "/"@ + b + "/attendanceRecords"@);
}

/// A byte stands for itself in an address exactly where it is an ASCII letter, a digit,
/// `-`, `_`, `.` or `~`, and otherwise three characters stand for it.
pub proof fn law_which_bytes_stand_for_themselves(b: u8)
    ensures
        encoded_byte(b).len() == 1 <==> text::ascii_alphanumeric(b as char) || b == 45 || b == 95
            || b == 46 || b == 126,
        encoded_byte(b).len() == 1 ==> encoded_byte(b)[0] == b as char,
        encoded_byte(b).len() != 1 ==> encoded_byte(b).len() == 3 && encoded_byte(b)[0] == '%',
        encoded_bytes(seq![b]) == encoded_byte(b),
{
    assert(seq![b].drop_first() =~= Seq::<u8>::empty());
    reveal_with_fuel(encoded_bytes, 2);
    assert(encoded_bytes(seq![b]) =~= encoded_byte(b));
}

} // verus!
