//! What the windowed sources make of the records that Graph returns: which are
//! kept, in what order, and what items they become.

use vstd::prelude::*;
use vstd::slice::slice_to_vec;
use vstd::std_specs::cmp::PartialEqSpec;
use vstd::utf8::*;
use crate::digest;
use crate::digest::sha256_hex;
use crate::document::one_text;
use crate::graph::chat;
use crate::graph::chat::{chat_messages_in_window, page_reached_window_start};
use crate::graph::client::{Fetched, FetchedView};
use crate::graph::config::{Config, ConfigView};
use crate::graph::inbox;
use crate::graph::inbox::{
    to_inbox_chat, to_inbox_chat_message, to_inbox_email, to_inbox_meeting, InboxAttachment,
    InboxAttachmentView, InboxChat, InboxChatMessage, InboxChatMessageView, InboxChatView,
    InboxEmail, InboxEmailView, InboxEvent, InboxEventView,
};
use crate::graph::records::{
    GraphAttachment, GraphAttachmentView, GraphChat, GraphChatMessage, GraphChatMessageView,
    GraphChatView, GraphEvent, GraphEventView, GraphMessage, GraphMessageView,
};
use crate::graph::transcript;
use crate::graph::transcript::{event_file_stem, transcript_file_name};
use crate::graph::urls;
use crate::graph::urls::{attachment_value_url, chat_messages_url};
use crate::graph::window;
use crate::graph::window::dedupe_by;
use crate::plugin::{Item, ItemView};
use crate::sorting;
use crate::sorting::{sort, Ranked};
use crate::text;
use crate::text::{chars_of, decimal, is_text, less_text, take_chars, text_of};
use crate::textmap::TextMap;

verus! {

/// The size over which an attachment is listed but not stored.
pub const MAX_ATTACHMENT_BYTES: u64 = 33554432;

/// How many pages of a chat are read at most.
pub const MAX_CHAT_PAGES: u32 = 500;

// One record per identity.

/// Whether an identity comes again behind this place.
pub open spec fn repeated(ids: Seq<Seq<char>>, i: int) -> bool {
    exists|j: int| i < j < ids.len() && #[trigger] ids[j] == ids[i]
}

/// One record per identity, from `from` on: of those with the same identity the
/// last, in order.
pub open spec fn deduped<T>(items: Seq<T>, ids: Seq<Seq<char>>, from: int) -> Seq<T>
    decreases items.len() - from,
{
    if from < 0 || from >= items.len() {
        Seq::empty()
    } else if repeated(ids, from) {
        deduped(items, ids, from + 1)
    } else {
        seq![items[from]] + deduped(items, ids, from + 1)
    }
}

/// Each record whose identity does not come again is kept, and what is kept was
/// there.
pub proof fn law_the_last_of_each_identity_is_kept<T>(items: Seq<T>, ids: Seq<Seq<char>>, from: int)
    requires
        0 <= from <= items.len(),
    ensures
        forall|i: int|
            from <= i < items.len() && !repeated(ids, i) ==> deduped(items, ids, from).contains(
                #[trigger] items[i],
            ),
        forall|k: int|
            0 <= k < deduped(items, ids, from).len() ==> exists|i: int|
                from <= i < items.len() && !repeated(ids, i) && items[i] == #[trigger] deduped(
                    items,
                    ids,
                    from,
                )[k],
    decreases items.len() - from,
{
    if from < items.len() {
        let rest = deduped(items, ids, from + 1);
        law_the_last_of_each_identity_is_kept(items, ids, from + 1);
        let all = deduped(items, ids, from);
        assert forall|i: int| from <= i < items.len() && !repeated(ids, i) implies all.contains(
            #[trigger] items[i],
        ) by {
            if i == from {
                assert(all[0] == items[from]);
            } else {
                assert(rest.contains(items[i]));
                let k = choose|k: int| 0 <= k < rest.len() && rest[k] == items[i];
                if repeated(ids, from) {
                    assert(all[k] == items[i]);
                } else {
                    assert(all[k + 1] == items[i]);
                }
            }
        }
        assert forall|k: int| 0 <= k < all.len() implies exists|i: int|
            from <= i < items.len() && !repeated(ids, i) && items[i] == #[trigger] all[k] by {
            if repeated(ids, from) {
                assert(all[k] == rest[k]);
            } else if k == 0 {
                assert(all[0] == items[from]);
            } else {
                assert(all[k] == rest[k - 1]);
            }
        }
    }
}

proof fn lemma_every_identity_is_kept(ids: Seq<Seq<char>>, from: int, i: int)
    requires
        0 <= from <= i < ids.len(),
    ensures
        deduped(ids, ids, from).contains(ids[i]),
    decreases ids.len() - i,
{
    if repeated(ids, i) {
        let j = choose|j: int| i < j < ids.len() && #[trigger] ids[j] == ids[i];
        lemma_every_identity_is_kept(ids, from, j);
    } else {
        law_the_last_of_each_identity_is_kept(ids, ids, from);
    }
}

proof fn lemma_identities_differ(ids: Seq<Seq<char>>, from: int)
    requires
        0 <= from <= ids.len(),
    ensures
        deduped(ids, ids, from).no_duplicates(),
    decreases ids.len() - from,
{
    if from < ids.len() {
        lemma_identities_differ(ids, from + 1);
        law_the_last_of_each_identity_is_kept(ids, ids, from + 1);
        let rest = deduped(ids, ids, from + 1);
        if !repeated(ids, from) {
            let all = deduped(ids, ids, from);
            assert forall|k: int| 0 <= k < rest.len() implies #[trigger] rest[k] != ids[from] by {
                let i = choose|i: int|
                    from + 1 <= i < ids.len() && !repeated(ids, i) && ids[i] == rest[k];
                assert(ids[i] == rest[k]);
            }
            assert forall|a: int, b: int| 0 <= a < b < all.len() implies all[a] != all[b] by {
                assert(all[b] == rest[b - 1]);
                if a > 0 {
                    assert(all[a] == rest[a - 1]);
                }
            }
        }
    }
}

/// Every identity has exactly one record: none is lost, and none comes twice.
pub proof fn law_one_record_per_identity(ids: Seq<Seq<char>>)
    ensures
        deduped(ids, ids, 0).no_duplicates(),
        forall|i: int| 0 <= i < ids.len() ==> deduped(ids, ids, 0).contains(#[trigger] ids[i]),
{
    lemma_identities_differ(ids, 0);
    assert forall|i: int| 0 <= i < ids.len() implies deduped(ids, ids, 0).contains(
        #[trigger] ids[i],
    ) by {
        lemma_every_identity_is_kept(ids, 0, i);
    }
}

proof fn lemma_deduped_map<A, B>(items: Seq<A>, ids: Seq<Seq<char>>, from: int, f: spec_fn(A) -> B)
    ensures
        deduped(items, ids, from).map_values(f) == deduped(items.map_values(f), ids, from),
    decreases items.len() - from,
{
    if 0 <= from < items.len() {
        lemma_deduped_map(items, ids, from + 1, f);
        assert(deduped(items, ids, from).map_values(f) =~= deduped(
            items.map_values(f),
            ids,
            from,
        ));
    } else {
        assert(deduped(items, ids, from).map_values(f) =~= Seq::empty());
    }
}

fn id_key(id: &str) -> (k: Vec<u8>)
    ensures
        k@ == encode_utf8(id@),
{
    slice_to_vec(id.as_bytes())
}

proof fn lemma_same_key(a: Vec<u8>, b: Vec<u8>, x: Seq<char>, y: Seq<char>)
    requires
        a@ == encode_utf8(x),
        b@ == encode_utf8(y),
    ensures
        a.eq_spec(&b) == (x == y),
{
    encode_utf8_decode_utf8(x);
    encode_utf8_decode_utf8(y);
    if a.eq_spec(&b) {
        assert(a@ =~= b@) by {
            assert forall|i: int| 0 <= i < a@.len() implies a@[i] == b@[i] by {
                assert(a[i].eq_spec(&b[i]));
            }
        }
    }
}

proof fn lemma_keys_are_ids<T>(items: Seq<T>, keys: Seq<Vec<u8>>, ids: Seq<Seq<char>>, from: int)
    requires
        keys.len() == ids.len(),
        items.len() == ids.len(),
        forall|i: int| 0 <= i < ids.len() ==> (#[trigger] keys[i])@ == encode_utf8(ids[i]),
    ensures
        window::last_of_each(items, keys, from) == deduped(items, ids, from),
    decreases items.len() - from,
{
    if 0 <= from < items.len() {
        lemma_keys_are_ids(items, keys, ids, from + 1);
        assert(window::comes_again(keys, from) == repeated(ids, from)) by {
            if window::comes_again(keys, from) {
                let j = choose|j: int|
                    from < j < keys.len() && (#[trigger] keys[j]).eq_spec(&keys[from]);
                lemma_same_key(keys[j], keys[from], ids[j], ids[from]);
            }
            if repeated(ids, from) {
                let j = choose|j: int| from < j < ids.len() && #[trigger] ids[j] == ids[from];
                lemma_same_key(keys[j], keys[from], ids[j], ids[from]);
            }
        }
    }
}

// Mail.

/// A mail message on its way to becoming an item.
pub struct FlaggedEmail {
    pub email: InboxEmail,
    /// Whether the provider says that it has attachments.
    pub has_attachments: bool,
}

#[verifier::ext_equal]
pub struct FlaggedEmailView {
    pub email: InboxEmailView,
    pub has_attachments: bool,
}

impl DeepView for FlaggedEmail {
    type V = FlaggedEmailView;

    open spec fn deep_view(&self) -> FlaggedEmailView {
        FlaggedEmailView {
            email: self.email.deep_view(),
            has_attachments: self.has_attachments,
        }
    }
}

impl Ranked for FlaggedEmail {
    /// The newest first.
    open spec fn precedes(a: FlaggedEmailView, b: FlaggedEmailView) -> bool {
        text::text_less(b.email.received_date_time, a.email.received_date_time)
    }

    fn is_before(&self, other: &Self) -> (r: bool) {
        less_text(other.email.received_date_time.as_str(), self.email.received_date_time.as_str())
    }

    proof fn precedence(a: FlaggedEmailView, b: FlaggedEmailView, c: FlaggedEmailView) {
        let x = a.email.received_date_time;
        let y = b.email.received_date_time;
        let z = c.email.received_date_time;
        text::lemma_text_order(x, y);
        text::lemma_text_order_transitive(z, y, x);
    }
}

/// A message as a curator reads it, with its flag.
pub open spec fn flagged(cfg: ConfigView, m: GraphMessageView) -> FlaggedEmailView {
    FlaggedEmailView {
        email: inbox::email_of(cfg, m),
        has_attachments: m.has_attachments == Some(true),
    }
}

/// The identities of some messages.
pub open spec fn message_ids(msgs: Seq<GraphMessageView>) -> Seq<Seq<char>> {
    msgs.map_values(|m: GraphMessageView| m.id)
}

/// The mail of a window: one record per message, the newest first.
pub open spec fn mail_of(cfg: ConfigView, msgs: Seq<GraphMessageView>) -> Seq<FlaggedEmailView> {
    sorting::sorted::<FlaggedEmail>(
        deduped(msgs, message_ids(msgs), 0).map_values(|m: GraphMessageView| flagged(cfg, m)),
    )
}

/// The mail of a window: one record per message, the newest first.
pub fn emails_for(cfg: &Config, msgs: Vec<GraphMessage>) -> (r: Vec<FlaggedEmail>)
    ensures
        r.deep_view() == mail_of(cfg.deep_view(), msgs.deep_view()),
{
    let ghost all = msgs@;
    let ghost views = msgs.deep_view();
    let ghost ids = message_ids(views);
    let key = |m: &GraphMessage| -> (k: Vec<u8>)
        ensures
            k@ == encode_utf8(m.id@),
        { id_key(m.id.as_str()) };
    let mut unique = dedupe_by(msgs, key);
    proof {
        let keys = choose|keys: Seq<Vec<u8>>| #[trigger]
            window::keys_of(key, all, keys) && unique@ == window::last_of_each(all, keys, 0);
        assert forall|i: int| 0 <= i < ids.len() implies (#[trigger] keys[i])@ == encode_utf8(
            ids[i],
        ) by {
            assert(key.ensures((&all[i],), keys[i]));
            assert(views[i] == all[i].deep_view());
        }
        lemma_keys_are_ids(all, keys, ids, 0);
        let f = |m: GraphMessage| m.deep_view();
        lemma_deduped_map(all, ids, 0, f);
        assert(all.map_values(f) =~= views);
        assert(unique.deep_view() =~= unique@.map_values(f));
    }
    let ghost kept = deduped(views, ids, 0);
    assert(unique.deep_view() == kept);
    let ghost target = kept.map_values(|m: GraphMessageView| flagged(cfg.deep_view(), m));
    let mut list: Vec<FlaggedEmail> = Vec::new();
    assert(list.deep_view() =~= target.take(0));
    let ghost mut n: int = 0;
    assert(kept.skip(0) =~= kept);
    while unique.len() > 0
        invariant
            0 <= n <= kept.len(),
            unique.deep_view() == kept.skip(n),
            target == kept.map_values(|m: GraphMessageView| flagged(cfg.deep_view(), m)),
            list.deep_view() == target.take(n),
        decreases unique.len(),
    {
        let ghost left = unique.deep_view();
        let ghost before = list.deep_view();
        let m = unique.remove(0);
        assert(m.deep_view() == left[0]);
        assert(unique.deep_view() =~= left.skip(1));
        assert(kept.skip(n).skip(1) =~= kept.skip(n + 1));
        let has_attachments = match m.has_attachments {
            Some(b) => b,
            None => false,
        };
        let f = FlaggedEmail { email: to_inbox_email(cfg, m), has_attachments };
        assert(f.deep_view() == target[n]);
        list.push(f);
        assert(list.deep_view() =~= before.push(f.deep_view()));
        proof {
            assert(list.deep_view() =~= target.take(n + 1));
            n = n + 1;
        }
    }
    assert(target.take(n) =~= target);
    sort(list)
}

proof fn lemma_deduped_ids<T>(items: Seq<T>, ids: Seq<Seq<char>>, id: spec_fn(T) -> Seq<char>)
    requires
        ids == items.map_values(id),
    ensures
        deduped(items, ids, 0).map_values(id).no_duplicates(),
{
    lemma_deduped_map(items, ids, 0, id);
    lemma_identities_differ(ids, 0);
}

/// The mail of a window holds each message once, by its identity and as it came last,
/// with the flag that the provider gave it, and nothing else; the newest comes first.
pub proof fn law_mail_is_each_message_once_newest_first(
    cfg: ConfigView,
    msgs: Seq<GraphMessageView>,
)
    ensures
        forall|i: int|
            0 <= i < msgs.len() && (forall|j: int|
                i < j < msgs.len() ==> (#[trigger] msgs[j]).id != msgs[i].id) ==> mail_of(
                cfg,
                msgs,
            ).contains(
                FlaggedEmailView {
                    email: inbox::email_of(cfg, #[trigger] msgs[i]),
                    has_attachments: msgs[i].has_attachments == Some(true),
                },
            ),
        forall|k: int|
            0 <= k < mail_of(cfg, msgs).len() ==> exists|i: int|
                0 <= i < msgs.len() && (forall|j: int|
                    i < j < msgs.len() ==> (#[trigger] msgs[j]).id != msgs[i].id)
                    && #[trigger] mail_of(cfg, msgs)[k] == (FlaggedEmailView {
                    email: inbox::email_of(cfg, #[trigger] msgs[i]),
                    has_attachments: msgs[i].has_attachments == Some(true),
                }),
        forall|a: int, b: int|
            0 <= a < b < mail_of(cfg, msgs).len() ==> (#[trigger] mail_of(cfg, msgs)[a]).email.id
                != (#[trigger] mail_of(cfg, msgs)[b]).email.id,
        forall|a: int, b: int|
            0 <= a < b < mail_of(cfg, msgs).len() ==> !text::text_less(
                (#[trigger] mail_of(cfg, msgs)[a]).email.received_date_time,
                (#[trigger] mail_of(cfg, msgs)[b]).email.received_date_time,
            ),
{
    broadcast use vstd::seq_lib::group_to_multiset_ensures;

    let ids = message_ids(msgs);
    let kept = deduped(msgs, ids, 0);
    let flag = |m: GraphMessageView| flagged(cfg, m);
    let list = kept.map_values(flag);
    let r = mail_of(cfg, msgs);
    sorting::lemma_sorted::<FlaggedEmail>(list);
    law_the_last_of_each_identity_is_kept(msgs, ids, 0);
    assert forall|i: int| 0 <= i < msgs.len() implies (#[trigger] repeated(ids, i) <==> exists|
        j: int,
    | i < j < msgs.len() && (#[trigger] msgs[j]).id == msgs[i].id) by {
        if repeated(ids, i) {
            let j = choose|j: int| i < j < ids.len() && #[trigger] ids[j] == ids[i];
            assert(msgs[j].id == msgs[i].id);
        }
        if exists|j: int| i < j < msgs.len() && (#[trigger] msgs[j]).id == msgs[i].id {
            let j = choose|j: int| i < j < msgs.len() && (#[trigger] msgs[j]).id == msgs[i].id;
            assert(ids[j] == ids[i]);
        }
    }
    assert forall|x: FlaggedEmailView| #[trigger] r.contains(x) == list.contains(x) by {
        assert(r.to_multiset().count(x) == list.to_multiset().count(x));
    }
    assert forall|i: int|
        0 <= i < msgs.len() && (forall|j: int|
            i < j < msgs.len() ==> (#[trigger] msgs[j]).id != msgs[i].id) implies r.contains(
        FlaggedEmailView {
            email: inbox::email_of(cfg, #[trigger] msgs[i]),
            has_attachments: msgs[i].has_attachments == Some(true),
        },
    ) by {
        assert(!repeated(ids, i));
        assert(kept.contains(msgs[i]));
        let k = choose|k: int| 0 <= k < kept.len() && kept[k] == msgs[i];
        assert(list[k] == flagged(cfg, msgs[i]));
        assert(list.contains(list[k]));
    }
    assert forall|k: int| 0 <= k < r.len() implies exists|i: int|
        0 <= i < msgs.len() && (forall|j: int|
            i < j < msgs.len() ==> (#[trigger] msgs[j]).id != msgs[i].id) && #[trigger] r[k] == (
        FlaggedEmailView {
            email: inbox::email_of(cfg, #[trigger] msgs[i]),
            has_attachments: msgs[i].has_attachments == Some(true),
        }) by {
        assert(r.contains(r[k]));
        let n = choose|n: int| 0 <= n < list.len() && list[n] == r[k];
        assert(list[n] == flagged(cfg, kept[n]));
        let i = choose|i: int| 0 <= i < msgs.len() && !repeated(ids, i) && msgs[i] == kept[n];
        assert(msgs[i] == kept[n]);
    }
    let id = |m: GraphMessageView| m.id;
    lemma_deduped_ids(msgs, ids, id);
    assert forall|a: int, b: int| 0 <= a < b < r.len() implies (#[trigger] r[a]).email.id != (
    #[trigger] r[b]).email.id by {
        if r[a].email.id == r[b].email.id {
            let x = r[a].email.id;
            let with_id = |e: FlaggedEmailView| e.email.id == x;
            lemma_one_of_a_kind(list, with_id, kept, id, x);
            crate::lists::lemma_same_count(r, list, with_id);
            crate::lists::lemma_two_kept(r, with_id, a, b);
        }
    }
    assert forall|a: int, b: int| 0 <= a < b < r.len() implies !text::text_less(
        (#[trigger] r[a]).email.received_date_time,
        (#[trigger] r[b]).email.received_date_time,
    ) by {
        assert(!FlaggedEmail::precedes(r[b], r[a]));
    }
}

proof fn lemma_one_of_a_kind(
    list: Seq<FlaggedEmailView>,
    with_id: spec_fn(FlaggedEmailView) -> bool,
    kept: Seq<GraphMessageView>,
    id: spec_fn(GraphMessageView) -> Seq<char>,
    x: Seq<char>,
)
    requires
        list.len() == kept.len(),
        kept.map_values(id).no_duplicates(),
        forall|i: int| 0 <= i < list.len() ==> (#[trigger] list[i]).email.id == id(kept[i]),
        with_id == (|e: FlaggedEmailView| e.email.id == x),
    ensures
        list.filter(with_id).len() <= 1,
{
    assert forall|i: int, j: int|
        0 <= i < j < list.len() && with_id(#[trigger] list[i]) implies !with_id(
        #[trigger] list[j],
    ) by {
        let names = kept.map_values(id);
        assert(names[i] != names[j]);
    }
    crate::lists::lemma_at_most_one(list, with_id);
}

// Attachments.

/// A control code: the characters below the space, and those from the last ASCII
/// character up to the second block of thirty-two.
pub open spec fn control_code(c: char) -> bool {
    (c as u32) < 0x20 || (0x7f <= c as u32 && c as u32 <= 0x9f)
}

/// `char::is_control` of std: whether a character is of the general category `Cc`,
/// the control codes, which are U+0000 to U+001F and U+007F to U+009F.
pub assume_specification[ char::is_control ](c: char) -> (r: bool)
    ensures
        r == control_code(c),
;

/// The place behind the last separator of a path, of either kind, before `end`.
pub open spec fn base_start(s: Seq<char>, end: int) -> int
    decreases end,
{
    if end <= 0 || end > s.len() || s[end - 1] == '/' || s[end - 1] == '\\' {
        end
    } else {
        base_start(s, end - 1)
    }
}

/// A name that a sender gave, fit for a file: what stands behind its last
/// separator, with `_` for control codes.
pub open spec fn safe_name(name: Seq<char>) -> Seq<char> {
    name.skip(base_start(name, name.len() as int)).map_values(
        |c: char|
            if control_code(c) {
                '_'
            } else {
                c
            },
    )
}

/// A name that a sender gave, fit for a file.
pub fn make_safe(name: &str) -> (r: String)
    ensures
        r@ == safe_name(name@),
{
    let v = chars_of(name);
    let mut start: usize = v.len();
    while start > 0 && v[start - 1] != '/' && v[start - 1] != '\\'
        invariant
            start <= v.len(),
            base_start(v@, v.len() as int) == base_start(v@, start as int),
        decreases start,
    {
        start -= 1;
    }
    let ghost target = safe_name(name@);
    let mut out: Vec<char> = Vec::new();
    let mut i: usize = start;
    while i < v.len()
        invariant
            start <= i <= v.len(),
            v@ == name@,
            start == base_start(name@, name@.len() as int),
            target == safe_name(name@),
            out@ == target.take(i - start),
        decreases v.len() - i,
    {
        let c = if v[i].is_control() {
            '_'
        } else {
            v[i]
        };
        assert(target[i - start] == c);
        out.push(c);
        i += 1;
        assert(out@ =~= target.take(i - start));
    }
    assert(target.take(i - start) =~= target);
    text_of(&out)
}

proof fn lemma_base_start(s: Seq<char>, end: int)
    requires
        0 <= end <= s.len(),
    ensures
        0 <= base_start(s, end) <= end,
        forall|i: int| base_start(s, end) <= i < end ==> s[i] != '/' && s[i] != '\\',
    decreases end,
{
    if end > 0 && s[end - 1] != '/' && s[end - 1] != '\\' {
        lemma_base_start(s, end - 1);
    }
}

/// A character that does no harm in the name of a file: no separator and no control
/// code.
pub open spec fn harmless(c: char) -> bool {
    c != '/' && c != '\\' && !control_code(c)
}

/// A name that a sender gave cannot lead out of the directory of the attachments:
/// made safe, it holds no separator, and no control code either.
pub proof fn law_attachment_names_hold_no_separator(name: Seq<char>, i: int)
    requires
        0 <= i < safe_name(name).len(),
    ensures
        harmless(safe_name(name)[i]),
{
    lemma_base_start(name, name.len() as int);
    let start = base_start(name, name.len() as int);
    assert(name.skip(start)[i] == name[start + i]);
}

/// The file of an attachment: the beginning of the digest of its identity, so that
/// equal names do not meet, and its name made safe.
pub open spec fn digested_file(id_digest: Seq<char>, name: Seq<char>) -> Seq<char> {
    text::first_chars(id_digest, 8) + "-"@ + safe_name(name)
}

/// The whole name of the file of an attachment holds no separator and no control
/// code, whatever name the sender gave.
pub proof fn law_attachment_files_are_harmless(id_digest: Seq<char>, name: Seq<char>)
    requires
        forall|i: int| 0 <= i < id_digest.len() ==> digest::lower_hex(#[trigger] id_digest[i]),
    ensures
        forall|i: int|
            0 <= i < digested_file(id_digest, name).len() ==> harmless(
                #[trigger] digested_file(id_digest, name)[i],
            ),
{
    reveal_strlit("-");
    let front = text::first_chars(id_digest, 8) + "-"@;
    let file = digested_file(id_digest, name);
    assert forall|i: int| 0 <= i < file.len() implies harmless(#[trigger] file[i]) by {
        if i < front.len() {
            assert(file[i] == front[i]);
            if i < front.len() - 1 {
                assert(front[i] == id_digest[i]);
            }
        } else {
            assert(file[i] == safe_name(name)[i - front.len()]);
            law_attachment_names_hold_no_separator(name, i - front.len());
        }
    }
}

/// The file of an attachment.
pub open spec fn attachment_file(id: Seq<char>, name: Seq<char>) -> Seq<char> {
    digested_file(digest::sha256_text(encode_utf8(id)), name)
}

/// The file of an attachment, by the digest of its identity and its name.
pub fn attachment_file_name(id_digest: &str, name: &str) -> (r: String)
    ensures
        r@ == digested_file(id_digest@, name@),
{
    take_chars(id_digest, 8).concat("-").concat(make_safe(name).as_str())
}

/// The name of an attachment, its identity where it has none.
pub open spec fn attachment_name(meta: GraphAttachmentView) -> Seq<char> {
    match meta.name {
        Some(n) => n,
        None => meta.id,
    }
}

/// The record of an attachment that is not stored, for this reason.
pub open spec fn listed_attachment(meta: GraphAttachmentView, reason: Seq<char>) -> InboxAttachmentView {
    InboxAttachmentView {
        name: attachment_name(meta),
        content_type: meta.content_type,
        size: meta.size,
        file: None,
        sha256: None,
        skipped: Some(reason),
    }
}

/// The record of an attachment that is stored.
pub open spec fn stored_attachment(meta: GraphAttachmentView, bytes: Seq<u8>) -> InboxAttachmentView {
    InboxAttachmentView {
        name: attachment_name(meta),
        content_type: meta.content_type,
        size: Some(bytes.len() as u64),
        file: Some(attachment_file(meta.id, attachment_name(meta))),
        sha256: Some(digest::sha256_text(bytes)),
        skipped: None,
    }
}

/// Why an attachment is listed without being read, if so: it is no file, or too
/// large.
pub open spec fn not_read(meta: GraphAttachmentView) -> Option<Seq<char>> {
    if meta.odata_type != Some("#microsoft.graph.fileAttachment"@) {
        Some(
            "not a file attachment ("@ + match meta.odata_type {
                Some(t) => t,
                None => "unknown type"@,
            } + ")"@,
        )
    } else if meta.size is Some && meta.size->Some_0 > MAX_ATTACHMENT_BYTES {
        Some("over the 32MB cap"@)
    } else {
        None
    }
}

/// The attachments of one message on their way to becoming records.
pub struct AttachmentSweep {
    message_id: String,
    /// Still to be dealt with, in order.
    pending: Vec<GraphAttachment>,
    records: Vec<InboxAttachment>,
}

#[verifier::ext_equal]
pub struct AttachmentSweepView {
    pub message_id: Seq<char>,
    pub pending: Seq<GraphAttachmentView>,
    pub records: Seq<InboxAttachmentView>,
}

impl View for AttachmentSweep {
    type V = AttachmentSweepView;

    closed spec fn view(&self) -> AttachmentSweepView {
        AttachmentSweepView {
            message_id: self.message_id@,
            pending: self.pending.deep_view(),
            records: self.records.deep_view(),
        }
    }
}

impl AttachmentSweepView {
    /// The next attachment has no record: it is part of the text.
    pub open spec fn ignoring(self) -> AttachmentSweepView {
        AttachmentSweepView { pending: self.pending.drop_first(), ..self }
    }

    /// The next attachment has this record.
    pub open spec fn recording(self, record: InboxAttachmentView) -> AttachmentSweepView {
        AttachmentSweepView {
            pending: self.pending.drop_first(),
            records: self.records.push(record),
            ..self
        }
    }

    /// Attachments dealt with until one has to be read.
    pub open spec fn settled(self) -> AttachmentSweepView
        decreases self.pending.len(),
    {
        if self.pending.len() == 0 {
            self
        } else if self.pending[0].is_inline == Some(true) {
            self.ignoring().settled()
        } else {
            match not_read(self.pending[0]) {
                Some(reason) => self.recording(
                    listed_attachment(self.pending[0], reason),
                ).settled(),
                None => self,
            }
        }
    }

    /// The record of the next attachment, by what reading it brought.
    pub open spec fn record(self, fetched: FetchedView) -> InboxAttachmentView {
        match fetched {
            FetchedView::Body(bytes) => stored_attachment(self.pending[0], bytes),
            FetchedView::Absent => listed_attachment(self.pending[0], "gone at fetch time"@),
            FetchedView::Denied => listed_attachment(self.pending[0], "access denied"@),
        }
    }
}

fn listed(meta: &GraphAttachment, reason: String) -> (r: InboxAttachment)
    ensures
        r.deep_view() == listed_attachment(meta.deep_view(), reason@),
{
    InboxAttachment {
        name: match &meta.name {
            Some(n) => n.clone(),
            None => meta.id.clone(),
        },
        content_type: meta.content_type.clone(),
        size: meta.size,
        file: None,
        sha256: None,
        skipped: Some(reason),
    }
}

impl AttachmentSweep {
    /// Begins with all attachments of a message.
    pub fn begin(message_id: &str, metas: Vec<GraphAttachment>) -> (s: AttachmentSweep)
        ensures
            s@ == (AttachmentSweepView {
                message_id: message_id@,
                pending: metas.deep_view(),
                records: Seq::empty(),
            }),
    {
        let s = AttachmentSweep {
            message_id: message_id.to_string(),
            pending: metas,
            records: Vec::new(),
        };
        assert(s.records.deep_view() =~= Seq::<InboxAttachmentView>::empty());
        s
    }

    /// Deals with attachments until one has to be read, and gives its address.
    pub fn advance(&mut self) -> (r: Option<String>)
        ensures
            final(self)@ == old(self)@.settled(),
            match r {
                Some(u) => final(self)@.pending.len() > 0 && u@ == urls::attachment_address(
                    final(self)@.message_id,
                    final(self)@.pending[0].id,
                ),
                None => final(self)@.pending.len() == 0,
            },
    {
        let ghost start = self@;
        while self.pending.len() > 0
            invariant
                start == old(self)@,
                start.settled() == self@.settled(),
            decreases self.pending.len(),
        {
            let ghost now = self@;
            let ghost p = self.pending.deep_view();
            let ghost records = self.records.deep_view();
            let meta = &self.pending[0];
            assert(meta.deep_view() == now.pending[0]);
            let inline = match meta.is_inline {
                Some(b) => b,
                None => false,
            };
            if inline {
                let _ = self.pending.remove(0);
                assert(self.pending.deep_view() =~= p.drop_first());
                assert(self@ == now.ignoring());
                continue ;
            }
            let large = match meta.size {
                Some(n) => n > MAX_ATTACHMENT_BYTES,
                None => false,
            };
            let reason: Option<String> = if !is_text(
                &meta.odata_type,
                "#microsoft.graph.fileAttachment",
            ) {
                let shown = match &meta.odata_type {
                    Some(t) => t.clone(),
                    None => "unknown type".to_string(),
                };
                Some(
                    "not a file attachment (".to_string().concat(shown.as_str()).concat(")"),
                )
            } else if large {
                Some("over the 32MB cap".to_string())
            } else {
                None
            };
            assert(reason.deep_view() == not_read(now.pending[0]));
            match reason {
                Some(why) => {
                    let record = listed(meta, why);
                    let _ = self.pending.remove(0);
                    self.records.push(record);
                    assert(self.pending.deep_view() =~= p.drop_first());
                    assert(self.records.deep_view() =~= records.push(record.deep_view()));
                    assert(self@ == now.recording(listed_attachment(now.pending[0], why@)));
                },
                None => {
                    return Some(
                        attachment_value_url(self.message_id.as_str(), meta.id.as_str()),
                    );
                },
            }
        }
        None
    }

    /// Takes what reading the next attachment brought. Where there is content, the
    /// file under which it is to be kept is returned: one that lies in the directory
    /// of the attachments itself.
    pub fn received(&mut self, fetched: &Fetched) -> (r: Option<String>)
        requires
            old(self)@.pending.len() > 0,
        ensures
            final(self)@ == old(self)@.recording(old(self)@.record(fetched.deep_view())),
            r.deep_view() == old(self)@.record(fetched.deep_view()).file,
            r matches Some(f) ==> forall|i: int| 0 <= i < f@.len() ==> harmless(#[trigger] f@[i]),
    {
        let ghost now = self@;
        let ghost p = self.pending.deep_view();
        let ghost records = self.records.deep_view();
        let meta = self.pending.remove(0);
        assert(meta.deep_view() == p[0]);
        assert(self.pending.deep_view() =~= p.drop_first());
        let (record, file) = match fetched {
            Fetched::Body(bytes) => {
                let name = match &meta.name {
                    Some(n) => n.clone(),
                    None => meta.id.clone(),
                };
                let id_digest = sha256_hex(meta.id.as_str().as_bytes());
                let file = attachment_file_name(id_digest.as_str(), name.as_str());
                proof {
                    law_attachment_files_are_harmless(id_digest@, name@);
                }
                (
                    InboxAttachment {
                        name,
                        content_type: meta.content_type.clone(),
                        size: Some(bytes.len() as u64),
                        file: Some(file.clone()),
                        sha256: Some(sha256_hex(bytes.as_slice())),
                        skipped: None,
                    },
                    Some(file),
                )
            },
            Fetched::Absent => (listed(&meta, "gone at fetch time".to_string()), None),
            Fetched::Denied => (listed(&meta, "access denied".to_string()), None),
        };
        self.records.push(record);
        assert(self.records.deep_view() =~= records.push(record.deep_view()));
        file
    }

    /// The records of the attachments.
    pub fn finish(self) -> (r: Vec<InboxAttachment>)
        ensures
            r.deep_view() == self@.records,
    {
        self.records
    }
}

/// What a name holds before its last separator, of either kind, does not matter, and
/// what stands behind it stays, character by character, but for control codes.
pub proof fn law_a_safe_name_is_the_last_part(front: Seq<char>, sep: char, base: Seq<char>)
    requires
        sep == '/' || sep == '\\',
        !base.contains('/'),
        !base.contains('\\'),
    ensures
        safe_name(front.push(sep) + base) == safe_name(base),
        safe_name(base).len() == base.len(),
        forall|i: int|
            0 <= i < base.len() ==> #[trigger] safe_name(base)[i] == if (base[i] as u32) < 0x20 || (
            0x7f <= base[i] as u32 && base[i] as u32 <= 0x9f) {
                '_'
            } else {
                base[i]
            },
{
    let whole = front.push(sep) + base;
    lemma_base_start_at(base, base.len() as int, 0);
    lemma_base_start_at(whole, whole.len() as int, front.len() as int + 1);
    assert(base.skip(0) =~= base);
    assert(whole.skip(front.len() as int + 1) =~= base);
}

proof fn lemma_base_start_at(s: Seq<char>, end: int, at: int)
    requires
        0 <= at <= end <= s.len(),
        at > 0 ==> s[at - 1] == '/' || s[at - 1] == '\\',
        forall|i: int| at <= i < end ==> s[i] != '/' && s[i] != '\\',
    ensures
        base_start(s, end) == at,
    decreases end,
{
    if at < end {
        lemma_base_start_at(s, end - 1, at);
    }
}

/// The file of a stored attachment begins with the first eight characters of the digest
/// of its identity and ends with its name made safe, with a `-` between them.
pub proof fn law_an_attachment_file_is_digest_and_name(digest: Seq<char>, name: Seq<char>)
    requires
        digest.len() >= 8,
    ensures
        digested_file(digest, name).take(8) == digest.take(8),
        digested_file(digest, name)[8] == '-',
        digested_file(digest, name).skip(9) == safe_name(name),
{
    reveal_strlit("-");
    assert(digested_file(digest, name).take(8) =~= digest.take(8));
    assert(digested_file(digest, name).skip(9) =~= safe_name(name));
}

/// An attachment is read unless it is no file, or said to be larger than thirty-two
/// mebibytes; one of exactly that size, or of unknown size, is read.
pub proof fn law_which_attachments_are_read(meta: GraphAttachmentView)
    ensures
        not_read(meta) is None <==> meta.odata_type == Some("#microsoft.graph.fileAttachment"@) && (
        meta.size is None || meta.size->Some_0 <= 32 * 1024 * 1024),
        not_read(meta) matches Some(why) && meta.odata_type == Some(
            "#microsoft.graph.fileAttachment"@,
        ) ==> not_read(meta) == Some("over the 32MB cap"@),
        meta.odata_type matches Some(t) ==> t != "#microsoft.graph.fileAttachment"@ ==> not_read(meta)
            == Some("not a file attachment ("@ + t + ")"@),
        meta.odata_type is None ==> not_read(meta) == Some(
            "not a file attachment ("@ + "unknown type"@ + ")"@,
        ),
{
}

/// The next attachment becomes exactly one record: stored with its file and the digest
/// and size of what was read, or listed with the reason and without either; one that is
/// part of the text becomes none, and one that is not to be read waits for nothing.
pub proof fn law_what_becomes_of_an_attachment(v: AttachmentSweepView, fetched: FetchedView)
    requires
        v.pending.len() > 0,
    ensures
        ({
            let meta = v.pending[0];
            let name = match meta.name {
                Some(n) => n,
                None => meta.id,
            };
            let rest = AttachmentSweepView { pending: v.pending.drop_first(), ..v };
            let with = |r: InboxAttachmentView|
                AttachmentSweepView {
                    pending: v.pending.drop_first(),
                    records: v.records.push(r),
                    ..v
                };
            let listed = |why: Seq<char>|
                InboxAttachmentView {
                    name,
                    content_type: meta.content_type,
                    size: meta.size,
                    file: None,
                    sha256: None,
                    skipped: Some(why),
                };
            &&& meta.is_inline == Some(true) ==> v.settled() == rest.settled()
            &&& meta.is_inline != Some(true) ==> match not_read(meta) {
                Some(why) => v.settled() == with(listed(why)).settled(),
                None => v.settled() == v,
            }
            &&& v.recording(v.record(fetched)) == with(
                match fetched {
                    FetchedView::Absent => listed("gone at fetch time"@),
                    FetchedView::Denied => listed("access denied"@),
                    FetchedView::Body(bytes) => InboxAttachmentView {
                        name,
                        content_type: meta.content_type,
                        size: Some(bytes.len() as u64),
                        file: Some(
                            digested_file(digest::sha256_text(encode_utf8(meta.id)), name),
                        ),
                        sha256: Some(digest::sha256_text(bytes)),
                        skipped: None,
                    },
                },
            )
        }),
{
}

/// An attachment is part of the text only where the provider says so: all others are
/// kept in their order.
pub proof fn law_only_inline_attachments_are_left_out(metas: Seq<GraphAttachmentView>)
    ensures
        visible(metas) == metas.filter(|m: GraphAttachmentView| m.is_inline != Some(true)),
    decreases metas.len(),
{
    let shown = |m: GraphAttachmentView| m.is_inline != Some(true);
    if metas.len() > 0 {
        let rest = metas.drop_first();
        law_only_inline_attachments_are_left_out(rest);
        let one = seq![metas[0]];
        assert(metas =~= one + rest);
        Seq::filter_distributes_over_add(one, rest, shown);
        assert(one.drop_last() =~= Seq::empty());
        reveal_with_fuel(Seq::filter, 2);
        assert(visible(metas) =~= metas.filter(shown));
    } else {
        reveal(Seq::filter);
        assert(visible(metas) =~= metas.filter(shown));
    }
}

/// The attachments of a message that are not part of its text, in order.
pub open spec fn visible(metas: Seq<GraphAttachmentView>) -> Seq<GraphAttachmentView>
    decreases metas.len(),
{
    if metas.len() == 0 {
        metas
    } else if metas[0].is_inline == Some(true) {
        visible(metas.drop_first())
    } else {
        seq![metas[0]] + visible(metas.drop_first())
    }
}

/// A sweep over all attachments, with what reading brought of those that had to
/// be read, in order.
pub open spec fn swept(v: AttachmentSweepView, fetched: Seq<FetchedView>) -> AttachmentSweepView
    decreases fetched.len(),
{
    let at = v.settled();
    if at.pending.len() > 0 && fetched.len() > 0 {
        swept(at.recording(at.record(fetched[0])), fetched.drop_first())
    } else {
        at
    }
}

/// The names of some records.
pub open spec fn record_names(records: Seq<InboxAttachmentView>) -> Seq<Seq<char>> {
    records.map_values(|r: InboxAttachmentView| r.name)
}

/// The names of some attachments.
pub open spec fn meta_names(metas: Seq<GraphAttachmentView>) -> Seq<Seq<char>> {
    metas.map_values(|m: GraphAttachmentView| attachment_name(m))
}

proof fn lemma_settled_names(v: AttachmentSweepView)
    ensures
        record_names(v.settled().records) + meta_names(visible(v.settled().pending))
            == record_names(v.records) + meta_names(visible(v.pending)),
        v.settled().pending.len() > 0 ==> v.settled().pending[0].is_inline != Some(true),
    decreases v.pending.len(),
{
    if v.pending.len() > 0 {
        let m = v.pending[0];
        let rest = v.pending.drop_first();
        if m.is_inline == Some(true) {
            lemma_settled_names(v.ignoring());
        } else {
            match not_read(m) {
                Some(reason) => {
                    let next = v.recording(listed_attachment(m, reason));
                    lemma_settled_names(next);
                    assert(record_names(next.records) + meta_names(visible(rest)) =~= record_names(
                        v.records,
                    ) + meta_names(visible(v.pending)));
                },
                None => {},
            }
        }
    }
}

/// Every attachment that is not part of the text has exactly one record, in
/// order: stored, or listed with the reason why not.
pub proof fn law_every_attachment_is_a_fact(v: AttachmentSweepView, fetched: Seq<FetchedView>)
    requires
        swept(v, fetched).pending.len() == 0,
    ensures
        record_names(swept(v, fetched).records) == record_names(v.records) + meta_names(
            visible(v.pending),
        ),
    decreases fetched.len(),
{
    lemma_settled_names(v);
    let at = v.settled();
    if at.pending.len() > 0 && fetched.len() > 0 {
        let next = at.recording(at.record(fetched[0]));
        law_every_attachment_is_a_fact(next, fetched.drop_first());
        assert(record_names(next.records) + meta_names(visible(next.pending)) =~= record_names(
            at.records,
        ) + meta_names(visible(at.pending)));
    } else {
        assert(record_names(at.records) + meta_names(visible(at.pending)) =~= record_names(
            at.records,
        ));
    }
}

// Calendar events.

impl Ranked for GraphEvent {
    /// By their start.
    open spec fn precedes(a: GraphEventView, b: GraphEventView) -> bool {
        text::text_less(a.start, b.start)
    }

    fn is_before(&self, other: &Self) -> (r: bool) {
        less_text(self.start.date_time.as_str(), other.start.date_time.as_str())
    }

    proof fn precedence(a: GraphEventView, b: GraphEventView, c: GraphEventView) {
        text::lemma_text_order(a.start, b.start);
        text::lemma_text_order_transitive(a.start, b.start, c.start);
    }
}

/// The identities of some events.
pub open spec fn event_ids(events: Seq<GraphEventView>) -> Seq<Seq<char>> {
    events.map_values(|e: GraphEventView| e.id)
}

/// The events of a window: one record per event, by their start.
pub open spec fn calendar_of(events: Seq<GraphEventView>) -> Seq<GraphEventView> {
    sorting::sorted::<GraphEvent>(deduped(events, event_ids(events), 0))
}

/// The events of a window: one record per event, by their start.
pub fn events_for(events: Vec<GraphEvent>) -> (r: Vec<GraphEvent>)
    ensures
        r.deep_view() == calendar_of(events.deep_view()),
{
    let ghost all = events@;
    let ghost views = events.deep_view();
    let ghost ids = event_ids(views);
    let key = |e: &GraphEvent| -> (k: Vec<u8>)
        ensures
            k@ == encode_utf8(e.id@),
        { id_key(e.id.as_str()) };
    let unique = dedupe_by(events, key);
    proof {
        let keys = choose|keys: Seq<Vec<u8>>| #[trigger]
            window::keys_of(key, all, keys) && unique@ == window::last_of_each(all, keys, 0);
        assert forall|i: int| 0 <= i < ids.len() implies (#[trigger] keys[i])@ == encode_utf8(
            ids[i],
        ) by {
            assert(key.ensures((&all[i],), keys[i]));
            assert(views[i] == all[i].deep_view());
        }
        lemma_keys_are_ids(all, keys, ids, 0);
        let f = |e: GraphEvent| e.deep_view();
        lemma_deduped_map(all, ids, 0, f);
        assert(all.map_values(f) =~= views);
        assert(unique.deep_view() =~= unique@.map_values(f));
    }
    sort(unique)
}

/// The calendar of a window holds each event once, by its identity and as it came last,
/// and nothing else, in the order of their starts.
pub proof fn law_a_calendar_is_each_event_once_by_start(events: Seq<GraphEventView>)
    ensures
        forall|i: int|
            0 <= i < events.len() && (forall|j: int|
                i < j < events.len() ==> (#[trigger] events[j]).id != events[i].id) ==> calendar_of(
                events,
            ).contains(#[trigger] events[i]),
        forall|k: int|
            0 <= k < calendar_of(events).len() ==> exists|i: int|
                0 <= i < events.len() && (forall|j: int|
                    i < j < events.len() ==> (#[trigger] events[j]).id != events[i].id)
                    && #[trigger] calendar_of(events)[k] == #[trigger] events[i],
        calendar_of(events).len() == deduped(events, event_ids(events), 0).len(),
        forall|a: int, b: int|
            0 <= a < b < calendar_of(events).len() ==> !text::text_less(
                (#[trigger] calendar_of(events)[b]).start,
                (#[trigger] calendar_of(events)[a]).start,
            ),
        forall|a: int, b: int|
            0 <= a < b < calendar_of(events).len() ==> (#[trigger] calendar_of(events)[a]).id != (
            #[trigger] calendar_of(events)[b]).id,
{
    broadcast use vstd::seq_lib::group_to_multiset_ensures;

    let ids = event_ids(events);
    let kept = deduped(events, ids, 0);
    let r = calendar_of(events);
    sorting::lemma_sorted::<GraphEvent>(kept);
    law_the_last_of_each_identity_is_kept(events, ids, 0);
    assert forall|i: int| 0 <= i < events.len() implies (#[trigger] repeated(ids, i) <==> exists|
        j: int,
    | i < j < events.len() && (#[trigger] events[j]).id == events[i].id) by {
        if repeated(ids, i) {
            let j = choose|j: int| i < j < ids.len() && #[trigger] ids[j] == ids[i];
            assert(events[j].id == events[i].id);
        }
        if exists|j: int| i < j < events.len() && (#[trigger] events[j]).id == events[i].id {
            let j = choose|j: int| i < j < events.len() && (#[trigger] events[j]).id == events[i].id;
            assert(ids[j] == ids[i]);
        }
    }
    assert forall|x: GraphEventView| #[trigger] r.contains(x) == kept.contains(x) by {
        assert(r.to_multiset().count(x) == kept.to_multiset().count(x));
    }
    assert forall|i: int|
        0 <= i < events.len() && (forall|j: int|
            i < j < events.len() ==> (#[trigger] events[j]).id != events[i].id) implies r.contains(
        #[trigger] events[i],
    ) by {
        assert(!repeated(ids, i));
        assert(kept.contains(events[i]));
    }
    assert forall|k: int| 0 <= k < r.len() implies exists|i: int|
        0 <= i < events.len() && (forall|j: int|
            i < j < events.len() ==> (#[trigger] events[j]).id != events[i].id) && #[trigger] r[k]
            == #[trigger] events[i] by {
        assert(r.contains(r[k]));
        let n = choose|n: int| 0 <= n < kept.len() && kept[n] == r[k];
        let i = choose|i: int| 0 <= i < events.len() && !repeated(ids, i) && events[i] == kept[n];
        assert(events[i] == kept[n]);
    }
    let id = |e: GraphEventView| e.id;
    lemma_deduped_ids(events, ids, id);
    assert forall|a: int, b: int| 0 <= a < b < r.len() implies (#[trigger] r[a]).id != (
    #[trigger] r[b]).id by {
        if r[a].id == r[b].id {
            let x = r[a].id;
            let with_id = |e: GraphEventView| e.id == x;
            assert forall|i: int, j: int|
                0 <= i < j < kept.len() && with_id(#[trigger] kept[i]) implies !with_id(
                #[trigger] kept[j],
            ) by {
                let names = kept.map_values(id);
                assert(names[i] != names[j]);
            }
            crate::lists::lemma_at_most_one(kept, with_id);
            crate::lists::lemma_same_count(r, kept, with_id);
            crate::lists::lemma_two_kept(r, with_id, a, b);
        }
    }
    assert forall|a: int, b: int| 0 <= a < b < r.len() implies !text::text_less(
        (#[trigger] r[b]).start,
        (#[trigger] r[a]).start,
    ) by {
        assert(!GraphEvent::precedes(r[b], r[a]));
    }
}

/// Whether a calendar entry is a meeting: others are on it, or it is held online.
/// Whether there is a transcript does not matter.
pub open spec fn meeting(e: GraphEventView) -> bool {
    e.attendees.len() > 0 || e.is_online_meeting == Some(true)
}

/// Whether a calendar entry is a meeting.
pub fn is_meeting(e: &GraphEvent) -> (r: bool)
    ensures
        r == meeting(e.deep_view()),
{
    e.attendees.len() > 0 || match e.is_online_meeting {
        Some(b) => b,
        None => false,
    }
}

/// The files found for one event: its transcript and its attendance report.
pub type Artifacts = (Option<String>, Option<String>);

pub type ArtifactsView = (Option<Seq<char>>, Option<Seq<char>>);

/// What was found for each event, put at the place of the event, in whatever
/// order it came in.
pub open spec fn placed(
    found: Seq<(usize, ArtifactsView)>,
    none: Seq<ArtifactsView>,
) -> Seq<ArtifactsView>
    decreases found.len(),
{
    if found.len() == 0 {
        none
    } else {
        placed(found.drop_last(), none).update(found.last().0 as int, found.last().1)
    }
}

/// What was found for each event, put at the place of the event. An event of
/// which nothing came in has no files.
pub fn align_artifacts(events: usize, found: Vec<(usize, Artifacts)>) -> (r: Vec<Artifacts>)
    requires
        forall|i: int| 0 <= i < found.len() ==> (#[trigger] found@[i]).0 < events,
    ensures
        r.deep_view() == placed(
            found.deep_view(),
            Seq::new(events as nat, |i: int| (None::<Seq<char>>, None::<Seq<char>>)),
        ),
        r.len() == events,
{
    let mut r: Vec<Artifacts> = Vec::new();
    while r.len() < events
        invariant
            r.len() <= events,
            forall|i: int| 0 <= i < r.len() ==> #[trigger] r@[i] == (None::<String>, None::<String>),
        decreases events - r.len(),
    {
        r.push((None, None));
    }
    let ghost none = Seq::new(events as nat, |i: int| (None::<Seq<char>>, None::<Seq<char>>));
    let ghost all = found.deep_view();
    assert(r.deep_view() =~= placed(all.take(0), none));
    let mut i: usize = 0;
    while i < found.len()
        invariant
            i <= found.len(),
            r.len() == events,
            all == found.deep_view(),
            forall|k: int| 0 <= k < found.len() ==> (#[trigger] found@[k]).0 < events,
            r.deep_view() == placed(all.take(i as int), none),
        decreases found.len() - i,
    {
        let ghost before = r.deep_view();
        assert(all.take(i + 1).drop_last() =~= all.take(i as int));
        assert(all.take(i + 1).last() == found@[i as int].deep_view());
        let at = found[i].0;
        let files = (found[i].1.0.clone(), found[i].1.1.clone());
        r.set(at, files);
        assert(r.deep_view() =~= before.update(at as int, files.deep_view()));
        i += 1;
    }
    assert(all.take(i as int) =~= all);
    r
}

/// Where each event was dealt with once, each has the files that were found for
/// it, whatever the order.
pub proof fn law_files_go_to_their_event(
    found: Seq<(usize, ArtifactsView)>,
    none: Seq<ArtifactsView>,
    k: int,
)
    requires
        0 <= k < found.len(),
        forall|i: int| 0 <= i < found.len() ==> (#[trigger] found[i]).0 < none.len(),
        forall|i: int, j: int|
            0 <= i < j < found.len() ==> (#[trigger] found[i]).0 != (#[trigger] found[j]).0,
    ensures
        placed(found, none)[found[k].0 as int] == found[k].1,
        placed(found, none).len() == none.len(),
    decreases found.len(),
{
    let rest = found.drop_last();
    assert forall|i: int| 0 <= i < rest.len() implies (#[trigger] rest[i]).0 < none.len() by {
        assert(rest[i] == found[i]);
    }
    assert(found[found.len() - 1] == found.last());
    if k < rest.len() {
        law_files_go_to_their_event(rest, none, k);
        assert(found[k] == rest[k]);
        assert(found[found.len() - 1] == found.last());
    } else {
        lemma_placed_len(rest, none);
    }
}

proof fn lemma_placed_len(found: Seq<(usize, ArtifactsView)>, none: Seq<ArtifactsView>)
    requires
        forall|i: int| 0 <= i < found.len() ==> (#[trigger] found[i]).0 < none.len(),
    ensures
        placed(found, none).len() == none.len(),
    decreases found.len(),
{
    if found.len() > 0 {
        let rest = found.drop_last();
        assert forall|i: int| 0 <= i < rest.len() implies (#[trigger] rest[i]).0 < none.len() by {
            assert(rest[i] == found[i]);
        }
        lemma_placed_len(rest, none);
        assert(found[found.len() - 1] == found.last());
    }
}

/// An event that nothing came in for has the files that it had before, which are none to
/// begin with.
pub proof fn law_other_events_keep_what_they_have(
    found: Seq<(usize, ArtifactsView)>,
    none: Seq<ArtifactsView>,
    i: int,
)
    requires
        0 <= i < none.len(),
        forall|k: int| 0 <= k < found.len() ==> (#[trigger] found[k]).0 < none.len(),
        forall|k: int| 0 <= k < found.len() ==> (#[trigger] found[k]).0 != i,
    ensures
        placed(found, none)[i] == none[i],
    decreases found.len(),
{
    if found.len() > 0 {
        let rest = found.drop_last();
        assert forall|k: int| 0 <= k < rest.len() implies (#[trigger] rest[k]).0 < none.len()
            && rest[k].0 != i by {
            assert(rest[k] == found[k]);
        }
        law_other_events_keep_what_they_have(rest, none, i);
        lemma_placed_len(rest, none);
        assert(found[found.len() - 1] == found.last());
    }
}

/// A file in a directory of the run.
pub open spec fn in_directory(dir: Seq<char>, file: Option<Seq<char>>) -> Option<Seq<char>> {
    match file {
        Some(f) => Some(dir + f),
        None => None,
    }
}

/// An event with its files, as a curator reads it.
pub open spec fn meeting_of(e: GraphEventView, files: ArtifactsView) -> InboxEventView {
    inbox::event_of(
        in_directory("transcripts/"@, files.0),
        in_directory("attendance/"@, files.1),
        e,
    )
}

/// The meetings among some events, each with its files, in order.
pub open spec fn meetings_of(events: Seq<GraphEventView>, files: Seq<ArtifactsView>) -> Seq<
    InboxEventView,
>
    decreases events.len(),
{
    if events.len() == 0 {
        Seq::empty()
    } else {
        let before = meetings_of(events.drop_last(), files);
        if meeting(events.last()) {
            before.push(meeting_of(events.last(), files[events.len() - 1]))
        } else {
            before
        }
    }
}

/// The meetings among some events, each with its files, in order.
pub fn meetings_for(events: Vec<GraphEvent>, files: &Vec<Artifacts>) -> (r: Vec<InboxEvent>)
    requires
        events.len() == files.len(),
    ensures
        r.deep_view() == meetings_of(events.deep_view(), files.deep_view()),
{
    let ghost all = events.deep_view();
    let ghost fv = files.deep_view();
    let mut rest = events;
    let mut r: Vec<InboxEvent> = Vec::new();
    let mut i: usize = 0;
    assert(r.deep_view() =~= meetings_of(all.take(0), fv));
    assert(all.skip(0) =~= all);
    while rest.len() > 0
        invariant
            i + rest.len() == files.len(),
            all.len() == files.len(),
            fv == files.deep_view(),
            rest.deep_view() == all.skip(i as int),
            r.deep_view() == meetings_of(all.take(i as int), fv),
        decreases rest.len(),
    {
        let ghost left = rest.deep_view();
        let ghost before = r.deep_view();
        let e = rest.remove(0);
        assert(e.deep_view() == left[0]);
        assert(rest.deep_view() =~= left.skip(1));
        assert(all.skip(i as int).skip(1) =~= all.skip(i + 1));
        assert(all.take(i + 1).drop_last() =~= all.take(i as int));
        assert(all.take(i + 1).last() == e.deep_view());
        if is_meeting(&e) {
            let t = match &files[i].0 {
                Some(f) => Some("transcripts/".to_string().concat(f.as_str())),
                None => None,
            };
            let a = match &files[i].1 {
                Some(f) => Some("attendance/".to_string().concat(f.as_str())),
                None => None,
            };
            assert(fv[i as int] == files@[i as int].deep_view());
            let m = to_inbox_meeting(t, a, e);
            r.push(m);
            assert(r.deep_view() =~= before.push(m.deep_view()));
        }
        i += 1;
    }
    assert(all.take(i as int) =~= all);
    r
}

/// Every event that has attendees or is held online is a meeting, with a transcript or
/// without, and no other is: the meetings are those events in their order, each with its
/// own files, the transcript below `transcripts/` and the report below `attendance/`.
pub proof fn law_every_meeting_is_kept_with_its_own_files(
    events: Seq<GraphEventView>,
    files: Seq<ArtifactsView>,
    e: GraphEventView,
    own: ArtifactsView,
)
    requires
        events.len() == files.len(),
    ensures
        ({
            let more = meetings_of(events.push(e), files.push(own));
            if e.attendees.len() > 0 || e.is_online_meeting == Some(true) {
                &&& more.len() == meetings_of(events, files).len() + 1
                &&& more.drop_last() == meetings_of(events, files)
                &&& more.last().id == e.id
                &&& more.last().subject == e.subject
                &&& more.last().start == e.start
                &&& more.last().end == e.end
                &&& more.last().attendees == e.attendees
                &&& own.0 matches Some(f) ==> more.last().transcript_file == Some(
                    "transcripts/"@ + f,
                )
                &&& own.0 is None ==> more.last().transcript_file is None
                &&& own.1 matches Some(f) ==> more.last().attendance_file == Some(
                    "attendance/"@ + f,
                )
                &&& own.1 is None ==> more.last().attendance_file is None
            } else {
                more == meetings_of(events, files)
            }
        }),
        meetings_of(Seq::empty(), Seq::empty()) == Seq::<InboxEventView>::empty(),
{
    assert(events.push(e).drop_last() =~= events);
    lemma_meetings_prefix(events, files, files.push(own));
    let more = meetings_of(events.push(e), files.push(own));
    if meeting(e) {
        assert(more.drop_last() =~= meetings_of(events, files));
    }
}

proof fn lemma_meetings_prefix(
    events: Seq<GraphEventView>,
    files: Seq<ArtifactsView>,
    longer: Seq<ArtifactsView>,
)
    requires
        events.len() <= files.len() <= longer.len(),
        forall|i: int| 0 <= i < files.len() ==> files[i] == #[trigger] longer[i],
    ensures
        meetings_of(events, files) == meetings_of(events, longer),
    decreases events.len(),
{
    if events.len() > 0 {
        lemma_meetings_prefix(events.drop_last(), files, longer);
        assert(files[events.len() - 1] == longer[events.len() - 1]);
    }
}

/// The events of a calendar as a curator reads them, without files.
pub open spec fn calendar_records(events: Seq<GraphEventView>) -> Seq<InboxEventView> {
    events.map_values(|e: GraphEventView| inbox::event_of(None, None, e))
}

/// Every event of a calendar is a record, a meeting or not, in their order: each says what
/// its own event says, and has no files.
pub proof fn law_every_event_is_a_record(events: Seq<GraphEventView>, i: int)
    requires
        0 <= i < events.len(),
    ensures
        calendar_records(events).len() == events.len(),
        calendar_records(events)[i].id == events[i].id,
        calendar_records(events)[i].subject == events[i].subject,
        calendar_records(events)[i].start == events[i].start,
        calendar_records(events)[i].end == events[i].end,
        calendar_records(events)[i].organizer == events[i].organizer,
        calendar_records(events)[i].attendees == events[i].attendees,
        calendar_records(events)[i].teams == (events[i].is_online_meeting == Some(true)),
        calendar_records(events)[i].transcript_file is None,
        calendar_records(events)[i].attendance_file is None,
{
}

/// The events of a calendar as a curator reads them, without files.
pub fn calendar_for(events: Vec<GraphEvent>) -> (r: Vec<InboxEvent>)
    ensures
        r.deep_view() == events.deep_view().map_values(
            |e: GraphEventView| inbox::event_of(None, None, e),
        ),
        r.deep_view() == calendar_records(events.deep_view()),
{
    let ghost all = events.deep_view();
    let ghost target = all.map_values(|e: GraphEventView| inbox::event_of(None, None, e));
    let mut rest = events;
    let mut r: Vec<InboxEvent> = Vec::new();
    let ghost mut n: int = 0;
    assert(r.deep_view() =~= target.take(0));
    assert(all.skip(0) =~= all);
    while rest.len() > 0
        invariant
            0 <= n <= all.len(),
            rest.deep_view() == all.skip(n),
            target == all.map_values(|e: GraphEventView| inbox::event_of(None, None, e)),
            r.deep_view() == target.take(n),
        decreases rest.len(),
    {
        let ghost left = rest.deep_view();
        let ghost before = r.deep_view();
        let e = rest.remove(0);
        assert(e.deep_view() == left[0]);
        assert(rest.deep_view() =~= left.skip(1));
        assert(all.skip(n).skip(1) =~= all.skip(n + 1));
        let m = to_inbox_meeting(None, None, e);
        assert(m.deep_view() == target[n]);
        r.push(m);
        assert(r.deep_view() =~= before.push(m.deep_view()));
        proof {
            assert(r.deep_view() =~= target.take(n + 1));
            n = n + 1;
        }
    }
    assert(target.take(n) =~= target);
    r
}

/// The address under which the meeting of an event is joined.
pub fn join_url_of(e: &GraphEvent) -> (r: Option<String>)
    ensures
        r.deep_view() == e.deep_view().join_url(),
{
    match &e.online_meeting {
        Some(m) => m.join_url.clone(),
        None => None,
    }
}

/// The file of the attendance report of an event: named as its transcript is, but
/// for the ending.
pub open spec fn attendance_name(e: GraphEventView) -> Seq<char> {
    transcript::file_stem(e.start, e.subject, e.id) + ".json"@
}

/// The file of the attendance report of an event.
pub fn attendance_file_name(e: &GraphEvent) -> (r: String)
    ensures
        r@ == attendance_name(e.deep_view()),
{
    let stem = match &e.subject {
        Some(s) => event_file_stem(e.start.date_time.as_str(), Some(s.as_str()), e.id.as_str()),
        None => event_file_stem(e.start.date_time.as_str(), None, e.id.as_str()),
    };
    stem.concat(".json")
}

/// Attendance reports of the same day and the same subject are told apart by the
/// ends of the slugs of their events' identities.
pub proof fn law_the_identity_tells_reports_apart(a: GraphEventView, b: GraphEventView)
    requires
        a.start == b.start,
        a.subject == b.subject,
        transcript::last_eight(transcript::whole_slug(a.id)) != transcript::last_eight(
            transcript::whole_slug(b.id),
        ),
    ensures
        attendance_name(a) != attendance_name(b),
{
    transcript::law_the_identity_tells_files_apart(a.start, a.subject, a.id, b.id, ".json"@);
}

/// The file of the transcript of an event.
pub fn event_transcript_name(e: &GraphEvent) -> (r: String)
    ensures
        r@ == transcript::transcript_name(
            e.deep_view().start,
            e.deep_view().subject,
            e.deep_view().id,
        ),
{
    match &e.subject {
        Some(s) => transcript_file_name(
            e.start.date_time.as_str(),
            Some(s.as_str()),
            e.id.as_str(),
        ),
        None => transcript_file_name(e.start.date_time.as_str(), None, e.id.as_str()),
    }
}

// Chats.

impl Ranked for GraphChatMessage {
    /// The oldest first.
    open spec fn precedes(a: GraphChatMessageView, b: GraphChatMessageView) -> bool {
        text::text_less(a.created_date_time, b.created_date_time)
    }

    fn is_before(&self, other: &Self) -> (r: bool) {
        less_text(self.created_date_time.as_str(), other.created_date_time.as_str())
    }

    proof fn precedence(a: GraphChatMessageView, b: GraphChatMessageView, c: GraphChatMessageView) {
        text::lemma_text_order(a.created_date_time, b.created_date_time);
        text::lemma_text_order_transitive(
            a.created_date_time,
            b.created_date_time,
            c.created_date_time,
        );
    }
}

/// One chat being read page by page, the newest messages first.
pub struct ChatCrawl {
    chat_id: String,
    from_t: String,
    to_t: String,
    next: Option<String>,
    pages: u32,
    messages: Vec<GraphChatMessage>,
}

#[verifier::ext_equal]
pub struct ChatCrawlView {
    pub chat_id: Seq<char>,
    pub from_t: Seq<char>,
    pub to_t: Seq<char>,
    /// The page to be read next.
    pub next: Option<Seq<char>>,
    pub pages: nat,
    /// The messages of the window so far, in the order of the pages.
    pub messages: Seq<GraphChatMessage>,
}

impl View for ChatCrawl {
    type V = ChatCrawlView;

    closed spec fn view(&self) -> ChatCrawlView {
        ChatCrawlView {
            chat_id: self.chat_id@,
            from_t: self.from_t@,
            to_t: self.to_t@,
            next: self.next.deep_view(),
            pages: self.pages as nat,
            messages: self.messages@,
        }
    }
}

/// A crawl before its first page.
pub open spec fn crawl_opening(
    chat_id: Seq<char>,
    from_t: Seq<char>,
    to_t: Seq<char>,
) -> ChatCrawlView {
    ChatCrawlView {
        chat_id,
        from_t,
        to_t,
        next: Some(urls::chat_messages_address(chat_id)),
        pages: 0,
        messages: Seq::empty(),
    }
}

/// A crawl begins at the messages of its own chat, with its own window and nothing read. A
/// chat that cannot be read at all has no messages, and one that goes missing behind its
/// first page is no whole and is refused.
pub proof fn law_a_crawl_is_of_its_chat(
    chat_id: Seq<char>,
    from_t: Seq<char>,
    to_t: Seq<char>,
    v: ChatCrawlView,
)
    ensures
        ({
            let c = crawl_opening(chat_id, from_t, to_t);
            &&& c.next == Some(urls::chat_messages_address(chat_id))
            &&& c.chat_id == chat_id && c.from_t == from_t && c.to_t == to_t
            &&& c.messages.len() == 0 && c.pages == 0
        }),
        v.pages > 0 ==> v.without_page() is None,
        v.pages == 0 ==> (v.without_page() matches Some(w) && w.next is None && w.messages
            == v.messages),
{
}

impl ChatCrawlView {
    /// The crawl where the next page cannot be read, nothing where that fails it.
    pub open spec fn without_page(self) -> Option<ChatCrawlView> {
        if self.pages == 0 {
            Some(ChatCrawlView { next: None, ..self })
        } else {
            None
        }
    }

    /// After one more page: what belongs to the window is kept, and a page that
    /// reached the start of the window is the last.
    pub open spec fn after(self, page: Seq<GraphChatMessage>, link: Option<Seq<char>>) -> ChatCrawlView {
        ChatCrawlView {
            next: if chat::reached_start(
                self.from_t,
                page.map_values(|m: GraphChatMessage| m.deep_view()),
            ) {
                None
            } else {
                link
            },
            pages: self.pages + 1,
            messages: self.messages + page.filter(
                |m: GraphChatMessage| chat::in_window(self.from_t, self.to_t, m.deep_view()),
            ),
            ..self
        }
    }

    /// The messages of the window as a curator reads them, the oldest first.
    pub open spec fn result(self) -> Seq<InboxChatMessageView> {
        sorting::sorted::<GraphChatMessage>(
            self.messages.map_values(|m: GraphChatMessage| m.deep_view()),
        ).map_values(|m: GraphChatMessageView| inbox::chat_message_of(m))
    }
}

/// A page of a chat adds exactly its real messages created from the start of the window
/// on and before its end, in their order, behind those before it; the link is followed,
/// on whatever page, unless a message of the page is older than the window.
pub proof fn law_a_page_adds_its_messages_of_the_window(
    v: ChatCrawlView,
    page: Seq<GraphChatMessage>,
    link: Option<Seq<char>>,
)
    ensures
        v.after(page, link).messages == v.messages + page.filter(
            |m: GraphChatMessage|
                {
                    let t = m.created_date_time@;
                    &&& (m.message_type is None || m.message_type->Some_0@ == "message"@)
                    &&& !text::text_less(t, v.from_t)
                    &&& text::text_less(t, v.to_t)
                },
        ),
        v.after(page, link).next == if exists|i: int|
            0 <= i < page.len() && text::text_less(
                (#[trigger] page[i]).created_date_time@,
                v.from_t,
            ) {
            None
        } else {
            link
        },
        v.after(page, link).pages == v.pages + 1,
        v.after(page, link).chat_id == v.chat_id,
        v.after(page, link).from_t == v.from_t,
        v.after(page, link).to_t == v.to_t,
{
    let taken = |m: GraphChatMessage| chat::in_window(v.from_t, v.to_t, m.deep_view());
    let wanted = |m: GraphChatMessage|
        {
            let t = m.created_date_time@;
            &&& (m.message_type is None || m.message_type->Some_0@ == "message"@)
            &&& !text::text_less(t, v.from_t)
            &&& text::text_less(t, v.to_t)
        };
    assert forall|m: GraphChatMessage| #[trigger] taken(m) == wanted(m) by {
        assert(m.deep_view().created_date_time == m.created_date_time@);
    }
    assert(taken =~= wanted);
    let views = page.map_values(|m: GraphChatMessage| m.deep_view());
    if chat::reached_start(v.from_t, views) {
        let i = choose|i: int|
            0 <= i < views.len() && text::text_less(
                (#[trigger] views[i]).created_date_time,
                v.from_t,
            );
        assert(text::text_less(page[i].created_date_time@, v.from_t));
    }
    if exists|i: int|
        0 <= i < page.len() && text::text_less((#[trigger] page[i]).created_date_time@, v.from_t) {
        let i = choose|i: int|
            0 <= i < page.len() && text::text_less(
                (#[trigger] page[i]).created_date_time@,
                v.from_t,
            );
        assert(text::text_less(views[i].created_date_time, v.from_t));
    }
}

/// A crawl after it read some further pages, as long as one is to be read; every page but
/// the last carries a link.
pub open spec fn crawled(
    v: ChatCrawlView,
    pages: Seq<Seq<GraphChatMessage>>,
    link: Seq<char>,
) -> ChatCrawlView
    decreases pages.len(),
{
    if pages.len() == 0 || v.next is None {
        v
    } else {
        crawled(
            v.after(
                pages[0],
                if pages.len() > 1 {
                    Some(link)
                } else {
                    None
                },
            ),
            pages.drop_first(),
            link,
        )
    }
}

proof fn lemma_nothing_later(
    from: Seq<char>,
    to: Seq<char>,
    page: Seq<GraphChatMessage>,
    later: Seq<GraphChatMessage>,
)
    requires
        chat::newest_first(
            (page + later).map_values(|m: GraphChatMessage| m.deep_view()),
        ),
        chat::reached_start(from, page.map_values(|m: GraphChatMessage| m.deep_view())),
    ensures
        chat::windowed(from, to, later) == Seq::<GraphChatMessage>::empty(),
{
    let view = |m: GraphChatMessage| m.deep_view();
    let a = page.map_values(view);
    let b = later.map_values(view);
    assert((page + later).map_values(view) =~= a + b);
    let keep = |m: GraphChatMessage| chat::in_window(from, to, m.deep_view());
    let r = later.filter(keep);
    if r.len() > 0 {
        later.lemma_filter_pred(keep, 0);
        crate::tree::lemma_filter_contained(later, keep, 0);
        let k = choose|k: int| 0 <= k < later.len() && later[k] == r[0];
        chat::law_stopping_loses_no_message(from, to, a, b, k);
        assert(b[k] == r[0].deep_view());
    }
    assert(r =~= Seq::empty());
}

/// A chat whose messages come newest first is read as a whole although reading stops at
/// the start of the window: the messages of a finished crawl are those of the window among
/// all messages of the chat, page after page, those of the pages that were not read too.
pub proof fn law_a_crawl_finds_every_message_of_the_window(
    v: ChatCrawlView,
    pages: Seq<Seq<GraphChatMessage>>,
    link: Seq<char>,
)
    requires
        v.next is Some,
        pages.len() > 0,
        chat::newest_first(pages.flatten().map_values(|m: GraphChatMessage| m.deep_view())),
    ensures
        crawled(v, pages, link).messages == v.messages + chat::windowed(
            v.from_t,
            v.to_t,
            pages.flatten(),
        ),
        crawled(v, pages, link).next is None,
    decreases pages.len(),
{
    let view = |m: GraphChatMessage| m.deep_view();
    let keep = |m: GraphChatMessage| chat::in_window(v.from_t, v.to_t, m.deep_view());
    let page = pages[0];
    let rest = pages.drop_first();
    let later = rest.flatten();
    let all = pages.flatten();
    assert(all == page + later);
    Seq::filter_distributes_over_add(page, later, keep);
    let w = v.after(
        page,
        if pages.len() > 1 {
            Some(link)
        } else {
            None
        },
    );
    if rest.len() == 0 {
        assert(later =~= Seq::empty());
        assert(all =~= page);
        assert(crawled(w, rest, link) == w);
    } else if w.next is None {
        lemma_nothing_later(v.from_t, v.to_t, page, later);
        assert(w.messages =~= v.messages + chat::windowed(v.from_t, v.to_t, all));
        assert(crawled(w, rest, link) == w);
    } else {
        let views = all.map_values(view);
        let tail = later.map_values(view);
        assert(chat::newest_first(tail)) by {
            assert forall|i: int, j: int| 0 <= i < j < tail.len() implies !text::text_less(
                (#[trigger] tail[i]).created_date_time,
                (#[trigger] tail[j]).created_date_time,
            ) by {
                let n = page.len() as int;
                assert(views[n + i] == tail[i] && views[n + j] == tail[j]);
            }
        }
        law_a_crawl_finds_every_message_of_the_window(w, rest, link);
        assert(crawled(v, pages, link).messages =~= v.messages + chat::windowed(
            v.from_t,
            v.to_t,
            all,
        ));
    }
}

/// The records of a crawl are its messages, each once and none else, the oldest first.
pub proof fn law_a_crawl_gives_its_messages_oldest_first(v: ChatCrawlView)
    ensures
        v.result().len() == v.messages.len(),
        forall|i: int|
            0 <= i < v.messages.len() ==> v.result().contains(
                inbox::chat_message_of((#[trigger] v.messages[i]).deep_view()),
            ),
        forall|k: int|
            0 <= k < v.result().len() ==> exists|i: int|
                0 <= i < v.messages.len() && #[trigger] v.result()[k] == inbox::chat_message_of(
                    (#[trigger] v.messages[i]).deep_view(),
                ),
        forall|a: int, b: int|
            0 <= a < b < v.result().len() ==> !text::text_less(
                (#[trigger] v.result()[b]).created_date_time,
                (#[trigger] v.result()[a]).created_date_time,
            ),
{
    broadcast use vstd::seq_lib::group_to_multiset_ensures;

    let views = v.messages.map_values(|m: GraphChatMessage| m.deep_view());
    let ordered = sorting::sorted::<GraphChatMessage>(views);
    sorting::lemma_sorted::<GraphChatMessage>(views);
    let r = v.result();
    assert forall|x: GraphChatMessageView| #[trigger] ordered.contains(x) == views.contains(x) by {
        assert(ordered.to_multiset().count(x) == views.to_multiset().count(x));
    }
    assert forall|i: int| 0 <= i < v.messages.len() implies r.contains(
        inbox::chat_message_of((#[trigger] v.messages[i]).deep_view()),
    ) by {
        assert(views[i] == v.messages[i].deep_view());
        assert(views.contains(views[i]));
        assert(ordered.contains(views[i]));
        let k = choose|k: int| 0 <= k < ordered.len() && ordered[k] == views[i];
        assert(r[k] == inbox::chat_message_of(views[i]));
    }
    assert forall|k: int| 0 <= k < r.len() implies exists|i: int|
        0 <= i < v.messages.len() && #[trigger] r[k] == inbox::chat_message_of(
            (#[trigger] v.messages[i]).deep_view(),
        ) by {
        assert(ordered.contains(ordered[k]));
        let i = choose|i: int| 0 <= i < views.len() && views[i] == ordered[k];
        assert(views[i] == v.messages[i].deep_view());
    }
    assert forall|a: int, b: int| 0 <= a < b < r.len() implies !text::text_less(
        (#[trigger] r[b]).created_date_time,
        (#[trigger] r[a]).created_date_time,
    ) by {
        assert(!GraphChatMessage::precedes(ordered[b], ordered[a]));
    }
}

impl ChatCrawl {
    #[verifier::type_invariant]
    spec fn well_formed(self) -> bool {
        self.pages < MAX_CHAT_PAGES
    }

    /// A chat before its first page.
    pub fn begin(chat_id: &str, from_t: &str, to_t: &str) -> (c: ChatCrawl)
        ensures
            c@ == (ChatCrawlView {
                chat_id: chat_id@,
                from_t: from_t@,
                to_t: to_t@,
                next: Some(urls::chat_messages_address(chat_id@)),
                pages: 0,
                messages: Seq::empty(),
            }),
            c@ == crawl_opening(chat_id@, from_t@, to_t@),
    {
        ChatCrawl {
            chat_id: chat_id.to_string(),
            from_t: from_t.to_string(),
            to_t: to_t.to_string(),
            next: Some(chat_messages_url(chat_id)),
            pages: 0,
            messages: Vec::new(),
        }
    }

    /// The page to be read next.
    pub fn next_url(&self) -> (r: Option<&String>)
        ensures
            match r {
                Some(u) => self@.next == Some(u@),
                None => self@.next is None,
            },
    {
        self.next.as_ref()
    }

    /// Takes a page: its messages, and the link to the page behind it. Five hundred
    /// pages are too many.
    pub fn page(self, msgs: Vec<GraphChatMessage>, link: Option<String>) -> (r: Result<
        ChatCrawl,
        String,
    >)
        ensures
            self@.pages < MAX_CHAT_PAGES,
            match r {
                Ok(c) => self@.pages + 1 < MAX_CHAT_PAGES && c@ == self@.after(
                    msgs@,
                    link.deep_view(),
                ),
                Err(e) => self@.pages + 1 == MAX_CHAT_PAGES && e@ == "chat "@ + self@.chat_id
                    + " paged past 500 pages — aborting (unbounded nextLink?)"@,
            },
    {
        proof {
            use_type_invariant(&self);
        }
        if self.pages + 1 >= MAX_CHAT_PAGES {
            return Err(
                "chat ".to_string().concat(self.chat_id.as_str()).concat(
                    " paged past 500 pages — aborting (unbounded nextLink?)",
                ),
            );
        }
        assert(msgs.deep_view() =~= msgs@.map_values(|m: GraphChatMessage| m.deep_view()));
        let reached = page_reached_window_start(self.from_t.as_str(), msgs.as_slice());
        let mut more = chat_messages_in_window(self.from_t.as_str(), self.to_t.as_str(), msgs);
        let mut messages = self.messages;
        messages.append(&mut more);
        let next = if reached {
            None
        } else {
            link
        };
        Ok(
            ChatCrawl {
                chat_id: self.chat_id,
                from_t: self.from_t,
                to_t: self.to_t,
                next,
                pages: self.pages + 1,
                messages,
            },
        )
    }

    /// A page that cannot be read: a chat whose first page cannot be read has no
    /// messages for us, but one that goes missing behind it leaves the chat
    /// incomplete.
    pub fn missing(self) -> (r: Result<ChatCrawl, String>)
        ensures
            match r {
                Ok(c) => self@.pages == 0 && c@ == (ChatCrawlView { next: None, ..self@ }),
                Err(e) => self@.pages > 0 && e@ == "chat "@ + self@.chat_id
                    + " disappeared mid-pagination (page "@ + text::decimal_text(self@.pages + 1)
                    + ") — incomplete, refusing"@,
            },
            (match r {
                Ok(c) => Some(c@),
                Err(_) => None,
            }) == self@.without_page(),
    {
        proof {
            use_type_invariant(&self);
        }
        if self.pages > 0 {
            return Err(
                "chat ".to_string().concat(self.chat_id.as_str()).concat(
                    " disappeared mid-pagination (page ",
                ).concat(decimal(self.pages as u64 + 1).as_str()).concat(
                    ") — incomplete, refusing",
                ),
            );
        }
        Ok(
            ChatCrawl {
                chat_id: self.chat_id,
                from_t: self.from_t,
                to_t: self.to_t,
                next: None,
                pages: self.pages,
                messages: self.messages,
            },
        )
    }

    /// The messages of the window as a curator reads them, the oldest first.
    pub fn finish(self) -> (r: Vec<InboxChatMessage>)
        ensures
            r.deep_view() == self@.result(),
    {
        assert(self.messages.deep_view() =~= self@.messages.map_values(
            |m: GraphChatMessage| m.deep_view(),
        ));
        let mut rest = sort(self.messages);
        let ghost all = rest.deep_view();
        let ghost target = all.map_values(|m: GraphChatMessageView| inbox::chat_message_of(m));
        let mut r: Vec<InboxChatMessage> = Vec::new();
        let ghost mut n: int = 0;
        assert(r.deep_view() =~= target.take(0));
        assert(all.skip(0) =~= all);
        while rest.len() > 0
            invariant
                0 <= n <= all.len(),
                rest.deep_view() == all.skip(n),
                target == all.map_values(|m: GraphChatMessageView| inbox::chat_message_of(m)),
                r.deep_view() == target.take(n),
            decreases rest.len(),
        {
            let ghost left = rest.deep_view();
            let ghost before = r.deep_view();
            let m = rest.remove(0);
            assert(m.deep_view() == left[0]);
            assert(rest.deep_view() =~= left.skip(1));
            assert(all.skip(n).skip(1) =~= all.skip(n + 1));
            let made = to_inbox_chat_message(m);
            assert(made.deep_view() == target[n]);
            r.push(made);
            assert(r.deep_view() =~= before.push(made.deep_view()));
            proof {
                assert(r.deep_view() =~= target.take(n + 1));
                n = n + 1;
            }
        }
        assert(target.take(n) =~= target);
        r
    }
}

impl Ranked for InboxChat {
    /// By their identity.
    open spec fn precedes(a: InboxChatView, b: InboxChatView) -> bool {
        text::text_less(a.id, b.id)
    }

    fn is_before(&self, other: &Self) -> (r: bool) {
        less_text(self.id.as_str(), other.id.as_str())
    }

    proof fn precedence(a: InboxChatView, b: InboxChatView, c: InboxChatView) {
        text::lemma_text_order(a.id, b.id);
        text::lemma_text_order_transitive(a.id, b.id, c.id);
    }
}

/// The chats that have messages in the window, in the order in which they came in.
pub open spec fn active(found: Seq<(GraphChatView, Seq<InboxChatMessageView>)>) -> Seq<InboxChatView>
    decreases found.len(),
{
    if found.len() == 0 {
        Seq::empty()
    } else {
        let before = active(found.drop_last());
        let (c, messages) = found.last();
        if messages.len() == 0 {
            before
        } else {
            before.push(
                InboxChatView {
                    id: c.id,
                    topic: c.topic,
                    chat_type: c.chat_type,
                    members: c.members,
                    messages,
                },
            )
        }
    }
}

/// Every chat with a message in the window is kept, with what it says of itself and all
/// of those messages, and no chat without one, in the order in which they came in.
pub proof fn law_every_chat_with_messages_is_kept(
    found: Seq<(GraphChatView, Seq<InboxChatMessageView>)>,
)
    ensures
        active(found) == found.filter(
            |f: (GraphChatView, Seq<InboxChatMessageView>)| f.1.len() > 0,
        ).map_values(
            |f: (GraphChatView, Seq<InboxChatMessageView>)|
                InboxChatView {
                    id: f.0.id,
                    topic: f.0.topic,
                    chat_type: f.0.chat_type,
                    members: f.0.members,
                    messages: f.1,
                },
        ),
    decreases found.len(),
{
    reveal(Seq::filter);
    let alive = |f: (GraphChatView, Seq<InboxChatMessageView>)| f.1.len() > 0;
    let made = |f: (GraphChatView, Seq<InboxChatMessageView>)|
        InboxChatView {
            id: f.0.id,
            topic: f.0.topic,
            chat_type: f.0.chat_type,
            members: f.0.members,
            messages: f.1,
        };
    if found.len() > 0 {
        law_every_chat_with_messages_is_kept(found.drop_last());
    }
    assert(active(found) =~= found.filter(alive).map_values(made));
}

/// The chats of a window come by their identities, each as often as it came in.
pub proof fn law_chats_come_by_identity(chats: Seq<InboxChatView>)
    ensures
        sorting::sorted::<InboxChat>(chats).to_multiset() == chats.to_multiset(),
        forall|a: int, b: int|
            0 <= a < b < sorting::sorted::<InboxChat>(chats).len() ==> !text::text_less(
                (#[trigger] sorting::sorted::<InboxChat>(chats)[b]).id,
                (#[trigger] sorting::sorted::<InboxChat>(chats)[a]).id,
            ),
{
    sorting::lemma_sorted::<InboxChat>(chats);
    let r = sorting::sorted::<InboxChat>(chats);
    assert forall|a: int, b: int| 0 <= a < b < r.len() implies !text::text_less(
        (#[trigger] r[b]).id,
        (#[trigger] r[a]).id,
    ) by {
        assert(!InboxChat::precedes(r[b], r[a]));
    }
}

/// The chats that have messages in the window, by their identity.
pub fn chats_for(found: Vec<(GraphChat, Vec<InboxChatMessage>)>) -> (r: Vec<InboxChat>)
    ensures
        r.deep_view() == sorting::sorted::<InboxChat>(active(found.deep_view())),
{
    let ghost all = found.deep_view();
    let mut rest = found;
    let mut list: Vec<InboxChat> = Vec::new();
    let ghost mut n: int = 0;
    assert(list.deep_view() =~= active(all.take(0)));
    assert(all.skip(0) =~= all);
    while rest.len() > 0
        invariant
            0 <= n <= all.len(),
            rest.deep_view() == all.skip(n),
            list.deep_view() == active(all.take(n)),
        decreases rest.len(),
    {
        let ghost left = rest.deep_view();
        let ghost before = list.deep_view();
        let (c, messages) = rest.remove(0);
        assert((c.deep_view(), messages.deep_view()) == left[0]);
        assert(rest.deep_view() =~= left.skip(1));
        assert(all.skip(n).skip(1) =~= all.skip(n + 1));
        assert(all.take(n + 1).drop_last() =~= all.take(n));
        assert(all.take(n + 1).last() == left[0]);
        assert(messages.deep_view().len() == messages.len());
        if messages.len() > 0 {
            let made = to_inbox_chat(c, messages);
            list.push(made);
            assert(list.deep_view() =~= before.push(made.deep_view()));
        }
        proof {
            n = n + 1;
        }
    }
    assert(all.take(n) =~= all);
    sort(list)
}

// Items.

/// The item of one record of a bundle: its content is its canonical JSON.
pub open spec fn record_item_view(
    kind: Seq<char>,
    id: Seq<char>,
    bundle: Seq<char>,
    meta: Seq<char>,
    canonical: Seq<char>,
) -> ItemView {
    ItemView {
        id,
        kind,
        version: None,
        content_hash: digest::sha256_text(encode_utf8(canonical)),
        files: seq![bundle],
        file_hashes: Map::empty(),
        locator: Some(id),
        meta,
    }
}

/// The item of one record of a bundle, found in it by its identity.
pub fn record_item(
    kind: &str,
    id: &str,
    bundle: &str,
    subject: &Option<String>,
    canonical: &str,
) -> (item: Item)
    ensures
        item.deep_view() == record_item_view(
            kind@,
            id@,
            bundle@,
            match subject.deep_view() {
                Some(s) => s,
                None => Seq::empty(),
            },
            canonical@,
        ),
{
    let meta = match subject {
        Some(s) => s.clone(),
        None => {
            let empty = String::new();
            assert(empty@ =~= Seq::<char>::empty());
            empty
        },
    };
    Item {
        id: id.to_string(),
        kind: kind.to_string(),
        version: None,
        content_hash: sha256_hex(canonical.as_bytes()),
        files: one_text(bundle),
        file_hashes: TextMap::new(),
        locator: Some(id.to_string()),
        meta,
    }
}

/// What an item says of a record: its subject, nothing where it has none.
pub open spec fn subject_text(subject: Option<Seq<char>>) -> Seq<char> {
    match subject {
        Some(s) => s,
        None => Seq::empty(),
    }
}

/// The item of a mail message.
pub open spec fn email_item_view(e: InboxEmailView, canonical: Seq<char>) -> ItemView {
    record_item_view("email"@, e.id, "emails.json"@, subject_text(e.subject), canonical)
}

/// The item of a calendar event.
pub open spec fn event_item_view(e: InboxEventView, canonical: Seq<char>) -> ItemView {
    record_item_view("event"@, e.id, "events.json"@, subject_text(e.subject), canonical)
}

/// The item of a meeting.
pub open spec fn meeting_item_view(m: InboxEventView, canonical: Seq<char>) -> ItemView {
    record_item_view("meeting"@, m.id, "meetings.json"@, subject_text(m.subject), canonical)
}

/// The item of a message of a chat, by the topic of the chat.
pub open spec fn chat_message_item_view(
    topic: Option<Seq<char>>,
    m: InboxChatMessageView,
    canonical: Seq<char>,
) -> ItemView {
    record_item_view(
        "chat-message"@,
        m.id,
        "chats.json"@,
        match topic {
            Some(t) => t,
            None => "chat"@,
        },
        canonical,
    )
}

/// The items of the four windowed sources: each is of the kind of its source and stands in
/// the bundle of its source, under the identity of its own record, with the digest of the
/// record; what it says is the subject of the record, of a chat message the topic of the
/// chat.
pub proof fn law_items_are_of_their_source(
    e: InboxEmailView,
    v: InboxEventView,
    m: InboxChatMessageView,
    topic: Option<Seq<char>>,
    canonical: Seq<char>,
)
    ensures
        ({
            let hash = digest::sha256_text(encode_utf8(canonical));
            let mail = email_item_view(e, canonical);
            let event = event_item_view(v, canonical);
            let meeting = meeting_item_view(v, canonical);
            let message = chat_message_item_view(topic, m, canonical);
            &&& mail.kind == "email"@ && mail.files == seq!["emails.json"@] && mail.id == e.id
            &&& event.kind == "event"@ && event.files == seq!["events.json"@] && event.id == v.id
            &&& meeting.kind == "meeting"@ && meeting.files == seq!["meetings.json"@]
                && meeting.id == v.id
            &&& message.kind == "chat-message"@ && message.files == seq!["chats.json"@]
                && message.id == m.id
            &&& mail.content_hash == hash && event.content_hash == hash && meeting.content_hash
                == hash && message.content_hash == hash
            &&& mail.locator == Some(e.id) && event.locator == Some(v.id) && meeting.locator
                == Some(v.id) && message.locator == Some(m.id)
            &&& e.subject matches Some(s) ==> mail.meta == s
            &&& e.subject is None ==> mail.meta.len() == 0
            &&& v.subject matches Some(s) ==> event.meta == s && meeting.meta == s
            &&& v.subject is None ==> event.meta.len() == 0 && meeting.meta.len() == 0
            &&& topic matches Some(t) ==> message.meta == t
            &&& topic is None ==> message.meta == "chat"@
        }),
{
}

/// The item of a mail message.
pub fn email_item(e: &InboxEmail, canonical: &str) -> (item: Item)
    ensures
        item.deep_view() == record_item_view(
            "email"@,
            e.id@,
            "emails.json"@,
            match e.subject.deep_view() {
                Some(s) => s,
                None => Seq::empty(),
            },
            canonical@,
        ),
        item.deep_view() == email_item_view(e.deep_view(), canonical@),
{
    record_item("email", e.id.as_str(), "emails.json", &e.subject, canonical)
}

/// The item of a calendar event.
pub fn event_item(e: &InboxEvent, canonical: &str) -> (item: Item)
    ensures
        item.deep_view() == record_item_view(
            "event"@,
            e.id@,
            "events.json"@,
            match e.subject.deep_view() {
                Some(s) => s,
                None => Seq::empty(),
            },
            canonical@,
        ),
        item.deep_view() == event_item_view(e.deep_view(), canonical@),
{
    record_item("event", e.id.as_str(), "events.json", &e.subject, canonical)
}

/// The item of a meeting.
pub fn meeting_item(m: &InboxEvent, canonical: &str) -> (item: Item)
    ensures
        item.deep_view() == record_item_view(
            "meeting"@,
            m.id@,
            "meetings.json"@,
            match m.subject.deep_view() {
                Some(s) => s,
                None => Seq::empty(),
            },
            canonical@,
        ),
        item.deep_view() == meeting_item_view(m.deep_view(), canonical@),
{
    record_item("meeting", m.id.as_str(), "meetings.json", &m.subject, canonical)
}

/// The item of a message of a chat: the chat is the container, the message is what
/// is curated and cited.
pub fn chat_message_item(chat: &InboxChat, m: &InboxChatMessage, canonical: &str) -> (item: Item)
    ensures
        item.deep_view() == record_item_view(
            "chat-message"@,
            m.id@,
            "chats.json"@,
            match chat.topic.deep_view() {
                Some(t) => t,
                None => "chat"@,
            },
            canonical@,
        ),
        item.deep_view() == chat_message_item_view(
            chat.topic.deep_view(),
            m.deep_view(),
            canonical@,
        ),
{
    let topic = match &chat.topic {
        Some(t) => Some(t.clone()),
        None => Some("chat".to_string()),
    };
    record_item("chat-message", m.id.as_str(), "chats.json", &topic, canonical)
}

/// The further files of a mail message: its stored attachments, in order.
pub open spec fn email_files_of(attachments: Seq<InboxAttachmentView>) -> Seq<Seq<char>>
    decreases attachments.len(),
{
    if attachments.len() == 0 {
        Seq::empty()
    } else {
        match attachments.last().file {
            Some(f) => email_files_of(attachments.drop_last()).push("attachments/"@ + f),
            None => email_files_of(attachments.drop_last()),
        }
    }
}

/// The further files of a mail message: its stored attachments, in order.
pub fn email_files(e: &InboxEmail) -> (r: Vec<String>)
    ensures
        r.deep_view() == email_files_of(e.deep_view().attachments),
{
    let ghost all = e.attachments.deep_view();
    let mut r: Vec<String> = Vec::new();
    let mut i: usize = 0;
    assert(r.deep_view() =~= email_files_of(all.take(0)));
    while i < e.attachments.len()
        invariant
            i <= e.attachments.len(),
            all == e.attachments.deep_view(),
            r.deep_view() == email_files_of(all.take(i as int)),
        decreases e.attachments.len() - i,
    {
        let ghost before = r.deep_view();
        assert(all.take(i + 1).drop_last() =~= all.take(i as int));
        assert(all.take(i + 1).last() == e.attachments@[i as int].deep_view());
        if let Some(f) = &e.attachments[i].file {
            let path = "attachments/".to_string().concat(f.as_str());
            r.push(path);
            assert(r.deep_view() =~= before.push(path@));
        }
        i += 1;
    }
    assert(all.take(i as int) =~= all);
    r
}

/// The further files of a message are the files of its stored attachments below
/// `attachments/`, all of them and in their order.
pub proof fn law_every_stored_attachment_is_a_file(attachments: Seq<InboxAttachmentView>)
    ensures
        email_files_of(attachments) == attachments.filter(
            |a: InboxAttachmentView| a.file is Some,
        ).map_values(|a: InboxAttachmentView| "attachments/"@ + a.file->Some_0),
    decreases attachments.len(),
{
    reveal(Seq::filter);
    let stored = |a: InboxAttachmentView| a.file is Some;
    let path = |a: InboxAttachmentView| "attachments/"@ + a.file->Some_0;
    if attachments.len() > 0 {
        law_every_stored_attachment_is_a_file(attachments.drop_last());
    }
    assert(email_files_of(attachments) =~= attachments.filter(stored).map_values(path));
}

/// The item of a record is found in its bundle by its identity and holds the digest of
/// its canonical text; it has no version and no further file.
pub proof fn law_a_record_is_one_item(
    kind: Seq<char>,
    id: Seq<char>,
    bundle: Seq<char>,
    meta: Seq<char>,
    canonical: Seq<char>,
)
    ensures
        ({
            let item = record_item_view(kind, id, bundle, meta, canonical);
            &&& item.id == id
            &&& item.locator == Some(id)
            &&& item.kind == kind
            &&& item.content_hash == digest::sha256_text(encode_utf8(canonical))
            &&& item.files.len() == 1 && item.files[0] == bundle
            &&& item.file_hashes.dom().len() == 0 && item.file_hashes.dom().finite()
            &&& item.version is None
            &&& item.meta == meta
        }),
{
}

/// A further file stands behind those before it and leaves everything else as it was,
/// the digests of the other files too.
pub proof fn law_a_further_file_changes_nothing_else(
    item: ItemView,
    rel: Seq<char>,
    bytes: Seq<u8>,
    other: Seq<char>,
)
    ensures
        ({
            let more = with_secondary(item, rel, bytes);
            &&& more.files.len() == item.files.len() + 1
            &&& more.files.last() == rel
            &&& forall|i: int|
                0 <= i < item.files.len() ==> #[trigger] more.files[i] == item.files[i]
            &&& more.file_hashes.contains_pair(rel, digest::sha256_text(bytes))
            &&& other != rel ==> (more.file_hashes.contains_key(other)
                <==> item.file_hashes.contains_key(other)) && more.file_hashes[other]
                == item.file_hashes[other]
            &&& more.id == item.id && more.kind == item.kind && more.version == item.version
            &&& more.locator == item.locator && more.meta == item.meta
        }),
{
}

/// The further files of a meeting: its transcript, and its attendance report.
pub open spec fn meeting_files_of(m: InboxEventView) -> Seq<Seq<char>> {
    match (m.transcript_file, m.attendance_file) {
        (Some(t), Some(a)) => seq![t, a],
        (Some(t), None) => seq![t],
        (None, Some(a)) => seq![a],
        (None, None) => Seq::empty(),
    }
}

/// The further files of a meeting are those that it has, the transcript first, and each
/// counts without the other.
pub proof fn law_a_meeting_has_both_its_files(m: InboxEventView)
    ensures
        meeting_files_of(m).len() == (if m.transcript_file is Some {
            1int
        } else {
            0int
        }) + (if m.attendance_file is Some {
            1int
        } else {
            0int
        }),
        m.transcript_file matches Some(t) ==> meeting_files_of(m)[0] == t,
        m.attendance_file matches Some(a) ==> meeting_files_of(m).last() == a,
{
}

/// The further files of a meeting: its transcript, and its attendance report.
pub fn meeting_files(m: &InboxEvent) -> (r: Vec<String>)
    ensures
        r.deep_view() == (match (m.transcript_file.deep_view(), m.attendance_file.deep_view()) {
            (Some(t), Some(a)) => seq![t, a],
            (Some(t), None) => seq![t],
            (None, Some(a)) => seq![a],
            (None, None) => Seq::empty(),
        }),
        r.deep_view() == meeting_files_of(m.deep_view()),
{
    let mut r: Vec<String> = Vec::new();
    if let Some(t) = &m.transcript_file {
        r.push(t.clone());
    }
    if let Some(a) = &m.attendance_file {
        r.push(a.clone());
    }
    assert(r.deep_view() =~= (match (m.transcript_file.deep_view(), m.attendance_file.deep_view()) {
        (Some(t), Some(a)) => seq![t, a],
        (Some(t), None) => seq![t],
        (None, Some(a)) => seq![a],
        (None, None) => Seq::empty(),
    }));
    r
}

/// An item with one more file, and the digest of its bytes.
pub open spec fn with_secondary(item: ItemView, rel: Seq<char>, bytes: Seq<u8>) -> ItemView {
    ItemView {
        files: item.files.push(rel),
        file_hashes: item.file_hashes.insert(rel, digest::sha256_text(bytes)),
        ..item
    }
}

/// Adds a further file to an item, with the digest of its bytes.
pub fn push_secondary(item: &mut Item, rel: &str, bytes: &[u8])
    ensures
        final(item).deep_view() == with_secondary(old(item).deep_view(), rel@, bytes@),
{
    let ghost before = item.files.deep_view();
    item.file_hashes.insert(rel.to_string(), sha256_hex(bytes));
    let path = rel.to_string();
    item.files.push(path);
    assert(item.files.deep_view() =~= before.push(rel@));
}

/// Whether every further file of an item has a digest.
pub open spec fn all_digested(item: ItemView) -> bool {
    forall|i: int| 1 <= i < item.files.len() ==> item.file_hashes.contains_key(#[trigger] item.files[i])
}

/// Every further file of an item has a digest: the item of a record has none, and
/// adding a file with the digest of its bytes keeps it so.
pub proof fn law_every_secondary_file_is_digested(
    kind: Seq<char>,
    id: Seq<char>,
    bundle: Seq<char>,
    meta: Seq<char>,
    canonical: Seq<char>,
    item: ItemView,
    rel: Seq<char>,
    bytes: Seq<u8>,
)
    ensures
        all_digested(record_item_view(kind, id, bundle, meta, canonical)),
        all_digested(item) ==> all_digested(with_secondary(item, rel, bytes)),
        with_secondary(item, rel, bytes).file_hashes[rel] == digest::sha256_text(bytes),
        item.files.len() > 0 ==> with_secondary(item, rel, bytes).files[0] == item.files[0],
        with_secondary(item, rel, bytes).content_hash == item.content_hash,
{
    let made = with_secondary(item, rel, bytes);
    if all_digested(item) {
        assert forall|i: int| 1 <= i < made.files.len() implies made.file_hashes.contains_key(
            #[trigger] made.files[i],
        ) by {
            if i < item.files.len() {
                assert(made.files[i] == item.files[i]);
            }
        }
    }
}

/// What is stated of a flagged message is stated of its own record and flag.
pub proof fn law_a_flagged_email_is_its_fields(f: FlaggedEmail)
    ensures
        f.deep_view().email == f.email.deep_view(),
        f.deep_view().has_attachments == f.has_attachments,
{
}

/// The transcript and the attendance report of an event are called the same but for their
/// endings.
pub proof fn law_both_files_of_an_event_share_a_name(e: GraphEventView)
    ensures
        attendance_name(e) == transcript::file_stem(e.start, e.subject, e.id) + ".json"@,
        transcript::transcript_name(e.start, e.subject, e.id) == transcript::file_stem(
            e.start,
            e.subject,
            e.id,
        ) + ".vtt"@,
{
}

} // verus!
